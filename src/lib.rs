//! Content field materialization: turning the flat, typed field rows of a
//! content entity into the nested document that clients read.

pub mod data_type;
pub mod json;
pub mod text;
pub mod ids;
pub mod ordering;
pub mod mapping;
pub mod materialize;
pub mod laws;
pub mod permission;
pub mod pagination;
pub mod auth;
pub mod schema;
pub mod records;
pub mod totality;
