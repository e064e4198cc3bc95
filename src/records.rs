use vstd::prelude::*;

verus! {

/// The URL slug of a name.
pub uninterp spec fn slug_of(name: Seq<char>) -> Seq<char>;

/// Relies on `slug::slugify`: the name transliterated to ASCII, lower-cased,
/// with every run of other characters turned into one `-`. The result
/// depends on the name alone.
#[verifier::external_body]
fn slugify_name(name: &str) -> (r: String)
    ensures
        r@ == slug_of(name@),
{
    slug::slugify(name)
}

/// A new field definition as it is stored.
#[derive(Debug)]
pub struct CreateField {
    pub name: String,
    pub slug: String,
    pub parent_id: u128,
    pub content_component_id: u128,
}

impl CreateField {
    /// The record for a new field of a content type, its slug taken from its name.
    pub fn new(name: &str, parent_id: u128, content_component_id: u128) -> (r: CreateField)
        ensures
            r.name@ == name@,
            r.slug@ == slug_of(name@),
            r.parent_id == parent_id,
            r.content_component_id == content_component_id,
    {
        CreateField {
            name: name.to_owned(),
            slug: slugify_name(name),
            parent_id,
            content_component_id,
        }
    }
}

/// A change to a field definition.
#[derive(Debug)]
pub struct UpdateField {
    pub name: Option<String>,
}

/// A new role as it is stored.
#[derive(Debug)]
pub struct CreateRole {
    pub name: String,
    pub slug: String,
    pub site_id: Option<u128>,
}

impl CreateRole {
    /// The record for a new role, its slug taken from its name.
    pub fn new(name: &str, site_id: Option<u128>) -> (r: CreateRole)
        ensures
            r.name@ == name@,
            r.slug@ == slug_of(name@),
            r.site_id == site_id,
    {
        CreateRole { name: name.to_owned(), slug: slugify_name(name), site_id }
    }
}

/// A change to a role.
#[derive(Debug)]
pub struct UpdateRole {
    pub name: Option<String>,
}

/// A new site as it is stored.
#[derive(Debug)]
pub struct CreateSite {
    pub name: String,
    pub slug: String,
}

impl CreateSite {
    /// The record for a new site, its slug taken from its name.
    pub fn new(name: &str) -> (r: CreateSite)
        ensures
            r.name@ == name@,
            r.slug@ == slug_of(name@),
    {
        CreateSite { name: name.to_owned(), slug: slugify_name(name) }
    }
}

/// A change to a site.
#[derive(Debug)]
pub struct UpdateSite {
    pub name: Option<String>,
}

} // verus!
