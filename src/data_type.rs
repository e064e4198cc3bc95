use vstd::prelude::*;

use crate::text::str_equal;

verus! {

/// The closed set of value shapes a field row can carry.
#[allow(non_camel_case_types)]
#[derive(Clone, Copy, Debug, PartialEq, Eq, Structural)]
pub enum DataTypeEnum {
    TEXT,
    ARRAY,
    OBJECT,
    NUMBER,
    BOOLEAN,
    REFERENCE,
    BLOCK,
}

/// A stored type tag that names none of the known data types.
#[derive(Clone, Copy, Debug, PartialEq, Eq, Structural)]
pub enum DataTypeError {
    UnrecognizedVariant,
}

impl DataTypeEnum {
    /// The name under which the data type is stored.
    pub open spec fn sql_name(self) -> Seq<char> {
        match self {
            DataTypeEnum::TEXT => "TEXT"@,
            DataTypeEnum::ARRAY => "ARRAY"@,
            DataTypeEnum::OBJECT => "OBJECT"@,
            DataTypeEnum::NUMBER => "NUMBER"@,
            DataTypeEnum::BOOLEAN => "BOOLEAN"@,
            DataTypeEnum::REFERENCE => "REFERENCE"@,
            DataTypeEnum::BLOCK => "BLOCK"@,
        }
    }

    /// The stored form of the data type.
    pub fn to_sql(&self) -> (r: &'static str)
        ensures
            r@ == self.sql_name(),
    {
        match *self {
            DataTypeEnum::TEXT => "TEXT",
            DataTypeEnum::ARRAY => "ARRAY",
            DataTypeEnum::OBJECT => "OBJECT",
            DataTypeEnum::NUMBER => "NUMBER",
            DataTypeEnum::BOOLEAN => "BOOLEAN",
            DataTypeEnum::REFERENCE => "REFERENCE",
            DataTypeEnum::BLOCK => "BLOCK",
        }
    }

    /// The data type stored under `name`, if any.
    pub open spec fn named(name: Seq<char>) -> Option<DataTypeEnum> {
        if name == "TEXT"@ {
            Some(DataTypeEnum::TEXT)
        } else if name == "ARRAY"@ {
            Some(DataTypeEnum::ARRAY)
        } else if name == "OBJECT"@ {
            Some(DataTypeEnum::OBJECT)
        } else if name == "NUMBER"@ {
            Some(DataTypeEnum::NUMBER)
        } else if name == "BOOLEAN"@ {
            Some(DataTypeEnum::BOOLEAN)
        } else if name == "REFERENCE"@ {
            Some(DataTypeEnum::REFERENCE)
        } else if name == "BLOCK"@ {
            Some(DataTypeEnum::BLOCK)
        } else {
            None
        }
    }

    /// Reads a stored data type; any name outside the closed set is an error.
    pub fn from_sql(s: &str) -> (r: Result<DataTypeEnum, DataTypeError>)
        ensures
            r == match DataTypeEnum::named(s@) {
                Some(t) => Ok(t),
                None => Err(DataTypeError::UnrecognizedVariant),
            },
    {
        if str_equal(s, "TEXT") {
            Ok(DataTypeEnum::TEXT)
        } else if str_equal(s, "ARRAY") {
            Ok(DataTypeEnum::ARRAY)
        } else if str_equal(s, "OBJECT") {
            Ok(DataTypeEnum::OBJECT)
        } else if str_equal(s, "NUMBER") {
            Ok(DataTypeEnum::NUMBER)
        } else if str_equal(s, "BOOLEAN") {
            Ok(DataTypeEnum::BOOLEAN)
        } else if str_equal(s, "REFERENCE") {
            Ok(DataTypeEnum::REFERENCE)
        } else if str_equal(s, "BLOCK") {
            Ok(DataTypeEnum::BLOCK)
        } else {
            Err(DataTypeError::UnrecognizedVariant)
        }
    }
}

/// Reading back the stored name of a data type gives that data type.
pub proof fn lemma_sql_name_round_trip(t: DataTypeEnum)
    ensures
        DataTypeEnum::named(t.sql_name()) == Some(t),
{
    reveal_strlit("TEXT");
    reveal_strlit("ARRAY");
    reveal_strlit("OBJECT");
    reveal_strlit("NUMBER");
    reveal_strlit("BOOLEAN");
    reveal_strlit("REFERENCE");
    reveal_strlit("BLOCK");
    assert("TEXT"@.len() == 4 && "BLOCK"@.len() == 5 && "ARRAY"@.len() == 5);
    assert("OBJECT"@.len() == 6 && "NUMBER"@.len() == 6 && "BOOLEAN"@.len() == 7);
    assert("REFERENCE"@.len() == 9);
    assert("ARRAY"@[0] != "BLOCK"@[0]);
    assert("OBJECT"@[0] != "NUMBER"@[0]);
}

} // verus!
