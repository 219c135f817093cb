//! The flat, closed list of named primitive column-type tags.

use vstd::prelude::*;

verus! {

/// The closed set of primitive column-type tags used for schema description.
/// The list has no behaviour beyond enumerating and naming its members.
#[allow(non_camel_case_types)]
#[derive(Debug, Clone, Copy, PartialEq, Eq, Structural)]
pub enum Types {
    BOOLEAN,
    DECIMAL,
    FLOAT,
    INTEGER,
    LONG,
    DATE,
    TIME,
    TIMESTAMP,
    VARCHAR,
    CLOB,
    VARBINARY,
    BLOB,
    JSON,
}

impl Types {
    /// The tag's name, as text.
    pub open spec fn spec_name(self) -> Seq<char> {
        match self {
            Types::BOOLEAN => "BOOLEAN"@,
            Types::DECIMAL => "DECIMAL"@,
            Types::FLOAT => "FLOAT"@,
            Types::INTEGER => "INTEGER"@,
            Types::LONG => "LONG"@,
            Types::DATE => "DATE"@,
            Types::TIME => "TIME"@,
            Types::TIMESTAMP => "TIMESTAMP"@,
            Types::VARCHAR => "VARCHAR"@,
            Types::CLOB => "CLOB"@,
            Types::VARBINARY => "VARBINARY"@,
            Types::BLOB => "BLOB"@,
            Types::JSON => "JSON"@,
        }
    }

    /// Returns the tag's name.
    pub fn name(&self) -> (r: &'static str)
        ensures
            r@ == self.spec_name(),
    {
        match self {
            Types::BOOLEAN => "BOOLEAN",
            Types::DECIMAL => "DECIMAL",
            Types::FLOAT => "FLOAT",
            Types::INTEGER => "INTEGER",
            Types::LONG => "LONG",
            Types::DATE => "DATE",
            Types::TIME => "TIME",
            Types::TIMESTAMP => "TIMESTAMP",
            Types::VARCHAR => "VARCHAR",
            Types::CLOB => "CLOB",
            Types::VARBINARY => "VARBINARY",
            Types::BLOB => "BLOB",
            Types::JSON => "JSON",
        }
    }

    /// Returns every tag, once, in declaration order.
    pub fn all() -> (r: Vec<Types>)
        ensures
            r@ =~= seq![
                Types::BOOLEAN, Types::DECIMAL, Types::FLOAT, Types::INTEGER,
                Types::LONG, Types::DATE, Types::TIME, Types::TIMESTAMP,
                Types::VARCHAR, Types::CLOB, Types::VARBINARY, Types::BLOB,
                Types::JSON,
            ],
    {
        let mut v: Vec<Types> = Vec::new();
        v.push(Types::BOOLEAN);
        v.push(Types::DECIMAL);
        v.push(Types::FLOAT);
        v.push(Types::INTEGER);
        v.push(Types::LONG);
        v.push(Types::DATE);
        v.push(Types::TIME);
        v.push(Types::TIMESTAMP);
        v.push(Types::VARCHAR);
        v.push(Types::CLOB);
        v.push(Types::VARBINARY);
        v.push(Types::BLOB);
        v.push(Types::JSON);
        v
    }
}

} // verus!
