use vstd::prelude::*;
use vstd::string::*;
use crate::value::{str_eq, utf8_len};

verus! {

/// Position of a row within one query result's enumeration.
#[derive(Debug, Clone, Copy, PartialEq, Eq, Structural, PartialOrd, Ord, Hash)]
pub struct RowId(pub i64);

/// Position in one subscriber's change log; never to be mixed with a `RowId`.
#[derive(Debug, Clone, Copy, PartialEq, Eq, Structural, PartialOrd, Ord, Hash, Default)]
pub struct ChangeId(pub i64);

impl From<i64> for RowId {
    fn from(value: i64) -> RowId {
        RowId(value)
    }
}

impl vstd::std_specs::convert::FromSpecImpl<i64> for RowId {
    open spec fn obeys_from_spec() -> bool {
        true
    }

    open spec fn from_spec(v: i64) -> RowId {
        RowId(v)
    }
}

impl From<i64> for ChangeId {
    fn from(value: i64) -> ChangeId {
        ChangeId(value)
    }
}

impl vstd::std_specs::convert::FromSpecImpl<i64> for ChangeId {
    open spec fn obeys_from_spec() -> bool {
        true
    }

    open spec fn from_spec(v: i64) -> ChangeId {
        ChangeId(v)
    }
}

/// Name of a table, case preserved.
#[derive(Debug, Clone, Default, Eq, PartialOrd, Ord, Hash)]
pub struct TableName(pub String);

/// Name of a column, case preserved.
#[derive(Debug, Clone, Default, Eq, PartialOrd, Ord, Hash)]
pub struct ColumnName(pub String);

impl View for TableName {
    type V = Seq<char>;

    open spec fn view(&self) -> Seq<char> {
        self.0@
    }
}

impl View for ColumnName {
    type V = Seq<char>;

    open spec fn view(&self) -> Seq<char> {
        self.0@
    }
}

impl PartialEq for TableName {
    fn eq(&self, other: &TableName) -> (r: bool) {
        str_eq(self.0.as_str(), other.0.as_str())
    }
}

impl vstd::std_specs::cmp::PartialEqSpecImpl for TableName {
    open spec fn obeys_eq_spec() -> bool {
        true
    }

    open spec fn eq_spec(&self, other: &TableName) -> bool {
        self@ == other@
    }
}

impl PartialEq for ColumnName {
    fn eq(&self, other: &ColumnName) -> (r: bool) {
        str_eq(self.0.as_str(), other.0.as_str())
    }
}

impl vstd::std_specs::cmp::PartialEqSpecImpl for ColumnName {
    open spec fn obeys_eq_spec() -> bool {
        true
    }

    open spec fn eq_spec(&self, other: &ColumnName) -> bool {
        self@ == other@
    }
}

impl TableName {
    /// A table name holding a copy of `s`.
    pub fn new(s: &str) -> (r: TableName)
        ensures
            r@ == s@,
    {
        TableName(String::from_str(s))
    }

    /// The name as text.
    pub fn as_str(&self) -> (r: &str)
        ensures
            r@ == self@,
    {
        self.0.as_str()
    }

    /// Length of the name in bytes.
    pub fn len(&self) -> (r: usize)
        ensures
            r == utf8_len(self@),
    {
        self.0.as_str().as_bytes().len()
    }
}

impl ColumnName {
    /// A column name holding a copy of `s`.
    pub fn new(s: &str) -> (r: ColumnName)
        ensures
            r@ == s@,
    {
        ColumnName(String::from_str(s))
    }

    /// The name as text.
    pub fn as_str(&self) -> (r: &str)
        ensures
            r@ == self@,
    {
        self.0.as_str()
    }

    /// Length of the name in bytes.
    pub fn len(&self) -> (r: usize)
        ensures
            r == utf8_len(self@),
    {
        self.0.as_str().as_bytes().len()
    }
}

} // verus!
