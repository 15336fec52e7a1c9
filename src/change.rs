use vstd::prelude::*;
use crate::ids::{ColumnName, TableName};
use crate::value::{bytes_eq, SqliteValue, ValueModel, utf8_len};

verus! {

/// One replicated cell-level mutation: which cell, its new value, and the
/// versioning data that orders it against other changes to the same cell.
#[derive(Debug, Clone)]
pub struct Change {
    pub table: TableName,
    pub pk: Vec<u8>,
    pub cid: ColumnName,
    pub val: SqliteValue,
    pub col_version: i64,
    pub db_version: i64,
    pub seq: i64,
    pub site_id: [u8; 16],
    pub cl: i64,
}

/// What a change is, field by field.
pub ghost struct ChangeModel {
    pub table: Seq<char>,
    pub pk: Seq<u8>,
    pub cid: Seq<char>,
    pub val: ValueModel,
    pub col_version: i64,
    pub db_version: i64,
    pub seq: i64,
    pub site_id: Seq<u8>,
    pub cl: i64,
}

impl View for Change {
    type V = ChangeModel;

    open spec fn view(&self) -> ChangeModel {
        ChangeModel {
            table: self.table@,
            pk: self.pk@,
            cid: self.cid@,
            val: self.val@,
            col_version: self.col_version,
            db_version: self.db_version,
            seq: self.seq,
            site_id: self.site_id@,
            cl: self.cl,
        }
    }
}

impl ChangeModel {
    /// The size estimate of a change: the byte lengths of table, key and
    /// column, the value's estimate, and 8 bytes for each of the four
    /// counters plus 16 for the site id.
    pub open spec fn estimated_size(self) -> nat {
        utf8_len(self.table) + self.pk.len() + utf8_len(self.cid) + self.val.estimated_size() + 48
    }
}

impl PartialEq for Change {
    fn eq(&self, other: &Change) -> (r: bool) {
        self.table == other.table && bytes_eq(self.pk.as_slice(), other.pk.as_slice())
            && self.cid == other.cid && self.val == other.val
            && self.col_version == other.col_version && self.db_version == other.db_version
            && self.seq == other.seq && bytes_eq(self.site_id.as_slice(), other.site_id.as_slice())
            && self.cl == other.cl
    }
}

impl vstd::std_specs::cmp::PartialEqSpecImpl for Change {
    open spec fn obeys_eq_spec() -> bool {
        true
    }

    open spec fn eq_spec(&self, other: &Change) -> bool {
        self@ == other@
    }
}

impl Default for Change {
    fn default() -> (r: Change)
        ensures
            r@ == (ChangeModel {
                table: Seq::empty(),
                pk: Seq::empty(),
                cid: Seq::empty(),
                val: ValueModel::Null,
                col_version: 0,
                db_version: 0,
                seq: 0,
                site_id: Seq::new(16, |i: int| 0u8),
                cl: 0,
            }),
    {
        let r = Change {
            table: TableName(String::new()),
            pk: Vec::new(),
            cid: ColumnName(String::new()),
            val: SqliteValue::Null,
            col_version: 0,
            db_version: 0,
            seq: 0,
            site_id: [0u8; 16],
            cl: 0,
        };
        assert(r.site_id@ =~= Seq::new(16, |i: int| 0u8));
        r
    }
}

impl Change {
    /// A rough count of the bytes this change takes on the wire, for batching.
    pub fn estimated_byte_size(&self) -> (r: usize)
        requires
            self@.estimated_size() <= usize::MAX,
        ensures
            r == self@.estimated_size(),
    {
        self.table.len() + self.pk.len() + self.cid.len() + self.val.estimated_byte_size() + 8 + 8
            + 8 + 16 + 8
    }
}

} // verus!
