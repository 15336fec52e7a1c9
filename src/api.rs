use vstd::prelude::*;
use std::collections::HashMap;
use crate::ids::{ChangeId, RowId};
use crate::value::{Real, SqliteValue, SqliteValueRef, ValueModel};

verus! {

/// Kind of a row-level change delivered to a subscriber.
#[derive(Debug, Clone, Copy, PartialEq, Eq, Structural, Hash)]
pub enum ChangeType {
    Insert,
    Update,
    Delete,
}

/// One item of a subscription's stream: the column names, then the rows of
/// the initial snapshot, then the end-of-snapshot marker, then live changes.
/// An `Error` ends the stream.
#[derive(Debug, Clone)]
pub enum QueryEvent {
    Columns(Vec<String>),
    Row(RowId, Vec<SqliteValue>),
    EndOfQuery { time: Real, change_id: Option<ChangeId> },
    Change(ChangeType, RowId, Vec<SqliteValue>, ChangeId),
    Error(String),
}

/// What kind an event is, with the identifier that orders it.
#[derive(Debug, Clone, Copy, PartialEq, Eq, Structural)]
pub enum QueryEventMeta {
    Columns,
    Row(RowId),
    EndOfQuery,
    Change(ChangeId),
    Error,
}

impl QueryEvent {
    /// The kind and ordering identifier of an event.
    pub open spec fn spec_meta(&self) -> QueryEventMeta {
        match self {
            QueryEvent::Columns(_) => QueryEventMeta::Columns,
            QueryEvent::Row(rowid, _) => QueryEventMeta::Row(*rowid),
            QueryEvent::EndOfQuery { .. } => QueryEventMeta::EndOfQuery,
            QueryEvent::Change(_, _, _, id) => QueryEventMeta::Change(*id),
            QueryEvent::Error(_) => QueryEventMeta::Error,
        }
    }

    /// Returns the kind of this event with its row or change id.
    pub fn meta(&self) -> (r: QueryEventMeta)
        ensures
            r == self.spec_meta(),
    {
        match self {
            QueryEvent::Columns(_) => QueryEventMeta::Columns,
            QueryEvent::Row(rowid, _) => QueryEventMeta::Row(*rowid),
            QueryEvent::EndOfQuery { .. } => QueryEventMeta::EndOfQuery,
            QueryEvent::Change(_, _, _, id) => QueryEventMeta::Change(*id),
            QueryEvent::Error(_) => QueryEventMeta::Error,
        }
    }
}

/// A parameter bound to a statement.
#[derive(Debug, Clone)]
pub enum SqliteParam {
    Null,
    Bool(bool),
    Integer(i64),
    Real(Real),
    Text(String),
    Blob(Vec<u8>),
    /// Raw JSON text, bound as text.
    Json(String),
}

/// What a parameter is, independent of how its text or bytes are stored.
pub ghost enum ParamModel {
    Null,
    Bool(bool),
    Integer(i64),
    Real(u64),
    Text(Seq<char>),
    Blob(Seq<u8>),
    Json(Seq<char>),
}

impl View for SqliteParam {
    type V = ParamModel;

    open spec fn view(&self) -> ParamModel {
        match self {
            SqliteParam::Null => ParamModel::Null,
            SqliteParam::Bool(b) => ParamModel::Bool(*b),
            SqliteParam::Integer(i) => ParamModel::Integer(*i),
            SqliteParam::Real(r) => ParamModel::Real(r.0),
            SqliteParam::Text(t) => ParamModel::Text(t@),
            SqliteParam::Blob(b) => ParamModel::Blob(b@),
            SqliteParam::Json(j) => ParamModel::Json(j@),
        }
    }
}

/// The models of a list of parameters.
pub open spec fn params_view(ps: Seq<SqliteParam>) -> Seq<ParamModel> {
    ps.map_values(|p: SqliteParam| p@)
}

impl Default for SqliteParam {
    fn default() -> (r: SqliteParam)
        ensures
            r is Null,
    {
        SqliteParam::Null
    }
}

impl SqliteParam {
    /// The value a parameter binds as: a boolean binds as the integer 0 or 1,
    /// JSON as its text.
    pub open spec fn bound_value(&self) -> ValueModel {
        match self {
            SqliteParam::Null => ValueModel::Null,
            SqliteParam::Bool(b) => ValueModel::Integer(if *b { 1 } else { 0 }),
            SqliteParam::Integer(i) => ValueModel::Integer(*i),
            SqliteParam::Real(r) => ValueModel::Real(r.0),
            SqliteParam::Text(t) => ValueModel::Text(t@),
            SqliteParam::Blob(b) => ValueModel::Blob(b@),
            SqliteParam::Json(j) => ValueModel::Text(j@),
        }
    }

    /// A borrowed view of the value this parameter binds as.
    pub fn as_value_ref(&self) -> (r: SqliteValueRef<'_>)
        ensures
            r@ == self.bound_value(),
    {
        match self {
            SqliteParam::Null => SqliteValueRef::Null,
            SqliteParam::Bool(b) => SqliteValueRef::Integer(if *b { 1 } else { 0 }),
            SqliteParam::Integer(i) => SqliteValueRef::Integer(*i),
            SqliteParam::Real(f) => SqliteValueRef::Real(*f),
            SqliteParam::Text(t) => SqliteValueRef::Text(t.as_str()),
            SqliteParam::Blob(b) => SqliteValueRef::Blob(b.as_slice()),
            SqliteParam::Json(j) => SqliteValueRef::Text(j.as_str()),
        }
    }
}

impl From<String> for SqliteParam {
    fn from(value: String) -> SqliteParam {
        SqliteParam::Text(value)
    }
}

impl vstd::std_specs::convert::FromSpecImpl<String> for SqliteParam {
    open spec fn obeys_from_spec() -> bool {
        true
    }

    open spec fn from_spec(v: String) -> SqliteParam {
        SqliteParam::Text(v)
    }
}

impl From<Vec<u8>> for SqliteParam {
    fn from(value: Vec<u8>) -> SqliteParam {
        SqliteParam::Blob(value)
    }
}

impl vstd::std_specs::convert::FromSpecImpl<Vec<u8>> for SqliteParam {
    open spec fn obeys_from_spec() -> bool {
        true
    }

    open spec fn from_spec(v: Vec<u8>) -> SqliteParam {
        SqliteParam::Blob(v)
    }
}

impl From<u16> for SqliteParam {
    fn from(value: u16) -> SqliteParam {
        SqliteParam::Integer(value as i64)
    }
}

impl vstd::std_specs::convert::FromSpecImpl<u16> for SqliteParam {
    open spec fn obeys_from_spec() -> bool {
        true
    }

    open spec fn from_spec(v: u16) -> SqliteParam {
        SqliteParam::Integer(v as i64)
    }
}

impl From<i64> for SqliteParam {
    fn from(value: i64) -> SqliteParam {
        SqliteParam::Integer(value)
    }
}

impl vstd::std_specs::convert::FromSpecImpl<i64> for SqliteParam {
    open spec fn obeys_from_spec() -> bool {
        true
    }

    open spec fn from_spec(v: i64) -> SqliteParam {
        SqliteParam::Integer(v)
    }
}

/// A statement to execute: a bare query, a query with positional or with
/// named parameters, or the verbose form that may carry both.
#[derive(Debug, Clone)]
pub enum Statement {
    Verbose {
        query: String,
        params: Option<Vec<SqliteParam>>,
        named_params: Option<HashMap<String, SqliteParam>>,
    },
    Simple(String),
    WithParams(String, Vec<SqliteParam>),
    WithNamedParams(String, HashMap<String, SqliteParam>),
}

impl Statement {
    /// The query text of a statement, whatever its form.
    pub open spec fn spec_query(&self) -> Seq<char> {
        match self {
            Statement::Verbose { query, .. } => query@,
            Statement::Simple(query) => query@,
            Statement::WithParams(query, _) => query@,
            Statement::WithNamedParams(query, _) => query@,
        }
    }

    /// Returns the query text.
    pub fn query(&self) -> (r: &str)
        ensures
            r@ == self.spec_query(),
    {
        match self {
            Statement::Verbose { query, .. } => query.as_str(),
            Statement::Simple(query) => query.as_str(),
            Statement::WithParams(query, _) => query.as_str(),
            Statement::WithNamedParams(query, _) => query.as_str(),
        }
    }
}

impl From<String> for Statement {
    fn from(value: String) -> Statement {
        Statement::Simple(value)
    }
}

impl vstd::std_specs::convert::FromSpecImpl<String> for Statement {
    open spec fn obeys_from_spec() -> bool {
        true
    }

    open spec fn from_spec(v: String) -> Statement {
        Statement::Simple(v)
    }
}

/// Outcome of one statement: rows affected and elapsed seconds, or the
/// error it failed with.
#[derive(Debug, Clone)]
pub enum ExecResult {
    Execute { rows_affected: usize, time: Real },
    Error { error: String },
}

/// Outcomes of a batch, one per statement in order, and the batch's elapsed
/// seconds.
#[derive(Debug, Clone)]
pub struct ExecResponse {
    pub results: Vec<ExecResult>,
    pub time: Real,
}

} // verus!
