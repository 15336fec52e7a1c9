use corro_api_types::{
    integer_decode, ApplyStats, Change, ColumnName, ColumnType, Real, SqliteParam, SqliteValue,
    SqliteValueRef, Statement, TableName,
};
use std::collections::hash_map::DefaultHasher;
use std::hash::{Hash, Hasher};

fn hash_of<T: Hash>(t: &T) -> u64 {
    let mut h = DefaultHasher::new();
    t.hash(&mut h);
    h.finish()
}

#[test]
fn real_equality_and_hash_agree() {
    let a = SqliteValue::Real(Real(0.5f64.to_bits()));
    let b = SqliteValue::Real(Real(0.5f64.to_bits()));
    assert_eq!(a, b);
    assert_eq!(hash_of(&a), hash_of(&b));
    let nan1 = SqliteValue::Real(Real(f64::NAN.to_bits()));
    let nan2 = SqliteValue::Real(Real(f64::NAN.to_bits()));
    assert_eq!(nan1, nan2);
    assert_eq!(hash_of(&nan1), hash_of(&nan2));
    let pz = Real(0.0f64.to_bits());
    let nz = Real((-0.0f64).to_bits());
    assert_ne!(pz, nz);
    assert_ne!(pz.integer_decode(), nz.integer_decode());
    assert_ne!(SqliteValue::Real(pz), SqliteValue::Real(nz));
}

#[test]
fn integer_decode_values() {
    assert_eq!(integer_decode(1.0f64.to_bits()), (1u64 << 52, -52, 1));
    assert_eq!(integer_decode((-2.0f64).to_bits()), (1u64 << 52, -51, -1));
    assert_eq!(integer_decode(0.0f64.to_bits()), (0, -1075, 1));
    assert_eq!(integer_decode(1u64), (2, -1075, 1));
}

#[test]
fn column_type_codes() {
    let cases = [
        (SqliteValue::Integer(3), ColumnType::Integer, 1u8),
        (SqliteValue::Real(Real(1.0f64.to_bits())), ColumnType::Float, 2),
        (SqliteValue::Text("a".to_string()), ColumnType::Text, 3),
        (SqliteValue::Blob(vec![1]), ColumnType::Blob, 4),
        (SqliteValue::Null, ColumnType::Null, 5),
    ];
    for (v, t, code) in cases {
        assert_eq!(v.column_type(), t);
        assert_eq!(v.column_type().code(), code);
        assert_eq!(ColumnType::from_u8(code), Some(t));
    }
    assert_eq!(ColumnType::from_u8(0), None);
    assert_eq!(ColumnType::from_u8(6), None);
}

#[test]
fn column_type_from_sqlite_name() {
    assert_eq!(ColumnType::from_sqlite_name("INTEGER"), Some(ColumnType::Integer));
    assert_eq!(ColumnType::from_sqlite_name("REAL"), Some(ColumnType::Float));
    assert_eq!(ColumnType::from_sqlite_name("TEXT"), Some(ColumnType::Text));
    assert_eq!(ColumnType::from_sqlite_name("BLOB"), Some(ColumnType::Blob));
    assert_eq!(ColumnType::from_sqlite_name("integer"), None);
    assert_eq!(ColumnType::from_sqlite_name("VARCHAR"), None);
    assert_eq!(ColumnType::from_sqlite_name(""), None);
}

#[test]
fn accessors() {
    let t = SqliteValue::Text("hi".to_string());
    assert_eq!(t.as_str(), Some("hi"));
    assert_eq!(t.as_text(), Some("hi"));
    assert_eq!(t.as_integer(), None);
    assert!(!t.is_null());
    assert!(SqliteValue::Null.is_null());
    assert_eq!(SqliteValue::Integer(4).as_integer(), Some(&4));
    assert_eq!(SqliteValue::Blob(vec![1, 2]).as_blob(), Some(&[1u8, 2][..]));
    assert_eq!(SqliteValue::Real(Real(3)).as_real(), Some(&Real(3)));
    let r = SqliteValueRef::Text("hi");
    assert_eq!(r.as_text(), Some("hi"));
    assert_eq!(r.to_owned(), t);
    assert_eq!(t.as_ref(), r);
    assert_eq!(SqliteValueRef::Blob(&[5]).to_owned(), SqliteValue::Blob(vec![5]));
    assert!(SqliteValueRef::Null.is_null());
    assert_eq!(SqliteValueRef::Integer(2).as_integer(), Some(&2));
    assert_eq!(SqliteValueRef::Blob(&[5]).as_blob(), Some(&[5u8][..]));
    assert_eq!(SqliteValueRef::Real(Real(8)).as_real(), Some(&Real(8)));
    assert_eq!(SqliteValue::default(), SqliteValue::Null);
}

#[test]
fn estimated_sizes() {
    assert_eq!(SqliteValue::Null.estimated_byte_size(), 2);
    assert_eq!(SqliteValue::Integer(1).estimated_byte_size(), 9);
    assert_eq!(SqliteValue::Text("abc".to_string()).estimated_byte_size(), 8);
    assert_eq!(SqliteValue::Blob(vec![0; 10]).estimated_byte_size(), 15);
    let c = Change {
        table: TableName::new("users"),
        pk: vec![1],
        cid: ColumnName::new("name"),
        val: SqliteValue::Text("alice".to_string()),
        col_version: 1,
        db_version: 10,
        seq: 0,
        site_id: [0u8; 16],
        cl: 1,
    };
    assert_eq!(c.estimated_byte_size(), 5 + 1 + 4 + 10 + 48);
    assert_eq!(Change::default().estimated_byte_size(), 2 + 48);
}

#[test]
fn sql_text_rendering() {
    assert_eq!(SqliteValue::Null.to_sql_text(), Some(String::new()));
    assert_eq!(SqliteValue::Integer(-42).to_sql_text(), Some("-42".to_string()));
    assert_eq!(SqliteValue::Text("a b".to_string()).to_sql_text(), Some("a b".to_string()));
    assert_eq!(
        SqliteValue::Blob(vec![0xde, 0xad, 0x0f]).to_sql_text(),
        Some("x'dead0f'".to_string())
    );
    assert_eq!(SqliteValue::Blob(vec![]).to_sql_text(), Some("x''".to_string()));
    assert_eq!(SqliteValue::Real(Real(0)).to_sql_text(), None);
}

#[test]
fn conversions() {
    assert_eq!(SqliteValue::from(7u16), SqliteValue::Integer(7));
    assert_eq!(SqliteValue::from(-7i64), SqliteValue::Integer(-7));
    assert_eq!(SqliteValue::from("s".to_string()), SqliteValue::Text("s".to_string()));
    assert_eq!(SqliteValue::from(vec![1u8]), SqliteValue::Blob(vec![1]));
    assert!(matches!(SqliteParam::from(3u16), SqliteParam::Integer(3)));
    assert!(matches!(SqliteParam::from(vec![1u8]), SqliteParam::Blob(_)));
    assert_eq!(SqliteParam::Bool(true).as_value_ref(), SqliteValueRef::Integer(1));
    assert_eq!(SqliteParam::Bool(false).as_value_ref(), SqliteValueRef::Integer(0));
    assert_eq!(SqliteParam::Json("[1]".to_string()).as_value_ref(), SqliteValueRef::Text("[1]"));
    assert!(matches!(SqliteParam::default(), SqliteParam::Null));
}

#[test]
fn statement_query_text() {
    let s = Statement::WithParams("select ?".to_string(), vec![SqliteParam::from(1i64)]);
    assert_eq!(s.query(), "select ?");
    assert_eq!(Statement::from("select 1".to_string()).query(), "select 1");
    let v = Statement::Verbose { query: "q".to_string(), params: None, named_params: None };
    assert_eq!(v.query(), "q");
}

#[test]
fn names_compare_by_text() {
    assert_eq!(TableName::new("a"), TableName::new("a"));
    assert_ne!(ColumnName::new("a"), ColumnName::new("A"));
    assert!(TableName::new("a") < TableName::new("b"));
    assert_eq!(TableName::new("h\u{e9}").len(), 3);
}

#[test]
fn apply_stats_is_zero() {
    assert!(ApplyStats::default().is_zero());
    assert!(!ApplyStats { upserted: 1, deleted: 0 }.is_zero());
    assert!(!ApplyStats { upserted: 0, deleted: 2 }.is_zero());
}
