use corro_api_types::{
    Change, ColumnName, DecodeError, Real, SqliteValue, TableName,
};

fn users_change() -> Change {
    Change {
        table: TableName::new("users"),
        pk: vec![1],
        cid: ColumnName::new("name"),
        val: SqliteValue::Text("alice".to_string()),
        col_version: 1,
        db_version: 10,
        seq: 0,
        site_id: [0u8; 16],
        cl: 1,
    }
}

#[test]
fn change_round_trip_users_scenario() {
    let sent = users_change();
    let bytes = sent.encode().expect("encodable");
    // transmit as plain bytes and decode on a separate instance
    let received: Vec<u8> = bytes.clone();
    let decoded = Change::decode(&received).expect("decodes");
    assert_eq!(decoded, sent);
    assert_eq!(decoded.table.as_str(), "users");
    assert_eq!(decoded.cid.as_str(), "name");
    assert_eq!(decoded.db_version, 10);
}

#[test]
fn change_wire_layout_is_fixed() {
    let bytes = users_change().encode().unwrap();
    let mut expected: Vec<u8> = vec![];
    expected.extend_from_slice(&[5, 0, 0, 0]);
    expected.extend_from_slice(b"users");
    expected.extend_from_slice(&[1, 0, 0, 0, 1]);
    expected.extend_from_slice(&[4, 0, 0, 0]);
    expected.extend_from_slice(b"name");
    expected.extend_from_slice(&[3, 5, 0, 0, 0]);
    expected.extend_from_slice(b"alice");
    expected.extend_from_slice(&1i64.to_le_bytes());
    expected.extend_from_slice(&10i64.to_le_bytes());
    expected.extend_from_slice(&0i64.to_le_bytes());
    expected.extend_from_slice(&[0u8; 16]);
    expected.extend_from_slice(&1i64.to_le_bytes());
    assert_eq!(bytes, expected);
}

#[test]
fn change_round_trip_with_negative_counters_and_blob() {
    let c = Change {
        table: TableName::new("t\u{e9}"),
        pk: vec![],
        cid: ColumnName::new(""),
        val: SqliteValue::Blob(vec![0, 255, 7]),
        col_version: i64::MIN,
        db_version: -1,
        seq: i64::MAX,
        site_id: [9u8; 16],
        cl: -42,
    };
    let bytes = c.encode().unwrap();
    assert_eq!(Change::decode(&bytes).unwrap(), c);
}

#[test]
fn change_decode_rejects_truncated_and_trailing() {
    let bytes = users_change().encode().unwrap();
    assert_eq!(Change::decode(&bytes[..bytes.len() - 1]), Err(DecodeError::Truncated));
    assert_eq!(Change::decode(&bytes[..3]), Err(DecodeError::Truncated));
    let mut longer = bytes.clone();
    longer.push(0);
    assert_eq!(Change::decode(&longer), Err(DecodeError::TrailingBytes));
    assert_eq!(Change::decode(&[]), Err(DecodeError::Truncated));
}

fn round_trip(v: SqliteValue) {
    let bytes = v.encode().unwrap();
    assert_eq!(SqliteValue::decode(&bytes).unwrap(), v);
}

#[test]
fn value_round_trip_boundaries() {
    round_trip(SqliteValue::Null);
    round_trip(SqliteValue::Text(String::new()));
    round_trip(SqliteValue::Blob(vec![]));
    round_trip(SqliteValue::Integer(i64::MIN));
    round_trip(SqliteValue::Integer(i64::MAX));
    round_trip(SqliteValue::Real(Real(f64::NAN.to_bits())));
    round_trip(SqliteValue::Real(Real((-0.0f64).to_bits())));
    round_trip(SqliteValue::Real(Real(1.5f64.to_bits())));
    round_trip(SqliteValue::Text("h\u{e9}llo \u{1f600}".to_string()));
}

#[test]
fn value_wire_bytes() {
    assert_eq!(SqliteValue::Null.encode().unwrap(), vec![0]);
    assert_eq!(
        SqliteValue::Integer(-2).encode().unwrap(),
        vec![1, 0xfe, 0xff, 0xff, 0xff, 0xff, 0xff, 0xff, 0xff]
    );
    let mut real = vec![2u8];
    real.extend_from_slice(&2.5f64.to_le_bytes());
    assert_eq!(SqliteValue::Real(Real(2.5f64.to_bits())).encode().unwrap(), real);
    assert_eq!(SqliteValue::Text("ab".to_string()).encode().unwrap(), vec![3, 2, 0, 0, 0, b'a', b'b']);
    assert_eq!(SqliteValue::Blob(vec![9]).encode().unwrap(), vec![4, 1, 0, 0, 0, 9]);
}

#[test]
fn value_decode_rejects_unknown_tags() {
    for tag in 5u8..=255 {
        assert_eq!(SqliteValue::decode(&[tag]), Err(DecodeError::UnknownTag(tag)));
        assert_eq!(
            SqliteValue::decode(&[tag, 0, 0, 0, 0, 0, 0, 0, 0]),
            Err(DecodeError::UnknownTag(tag))
        );
    }
}

#[test]
fn value_decode_errors() {
    assert_eq!(SqliteValue::decode(&[]), Err(DecodeError::Truncated));
    assert_eq!(SqliteValue::decode(&[1, 0, 0]), Err(DecodeError::Truncated));
    assert_eq!(SqliteValue::decode(&[3, 4, 0, 0, 0, b'a']), Err(DecodeError::Truncated));
    assert_eq!(SqliteValue::decode(&[3, 1, 0, 0, 0, 0xff]), Err(DecodeError::InvalidUtf8));
    assert_eq!(SqliteValue::decode(&[3, 2, 0, 0, 0, 0xc3, 0x28]), Err(DecodeError::InvalidUtf8));
    assert_eq!(SqliteValue::decode(&[0, 0]), Err(DecodeError::TrailingBytes));
}

#[test]
fn value_read_from_reports_position() {
    let mut buf = vec![];
    SqliteValue::Integer(7).write_to(&mut buf);
    SqliteValue::Text("x".to_string()).write_to(&mut buf);
    let (a, p) = SqliteValue::read_from(&buf, 0).unwrap();
    assert_eq!(a, SqliteValue::Integer(7));
    assert_eq!(p, 9);
    let (b, q) = SqliteValue::read_from(&buf, p).unwrap();
    assert_eq!(b, SqliteValue::Text("x".to_string()));
    assert_eq!(q, buf.len());
}
