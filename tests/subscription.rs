use corro_api_types::{
    ChangeId, ChangeType, ProtocolViolation, QueryEvent, QueryEventMeta, Real, RowId, SqliteValue,
    StreamState,
};

fn run(events: &[QueryEvent]) -> Result<StreamState, ProtocolViolation> {
    let mut s = StreamState::Start;
    for e in events {
        s = s.next(e)?;
    }
    Ok(s)
}

fn row(i: i64) -> QueryEvent {
    QueryEvent::Row(RowId(i), vec![SqliteValue::Integer(i)])
}

fn change(k: i64) -> QueryEvent {
    QueryEvent::Change(ChangeType::Update, RowId(0), vec![SqliteValue::Null], ChangeId(k))
}

fn eoq(id: Option<i64>) -> QueryEvent {
    QueryEvent::EndOfQuery { time: Real(0.25f64.to_bits()), change_id: id.map(ChangeId) }
}

#[test]
fn snapshot_then_live_changes_in_order() {
    let k = 7;
    let events = vec![
        QueryEvent::Columns(vec!["id".to_string()]),
        row(0),
        row(1),
        row(2),
        eoq(Some(k - 1)),
        change(k),
        change(k + 1),
    ];
    let metas: Vec<_> = events.iter().map(|e| e.meta()).collect();
    assert!(matches!(metas[0], QueryEventMeta::Columns));
    assert!(matches!(metas[1], QueryEventMeta::Row(RowId(0))));
    assert!(matches!(metas[2], QueryEventMeta::Row(RowId(1))));
    assert!(matches!(metas[3], QueryEventMeta::Row(RowId(2))));
    assert!(matches!(metas[4], QueryEventMeta::EndOfQuery));
    assert!(matches!(metas[5], QueryEventMeta::Change(ChangeId(7))));
    assert!(matches!(metas[6], QueryEventMeta::Change(ChangeId(8))));
    assert_eq!(run(&events), Ok(StreamState::Live { last_change: Some(ChangeId(k + 1)) }));
}

#[test]
fn gaps_and_disorder_are_violations() {
    let cols = QueryEvent::Columns(vec![]);
    assert_eq!(run(&[row(0)]), Err(ProtocolViolation::OutOfOrder));
    assert_eq!(run(&[cols.clone(), row(1), row(1)]), Err(ProtocolViolation::RowIdNotIncreasing));
    assert_eq!(
        run(&[cols.clone(), eoq(Some(3)), change(5)]),
        Err(ProtocolViolation::ChangeIdGap)
    );
    assert_eq!(
        run(&[cols.clone(), eoq(None), change(5), change(7)]),
        Err(ProtocolViolation::ChangeIdGap)
    );
    assert_eq!(run(&[cols.clone(), change(1)]), Err(ProtocolViolation::OutOfOrder));
    assert_eq!(run(&[cols.clone(), eoq(None), row(0)]), Err(ProtocolViolation::OutOfOrder));
    assert_eq!(run(&[cols.clone(), cols.clone()]), Err(ProtocolViolation::OutOfOrder));
}

#[test]
fn error_ends_the_stream() {
    let err = QueryEvent::Error("boom".to_string());
    assert_eq!(run(&[err.clone()]), Ok(StreamState::Ended));
    assert_eq!(
        run(&[QueryEvent::Columns(vec![]), row(0), err.clone(), row(1)]),
        Err(ProtocolViolation::AfterEnd)
    );
    assert!(matches!(err.meta(), QueryEventMeta::Error));
}
