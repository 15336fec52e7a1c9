use vstd::prelude::*;
use crate::api::QueryEvent;
use crate::ids::{ChangeId, RowId};

verus! {

/// Where a subscriber stands in a subscription's stream.
#[derive(Debug, Clone, Copy, PartialEq, Eq, Structural)]
pub enum StreamState {
    /// Nothing received yet; the column names come first.
    Start,
    /// Column names received; snapshot rows follow. Holds the last row id.
    Snapshot { last_row: Option<RowId> },
    /// Snapshot complete; live changes follow. Holds the last change id seen,
    /// or the watermark that the end-of-snapshot marker carried.
    Live { last_change: Option<ChangeId> },
    /// An error ended the stream.
    Ended,
}

/// How a stream broke the subscription protocol.
#[derive(Debug, Clone, Copy, PartialEq, Eq, Structural)]
pub enum ProtocolViolation {
    /// An event of a kind that cannot come in the current state.
    OutOfOrder,
    /// A snapshot row whose id does not exceed the previous row's.
    RowIdNotIncreasing,
    /// A change whose id is not one more than the previous one.
    ChangeIdGap,
    /// An event after the stream ended with an error.
    AfterEnd,
}

/// The state after one event, or the violation it makes.
pub open spec fn stream_step(s: StreamState, e: QueryEvent) -> Result<StreamState, ProtocolViolation> {
    match s {
        StreamState::Ended => Err(ProtocolViolation::AfterEnd),
        _ => match e {
            QueryEvent::Error(_) => Ok(StreamState::Ended),
            QueryEvent::Columns(_) => match s {
                StreamState::Start => Ok(StreamState::Snapshot { last_row: None }),
                _ => Err(ProtocolViolation::OutOfOrder),
            },
            QueryEvent::Row(id, _) => match s {
                StreamState::Snapshot { last_row } => match last_row {
                    Some(l) if id.0 <= l.0 => Err(ProtocolViolation::RowIdNotIncreasing),
                    _ => Ok(StreamState::Snapshot { last_row: Some(id) }),
                },
                _ => Err(ProtocolViolation::OutOfOrder),
            },
            QueryEvent::EndOfQuery { change_id, .. } => match s {
                StreamState::Snapshot { .. } => Ok(StreamState::Live { last_change: change_id }),
                _ => Err(ProtocolViolation::OutOfOrder),
            },
            QueryEvent::Change(_, _, _, id) => match s {
                StreamState::Live { last_change } => match last_change {
                    Some(l) if id.0 != l.0 + 1 => Err(ProtocolViolation::ChangeIdGap),
                    _ => Ok(StreamState::Live { last_change: Some(id) }),
                },
                _ => Err(ProtocolViolation::OutOfOrder),
            },
        },
    }
}

/// The state after a sequence of events, or the first violation.
pub open spec fn run_stream(s: StreamState, evs: Seq<QueryEvent>) -> Result<StreamState, ProtocolViolation>
    decreases evs.len(),
{
    if evs.len() == 0 {
        Ok(s)
    } else {
        match stream_step(s, evs[0]) {
            Err(v) => Err(v),
            Ok(s2) => run_stream(s2, evs.drop_first()),
        }
    }
}

/// The change id that every later change must exceed.
pub open spec fn change_floor(s: StreamState) -> Option<int> {
    match s {
        StreamState::Live { last_change: Some(l) } => Some(l.0 as int),
        _ => None,
    }
}

/// The row id that every later snapshot row must exceed.
pub open spec fn row_floor(s: StreamState) -> Option<int> {
    match s {
        StreamState::Snapshot { last_row: Some(l) } => Some(l.0 as int),
        _ => None,
    }
}

/// Whether an event is a change with id `c`.
pub open spec fn is_change_with(e: QueryEvent, c: int) -> bool {
    e matches QueryEvent::Change(_, _, _, id) && id.0 as int == c
}

/// Whether an event is a snapshot row with id `r`.
pub open spec fn is_row_with(e: QueryEvent, r: int) -> bool {
    e matches QueryEvent::Row(id, _) && id.0 as int == r
}

/// In a stream that the protocol accepts, every change id exceeds the
/// state's floor, as does every row id, and ids strictly increase: each
/// change id is larger than every earlier one, and likewise for rows.
pub proof fn lemma_accepted_ids_increase(s: StreamState, evs: Seq<QueryEvent>)
    requires
        run_stream(s, evs) is Ok,
    ensures
        (s is Live || s is Ended) ==> forall|j: int, r: int|
            0 <= j < evs.len() ==> !#[trigger] is_row_with(evs[j], r),
        forall|j: int, c: int| 0 <= j < evs.len() && #[trigger] is_change_with(evs[j], c) ==> (
        change_floor(s) matches Some(l) ==> l < c),
        forall|j: int, r: int| 0 <= j < evs.len() && #[trigger] is_row_with(evs[j], r) ==> (
        row_floor(s) matches Some(l) ==> l < r),
        forall|i: int, j: int, a: int, b: int|
            #![trigger is_change_with(evs[i], a), is_change_with(evs[j], b)]
            0 <= i < j < evs.len() && is_change_with(evs[i], a) && is_change_with(evs[j], b) ==> a < b,
        forall|i: int, j: int, a: int, b: int|
            #![trigger is_row_with(evs[i], a), is_row_with(evs[j], b)]
            0 <= i < j < evs.len() && is_row_with(evs[i], a) && is_row_with(evs[j], b) ==> a < b,
    decreases evs.len(),
{
    if evs.len() > 0 {
        let e = evs[0];
        let rest = evs.drop_first();
        let s2 = stream_step(s, e)->Ok_0;
        lemma_accepted_ids_increase(s2, rest);
        assert forall|j: int| 1 <= j < evs.len() implies evs[j] == rest[j - 1] by {}
        if rest.len() > 0 {
            assert(!(s2 is Ended));
        }
        assert forall|j: int, c: int| 0 <= j < evs.len() && #[trigger] is_change_with(evs[j], c)
            implies (change_floor(s) matches Some(l) ==> l < c) by {
            if j > 0 {
                assert(is_change_with(rest[j - 1], c));
            }
        }
        if s is Live || s is Ended {
            assert forall|j: int, r: int| 0 <= j < evs.len() implies !#[trigger] is_row_with(
                evs[j],
                r,
            ) by {
                if j > 0 {
                    assert(!is_row_with(rest[j - 1], r));
                }
            }
        }
        assert forall|j: int, r: int| 0 <= j < evs.len() && #[trigger] is_row_with(evs[j], r)
            implies (row_floor(s) matches Some(l) ==> l < r) by {
            if j > 0 {
                assert(is_row_with(rest[j - 1], r));
            }
        }
        assert forall|i: int, j: int, a: int, b: int|
            #![trigger is_change_with(evs[i], a), is_change_with(evs[j], b)]
            0 <= i < j < evs.len() && is_change_with(evs[i], a) && is_change_with(evs[j], b) implies a < b by {
            assert(is_change_with(rest[j - 1], b));
            if i > 0 {
                assert(is_change_with(rest[i - 1], a));
            }
        }
        assert forall|i: int, j: int, a: int, b: int|
            #![trigger is_row_with(evs[i], a), is_row_with(evs[j], b)]
            0 <= i < j < evs.len() && is_row_with(evs[i], a) && is_row_with(evs[j], b) implies a < b by {
            assert(is_row_with(rest[j - 1], b));
            if i > 0 {
                assert(is_row_with(rest[i - 1], a));
            }
        }
    }
}

impl StreamState {
    /// Checks one event against the protocol and gives the state after it.
    pub fn next(&self, e: &QueryEvent) -> (r: Result<StreamState, ProtocolViolation>)
        ensures
            r == stream_step(*self, *e),
    {
        if let StreamState::Ended = self {
            return Err(ProtocolViolation::AfterEnd);
        }
        match e {
            QueryEvent::Error(_) => Ok(StreamState::Ended),
            QueryEvent::Columns(_) => match self {
                StreamState::Start => Ok(StreamState::Snapshot { last_row: None }),
                _ => Err(ProtocolViolation::OutOfOrder),
            },
            QueryEvent::Row(id, _) => match self {
                StreamState::Snapshot { last_row } => match last_row {
                    Some(l) if id.0 <= l.0 => Err(ProtocolViolation::RowIdNotIncreasing),
                    _ => Ok(StreamState::Snapshot { last_row: Some(*id) }),
                },
                _ => Err(ProtocolViolation::OutOfOrder),
            },
            QueryEvent::EndOfQuery { change_id, .. } => match self {
                StreamState::Snapshot { .. } => Ok(StreamState::Live { last_change: *change_id }),
                _ => Err(ProtocolViolation::OutOfOrder),
            },
            QueryEvent::Change(_, _, _, id) => match self {
                StreamState::Live { last_change } => match last_change {
                    Some(l) if l.0 == i64::MAX || id.0 != l.0 + 1 => Err(
                        ProtocolViolation::ChangeIdGap,
                    ),
                    _ => Ok(StreamState::Live { last_change: Some(*id) }),
                },
                _ => Err(ProtocolViolation::OutOfOrder),
            },
        }
    }
}

} // verus!
