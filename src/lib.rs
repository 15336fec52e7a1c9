pub mod api;
pub mod bind;
pub mod change;
pub mod codec;
pub mod ids;
pub mod subscription;
pub mod sync;
pub mod value;

pub use api::{ChangeType, ExecResponse, ExecResult, QueryEvent, QueryEventMeta, SqliteParam, Statement};
pub use change::{Change, ChangeModel};
pub use codec::DecodeError;
pub use ids::{ChangeId, ColumnName, RowId, TableName};
pub use value::{integer_decode, ColumnType, Real, SqliteValue, SqliteValueRef, ValueModel};
pub use subscription::{ProtocolViolation, StreamState};
pub use sync::{count_ops, plan_sync, record_pass, ApplyStats, SyncOp};
pub use bind::{bind_slots, Binding};
