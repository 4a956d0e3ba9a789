//! A key/value store: a log-structured storage engine, an engine backed by
//! an embedded database, the request and response types of the wire
//! protocol, and the dispatch of requests to an engine.

mod engine;
mod errors;
mod kvs_engine;
mod laws;
mod persist;
mod protocol;
mod sled_engine;

pub use engine::{Command, KvStore, Segment, COMPACTION_THRESHOLD, SEGMENT_THRESHOLD};
pub use errors::{KVStoreError, Result};
pub use kvs_engine::{dispatch, KvsEngine};
pub use persist::{after_sync, failed_reply, sync_plan, Health, SyncPlan};
pub use protocol::{completion_response, reply_result, respond, EngineType, Request, Response};
pub use laws::{
    lemma_last_write_wins, lemma_recovery_restores, lemma_remove_then_get, lemma_set_then_get,
};
pub use sled_engine::{decode_value, removal_result, SledKvStore};
