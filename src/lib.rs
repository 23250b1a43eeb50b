//! A persistent-store-backed job queue: the include resolver that assembles
//! the store-side command scripts, the queue keyspace, the job model, the
//! reading of the store's replies, and the decisions of the job lifecycle
//! and of the worker pool.

pub mod directive;
pub mod job;
pub mod lifecycle;
pub mod loader;
pub mod queue_keys;
pub mod reply;
pub mod scripts;
pub mod text;
pub mod worker;
