//! A local task runner: named tasks, each an ordered list of shell jobs, are
//! kept in a store and executed strictly in sequence, stopping at the first
//! failing job.  The modules hold the task model, the in-memory store, the
//! record codec, the execution engine, and the migration connection settings.
pub mod codec;
pub mod db;
pub mod engine;
pub mod store;
pub mod task;
pub mod text;
