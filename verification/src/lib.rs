//! A resumable, multi-connection download engine.
//!
//! The library holds the verified core: the task and chunk data model, the
//! byte-range partition algorithm, the resume planner that reconciles on-disk
//! partial state with a fresh request plan, the merge step that reassembles
//! chunk artifacts, and the header and filename utilities. Network and file
//! transport live outside the library and drive it through plain values.

pub mod args;
pub mod config;
pub mod encoding;
pub mod engine;
pub mod errors;
pub mod history;
pub mod io;
pub mod task;
pub mod utils;

