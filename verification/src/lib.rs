//! A change-data-capture engine: per-region subscription bookkeeping,
//! lock tracking and batched resolved-timestamp emission, written as a
//! single-threaded state machine whose transitions are verified against
//! a mathematical model.

pub mod seqs;
pub mod ids;
pub mod timestamp;
pub mod version;
pub mod feature;
pub mod keys;
pub mod error;
pub mod event;
pub mod heap;
pub mod downstream;
pub mod conn;
pub mod lock;
pub mod effect;
pub mod advance;
pub mod batch;
pub mod delegate;
pub mod config;
pub mod quota;
pub mod task;
pub mod model;
pub mod endpoint;
pub mod initializer;
pub mod min_ts;
pub mod scheduler;
pub mod laws;
pub mod invariants;
pub mod consistency;
