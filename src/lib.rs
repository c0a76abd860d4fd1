//! A versioned migration engine: brings each independently versioned unit of a
//! keyed store from its recorded schema version to the newest version that the
//! registered migration steps know, exactly once per step, and reports the cost.

pub mod error;
pub mod weight;
pub mod store;
pub mod plan;
pub mod runner;
pub mod harness;
pub mod laws;
pub mod retry;
