//! The rules of a rotating, quota-aware stream writer: when to start a new
//! file, whether a write may go ahead, and which file has to go when space or
//! the number of files runs out.
//!
//! The library decides and does no work on files. `controller` holds the
//! rotation controller, which is told of events and answers with the work to
//! do next; `machine` holds its rule, and `laws`, `directory` and `stream` hold
//! what follows from the rule. The parts that the rule is made of stand in
//! `names`, `capacity`, `config`, `catalog` and `policy`.

pub mod capacity;
pub mod catalog;
pub mod config;
pub mod controller;
pub mod directory;
pub mod laws;
pub mod machine;
pub mod names;
pub mod policy;
pub mod stream;
