//! What the operations are for, stated of their inputs and results: how two calls
//! relate, what a read gives back of a write, what a result must satisfy.

pub mod calling;
pub mod collections;
pub mod failing;
pub mod foreign;
pub mod importing;
pub mod keeping;
pub mod machine;
pub mod modules;
pub mod naming;
pub mod resuming;
pub mod sending;
pub mod signalling;
pub mod spelling;
pub mod tables;
pub mod telling;
pub mod threads;
pub(crate) mod words;
