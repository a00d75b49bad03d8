//! Driver for executing an arithmetic constraint circuit: the field-element
//! codec, the write-once witness map, the decisions of the solve loop and the
//! bridge that turns a resolver's answer into witness assignments.

pub mod wide;
pub mod field;
pub mod codec;
pub mod witness;
pub mod error;
pub mod foreign_call;
pub mod solver;
pub mod blackbox;
pub mod interchange;
pub mod logic;
pub mod gate;
