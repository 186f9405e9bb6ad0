//! Instructions of a quantum assembly language as plain values: classical memory
//! declarations and references, gates with their modifier stack, operator sums that
//! define custom gates, and the symbolic layout of a gate's matrix over a register.

pub mod catalog;
pub mod classical;
pub mod definition;
pub mod expression;
pub mod gate;
pub mod memory;
pub mod pauli;
pub mod power;
pub mod text;
pub mod unitary;
