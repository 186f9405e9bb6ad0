//! Gates that every program may use without defining them, and how many parameters
//! and qubits each of them takes.

use vstd::prelude::*;
use crate::text::{chars_of, text_is};

verus! {

/// How many parameters and how many qubits a gate takes.
#[derive(Clone, Copy, Debug, PartialEq, Eq, Hash, Structural)]
pub struct Arity {
    pub parameters: usize,
    pub qubits: usize,
}

/// Gates on one qubit, without a parameter.
pub open spec fn is_plain_single(name: Seq<char>) -> bool {
    ||| name == "I"@
    ||| name == "X"@
    ||| name == "Y"@
    ||| name == "Z"@
    ||| name == "H"@
    ||| name == "S"@
    ||| name == "T"@
}

/// Gates on one qubit, with one angle.
pub open spec fn is_rotation(name: Seq<char>) -> bool {
    ||| name == "RX"@
    ||| name == "RY"@
    ||| name == "RZ"@
    ||| name == "PHASE"@
}

/// Gates on two qubits, without a parameter.
pub open spec fn is_plain_pair(name: Seq<char>) -> bool {
    ||| name == "CNOT"@
    ||| name == "CZ"@
    ||| name == "SWAP"@
    ||| name == "ISWAP"@
}

/// Gates on two qubits, with one angle.
pub open spec fn is_pair_rotation(name: Seq<char>) -> bool {
    ||| name == "CPHASE"@
    ||| name == "CPHASE00"@
    ||| name == "CPHASE01"@
    ||| name == "CPHASE10"@
    ||| name == "PSWAP"@
}

/// Gates on three qubits, without a parameter.
pub open spec fn is_plain_triple(name: Seq<char>) -> bool {
    ||| name == "CCNOT"@
    ||| name == "CSWAP"@
}

/// The arity of the built-in gate `name`; `None` for every other name.
pub open spec fn known_arity(name: Seq<char>) -> Option<Arity> {
    if is_plain_single(name) {
        Some(Arity { parameters: 0, qubits: 1 })
    } else if is_rotation(name) {
        Some(Arity { parameters: 1, qubits: 1 })
    } else if is_plain_pair(name) {
        Some(Arity { parameters: 0, qubits: 2 })
    } else if is_pair_rotation(name) {
        Some(Arity { parameters: 1, qubits: 2 })
    } else if is_plain_triple(name) {
        Some(Arity { parameters: 0, qubits: 3 })
    } else {
        None
    }
}

/// The arity of the built-in gate `name`; `None` for every other name.
pub fn arity_of(name: &str) -> (r: Option<Arity>)
    ensures
        r == known_arity(name@),
{
    let t = chars_of(name);
    if text_is(&t, "I") || text_is(&t, "X") || text_is(&t, "Y") || text_is(&t, "Z") || text_is(
        &t,
        "H",
    ) || text_is(&t, "S") || text_is(&t, "T") {
        Some(Arity { parameters: 0, qubits: 1 })
    } else if text_is(&t, "RX") || text_is(&t, "RY") || text_is(&t, "RZ") || text_is(
        &t,
        "PHASE",
    ) {
        Some(Arity { parameters: 1, qubits: 1 })
    } else if text_is(&t, "CNOT") || text_is(&t, "CZ") || text_is(&t, "SWAP") || text_is(
        &t,
        "ISWAP",
    ) {
        Some(Arity { parameters: 0, qubits: 2 })
    } else if text_is(&t, "CPHASE") || text_is(&t, "CPHASE00") || text_is(&t, "CPHASE01")
        || text_is(&t, "CPHASE10") || text_is(&t, "PSWAP") {
        Some(Arity { parameters: 1, qubits: 2 })
    } else if text_is(&t, "CCNOT") || text_is(&t, "CSWAP") {
        Some(Arity { parameters: 0, qubits: 3 })
    } else {
        None
    }
}

} // verus!
