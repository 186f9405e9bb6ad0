//! The values that instructions carry without computing on them: arithmetic expressions,
//! real literals and qubits.
//!
//! Expressions are formed and evaluated elsewhere. An instruction holds of one only what it
//! reads: the canonical text, by which two expressions are told apart and written out, and
//! the number it stands for when it has one.

use vstd::prelude::*;
use vstd::std_specs::cmp::PartialEqSpecImpl;
use vstd::string::*;
use crate::text::{decimal, push_decimal};

verus! {

/// A complex number, held as the bit patterns of the binary64 forms of its real and
/// imaginary part.
#[derive(Clone, Copy, Debug, PartialEq, Eq, Hash, Structural)]
pub struct Number {
    pub re: u64,
    pub im: u64,
}

/// A real literal: its canonical text and the bit pattern of its binary64 form.
#[derive(Debug, Hash)]
pub struct Real {
    pub text: String,
    pub bits: u64,
}

pub struct RealView {
    pub text: Seq<char>,
    pub bits: u64,
}

impl View for Real {
    type V = RealView;

    open spec fn view(&self) -> RealView {
        RealView { text: self.text@, bits: self.bits }
    }
}

impl PartialEq for Real {
    fn eq(&self, other: &Self) -> (r: bool) {
        self.text == other.text && self.bits == other.bits
    }
}

impl PartialEqSpecImpl for Real {
    open spec fn obeys_eq_spec() -> bool {
        true
    }

    open spec fn eq_spec(&self, other: &Self) -> bool {
        self@ == other@
    }
}

impl Eq for Real {

}

impl Clone for Real {
    fn clone(&self) -> (r: Self)
        ensures
            r@ == self@,
    {
        Real { text: self.text.clone(), bits: self.bits }
    }
}

impl Real {
    pub fn new(text: String, bits: u64) -> (r: Self)
        ensures
            r.text == text,
            r.bits == bits,
    {
        Real { text, bits }
    }
}

/// An arithmetic expression: its canonical text, and the number it resolves to if it
/// resolves to one.
#[derive(Debug, Hash)]
pub struct Expression {
    pub text: String,
    pub value: Option<Number>,
}

pub struct ExpressionView {
    pub text: Seq<char>,
    pub value: Option<Number>,
}

impl View for Expression {
    type V = ExpressionView;

    open spec fn view(&self) -> ExpressionView {
        ExpressionView { text: self.text@, value: self.value }
    }
}

impl ExpressionView {
    /// Whether the expression stands for a concrete number.
    pub open spec fn resolved(self) -> bool {
        self.value is Some
    }
}

impl PartialEq for Expression {
    fn eq(&self, other: &Self) -> (r: bool) {
        let same_value = match (self.value, other.value) {
            (Some(a), Some(b)) => a == b,
            (None, None) => true,
            _ => false,
        };
        self.text == other.text && same_value
    }
}

impl PartialEqSpecImpl for Expression {
    open spec fn obeys_eq_spec() -> bool {
        true
    }

    open spec fn eq_spec(&self, other: &Self) -> bool {
        self@ == other@
    }
}

impl Eq for Expression {

}

impl Clone for Expression {
    fn clone(&self) -> (r: Self)
        ensures
            r@ == self@,
    {
        Expression { text: self.text.clone(), value: self.value }
    }
}

impl Expression {
    pub fn new(text: String, value: Option<Number>) -> (r: Self)
        ensures
            r.text == text,
            r.value == value,
    {
        Expression { text, value }
    }

    /// Whether the expression stands for a concrete number.
    pub fn is_resolved(&self) -> (r: bool)
        ensures
            r == self@.resolved(),
    {
        self.value.is_some()
    }
}

/// The views of a list of expressions.
pub open spec fn expression_views(s: Seq<Expression>) -> Seq<ExpressionView> {
    s.map_values(|e: Expression| e@)
}

/// Whether two lists hold the same expressions in the same order.
pub fn same_expressions(a: &Vec<Expression>, b: &Vec<Expression>) -> (r: bool)
    ensures
        r == (expression_views(a@) == expression_views(b@)),
{
    if a.len() != b.len() {
        assert(expression_views(a@).len() != expression_views(b@).len());
        return false;
    }
    let mut i: usize = 0;
    while i < a.len()
        invariant
            i <= a.len(),
            a.len() == b.len(),
            forall|k: int| 0 <= k < i ==> a@[k]@ == b@[k]@,
        decreases a.len() - i,
    {
        if a[i] != b[i] {
            assert(expression_views(a@)[i as int] != expression_views(b@)[i as int]);
            return false;
        }
        i = i + 1;
    }
    assert(expression_views(a@) =~= expression_views(b@));
    true
}

/// A copy of a list of expressions.
pub fn copy_expressions(a: &Vec<Expression>) -> (r: Vec<Expression>)
    ensures
        expression_views(r@) == expression_views(a@),
{
    let mut r: Vec<Expression> = Vec::new();
    let mut i: usize = 0;
    while i < a.len()
        invariant
            i <= a.len(),
            r.len() == i,
            forall|k: int| 0 <= k < i ==> r@[k]@ == a@[k]@,
        decreases a.len() - i,
    {
        r.push(a[i].clone());
        i = i + 1;
    }
    assert(expression_views(r@) =~= expression_views(a@));
    r
}

/// An element of the quantum register, by its index.
#[derive(Clone, Copy, Debug, PartialEq, Eq, Hash, Structural)]
pub struct Qubit {
    pub index: u64,
}

impl Qubit {
    pub fn new(index: u64) -> (r: Self)
        ensures
            r.index == index,
    {
        Qubit { index }
    }

    /// The index as a decimal numeral.
    pub open spec fn rendered(self) -> Seq<char> {
        decimal(self.index as nat)
    }

    pub fn to_quil(&self) -> (r: String)
        ensures
            r@ == self.rendered(),
    {
        let mut out = String::new();
        push_decimal(&mut out, self.index);
        assert(out@ =~= self.rendered());
        out
    }
}

} // verus!
