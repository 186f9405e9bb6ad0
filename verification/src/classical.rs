//! The two instructions that move data between regions of classical memory.
//!
//! Both are records. Resolving the names against a memory table and evaluating the
//! operand is the work of whoever runs the program.

use vstd::prelude::*;
use vstd::std_specs::cmp::PartialEqSpecImpl;
use vstd::string::*;
use crate::expression::{Real, RealView};
use crate::memory::{MemoryReference, MemoryReferenceView};
use crate::text::{push_signed_decimal, signed_decimal};

verus! {

/// What a classical instruction takes as a value: a literal or an element of memory.
#[derive(Debug, Hash)]
pub enum ArithmeticOperand {
    LiteralInteger(i64),
    LiteralReal(Real),
    MemoryReference(MemoryReference),
}

pub enum ArithmeticOperandView {
    LiteralInteger(i64),
    LiteralReal(RealView),
    MemoryReference(MemoryReferenceView),
}

impl View for ArithmeticOperand {
    type V = ArithmeticOperandView;

    open spec fn view(&self) -> ArithmeticOperandView {
        match self {
            ArithmeticOperand::LiteralInteger(n) => ArithmeticOperandView::LiteralInteger(*n),
            ArithmeticOperand::LiteralReal(x) => ArithmeticOperandView::LiteralReal(x@),
            ArithmeticOperand::MemoryReference(m) => ArithmeticOperandView::MemoryReference(m@),
        }
    }
}

impl ArithmeticOperandView {
    /// The numeral, the literal's text, or `name[index]`.
    pub open spec fn rendered(self) -> Seq<char> {
        match self {
            ArithmeticOperandView::LiteralInteger(n) => signed_decimal(n as int),
            ArithmeticOperandView::LiteralReal(x) => x.text,
            ArithmeticOperandView::MemoryReference(m) => m.rendered(),
        }
    }
}

impl PartialEq for ArithmeticOperand {
    fn eq(&self, other: &Self) -> (r: bool) {
        match (self, other) {
            (ArithmeticOperand::LiteralInteger(a), ArithmeticOperand::LiteralInteger(b)) => *a
                == *b,
            (ArithmeticOperand::LiteralReal(a), ArithmeticOperand::LiteralReal(b)) => a == b,
            (ArithmeticOperand::MemoryReference(a), ArithmeticOperand::MemoryReference(b)) => a
                == b,
            _ => false,
        }
    }
}

impl PartialEqSpecImpl for ArithmeticOperand {
    open spec fn obeys_eq_spec() -> bool {
        true
    }

    open spec fn eq_spec(&self, other: &Self) -> bool {
        self@ == other@
    }
}

impl Eq for ArithmeticOperand {

}

impl Clone for ArithmeticOperand {
    fn clone(&self) -> (r: Self)
        ensures
            r@ == self@,
    {
        match self {
            ArithmeticOperand::LiteralInteger(n) => ArithmeticOperand::LiteralInteger(*n),
            ArithmeticOperand::LiteralReal(x) => ArithmeticOperand::LiteralReal(x.clone()),
            ArithmeticOperand::MemoryReference(m) => ArithmeticOperand::MemoryReference(
                m.clone(),
            ),
        }
    }
}

impl ArithmeticOperand {
    fn write(&self, out: &mut String)
        ensures
            final(out)@ == old(out)@ + self@.rendered(),
    {
        match self {
            ArithmeticOperand::LiteralInteger(n) => push_signed_decimal(out, *n),
            ArithmeticOperand::LiteralReal(x) => out.append(x.text.as_str()),
            ArithmeticOperand::MemoryReference(m) => m.write(out),
        }
    }

    pub fn to_quil(&self) -> (r: String)
        ensures
            r@ == self@.rendered(),
    {
        let mut out = String::new();
        self.write(&mut out);
        assert(out@ =~= self@.rendered());
        out
    }
}

/// `destination := source[value at offset]`.
#[derive(Debug, Hash)]
pub struct Load {
    pub destination: MemoryReference,
    pub source: String,
    pub offset: MemoryReference,
}

pub struct LoadView {
    pub destination: MemoryReferenceView,
    pub source: Seq<char>,
    pub offset: MemoryReferenceView,
}

impl View for Load {
    type V = LoadView;

    open spec fn view(&self) -> LoadView {
        LoadView {
            destination: self.destination@,
            source: self.source@,
            offset: self.offset@,
        }
    }
}

impl LoadView {
    /// `LOAD destination source offset`.
    pub open spec fn rendered(self) -> Seq<char> {
        "LOAD "@ + self.destination.rendered() + " "@ + self.source + " "@
            + self.offset.rendered()
    }
}

impl PartialEq for Load {
    fn eq(&self, other: &Self) -> (r: bool) {
        self.destination == other.destination && self.source == other.source && self.offset
            == other.offset
    }
}

impl PartialEqSpecImpl for Load {
    open spec fn obeys_eq_spec() -> bool {
        true
    }

    open spec fn eq_spec(&self, other: &Self) -> bool {
        self@ == other@
    }
}

impl Eq for Load {

}

impl Clone for Load {
    fn clone(&self) -> (r: Self)
        ensures
            r@ == self@,
    {
        Load {
            destination: self.destination.clone(),
            source: self.source.clone(),
            offset: self.offset.clone(),
        }
    }
}

impl Load {
    pub fn new(destination: MemoryReference, source: String, offset: MemoryReference) -> (r:
        Self)
        ensures
            r.destination == destination,
            r.source == source,
            r.offset == offset,
    {
        Load { destination, source, offset }
    }

    pub fn to_quil(&self) -> (r: String)
        ensures
            r@ == self@.rendered(),
    {
        let mut out = String::new();
        out.append("LOAD ");
        self.destination.write(&mut out);
        out.append(" ");
        out.append(self.source.as_str());
        out.append(" ");
        self.offset.write(&mut out);
        assert(out@ =~= self@.rendered());
        out
    }
}

/// `destination[value at offset] := source`.
#[derive(Debug, Hash)]
pub struct Store {
    pub destination: String,
    pub offset: MemoryReference,
    pub source: ArithmeticOperand,
}

pub struct StoreView {
    pub destination: Seq<char>,
    pub offset: MemoryReferenceView,
    pub source: ArithmeticOperandView,
}

impl View for Store {
    type V = StoreView;

    open spec fn view(&self) -> StoreView {
        StoreView {
            destination: self.destination@,
            offset: self.offset@,
            source: self.source@,
        }
    }
}

impl StoreView {
    /// `STORE destination offset source`.
    pub open spec fn rendered(self) -> Seq<char> {
        "STORE "@ + self.destination + " "@ + self.offset.rendered() + " "@
            + self.source.rendered()
    }
}

impl PartialEq for Store {
    fn eq(&self, other: &Self) -> (r: bool) {
        self.destination == other.destination && self.offset == other.offset && self.source
            == other.source
    }
}

impl PartialEqSpecImpl for Store {
    open spec fn obeys_eq_spec() -> bool {
        true
    }

    open spec fn eq_spec(&self, other: &Self) -> bool {
        self@ == other@
    }
}

impl Eq for Store {

}

impl Clone for Store {
    fn clone(&self) -> (r: Self)
        ensures
            r@ == self@,
    {
        Store {
            destination: self.destination.clone(),
            offset: self.offset.clone(),
            source: self.source.clone(),
        }
    }
}

impl Store {
    pub fn new(destination: String, offset: MemoryReference, source: ArithmeticOperand) -> (r:
        Self)
        ensures
            r.destination == destination,
            r.offset == offset,
            r.source == source,
    {
        Store { destination, offset, source }
    }

    pub fn to_quil(&self) -> (r: String)
        ensures
            r@ == self@.rendered(),
    {
        let mut out = String::new();
        out.append("STORE ");
        out.append(self.destination.as_str());
        out.append(" ");
        self.offset.write(&mut out);
        out.append(" ");
        self.source.write(&mut out);
        assert(out@ =~= self@.rendered());
        out
    }
}

} // verus!
