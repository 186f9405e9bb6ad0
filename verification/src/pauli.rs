//! Sums of products of the four single-qubit operators `I`, `X`, `Y` and `Z`, by which a
//! gate can be defined.
//!
//! Equality is by structure. Two sums with the same terms in another order are different
//! sums: nothing here sorts or merges terms.

use vstd::prelude::*;
use vstd::std_specs::cmp::PartialEqSpecImpl;
use vstd::string::*;
use crate::expression::{Expression, ExpressionView};
use crate::memory::SyntaxError;
use crate::text::{chars_of, copy_texts, holds_text, same_texts, text_is, texts};

verus! {

/// One of the four single-qubit operators.
#[derive(Clone, Copy, Debug, PartialEq, Eq, Hash, Structural)]
pub enum PauliGate {
    I,
    X,
    Y,
    Z,
}

impl PauliGate {
    /// The letter of the operator.
    pub open spec fn rendered(self) -> Seq<char> {
        match self {
            PauliGate::I => "I"@,
            PauliGate::X => "X"@,
            PauliGate::Y => "Y"@,
            PauliGate::Z => "Z"@,
        }
    }

    fn letter(self) -> (r: &'static str)
        ensures
            r@ == self.rendered(),
    {
        match self {
            PauliGate::I => "I",
            PauliGate::X => "X",
            PauliGate::Y => "Y",
            PauliGate::Z => "Z",
        }
    }

    /// The letter of the operator, as text.
    pub fn to_quil(&self) -> (r: String)
        ensures
            r@ == self.rendered(),
    {
        String::from_str(self.letter())
    }

    /// Reads the letter of an operator. Any other text is a syntax error, which carries
    /// the text.
    pub fn parse(input: &str) -> (r: Result<PauliGate, SyntaxError>)
        ensures
            match r {
                Ok(g) => input@ == g.rendered(),
                Err(e) => e.input@ == input@ && forall|g: PauliGate| input@ != g.rendered(),
            },
    {
        let t = chars_of(input);
        if text_is(&t, "I") {
            Ok(PauliGate::I)
        } else if text_is(&t, "X") {
            Ok(PauliGate::X)
        } else if text_is(&t, "Y") {
            Ok(PauliGate::Y)
        } else if text_is(&t, "Z") {
            Ok(PauliGate::Z)
        } else {
            Err(SyntaxError { input: String::from_str(input) })
        }
    }
}

/// The four letters are four different texts, so a letter names one operator.
pub proof fn lemma_letters_differ(a: PauliGate, b: PauliGate)
    ensures
        a.rendered() == b.rendered() <==> a == b,
{
    reveal_strlit("I");
    reveal_strlit("X");
    reveal_strlit("Y");
    reveal_strlit("Z");
    assert(a.rendered().len() == 1 && b.rendered().len() == 1);
    if a != b {
        assert(a.rendered()[0] != b.rendered()[0]);
    }
}

/// An operator and the name of the argument it acts on, as a term holds them.
pub open spec fn pair_views(s: Seq<(PauliGate, String)>) -> Seq<(PauliGate, Seq<char>)> {
    s.map_values(|p: (PauliGate, String)| (p.0, p.1@))
}

/// Whether two lists hold the same pairs in the same order.
pub fn same_pairs(a: &Vec<(PauliGate, String)>, b: &Vec<(PauliGate, String)>) -> (r: bool)
    ensures
        r == (pair_views(a@) == pair_views(b@)),
{
    if a.len() != b.len() {
        assert(pair_views(a@).len() != pair_views(b@).len());
        return false;
    }
    let mut i: usize = 0;
    while i < a.len()
        invariant
            i <= a.len(),
            a.len() == b.len(),
            forall|k: int| 0 <= k < i ==> a@[k].0 == b@[k].0 && a@[k].1@ == b@[k].1@,
        decreases a.len() - i,
    {
        if a[i].0 != b[i].0 || a[i].1 != b[i].1 {
            assert(pair_views(a@)[i as int] != pair_views(b@)[i as int]);
            return false;
        }
        i = i + 1;
    }
    assert(pair_views(a@) =~= pair_views(b@));
    true
}

/// A copy of a list of pairs.
pub fn copy_pairs(a: &Vec<(PauliGate, String)>) -> (r: Vec<(PauliGate, String)>)
    ensures
        pair_views(r@) == pair_views(a@),
{
    let mut r: Vec<(PauliGate, String)> = Vec::new();
    let mut i: usize = 0;
    while i < a.len()
        invariant
            i <= a.len(),
            r.len() == i,
            forall|k: int| 0 <= k < i ==> r@[k].0 == a@[k].0 && r@[k].1@ == a@[k].1@,
        decreases a.len() - i,
    {
        r.push((a[i].0, a[i].1.clone()));
        i = i + 1;
    }
    assert(pair_views(r@) =~= pair_views(a@));
    r
}

/// One summand: a coefficient times a product of operators, each on a named argument.
#[derive(Debug, Hash)]
pub struct PauliTerm {
    pub arguments: Vec<(PauliGate, String)>,
    pub expression: Expression,
}

pub struct PauliTermView {
    pub arguments: Seq<(PauliGate, Seq<char>)>,
    pub expression: ExpressionView,
}

impl View for PauliTerm {
    type V = PauliTermView;

    open spec fn view(&self) -> PauliTermView {
        PauliTermView { arguments: pair_views(self.arguments@), expression: self.expression@ }
    }
}

impl PauliTermView {
    /// Whether every argument that the term names is one of `names`.
    pub open spec fn names_within(self, names: Seq<Seq<char>>) -> bool {
        forall|i: int| 0 <= i < self.arguments.len() ==> names.contains(#[trigger] self.arguments[i].1)
    }

    /// The letters of the operators, in order.
    pub open spec fn letters(arguments: Seq<(PauliGate, Seq<char>)>) -> Seq<char>
        decreases arguments.len(),
    {
        if arguments.len() == 0 {
            Seq::<char>::empty()
        } else {
            Self::letters(arguments.drop_last()) + arguments.last().0.rendered()
        }
    }

    /// The names of the arguments, each behind a space.
    pub open spec fn names(arguments: Seq<(PauliGate, Seq<char>)>) -> Seq<char>
        decreases arguments.len(),
    {
        if arguments.len() == 0 {
            Seq::<char>::empty()
        } else {
            Self::names(arguments.drop_last()) + " "@ + arguments.last().1
        }
    }

    /// `LETTERS(coefficient) names`.
    pub open spec fn rendered(self) -> Seq<char> {
        Self::letters(self.arguments) + "("@ + self.expression.text + ")"@ + Self::names(
            self.arguments,
        )
    }
}

impl PartialEq for PauliTerm {
    fn eq(&self, other: &Self) -> (r: bool) {
        same_pairs(&self.arguments, &other.arguments) && self.expression == other.expression
    }
}

impl PartialEqSpecImpl for PauliTerm {
    open spec fn obeys_eq_spec() -> bool {
        true
    }

    open spec fn eq_spec(&self, other: &Self) -> bool {
        self@ == other@
    }
}

impl Eq for PauliTerm {

}

impl Clone for PauliTerm {
    fn clone(&self) -> (r: Self)
        ensures
            r@ == self@,
    {
        PauliTerm { arguments: copy_pairs(&self.arguments), expression: self.expression.clone() }
    }
}

impl PauliTerm {
    pub fn new(arguments: Vec<(PauliGate, String)>, expression: Expression) -> (r: Self)
        ensures
            r.arguments == arguments,
            r.expression == expression,
    {
        PauliTerm { arguments, expression }
    }

    /// Replaces the operators and their arguments; the coefficient stays.
    pub fn set_arguments(&mut self, arguments: Vec<(PauliGate, String)>)
        ensures
            final(self).arguments == arguments,
            final(self).expression == old(self).expression,
    {
        self.arguments = arguments;
    }

    /// Whether every argument that the term names is one of `names`.
    pub fn names_within(&self, names: &Vec<String>) -> (r: bool)
        ensures
            r == self@.names_within(texts(names@)),
    {
        let mut i: usize = 0;
        while i < self.arguments.len()
            invariant
                i <= self.arguments.len(),
                forall|k: int|
                    0 <= k < i ==> texts(names@).contains(#[trigger] self@.arguments[k].1),
            decreases self.arguments.len() - i,
        {
            if !holds_text(names, &self.arguments[i].1) {
                assert(self@.arguments[i as int].1 == self.arguments@[i as int].1@);
                return false;
            }
            assert(self@.arguments[i as int].1 == self.arguments@[i as int].1@);
            i = i + 1;
        }
        true
    }

    pub(crate) fn write(&self, out: &mut String)
        ensures
            final(out)@ == old(out)@ + self@.rendered(),
    {
        let ghost start = out@;
        let ghost pairs = self@.arguments;
        let mut i: usize = 0;
        while i < self.arguments.len()
            invariant
                i <= self.arguments.len(),
                pairs == pair_views(self.arguments@),
                out@ == start + PauliTermView::letters(pairs.take(i as int)),
            decreases self.arguments.len() - i,
        {
            out.append(self.arguments[i].0.letter());
            proof {
                let next = pairs.take(i + 1);
                assert(next.drop_last() =~= pairs.take(i as int));
                assert(next.last().0 == self.arguments@[i as int].0);
                assert(out@ =~= start + PauliTermView::letters(next));
            }
            i = i + 1;
        }
        assert(pairs.take(i as int) =~= pairs);
        out.append("(");
        out.append(self.expression.text.as_str());
        out.append(")");
        let ghost base = out@;
        let mut j: usize = 0;
        while j < self.arguments.len()
            invariant
                j <= self.arguments.len(),
                pairs == pair_views(self.arguments@),
                out@ == base + PauliTermView::names(pairs.take(j as int)),
            decreases self.arguments.len() - j,
        {
            out.append(" ");
            out.append(self.arguments[j].1.as_str());
            proof {
                let next = pairs.take(j + 1);
                assert(next.drop_last() =~= pairs.take(j as int));
                assert(next.last().1 == self.arguments@[j as int].1@);
                assert(out@ =~= base + PauliTermView::names(next));
            }
            j = j + 1;
        }
        assert(pairs.take(j as int) =~= pairs);
        assert(out@ =~= old(out)@ + self@.rendered());
    }

    pub fn to_quil(&self) -> (r: String)
        ensures
            r@ == self@.rendered(),
    {
        let mut out = String::new();
        self.write(&mut out);
        assert(out@ =~= self@.rendered());
        out
    }
}

/// Why a sum could not be built.
#[derive(Clone, Copy, Debug, PartialEq, Eq, Hash, Structural)]
pub enum PauliSumError {
    /// A term names an argument that the sum does not have.
    UnknownArgument,
}

/// The views of a list of terms.
pub open spec fn term_views(s: Seq<PauliTerm>) -> Seq<PauliTermView> {
    s.map_values(|t: PauliTerm| t@)
}

/// A sum of terms over named arguments. The order of the arguments is the order of the
/// qubits that a gate defined by the sum takes.
#[derive(Debug, Hash)]
pub struct PauliSum {
    pub arguments: Vec<String>,
    pub terms: Vec<PauliTerm>,
}

pub struct PauliSumView {
    pub arguments: Seq<Seq<char>>,
    pub terms: Seq<PauliTermView>,
}

impl View for PauliSum {
    type V = PauliSumView;

    open spec fn view(&self) -> PauliSumView {
        PauliSumView { arguments: texts(self.arguments@), terms: term_views(self.terms@) }
    }
}

impl PauliSumView {
    /// Every term names arguments of the sum only.
    pub open spec fn well_formed(self) -> bool {
        forall|t: int| 0 <= t < self.terms.len() ==> (#[trigger] self.terms[t]).names_within(
            self.arguments,
        )
    }

    /// The names, each behind a space.
    pub open spec fn arguments_rendered(names: Seq<Seq<char>>) -> Seq<char>
        decreases names.len(),
    {
        if names.len() == 0 {
            Seq::<char>::empty()
        } else {
            Self::arguments_rendered(names.drop_last()) + " "@ + names.last()
        }
    }

    /// `PAULI-SUM arguments:` and the terms, each on a line of its own.
    pub open spec fn rendered(self) -> Seq<char> {
        "PAULI-SUM"@ + Self::arguments_rendered(self.arguments) + ":"@ + Self::terms_rendered(
            self.terms,
        )
    }

    /// Each term on a line of its own, behind a line break and a tab.
    pub open spec fn terms_rendered(terms: Seq<PauliTermView>) -> Seq<char>
        decreases terms.len(),
    {
        if terms.len() == 0 {
            Seq::<char>::empty()
        } else {
            Self::terms_rendered(terms.drop_last()) + "\n\t"@ + terms.last().rendered()
        }
    }
}

impl PartialEq for PauliSum {
    fn eq(&self, other: &Self) -> (r: bool) {
        if !same_texts(&self.arguments, &other.arguments) {
            return false;
        }
        if self.terms.len() != other.terms.len() {
            assert(self@.terms.len() != other@.terms.len());
            return false;
        }
        let mut i: usize = 0;
        while i < self.terms.len()
            invariant
                i <= self.terms.len(),
                self.terms.len() == other.terms.len(),
                forall|k: int| 0 <= k < i ==> self.terms@[k]@ == other.terms@[k]@,
            decreases self.terms.len() - i,
        {
            if self.terms[i] != other.terms[i] {
                assert(self@.terms[i as int] != other@.terms[i as int]);
                return false;
            }
            i = i + 1;
        }
        assert(self@.terms =~= other@.terms);
        true
    }
}

impl PartialEqSpecImpl for PauliSum {
    open spec fn obeys_eq_spec() -> bool {
        true
    }

    open spec fn eq_spec(&self, other: &Self) -> bool {
        self@ == other@
    }
}

impl Eq for PauliSum {

}

impl Clone for PauliSum {
    fn clone(&self) -> (r: Self)
        ensures
            r@ == self@,
    {
        let mut terms: Vec<PauliTerm> = Vec::new();
        let mut i: usize = 0;
        while i < self.terms.len()
            invariant
                i <= self.terms.len(),
                terms.len() == i,
                forall|k: int| 0 <= k < i ==> terms@[k]@ == self.terms@[k]@,
            decreases self.terms.len() - i,
        {
            terms.push(self.terms[i].clone());
            i = i + 1;
        }
        assert(term_views(terms@) =~= term_views(self.terms@));
        PauliSum { arguments: copy_texts(&self.arguments), terms }
    }
}

impl PauliSum {
    /// Builds a sum. Where a term names an argument that is not among `arguments`, there
    /// is no sum.
    pub fn new(arguments: Vec<String>, terms: Vec<PauliTerm>) -> (r: Result<
        PauliSum,
        PauliSumError,
    >)
        ensures
            match r {
                Ok(s) => s.arguments == arguments && s.terms == terms && s@.well_formed(),
                Err(e) => e == PauliSumError::UnknownArgument && !(PauliSumView {
                    arguments: texts(arguments@),
                    terms: term_views(terms@),
                }).well_formed(),
            },
    {
        let sum = PauliSum { arguments, terms };
        if sum.is_well_formed() {
            Ok(sum)
        } else {
            Err(PauliSumError::UnknownArgument)
        }
    }

    /// Whether every term names arguments of the sum only.
    pub fn is_well_formed(&self) -> (r: bool)
        ensures
            r == self@.well_formed(),
    {
        let mut t: usize = 0;
        while t < self.terms.len()
            invariant
                t <= self.terms.len(),
                forall|k: int|
                    0 <= k < t ==> (#[trigger] self@.terms[k]).names_within(self@.arguments),
            decreases self.terms.len() - t,
        {
            assert(self@.terms[t as int] == self.terms@[t as int]@);
            if !self.terms[t].names_within(&self.arguments) {
                return false;
            }
            t = t + 1;
        }
        true
    }

    pub(crate) fn write_arguments(&self, out: &mut String)
        ensures
            final(out)@ == old(out)@ + PauliSumView::arguments_rendered(self@.arguments),
    {
        let ghost start = out@;
        let ghost names = texts(self.arguments@);
        let mut j: usize = 0;
        assert(out@ =~= start + PauliSumView::arguments_rendered(names.take(0)));
        while j < self.arguments.len()
            invariant
                j <= self.arguments.len(),
                names == texts(self.arguments@),
                out@ == start + PauliSumView::arguments_rendered(names.take(j as int)),
            decreases self.arguments.len() - j,
        {
            out.append(" ");
            out.append(self.arguments[j].as_str());
            proof {
                let next = names.take(j + 1);
                assert(next.drop_last() =~= names.take(j as int));
                assert(next.last() == self.arguments@[j as int]@);
                assert(out@ =~= start + PauliSumView::arguments_rendered(next));
            }
            j = j + 1;
        }
        assert(names.take(j as int) =~= names);
    }

    pub fn to_quil(&self) -> (r: String)
        ensures
            r@ == self@.rendered(),
    {
        let mut out = String::new();
        out.append("PAULI-SUM");
        self.write_arguments(&mut out);
        out.append(":");
        self.write_terms(&mut out);
        assert(out@ =~= self@.rendered());
        out
    }

    pub(crate) fn write_terms(&self, out: &mut String)
        ensures
            final(out)@ == old(out)@ + PauliSumView::terms_rendered(self@.terms),
    {
        let ghost start = out@;
        let ghost views = self@.terms;
        let mut i: usize = 0;
        while i < self.terms.len()
            invariant
                i <= self.terms.len(),
                views == term_views(self.terms@),
                out@ == start + PauliSumView::terms_rendered(views.take(i as int)),
            decreases self.terms.len() - i,
        {
            out.append("\n\t");
            self.terms[i].write(out);
            proof {
                let next = views.take(i + 1);
                assert(next.drop_last() =~= views.take(i as int));
                assert(next.last() == self.terms@[i as int]@);
                assert(out@ =~= start + PauliSumView::terms_rendered(next));
            }
            i = i + 1;
        }
        assert(views.take(i as int) =~= views);
    }
}

} // verus!
