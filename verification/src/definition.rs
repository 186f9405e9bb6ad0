//! Definitions of custom gates: by a matrix of expressions, by a permutation of the basis
//! states, or by a sum of operator products.
//!
//! Building a definition checks the shape of what defines it. Whether a matrix is unitary
//! and whether a permutation maps each index to one of its own is asked only when a gate
//! of that name is laid out.

use vstd::prelude::*;
use vstd::std_specs::cmp::PartialEqSpecImpl;
use vstd::string::*;
use crate::expression::{
    copy_expressions, expression_views, same_expressions, Expression, ExpressionView,
};
use crate::gate::{GateError, GateView};
use crate::pauli::{PauliSum, PauliSumView};
use crate::power::{exponent, exponent_of, is_power_of_two};
use crate::text::{copy_items, copy_texts, decimal, push_decimal, same_texts, texts};

verus! {

/// The views of the rows of a matrix.
pub open spec fn row_views(rows: Seq<Vec<Expression>>) -> Seq<Seq<ExpressionView>> {
    rows.map_values(|row: Vec<Expression>| expression_views(row@))
}

/// Whether `p` maps the indices below its length onto themselves, each to another.
pub open spec fn is_permutation(p: Seq<u64>) -> bool {
    &&& forall|i: int| 0 <= i < p.len() ==> #[trigger] p[i] < p.len()
    &&& forall|i: int, j: int| 0 <= i < j < p.len() ==> p[i] != p[j]
}

/// Whether `p` maps the indices below its length onto themselves, each to another.
pub fn check_permutation(p: &Vec<u64>) -> (r: bool)
    ensures
        r == is_permutation(p@),
{
    let n = p.len();
    let mut i: usize = 0;
    while i < n
        invariant
            i <= n,
            n == p.len(),
            forall|k: int| 0 <= k < i ==> #[trigger] p@[k] < n,
            forall|k: int, j: int| 0 <= k < j < i ==> p@[k] != p@[j],
        decreases n - i,
    {
        if p[i] >= n as u64 {
            return false;
        }
        let mut j: usize = 0;
        while j < i
            invariant
                j <= i < n,
                n == p.len(),
                forall|k: int| 0 <= k < j ==> p@[k] != p@[i as int],
            decreases i - j,
        {
            if p[j] == p[i] {
                return false;
            }
            j = j + 1;
        }
        i = i + 1;
    }
    true
}

/// What a custom gate is defined by.
#[derive(Debug, Hash)]
pub enum GateSpecification {
    /// The matrix itself, row by row.
    Matrix(Vec<Vec<Expression>>),
    /// The basis state that each basis state is taken to.
    Permutation(Vec<u64>),
    /// The operator sum whose exponential is the matrix.
    PauliSum(PauliSum),
}

pub enum GateSpecificationView {
    Matrix(Seq<Seq<ExpressionView>>),
    Permutation(Seq<u64>),
    PauliSum(PauliSumView),
}

impl View for GateSpecification {
    type V = GateSpecificationView;

    open spec fn view(&self) -> GateSpecificationView {
        match self {
            GateSpecification::Matrix(rows) => GateSpecificationView::Matrix(row_views(rows@)),
            GateSpecification::Permutation(p) => GateSpecificationView::Permutation(p@),
            GateSpecification::PauliSum(s) => GateSpecificationView::PauliSum(s@),
        }
    }
}

impl GateSpecificationView {
    /// A matrix is square and its side a power of two; the length of a permutation is a
    /// power of two. A sum has no shape to check.
    pub open spec fn shape_valid(self) -> bool {
        match self {
            GateSpecificationView::Matrix(rows) => {
                &&& is_power_of_two(rows.len())
                &&& forall|i: int| 0 <= i < rows.len() ==> (#[trigger] rows[i]).len() == rows.len()
            },
            GateSpecificationView::Permutation(p) => is_power_of_two(p.len()),
            GateSpecificationView::PauliSum(_) => true,
        }
    }

    /// How many qubits a gate so defined acts on.
    pub open spec fn qubits(self) -> nat {
        match self {
            GateSpecificationView::Matrix(rows) => exponent(rows.len()),
            GateSpecificationView::Permutation(p) => exponent(p.len()),
            GateSpecificationView::PauliSum(s) => s.arguments.len(),
        }
    }

    /// The keyword of the kind of definition.
    pub open spec fn kind(self) -> Seq<char> {
        match self {
            GateSpecificationView::Matrix(_) => "MATRIX"@,
            GateSpecificationView::Permutation(_) => "PERMUTATION"@,
            GateSpecificationView::PauliSum(_) => "PAULI-SUM"@,
        }
    }

    /// Each row on a line of its own, behind a line break and a tab.
    pub open spec fn rows_rendered(rows: Seq<Seq<ExpressionView>>) -> Seq<char>
        decreases rows.len(),
    {
        if rows.len() == 0 {
            Seq::<char>::empty()
        } else {
            Self::rows_rendered(rows.drop_last()) + "\n\t"@ + GateView::expressions_joined(
                rows.last(),
            )
        }
    }

    /// The numerals of the numbers, with `, ` between them.
    pub open spec fn numbers_joined(numbers: Seq<u64>) -> Seq<char>
        decreases numbers.len(),
    {
        if numbers.len() == 0 {
            Seq::<char>::empty()
        } else if numbers.len() == 1 {
            decimal(numbers[0] as nat)
        } else {
            Self::numbers_joined(numbers.drop_last()) + ", "@ + decimal(numbers.last() as nat)
        }
    }

    /// The lines below the head of a definition.
    pub open spec fn rendered(self) -> Seq<char> {
        match self {
            GateSpecificationView::Matrix(rows) => Self::rows_rendered(rows),
            GateSpecificationView::Permutation(p) => "\n\t"@ + Self::numbers_joined(p),
            GateSpecificationView::PauliSum(s) => PauliSumView::terms_rendered(s.terms),
        }
    }
}

fn same_rows(a: &Vec<Vec<Expression>>, b: &Vec<Vec<Expression>>) -> (r: bool)
    ensures
        r == (row_views(a@) == row_views(b@)),
{
    if a.len() != b.len() {
        assert(row_views(a@).len() != row_views(b@).len());
        return false;
    }
    let mut i: usize = 0;
    while i < a.len()
        invariant
            i <= a.len(),
            a.len() == b.len(),
            forall|k: int| 0 <= k < i ==> expression_views(a@[k]@) == expression_views(b@[k]@),
        decreases a.len() - i,
    {
        if !same_expressions(&a[i], &b[i]) {
            assert(row_views(a@)[i as int] != row_views(b@)[i as int]);
            return false;
        }
        i = i + 1;
    }
    assert(row_views(a@) =~= row_views(b@));
    true
}

fn copy_rows(a: &Vec<Vec<Expression>>) -> (r: Vec<Vec<Expression>>)
    ensures
        row_views(r@) == row_views(a@),
{
    let mut r: Vec<Vec<Expression>> = Vec::new();
    let mut i: usize = 0;
    while i < a.len()
        invariant
            i <= a.len(),
            r.len() == i,
            forall|k: int| 0 <= k < i ==> expression_views(r@[k]@) == expression_views(a@[k]@),
        decreases a.len() - i,
    {
        r.push(copy_expressions(&a[i]));
        i = i + 1;
    }
    assert(row_views(r@) =~= row_views(a@));
    r
}

fn same_numbers(a: &Vec<u64>, b: &Vec<u64>) -> (r: bool)
    ensures
        r == (a@ == b@),
{
    if a.len() != b.len() {
        return false;
    }
    let mut i: usize = 0;
    while i < a.len()
        invariant
            i <= a.len(),
            a.len() == b.len(),
            forall|k: int| 0 <= k < i ==> a@[k] == b@[k],
        decreases a.len() - i,
    {
        if a[i] != b[i] {
            return false;
        }
        i = i + 1;
    }
    assert(a@ =~= b@);
    true
}

impl PartialEq for GateSpecification {
    fn eq(&self, other: &Self) -> (r: bool) {
        match (self, other) {
            (GateSpecification::Matrix(a), GateSpecification::Matrix(b)) => same_rows(a, b),
            (GateSpecification::Permutation(a), GateSpecification::Permutation(b)) => {
                same_numbers(a, b)
            },
            (GateSpecification::PauliSum(a), GateSpecification::PauliSum(b)) => a == b,
            _ => false,
        }
    }
}

impl PartialEqSpecImpl for GateSpecification {
    open spec fn obeys_eq_spec() -> bool {
        true
    }

    open spec fn eq_spec(&self, other: &Self) -> bool {
        self@ == other@
    }
}

impl Eq for GateSpecification {

}

impl Clone for GateSpecification {
    fn clone(&self) -> (r: Self)
        ensures
            r@ == self@,
    {
        match self {
            GateSpecification::Matrix(rows) => GateSpecification::Matrix(copy_rows(rows)),
            GateSpecification::Permutation(p) => GateSpecification::Permutation(copy_items(p)),
            GateSpecification::PauliSum(s) => GateSpecification::PauliSum(s.clone()),
        }
    }
}

impl GateSpecification {
    /// Whether the shape is one that a gate can have.
    pub fn is_shape_valid(&self) -> (r: bool)
        ensures
            r == self@.shape_valid(),
    {
        match self {
            GateSpecification::Matrix(rows) => {
                if exponent_of(rows.len()).is_none() {
                    return false;
                }
                let mut i: usize = 0;
                while i < rows.len()
                    invariant
                        i <= rows.len(),
                        self@ == GateSpecificationView::Matrix(row_views(rows@)),
                        forall|k: int| 0 <= k < i ==> rows@[k].len() == rows.len(),
                    decreases rows.len() - i,
                {
                    if rows[i].len() != rows.len() {
                        assert(row_views(rows@)[i as int].len() != rows.len());
                        return false;
                    }
                    i = i + 1;
                }
                assert forall|k: int| 0 <= k < rows.len() implies (#[trigger] row_views(
                    rows@,
                )[k]).len() == rows.len() by {
                    assert(rows@[k].len() == rows.len());
                }
                true
            },
            GateSpecification::Permutation(p) => exponent_of(p.len()).is_some(),
            GateSpecification::PauliSum(_) => true,
        }
    }

    /// How many qubits a gate so defined acts on, if the shape is valid.
    pub fn qubits(&self) -> (r: Option<usize>)
        ensures
            match r {
                Some(q) => self@.shape_valid() && q == self@.qubits(),
                None => !self@.shape_valid(),
            },
    {
        if !self.is_shape_valid() {
            return None;
        }
        match self {
            GateSpecification::Matrix(rows) => exponent_of(rows.len()),
            GateSpecification::Permutation(p) => exponent_of(p.len()),
            GateSpecification::PauliSum(s) => Some(s.arguments.len()),
        }
    }

    fn kind(&self) -> (r: &'static str)
        ensures
            r@ == self@.kind(),
    {
        match self {
            GateSpecification::Matrix(_) => "MATRIX",
            GateSpecification::Permutation(_) => "PERMUTATION",
            GateSpecification::PauliSum(_) => "PAULI-SUM",
        }
    }

    fn write(&self, out: &mut String)
        ensures
            final(out)@ == old(out)@ + self@.rendered(),
    {
        match self {
            GateSpecification::Matrix(rows) => {
                let ghost start = out@;
                let ghost views = row_views(rows@);
                let mut i: usize = 0;
                while i < rows.len()
                    invariant
                        i <= rows.len(),
                        views == row_views(rows@),
                        out@ == start + GateSpecificationView::rows_rendered(
                            views.take(i as int),
                        ),
                    decreases rows.len() - i,
                {
                    out.append("\n\t");
                    write_joined(&rows[i], out);
                    proof {
                        let next = views.take(i + 1);
                        assert(next.drop_last() =~= views.take(i as int));
                        assert(next.last() == expression_views(rows@[i as int]@));
                        assert(out@ =~= start + GateSpecificationView::rows_rendered(next));
                    }
                    i = i + 1;
                }
                assert(views.take(i as int) =~= views);
            },
            GateSpecification::Permutation(p) => {
                out.append("\n\t");
                let ghost base = out@;
                let mut i: usize = 0;
                while i < p.len()
                    invariant
                        i <= p.len(),
                        out@ == base + GateSpecificationView::numbers_joined(p@.take(i as int)),
                    decreases p.len() - i,
                {
                    if i > 0 {
                        out.append(", ");
                    }
                    push_decimal(out, p[i]);
                    proof {
                        let next = p@.take(i + 1);
                        assert(next.drop_last() =~= p@.take(i as int));
                        assert(out@ =~= base + GateSpecificationView::numbers_joined(next));
                    }
                    i = i + 1;
                }
                assert(p@.take(i as int) =~= p@);
                assert(out@ =~= old(out)@ + self@.rendered());
            },
            GateSpecification::PauliSum(s) => {
                s.write_terms(out);
            },
        }
    }

    pub fn to_quil(&self) -> (r: String)
        ensures
            r@ == self@.rendered(),
    {
        let mut out = String::new();
        self.write(&mut out);
        assert(out@ =~= self@.rendered());
        out
    }
}

/// Appends the texts of the expressions, with `, ` between them.
fn write_joined(expressions: &Vec<Expression>, out: &mut String)
    ensures
        final(out)@ == old(out)@ + GateView::expressions_joined(expression_views(expressions@)),
{
    let ghost views = expression_views(expressions@);
    let ghost base = out@;
    let mut i: usize = 0;
    assert(out@ =~= base + GateView::expressions_joined(views.take(0)));
    while i < expressions.len()
        invariant
            i <= expressions.len(),
            views == expression_views(expressions@),
            out@ == base + GateView::expressions_joined(views.take(i as int)),
        decreases expressions.len() - i,
    {
        if i > 0 {
            out.append(", ");
        }
        out.append(expressions[i].text.as_str());
        proof {
            let next = views.take(i + 1);
            assert(next.drop_last() =~= views.take(i as int));
            assert(next.last() == expressions@[i as int]@);
            assert(out@ =~= base + GateView::expressions_joined(next));
        }
        i = i + 1;
    }
    assert(views.take(i as int) =~= views);
}

/// A custom gate: its name, the names of its parameters, and what defines it.
#[derive(Debug, Hash)]
pub struct GateDefinition {
    pub name: String,
    pub parameters: Vec<String>,
    pub specification: GateSpecification,
}

pub struct GateDefinitionView {
    pub name: Seq<char>,
    pub parameters: Seq<Seq<char>>,
    pub specification: GateSpecificationView,
}

impl View for GateDefinition {
    type V = GateDefinitionView;

    open spec fn view(&self) -> GateDefinitionView {
        GateDefinitionView {
            name: self.name@,
            parameters: texts(self.parameters@),
            specification: self.specification@,
        }
    }
}

impl GateDefinitionView {
    /// The names, each behind `%`, with `, ` between them.
    pub open spec fn formals_joined(names: Seq<Seq<char>>) -> Seq<char>
        decreases names.len(),
    {
        if names.len() == 0 {
            Seq::<char>::empty()
        } else if names.len() == 1 {
            "%"@ + names[0]
        } else {
            Self::formals_joined(names.drop_last()) + ", %"@ + names.last()
        }
    }

    /// The formal parameters in round brackets; nothing where there is none.
    pub open spec fn formals_rendered(names: Seq<Seq<char>>) -> Seq<char> {
        if names.len() == 0 {
            Seq::<char>::empty()
        } else {
            "("@ + Self::formals_joined(names) + ")"@
        }
    }

    /// The qubit arguments that the head of the definition names: those of the sum,
    /// where a sum is the definition.
    pub open spec fn head_arguments(self) -> Seq<Seq<char>> {
        match self.specification {
            GateSpecificationView::PauliSum(s) => s.arguments,
            _ => Seq::<Seq<char>>::empty(),
        }
    }

    /// `DEFGATE name(%parameters) arguments AS KIND:` and the lines of the definition.
    pub open spec fn rendered(self) -> Seq<char> {
        "DEFGATE "@ + self.name + Self::formals_rendered(self.parameters)
            + PauliSumView::arguments_rendered(self.head_arguments()) + " AS "@
            + self.specification.kind() + ":"@ + self.specification.rendered()
    }
}

impl PartialEq for GateDefinition {
    fn eq(&self, other: &Self) -> (r: bool) {
        self.name == other.name && same_texts(&self.parameters, &other.parameters)
            && self.specification == other.specification
    }
}

impl PartialEqSpecImpl for GateDefinition {
    open spec fn obeys_eq_spec() -> bool {
        true
    }

    open spec fn eq_spec(&self, other: &Self) -> bool {
        self@ == other@
    }
}

impl Eq for GateDefinition {

}

impl Clone for GateDefinition {
    fn clone(&self) -> (r: Self)
        ensures
            r@ == self@,
    {
        GateDefinition {
            name: self.name.clone(),
            parameters: copy_texts(&self.parameters),
            specification: self.specification.clone(),
        }
    }
}

impl GateDefinition {
    /// Builds a definition. A matrix that is not square, and a matrix or permutation whose
    /// size is no power of two, define nothing.
    pub fn new(name: String, parameters: Vec<String>, specification: GateSpecification) -> (r:
        Result<GateDefinition, GateError>)
        ensures
            match r {
                Ok(d) => {
                    &&& d.name == name
                    &&& d.parameters == parameters
                    &&& d.specification == specification
                    &&& specification@.shape_valid()
                },
                Err(e) => e == GateError::InvalidSpecificationShape
                    && !specification@.shape_valid(),
            },
    {
        if specification.is_shape_valid() {
            Ok(GateDefinition { name, parameters, specification })
        } else {
            Err(GateError::InvalidSpecificationShape)
        }
    }

    pub fn to_quil(&self) -> (r: String)
        ensures
            r@ == self@.rendered(),
    {
        let mut out = String::new();
        out.append("DEFGATE ");
        out.append(self.name.as_str());
        let ghost names = texts(self.parameters@);
        if self.parameters.len() > 0 {
            out.append("(");
            let ghost base = out@;
            let mut i: usize = 0;
            assert(out@ =~= base + GateDefinitionView::formals_joined(names.take(0)));
            while i < self.parameters.len()
                invariant
                    i <= self.parameters.len(),
                    names == texts(self.parameters@),
                    out@ == base + GateDefinitionView::formals_joined(names.take(i as int)),
                decreases self.parameters.len() - i,
            {
                if i > 0 {
                    out.append(", %");
                } else {
                    out.append("%");
                }
                out.append(self.parameters[i].as_str());
                proof {
                    let next = names.take(i + 1);
                    assert(next.drop_last() =~= names.take(i as int));
                    assert(next.last() == self.parameters@[i as int]@);
                    assert(out@ =~= base + GateDefinitionView::formals_joined(next));
                }
                i = i + 1;
            }
            assert(names.take(i as int) =~= names);
            out.append(")");
        }
        assert(out@ =~= "DEFGATE "@ + self@.name + GateDefinitionView::formals_rendered(names));
        match &self.specification {
            GateSpecification::PauliSum(s) => {
                s.write_arguments(&mut out);
            },
            _ => {
                assert(out@ =~= out@ + PauliSumView::arguments_rendered(self@.head_arguments()));
            },
        }
        out.append(" AS ");
        out.append(self.specification.kind());
        out.append(":");
        self.specification.write(&mut out);
        assert(out@ =~= self@.rendered());
        out
    }
}

} // verus!
