//! The matrix of a gate over a register of qubits, as far as the structure of a gate decides
//! it.
//!
//! A gate's matrix is built from the matrix that its name stands for: each adjoint
//! transposes and conjugates, each control and each fork puts two blocks on the diagonal,
//! and at last the matrix is spread over the register. None of this computes with the
//! numbers in the matrix. So a layout says of every entry whether it is zero, one, or an
//! entry of the named matrix, and which: the arithmetic on complex numbers is left to
//! whoever fills the numbers in.
//!
//! Qubit 0 is the lowest binary digit of a row or column index of the register. Among a
//! gate's operands the first is the highest digit of an index into its own matrix.

use vstd::prelude::*;
use vstd::arithmetic::power2::{
    lemma2_to64, lemma2_to64_rest, lemma_pow2_strictly_increases, lemma_pow2_unfold, pow2,
};
use crate::catalog::{arity_of, known_arity, Arity};
use crate::definition::{
    check_permutation, is_permutation, GateDefinition, GateDefinitionView, GateSpecification,
    GateSpecificationView,
};
use crate::expression::{Expression, ExpressionView, Qubit};
use crate::gate::{
    arity_fits, cancelled, count_lifts, fits, forks, holds_qubit, lemma_cancelled,
    lemma_lifts_push, lifts, Gate, GateError, GateModifier, GateView,
};
use crate::power::{
    bit, bit_of, exponent, is_power_of_two, lemma_exponent, lemma_exponent_bound, power_of_two,
};

verus! {

/// One entry of a layout.
#[derive(Clone, Copy, Debug, PartialEq, Eq, Hash, Structural)]
pub enum Entry {
    Zero,
    One,
    /// The entry in `row` and `column` of the matrix that this gate's name stands for,
    /// taken with the parameters that start at `offset` among this gate's parameters;
    /// where `conjugated`, the complex conjugate of that entry.
    Base { row: u64, column: u64, offset: usize, conjugated: bool },
}

impl Entry {
    /// The complex conjugate of the entry.
    pub open spec fn conjugate(self) -> Entry {
        match self {
            Entry::Base { row, column, offset, conjugated } => Entry::Base {
                row,
                column,
                offset,
                conjugated: !conjugated,
            },
            e => e,
        }
    }

    /// The complex conjugate of the entry.
    pub fn conjugated(self) -> (r: Entry)
        ensures
            r == self.conjugate(),
    {
        match self {
            Entry::Base { row, column, offset, conjugated } => Entry::Base {
                row,
                column,
                offset,
                conjugated: !conjugated,
            },
            e => e,
        }
    }
}

/// The views of a list of definitions.
pub open spec fn definition_views(s: Seq<GateDefinition>) -> Seq<GateDefinitionView> {
    s.map_values(|d: GateDefinition| d@)
}

/// Whether the definition at `i` is the first one of the name.
pub open spec fn is_first_definition(
    definitions: Seq<GateDefinitionView>,
    name: Seq<char>,
    i: int,
) -> bool {
    &&& 0 <= i < definitions.len()
    &&& definitions[i].name == name
    &&& forall|j: int| 0 <= j < i ==> (#[trigger] definitions[j]).name != name
}

/// The place of the first definition of the name, if there is one.
pub open spec fn definition_of(definitions: Seq<GateDefinitionView>, name: Seq<char>) -> Option<
    int,
> {
    if exists|i: int| is_first_definition(definitions, name, i) {
        Some(choose|i: int| is_first_definition(definitions, name, i))
    } else {
        None
    }
}

/// The place of the first definition of the name, if there is one.
pub fn find_definition(definitions: &Vec<GateDefinition>, name: &String) -> (r: Option<usize>)
    ensures
        match r {
            Some(i) => definition_of(definition_views(definitions@), name@) == Some(i as int),
            None => definition_of(definition_views(definitions@), name@) is None,
        },
{
    let ghost views = definition_views(definitions@);
    let mut i: usize = 0;
    while i < definitions.len()
        invariant
            i <= definitions.len(),
            views == definition_views(definitions@),
            forall|j: int| 0 <= j < i ==> (#[trigger] views[j]).name != name@,
        decreases definitions.len() - i,
    {
        assert(views[i as int] == definitions@[i as int]@);
        if definitions[i].name == *name {
            proof {
                assert(is_first_definition(views, name@, i as int));
                let k = choose|k: int| is_first_definition(views, name@, k);
                assert(k == i);
            }
            return Some(i);
        }
        i = i + 1;
    }
    None
}

/// What a gate's name stands for: how many parameters and qubits the named matrix takes,
/// and the place of the definition it comes from, if the name is not built in.
#[derive(Clone, Copy, Debug, PartialEq, Eq, Hash, Structural)]
pub struct Kernel {
    pub arity: Arity,
    pub definition: Option<usize>,
}

impl Kernel {
    /// The permutation that defines the named matrix, if one does.
    pub open spec fn permutation(self, definitions: Seq<GateDefinitionView>) -> Option<
        Seq<u64>,
    > {
        match self.definition {
            Some(i) => match definitions[i as int].specification {
                GateSpecificationView::Permutation(p) => Some(p),
                _ => None,
            },
            None => None,
        }
    }
}

/// What the definition at `i` makes of a name: a kernel, if the definition has the shape
/// of a gate and, where it is a permutation or a sum, is a proper one.
pub open spec fn kernel_of_definition(definitions: Seq<GateDefinitionView>, i: int) -> Result<
    Kernel,
    GateError,
> {
    let d = definitions[i];
    if !d.specification.shape_valid() {
        Err(GateError::InvalidSpecificationShape)
    } else if d.specification matches GateSpecificationView::Permutation(p) && !is_permutation(p) {
        Err(GateError::InvalidSpecificationShape)
    } else if d.specification matches GateSpecificationView::PauliSum(s) && !s.well_formed() {
        Err(GateError::InvalidSpecificationShape)
    } else {
        Ok(
            Kernel {
                arity: Arity {
                    parameters: d.parameters.len() as usize,
                    qubits: d.specification.qubits() as usize,
                },
                definition: Some(i as usize),
            },
        )
    }
}

/// What a name stands for. A built-in name stands for its matrix, whatever is defined;
/// any other name for its first definition.
pub open spec fn kernel_of(name: Seq<char>, definitions: Seq<GateDefinitionView>) -> Result<
    Kernel,
    GateError,
> {
    match known_arity(name) {
        Some(arity) => Ok(Kernel { arity, definition: None }),
        None => match definition_of(definitions, name) {
            Some(i) => kernel_of_definition(definitions, i),
            None => Err(GateError::UnknownGate),
        },
    }
}

/// What a name stands for.
pub fn resolve(name: &String, definitions: &Vec<GateDefinition>) -> (r: Result<Kernel, GateError>)
    ensures
        r == kernel_of(name@, definition_views(definitions@)),
{
    match arity_of(name.as_str()) {
        Some(arity) => Ok(Kernel { arity, definition: None }),
        None => match find_definition(definitions, name) {
            None => Err(GateError::UnknownGate),
            Some(i) => {
                let d = &definitions[i];
                assert(definition_views(definitions@)[i as int] == d@);
                match d.specification.qubits() {
                    None => Err(GateError::InvalidSpecificationShape),
                    Some(qubits) => {
                        let proper = match &d.specification {
                            GateSpecification::Permutation(p) => check_permutation(p),
                            GateSpecification::PauliSum(s) => s.is_well_formed(),
                            GateSpecification::Matrix(_) => true,
                        };
                        if proper {
                            Ok(
                                Kernel {
                                    arity: Arity { parameters: d.parameters.len(), qubits },
                                    definition: Some(i),
                                },
                            )
                        } else {
                            Err(GateError::InvalidSpecificationShape)
                        }
                    },
                }
            },
        },
    }
}

/// The entry of the named matrix itself: symbolic, unless a permutation defines the
/// matrix, which then holds a one where the column's basis state is taken to the row's.
pub open spec fn leaf(permutation: Option<Seq<u64>>, offset: nat, row: nat, column: nat) -> Entry {
    match permutation {
        Some(p) => if column < p.len() && p[column as int] == row {
            Entry::One
        } else {
            Entry::Zero
        },
        None => Entry::Base {
            row: row as u64,
            column: column as u64,
            offset: offset as usize,
            conjugated: false,
        },
    }
}

/// The entry in `row` and `column` of the matrix of a gate on its own operands: the named
/// matrix on `width` qubits under the modifiers, with the `count` parameters that start at
/// `offset`.
///
/// The last modifier is the outermost. An adjoint swaps row and column and conjugates. A
/// control puts the identity in the upper left block and the matrix below it in the lower
/// right one. A fork puts there the matrix below it with the first half of the parameters
/// and with the second half.
pub open spec fn folded(
    permutation: Option<Seq<u64>>,
    width: nat,
    modifiers: Seq<GateModifier>,
    count: nat,
    offset: nat,
    row: nat,
    column: nat,
) -> Entry
    decreases modifiers.len(),
{
    if modifiers.len() == 0 {
        leaf(permutation, offset, row, column)
    } else {
        let inner = modifiers.drop_last();
        let half = pow2(width + lifts(inner));
        match modifiers.last() {
            GateModifier::Dagger => folded(
                permutation,
                width,
                inner,
                count,
                offset,
                column,
                row,
            ).conjugate(),
            GateModifier::Controlled => if row < half && column < half {
                if row == column {
                    Entry::One
                } else {
                    Entry::Zero
                }
            } else if row >= half && column >= half {
                folded(
                    permutation,
                    width,
                    inner,
                    count,
                    offset,
                    (row - half) as nat,
                    (column - half) as nat,
                )
            } else {
                Entry::Zero
            },
            GateModifier::Forked => if row < half && column < half {
                folded(permutation, width, inner, count / 2, offset, row, column)
            } else if row >= half && column >= half {
                folded(
                    permutation,
                    width,
                    inner,
                    count / 2,
                    offset + count / 2,
                    (row - half) as nat,
                    (column - half) as nat,
                )
            } else {
                Entry::Zero
            },
        }
    }
}

/// The index into a gate's own matrix that a register index gives: the binary digits of
/// `index` at the places of the operands, the first operand's digit highest.
pub open spec fn gathered(qubits: Seq<Qubit>, index: nat) -> nat
    decreases qubits.len(),
{
    if qubits.len() == 0 {
        0
    } else {
        2 * gathered(qubits.drop_last(), index) + bit(index, qubits.last().index as nat)
    }
}

/// Whether two register indices have the same binary digit at every place that is not an
/// operand.
pub open spec fn agree_elsewhere(qubits: Seq<Qubit>, register: nat, row: nat, column: nat) -> bool {
    forall|k: u64|
        #![trigger bit(row, k as nat)]
        k < register && !qubits.contains(Qubit { index: k }) ==> bit(row, k as nat) == bit(
            column,
            k as nat,
        )
}

/// Whether every parameter stands for a number.
pub open spec fn all_resolved(parameters: Seq<ExpressionView>) -> bool {
    forall|i: int| 0 <= i < parameters.len() ==> (#[trigger] parameters[i]).resolved()
}

/// Whether every operand is a qubit of the register.
pub open spec fn all_within(qubits: Seq<Qubit>, register: nat) -> bool {
    forall|i: int| 0 <= i < qubits.len() ==> (#[trigger] qubits[i]).index < register
}

/// Why this gate has no layout over a register of `register` qubits, if it has none. The
/// first of these that holds: a parameter is no number; the name stands for nothing, or for
/// a definition that is out of shape; the numbers of parameters and operands do not fit
/// the name and the modifiers; an operand is outside the register; an operand stands
/// twice.
pub open spec fn layout_error(
    gate: GateView,
    register: nat,
    definitions: Seq<GateDefinitionView>,
) -> Option<GateError> {
    if !all_resolved(gate.parameters) {
        Some(GateError::UnresolvedParameter)
    } else {
        match kernel_of(gate.name, definitions) {
            Err(e) => Some(e),
            Ok(kernel) => if !arity_fits(
                kernel.arity,
                gate.parameters.len(),
                gate.qubits.len(),
                gate.modifiers,
            ) {
                Some(GateError::InvalidArity)
            } else if !all_within(gate.qubits, register) {
                Some(GateError::QubitOutOfRange)
            } else if !gate.qubits.no_duplicates() {
                Some(GateError::DuplicateQubit)
            } else {
                None
            },
        }
    }
}

/// The entry in `row` and `column` of this gate's matrix over the register: the entry of
/// this gate's own matrix that the digits at the operands select, where the two indices
/// agree in every other digit, and zero where they do not.
pub open spec fn layout_entry(
    gate: GateView,
    register: nat,
    definitions: Seq<GateDefinitionView>,
    row: nat,
    column: nat,
) -> Entry
    recommends
        layout_error(gate, register, definitions) is None,
{
    let kernel = kernel_of(gate.name, definitions)->Ok_0;
    if agree_elsewhere(gate.qubits, register, row, column) {
        folded(
            kernel.permutation(definitions),
            kernel.arity.qubits as nat,
            gate.modifiers,
            gate.parameters.len(),
            0,
            gathered(gate.qubits, row),
            gathered(gate.qubits, column),
        )
    } else {
        Entry::Zero
    }
}

/// The layout of this gate's matrix over a register of `register` qubits, row by row, or
/// why there is none.
pub open spec fn layout(
    gate: GateView,
    register: nat,
    definitions: Seq<GateDefinitionView>,
) -> Result<Seq<Seq<Entry>>, GateError> {
    match layout_error(gate, register, definitions) {
        Some(e) => Err(e),
        None => Ok(
            Seq::new(
                pow2(register),
                |row: int|
                    Seq::new(
                        pow2(register),
                        |column: int|
                            layout_entry(gate, register, definitions, row as nat, column as nat),
                    ),
            ),
        ),
    }
}

/// The index that the digits at the operands make is below two to the number of operands.
pub proof fn lemma_gathered_bound(qubits: Seq<Qubit>, index: nat)
    ensures
        gathered(qubits, index) < pow2(qubits.len()),
    decreases qubits.len(),
{
    lemma2_to64();
    if qubits.len() > 0 {
        lemma_gathered_bound(qubits.drop_last(), index);
        lemma_pow2_unfold(qubits.len());
    }
}

/// Different qubits of a register of `register` qubits are `register` at most.
pub proof fn lemma_operands_bound(qubits: Seq<Qubit>, register: nat)
    requires
        qubits.no_duplicates(),
        all_within(qubits, register),
    ensures
        qubits.len() <= register,
{
    let places = qubits.map_values(|q: Qubit| q.index as int);
    assert(places.no_duplicates()) by {
        assert forall|i: int, j: int|
            0 <= i < places.len() && 0 <= j < places.len() && i != j implies places[i]
            != places[j] by {
            assert(qubits[i] != qubits[j]);
        }
    }
    places.unique_seq_to_set();
    vstd::set_lib::lemma_int_range(0, register as int);
    assert(places.to_set().subset_of(vstd::set_lib::set_int_range(0, register as int))) by {
        assert forall|x: int| places.to_set().contains(x) implies vstd::set_lib::set_int_range(
            0,
            register as int,
        ).contains(x) by {
            let i = choose|i: int| 0 <= i < places.len() && places[i] == x;
            assert(qubits[i].index < register);
        }
    }
    vstd::set_lib::lemma_len_subset(
        places.to_set(),
        vstd::set_lib::set_int_range(0, register as int),
    );
}

/// Two to the exponent of a power of two is that power of two.
pub proof fn lemma_power_of_exponent(n: nat)
    requires
        is_power_of_two(n),
    ensures
        pow2(exponent(n)) == n,
{
    let k = choose|k: nat| n == pow2(k);
    lemma_exponent(k);
}

/// Whether every parameter stands for a number.
pub fn parameters_resolved(parameters: &Vec<Expression>) -> (r: bool)
    ensures
        r == all_resolved(crate::expression::expression_views(parameters@)),
{
    let ghost views = crate::expression::expression_views(parameters@);
    let mut i: usize = 0;
    while i < parameters.len()
        invariant
            i <= parameters.len(),
            views == crate::expression::expression_views(parameters@),
            forall|k: int| 0 <= k < i ==> (#[trigger] views[k]).resolved(),
        decreases parameters.len() - i,
    {
        assert(views[i as int] == parameters@[i as int]@);
        if !parameters[i].is_resolved() {
            return false;
        }
        i = i + 1;
    }
    true
}

/// Whether every operand is a qubit of the register.
pub fn qubits_within(qubits: &Vec<Qubit>, register: u64) -> (r: bool)
    ensures
        r == all_within(qubits@, register as nat),
{
    let mut i: usize = 0;
    while i < qubits.len()
        invariant
            i <= qubits.len(),
            forall|k: int| 0 <= k < i ==> (#[trigger] qubits@[k]).index < register,
        decreases qubits.len() - i,
    {
        if qubits[i].index >= register {
            return false;
        }
        i = i + 1;
    }
    true
}

/// Whether no qubit stands twice among the operands.
pub fn qubits_distinct(qubits: &Vec<Qubit>) -> (r: bool)
    ensures
        r == qubits@.no_duplicates(),
{
    let mut i: usize = 0;
    while i < qubits.len()
        invariant
            i <= qubits.len(),
            forall|k: int, j: int| 0 <= k < j < i ==> qubits@[k] != qubits@[j],
        decreases qubits.len() - i,
    {
        let mut j: usize = 0;
        while j < i
            invariant
                j <= i < qubits.len(),
                forall|k: int| 0 <= k < j ==> qubits@[k] != qubits@[i as int],
            decreases i - j,
        {
            if qubits[j] == qubits[i] {
                return false;
            }
            j = j + 1;
        }
        i = i + 1;
    }
    assert forall|k: int, j: int|
        0 <= k < qubits@.len() && 0 <= j < qubits@.len() && k != j implies qubits@[k]
        != qubits@[j] by {
        if k < j {
            assert(qubits@[k] != qubits@[j]);
        } else {
            assert(qubits@[j] != qubits@[k]);
        }
    }
    true
}

/// The entries of a permutation that was borrowed, if one was.
pub open spec fn borrowed(permutation: Option<&Vec<u64>>) -> Option<Seq<u64>> {
    match permutation {
        Some(p) => Some(p@),
        None => None,
    }
}

/// The entry in `row` and `column` of the matrix of a gate on its own operands.
pub fn local_entry(
    permutation: Option<&Vec<u64>>,
    width: usize,
    modifiers: &Vec<GateModifier>,
    count: usize,
    row: u64,
    column: u64,
) -> (r: Entry)
    requires
        width + lifts(modifiers@) < 64,
        row < pow2((width + lifts(modifiers@)) as nat),
        column < pow2((width + lifts(modifiers@)) as nat),
        permutation matches Some(p) ==> p.len() == pow2(width as nat),
    ensures
        r == folded(
            borrowed(permutation),
            width as nat,
            modifiers@,
            count as nat,
            0,
            row as nat,
            column as nat,
        ),
{
    let ghost view = borrowed(permutation);
    let ghost wanted = folded(
        view,
        width as nat,
        modifiers@,
        count as nat,
        0,
        row as nat,
        column as nat,
    );
    let (lifted, _) = count_lifts(modifiers);
    let mut side: u64 = power_of_two((width + lifted) as u64);
    let mut i: usize = modifiers.len();
    let mut r: u64 = row;
    let mut c: u64 = column;
    let mut offset: usize = 0;
    let mut left: usize = count;
    let mut flip: bool = false;
    assert(modifiers@.take(i as int) =~= modifiers@);
    while i > 0
        invariant
            i <= modifiers.len(),
            view == borrowed(permutation),
            wanted == folded(
                view,
                width as nat,
                modifiers@,
                count as nat,
                0,
                row as nat,
                column as nat,
            ),
            width + lifts(modifiers@.take(i as int)) < 64,
            side == pow2((width + lifts(modifiers@.take(i as int))) as nat),
            r < side,
            c < side,
            offset + left <= count,
            wanted == if flip {
                folded(
                    view,
                    width as nat,
                    modifiers@.take(i as int),
                    left as nat,
                    offset as nat,
                    r as nat,
                    c as nat,
                ).conjugate()
            } else {
                folded(
                    view,
                    width as nat,
                    modifiers@.take(i as int),
                    left as nat,
                    offset as nat,
                    r as nat,
                    c as nat,
                )
            },
        decreases i,
    {
        let modifier = modifiers[i - 1];
        let ghost outer = modifiers@.take(i as int);
        let ghost inner = modifiers@.take(i - 1);
        proof {
            assert(outer.drop_last() =~= inner);
            assert(outer.last() == modifier);
            if modifier != GateModifier::Dagger {
                assert(lifts(outer) == lifts(inner) + 1);
                lemma_pow2_unfold(width as nat + lifts(outer));
                assert(side / 2 == pow2(width as nat + lifts(inner)));
            }
            let here = folded(
                view,
                width as nat,
                outer,
                left as nat,
                offset as nat,
                r as nat,
                c as nat,
            );
            assert(wanted == here || wanted == here.conjugate());
        }
        match modifier {
            GateModifier::Dagger => {
                let swap = r;
                r = c;
                c = swap;
                flip = !flip;
            },
            GateModifier::Controlled => {
                let half = side / 2;
                if r < half && c < half {
                    return if r == c {
                        Entry::One
                    } else {
                        Entry::Zero
                    };
                } else if r >= half && c >= half {
                    r = r - half;
                    c = c - half;
                    side = half;
                } else {
                    return Entry::Zero;
                }
            },
            GateModifier::Forked => {
                let half = side / 2;
                let each = left / 2;
                if r < half && c < half {
                    left = each;
                } else if r >= half && c >= half {
                    r = r - half;
                    c = c - half;
                    offset = offset + each;
                    left = each;
                } else {
                    return Entry::Zero;
                }
                side = half;
            },
        }
        i = i - 1;
    }
    assert(modifiers@.take(0) =~= Seq::<GateModifier>::empty());
    let entry = match permutation {
        Some(p) => if p[c as usize] == r {
            Entry::One
        } else {
            Entry::Zero
        },
        None => Entry::Base { row: r, column: c, offset, conjugated: false },
    };
    if flip {
        entry.conjugated()
    } else {
        entry
    }
}

/// The index into a gate's own matrix that a register index gives.
pub fn gather(qubits: &Vec<Qubit>, index: u64) -> (r: u64)
    requires
        qubits.len() < 64,
        all_within(qubits@, 64),
    ensures
        r == gathered(qubits@, index as nat),
        r < pow2(qubits.len() as nat),
{
    let mut acc: u64 = 0;
    let mut j: usize = 0;
    proof {
        lemma2_to64();
    }
    assert(qubits@.take(0) =~= Seq::<Qubit>::empty());
    while j < qubits.len()
        invariant
            j <= qubits.len() < 64,
            all_within(qubits@, 64),
            acc == gathered(qubits@.take(j as int), index as nat),
            acc < pow2(j as nat),
        decreases qubits.len() - j,
    {
        proof {
            let next = qubits@.take(j + 1);
            assert(next.drop_last() =~= qubits@.take(j as int));
            assert(next.last() == qubits@[j as int]);
            lemma_pow2_unfold((j + 1) as nat);
            lemma2_to64_rest();
            if j + 1 < 63 {
                lemma_pow2_strictly_increases((j + 1) as nat, 63);
            }
        }
        acc = 2 * acc + bit_of(index, qubits[j].index);
        j = j + 1;
    }
    assert(qubits@.take(j as int) =~= qubits@);
    acc
}

/// Whether two register indices have the same binary digit at every place that is not an
/// operand.
pub fn agrees_elsewhere(qubits: &Vec<Qubit>, register: u64, row: u64, column: u64) -> (r: bool)
    requires
        register <= 64,
    ensures
        r == agree_elsewhere(qubits@, register as nat, row as nat, column as nat),
{
    let mut k: u64 = 0;
    while k < register
        invariant
            k <= register <= 64,
            forall|j: u64|
                #![trigger bit(row as nat, j as nat)]
                j < k && !qubits@.contains(Qubit { index: j }) ==> bit(row as nat, j as nat)
                    == bit(column as nat, j as nat),
        decreases register - k,
    {
        if !holds_qubit(qubits, Qubit { index: k }) && bit_of(row, k) != bit_of(column, k) {
            return false;
        }
        k = k + 1;
    }
    true
}

/// A gate's matrix over a register, entry by entry.
#[derive(Debug)]
pub struct Unitary {
    /// What this gate's name stands for: the matrix that the `Base` entries speak of.
    pub kernel: Kernel,
    /// The entries, row by row.
    pub rows: Vec<Vec<Entry>>,
}

impl Unitary {
    /// The entries, row by row.
    pub open spec fn entries(self) -> Seq<Seq<Entry>> {
        self.rows@.map_values(|row: Vec<Entry>| row@)
    }
}

impl Gate {
    /// Finds what this gate's name stands for, and checks that this gate can be laid out
    /// over a register of `n_qubits` qubits.
    pub fn check_layout(&self, n_qubits: u64, definitions: &Vec<GateDefinition>) -> (r: Result<
        Kernel,
        GateError,
    >)
        ensures
            match r {
                Ok(kernel) => {
                    &&& layout_error(self@, n_qubits as nat, definition_views(definitions@))
                        is None
                    &&& kernel_of(self@.name, definition_views(definitions@)) == Ok::<
                        Kernel,
                        GateError,
                    >(kernel)
                },
                Err(e) => layout_error(self@, n_qubits as nat, definition_views(definitions@))
                    == Some(e),
            },
    {
        if !parameters_resolved(&self.parameters) {
            return Err(GateError::UnresolvedParameter);
        }
        match resolve(&self.name, definitions) {
            Err(e) => Err(e),
            Ok(kernel) => {
                if !fits(kernel.arity, self.parameters.len(), self.qubits.len(), &self.modifiers) {
                    Err(GateError::InvalidArity)
                } else if !qubits_within(&self.qubits, n_qubits) {
                    Err(GateError::QubitOutOfRange)
                } else if !qubits_distinct(&self.qubits) {
                    Err(GateError::DuplicateQubit)
                } else {
                    Ok(kernel)
                }
            },
        }
    }

    /// The entry in `row` and `column`, for a gate that `check_layout` has passed.
    fn entry_of(
        &self,
        kernel: Kernel,
        n_qubits: u64,
        definitions: &Vec<GateDefinition>,
        row: u64,
        column: u64,
    ) -> (r: Entry)
        requires
            n_qubits < 64,
            layout_error(self@, n_qubits as nat, definition_views(definitions@)) is None,
            kernel_of(self@.name, definition_views(definitions@)) == Ok::<Kernel, GateError>(
                kernel,
            ),
        ensures
            r == layout_entry(
                self@,
                n_qubits as nat,
                definition_views(definitions@),
                row as nat,
                column as nat,
            ),
    {
        let ghost views = definition_views(definitions@);
        proof {
            lemma_operands_bound(self.qubits@, n_qubits as nat);
        }
        if !agrees_elsewhere(&self.qubits, n_qubits, row, column) {
            return Entry::Zero;
        }
        let permutation: Option<&Vec<u64>> = match kernel.definition {
            Some(i) => {
                proof {
                    assert(known_arity(self@.name) is None);
                    let j = definition_of(views, self@.name)->Some_0;
                    assert(is_first_definition(views, self@.name, j));
                    assert(kernel_of_definition(views, j) == Ok::<Kernel, GateError>(kernel));
                    assert(views.len() == definitions.len());
                    assert(j == i);
                    assert(views[i as int] == definitions@[i as int]@);
                    assert(views[i as int].specification.shape_valid());
                }
                match &definitions[i].specification {
                    GateSpecification::Permutation(p) => {
                        proof {
                            lemma_power_of_exponent(p@.len());
                            lemma_exponent_bound(p@.len());
                        }
                        Some(p)
                    },
                    _ => None,
                }
            },
            None => None,
        };
        assert(borrowed(permutation) == kernel.permutation(views));
        let r = gather(&self.qubits, row);
        let c = gather(&self.qubits, column);
        local_entry(
            permutation,
            kernel.arity.qubits,
            &self.modifiers,
            self.parameters.len(),
            r,
            c,
        )
    }

    /// The entry in `row` and `column` of this gate's matrix over a register of `n_qubits`
    /// qubits, or why this gate has no matrix there.
    pub fn unitary_entry(
        &self,
        n_qubits: u64,
        definitions: &Vec<GateDefinition>,
        row: u64,
        column: u64,
    ) -> (r: Result<Entry, GateError>)
        requires
            n_qubits < 64,
        ensures
            match r {
                Ok(entry) => {
                    &&& layout_error(self@, n_qubits as nat, definition_views(definitions@))
                        is None
                    &&& entry == layout_entry(
                        self@,
                        n_qubits as nat,
                        definition_views(definitions@),
                        row as nat,
                        column as nat,
                    )
                },
                Err(e) => layout_error(self@, n_qubits as nat, definition_views(definitions@))
                    == Some(e),
            },
    {
        match self.check_layout(n_qubits, definitions) {
            Err(e) => Err(e),
            Ok(kernel) => Ok(self.entry_of(kernel, n_qubits, definitions, row, column)),
        }
    }

    /// This gate's matrix over a register of `n_qubits` qubits, or why this gate has none
    /// there. This gate stays as it is.
    pub fn to_unitary(&self, n_qubits: u64, definitions: &Vec<GateDefinition>) -> (r: Result<
        Unitary,
        GateError,
    >)
        requires
            pow2(n_qubits as nat) <= usize::MAX,
        ensures
            match r {
                Ok(u) => {
                    &&& layout(self@, n_qubits as nat, definition_views(definitions@)) == Ok::<
                        Seq<Seq<Entry>>,
                        GateError,
                    >(u.entries())
                    &&& kernel_of(self@.name, definition_views(definitions@)) == Ok::<
                        Kernel,
                        GateError,
                    >(u.kernel)
                },
                Err(e) => layout(self@, n_qubits as nat, definition_views(definitions@)) == Err::<
                    Seq<Seq<Entry>>,
                    GateError,
                >(e),
            },
    {
        let ghost views = definition_views(definitions@);
        let ghost register = n_qubits as nat;
        proof {
            lemma2_to64();
            lemma2_to64_rest();
            if n_qubits >= 64 {
                if n_qubits > 64 {
                    lemma_pow2_strictly_increases(64, register);
                }
            }
        }
        let kernel = match self.check_layout(n_qubits, definitions) {
            Err(e) => {
                return Err(e);
            },
            Ok(kernel) => kernel,
        };
        let side = power_of_two(n_qubits) as usize;
        let mut rows: Vec<Vec<Entry>> = Vec::new();
        let mut row: usize = 0;
        while row < side
            invariant
                row <= side,
                side == pow2(register),
                register == n_qubits,
                n_qubits < 64,
                views == definition_views(definitions@),
                layout_error(self@, register, views) is None,
                kernel_of(self@.name, views) == Ok::<Kernel, GateError>(kernel),
                rows.len() == row,
                forall|i: int|
                    0 <= i < row ==> {
                        &&& (#[trigger] rows@[i]).len() == side
                        &&& forall|j: int|
                            0 <= j < side ==> rows@[i]@[j] == layout_entry(
                                self@,
                                register,
                                views,
                                i as nat,
                                j as nat,
                            )
                    },
            decreases side - row,
        {
            let mut entries: Vec<Entry> = Vec::new();
            let mut column: usize = 0;
            while column < side
                invariant
                    column <= side,
                    row < side,
                    side == pow2(register),
                    register == n_qubits,
                    n_qubits < 64,
                    views == definition_views(definitions@),
                    layout_error(self@, register, views) is None,
                    kernel_of(self@.name, views) == Ok::<Kernel, GateError>(kernel),
                    entries.len() == column,
                    forall|j: int|
                        0 <= j < column ==> #[trigger] entries@[j] == layout_entry(
                            self@,
                            register,
                            views,
                            row as nat,
                            j as nat,
                        ),
                decreases side - column,
            {
                entries.push(
                    self.entry_of(kernel, n_qubits, definitions, row as u64, column as u64),
                );
                column = column + 1;
            }
            rows.push(entries);
            row = row + 1;
        }
        let u = Unitary { kernel, rows };
        proof {
            let wanted = layout(self@, register, views)->Ok_0;
            assert(u.entries().len() == wanted.len());
            assert forall|i: int| 0 <= i < wanted.len() implies u.entries()[i] == wanted[i] by {
                assert(u.entries()[i] == u.rows@[i]@);
                assert(u.rows@[i]@ =~= wanted[i]);
            }
            assert(u.entries() =~= wanted);
        }
        Ok(u)
    }
}

impl Gate {
    /// This gate's matrix over a register of `n_qubits` qubits, or why this gate has none
    /// there. Where there is a matrix, this gate is left normalized: the adjoints that
    /// undo each other are gone from its stack. Where there is none, this gate stays as it
    /// is. Keep a copy to have this gate as it was.
    pub fn to_unitary_mut(&mut self, n_qubits: u64, definitions: &Vec<GateDefinition>) -> (r:
        Result<Unitary, GateError>)
        requires
            pow2(n_qubits as nat) <= usize::MAX,
        ensures
            match r {
                Ok(u) => {
                    &&& layout(old(self)@, n_qubits as nat, definition_views(definitions@))
                        == Ok::<Seq<Seq<Entry>>, GateError>(u.entries())
                    &&& kernel_of(old(self)@.name, definition_views(definitions@)) == Ok::<
                        Kernel,
                        GateError,
                    >(u.kernel)
                    &&& final(self)@ == old(self)@.normalized()
                },
                Err(e) => {
                    &&& layout(old(self)@, n_qubits as nat, definition_views(definitions@))
                        == Err::<Seq<Seq<Entry>>, GateError>(e)
                    &&& final(self)@ == old(self)@
                },
            },
    {
        let r = self.to_unitary(n_qubits, definitions);
        if r.is_ok() {
            self.normalize();
        }
        r
    }
}

/// Conjugating twice gives the entry back.
pub proof fn lemma_conjugate_twice(e: Entry)
    ensures
        e.conjugate().conjugate() == e,
{
}

/// Under two more adjoints a gate's own matrix has the entries it had.
pub proof fn lemma_folded_dagger_twice(
    permutation: Option<Seq<u64>>,
    width: nat,
    modifiers: Seq<GateModifier>,
    count: nat,
    offset: nat,
    row: nat,
    column: nat,
)
    ensures
        folded(
            permutation,
            width,
            modifiers.push(GateModifier::Dagger).push(GateModifier::Dagger),
            count,
            offset,
            row,
            column,
        ) == folded(permutation, width, modifiers, count, offset, row, column),
{
    let once = modifiers.push(GateModifier::Dagger);
    let twice = once.push(GateModifier::Dagger);
    assert(twice.drop_last() =~= once);
    assert(once.drop_last() =~= modifiers);
    let below = folded(permutation, width, modifiers, count, offset, row, column);
    assert(folded(permutation, width, once, count, offset, column, row) == below.conjugate());
    lemma_conjugate_twice(below);
}

/// With the cancelling adjoints taken off its stack a gate's own matrix has the entries
/// it had.
pub proof fn lemma_folded_cancelled(
    permutation: Option<Seq<u64>>,
    width: nat,
    modifiers: Seq<GateModifier>,
    count: nat,
    offset: nat,
    row: nat,
    column: nat,
)
    ensures
        folded(permutation, width, cancelled(modifiers), count, offset, row, column) == folded(
            permutation,
            width,
            modifiers,
            count,
            offset,
            row,
            column,
        ),
    decreases modifiers.len(),
{
    if modifiers.len() > 0 {
        let inner = modifiers.drop_last();
        let below = cancelled(inner);
        let half = pow2(width + lifts(inner));
        lemma_cancelled(inner);
        if modifiers.last() == GateModifier::Dagger && below.len() > 0 && below.last()
            == GateModifier::Dagger {
            let rest = below.drop_last();
            lemma_folded_cancelled(permutation, width, inner, count, offset, column, row);
            assert(rest.push(GateModifier::Dagger) =~= below);
            assert(folded(permutation, width, below, count, offset, column, row) == folded(
                permutation,
                width,
                rest,
                count,
                offset,
                row,
                column,
            ).conjugate());
            lemma_conjugate_twice(
                folded(permutation, width, rest, count, offset, row, column),
            );
        } else {
            let whole = below.push(modifiers.last());
            assert(whole.drop_last() =~= below);
            assert(whole.last() == modifiers.last());
            match modifiers.last() {
                GateModifier::Dagger => {
                    lemma_folded_cancelled(permutation, width, inner, count, offset, column, row);
                },
                GateModifier::Controlled => {
                    if row >= half && column >= half {
                        lemma_folded_cancelled(
                            permutation,
                            width,
                            inner,
                            count,
                            offset,
                            (row - half) as nat,
                            (column - half) as nat,
                        );
                    }
                },
                GateModifier::Forked => {
                    if row < half && column < half {
                        lemma_folded_cancelled(
                            permutation,
                            width,
                            inner,
                            count / 2,
                            offset,
                            row,
                            column,
                        );
                    } else if row >= half && column >= half {
                        lemma_folded_cancelled(
                            permutation,
                            width,
                            inner,
                            count / 2,
                            offset + count / 2,
                            (row - half) as nat,
                            (column - half) as nat,
                        );
                    }
                },
            }
        }
    }
}

/// Two gates that differ in their modifiers only have the same layout, if the stacks
/// hold as many controls and forks and give the two matrices the same entries.
pub proof fn lemma_same_layout(
    a: GateView,
    b: GateView,
    register: nat,
    definitions: Seq<GateDefinitionView>,
)
    requires
        a.name == b.name,
        a.parameters == b.parameters,
        a.qubits == b.qubits,
        lifts(a.modifiers) == lifts(b.modifiers),
        forks(a.modifiers) == forks(b.modifiers),
        forall|permutation: Option<Seq<u64>>, width: nat, row: nat, column: nat| #[trigger]
            folded(permutation, width, a.modifiers, a.parameters.len(), 0, row, column)
                == folded(permutation, width, b.modifiers, a.parameters.len(), 0, row, column),
    ensures
        layout(a, register, definitions) == layout(b, register, definitions),
{
    assert(layout_error(a, register, definitions) == layout_error(b, register, definitions));
    if layout_error(a, register, definitions) is None {
        let x = layout(a, register, definitions)->Ok_0;
        let y = layout(b, register, definitions)->Ok_0;
        assert(x.len() == y.len());
        assert forall|i: int| 0 <= i < x.len() implies x[i] == y[i] by {
            assert(x[i].len() == y[i].len());
            assert forall|j: int| 0 <= j < x[i].len() implies x[i][j] == y[i][j] by {
                assert(x[i][j] == layout_entry(a, register, definitions, i as nat, j as nat));
                assert(y[i][j] == layout_entry(b, register, definitions, i as nat, j as nat));
            }
            assert(x[i] =~= y[i]);
        }
        assert(x =~= y);
    }
}

/// The adjoint of the adjoint of a gate has the layout of that gate: entry for entry the
/// same matrix, and no matrix for the same reason where that gate has none.
pub proof fn lemma_double_dagger(
    gate: GateView,
    register: nat,
    definitions: Seq<GateDefinitionView>,
)
    ensures
        layout(gate.dagger().dagger(), register, definitions) == layout(
            gate,
            register,
            definitions,
        ),
{
    let twice = gate.dagger().dagger();
    lemma_lifts_push(gate.modifiers, GateModifier::Dagger);
    lemma_lifts_push(gate.dagger().modifiers, GateModifier::Dagger);
    assert forall|permutation: Option<Seq<u64>>, width: nat, row: nat, column: nat| #[trigger]
        folded(permutation, width, twice.modifiers, twice.parameters.len(), 0, row, column)
            == folded(permutation, width, gate.modifiers, twice.parameters.len(), 0, row, column) by {
        lemma_folded_dagger_twice(
            permutation,
            width,
            gate.modifiers,
            gate.parameters.len(),
            0,
            row,
            column,
        );
    }
    lemma_same_layout(twice, gate, register, definitions);
}

/// A normalized gate has the layout of its source.
pub proof fn lemma_normalized_layout(
    gate: GateView,
    register: nat,
    definitions: Seq<GateDefinitionView>,
)
    ensures
        layout(gate.normalized(), register, definitions) == layout(gate, register, definitions),
{
    let normal = gate.normalized();
    lemma_cancelled(gate.modifiers);
    assert forall|permutation: Option<Seq<u64>>, width: nat, row: nat, column: nat| #[trigger]
        folded(permutation, width, normal.modifiers, normal.parameters.len(), 0, row, column)
            == folded(permutation, width, gate.modifiers, normal.parameters.len(), 0, row, column) by {
        lemma_folded_cancelled(
            permutation,
            width,
            gate.modifiers,
            gate.parameters.len(),
            0,
            row,
            column,
        );
    }
    lemma_same_layout(normal, gate, register, definitions);
}

} // verus!
