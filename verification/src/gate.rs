//! Gates, and the three ways to derive one gate from another: taking the adjoint, adding a
//! control qubit, and forking on a qubit between two sets of parameters.
//!
//! A gate records how it was derived as a stack of modifiers. The first modifier pushed is
//! the innermost; the last one pushed applies to everything below it.

use vstd::prelude::*;
use vstd::arithmetic::power2::{lemma_pow2_unfold, pow2};
use vstd::std_specs::cmp::PartialEqSpecImpl;
use vstd::string::*;
use crate::catalog::{arity_of, known_arity, Arity};
use crate::expression::{
    copy_expressions, expression_views, same_expressions, Expression, ExpressionView, Qubit,
};
use crate::text::{copy_items, decimal, push_decimal};

verus! {

/// One step in the derivation of a gate.
#[derive(Clone, Copy, Debug, PartialEq, Eq, Hash, Structural)]
pub enum GateModifier {
    Controlled,
    Dagger,
    Forked,
}

impl GateModifier {
    /// The keyword of the modifier.
    pub open spec fn rendered(self) -> Seq<char> {
        match self {
            GateModifier::Controlled => "CONTROLLED"@,
            GateModifier::Dagger => "DAGGER"@,
            GateModifier::Forked => "FORKED"@,
        }
    }

    fn keyword(self) -> (r: &'static str)
        ensures
            r@ == self.rendered(),
    {
        match self {
            GateModifier::Controlled => "CONTROLLED",
            GateModifier::Dagger => "DAGGER",
            GateModifier::Forked => "FORKED",
        }
    }

    pub fn to_quil(&self) -> (r: String)
        ensures
            r@ == self.rendered(),
    {
        String::from_str(self.keyword())
    }
}

/// Why a gate could not be built, derived or laid out.
#[derive(Clone, Copy, Debug, PartialEq, Eq, Hash, Structural)]
pub enum GateError {
    /// The numbers of parameters and qubits do not fit the name.
    InvalidArity,
    /// A qubit stands more than once among the operands.
    DuplicateQubit,
    /// A fork was given another number of parameters than there were.
    ParameterCountMismatch,
    /// A matrix that is not square, a matrix or permutation whose size is no power of two,
    /// a permutation that maps two indices to one, or a sum with a term on an argument
    /// that the sum does not have.
    InvalidSpecificationShape,
    /// A parameter does not stand for a concrete number.
    UnresolvedParameter,
    /// The name is neither built in nor defined.
    UnknownGate,
    /// An operand lies outside the register.
    QubitOutOfRange,
}

/// How many modifiers of a stack bring an operand qubit of their own: all but the adjoints.
pub open spec fn lifts(modifiers: Seq<GateModifier>) -> nat
    decreases modifiers.len(),
{
    if modifiers.len() == 0 {
        0
    } else {
        lifts(modifiers.drop_last()) + if modifiers.last() == GateModifier::Dagger {
            0nat
        } else {
            1nat
        }
    }
}

/// How many modifiers of a stack are forks.
pub open spec fn forks(modifiers: Seq<GateModifier>) -> nat
    decreases modifiers.len(),
{
    if modifiers.len() == 0 {
        0
    } else {
        forks(modifiers.drop_last()) + if modifiers.last() == GateModifier::Forked {
            1nat
        } else {
            0nat
        }
    }
}

/// Whether a gate of the given arity, under the given modifiers, has `parameters`
/// parameters and `qubits` operands: each control and each fork adds one operand, and each
/// fork doubles the parameters.
pub open spec fn arity_fits(
    arity: Arity,
    parameters: nat,
    qubits: nat,
    modifiers: Seq<GateModifier>,
) -> bool {
    &&& qubits == arity.qubits + lifts(modifiers)
    &&& parameters == arity.parameters * pow2(forks(modifiers))
}

/// One more modifier counts once where it brings a qubit, and once more where it forks.
pub proof fn lemma_lifts_push(modifiers: Seq<GateModifier>, m: GateModifier)
    ensures
        lifts(modifiers.push(m)) == lifts(modifiers) + if m == GateModifier::Dagger {
            0nat
        } else {
            1nat
        },
        forks(modifiers.push(m)) == forks(modifiers) + if m == GateModifier::Forked {
            1nat
        } else {
            0nat
        },
{
    assert(modifiers.push(m).drop_last() =~= modifiers);
}

/// The stack without the adjoints that undo each other: wherever an adjoint follows an
/// adjoint, both are taken away, until no two stand side by side.
pub open spec fn cancelled(modifiers: Seq<GateModifier>) -> Seq<GateModifier>
    decreases modifiers.len(),
{
    if modifiers.len() == 0 {
        modifiers
    } else {
        let below = cancelled(modifiers.drop_last());
        if modifiers.last() == GateModifier::Dagger && below.len() > 0 && below.last()
            == GateModifier::Dagger {
            below.drop_last()
        } else {
            below.push(modifiers.last())
        }
    }
}

/// Whether no adjoint follows an adjoint.
pub open spec fn no_adjacent_daggers(modifiers: Seq<GateModifier>) -> bool {
    forall|i: int, j: int|
        0 <= i && j == i + 1 && j < modifiers.len() ==> !(#[trigger] modifiers[i]
            == GateModifier::Dagger && #[trigger] modifiers[j] == GateModifier::Dagger)
}

/// Cancelling leaves the controls and forks as they are in number, and makes the stack no
/// longer.
pub proof fn lemma_cancelled(modifiers: Seq<GateModifier>)
    ensures
        lifts(cancelled(modifiers)) == lifts(modifiers),
        forks(cancelled(modifiers)) == forks(modifiers),
        cancelled(modifiers).len() <= modifiers.len(),
    decreases modifiers.len(),
{
    if modifiers.len() > 0 {
        let below = cancelled(modifiers.drop_last());
        lemma_cancelled(modifiers.drop_last());
        if modifiers.last() == GateModifier::Dagger && below.len() > 0 && below.last()
            == GateModifier::Dagger {
            assert(below.drop_last().push(GateModifier::Dagger) =~= below);
            lemma_lifts_push(below.drop_last(), GateModifier::Dagger);
        } else {
            lemma_lifts_push(below, modifiers.last());
        }
    }
}

/// Cancelling leaves no adjoint behind an adjoint.
pub proof fn lemma_cancelled_reduced(modifiers: Seq<GateModifier>)
    ensures
        no_adjacent_daggers(cancelled(modifiers)),
    decreases modifiers.len(),
{
    if modifiers.len() > 0 {
        let below = cancelled(modifiers.drop_last());
        lemma_cancelled_reduced(modifiers.drop_last());
        let after = cancelled(modifiers);
        assert forall|i: int, j: int| 0 <= i && j == i + 1 && j < after.len() implies !(
        #[trigger] after[i] == GateModifier::Dagger && #[trigger] after[j] == GateModifier::Dagger) by {
            if j < below.len() {
                assert(after[i] == below[i] && after[j] == below[j]);
            }
        }
    }
}

/// A stack in which no adjoint follows an adjoint stays as it is.
pub proof fn lemma_cancelled_fixed(modifiers: Seq<GateModifier>)
    requires
        no_adjacent_daggers(modifiers),
    ensures
        cancelled(modifiers) == modifiers,
    decreases modifiers.len(),
{
    if modifiers.len() > 0 {
        let head = modifiers.drop_last();
        assert(no_adjacent_daggers(head)) by {
            assert forall|i: int, j: int| 0 <= i && j == i + 1 && j < head.len() implies !(
            #[trigger] head[i] == GateModifier::Dagger && #[trigger] head[j]
                == GateModifier::Dagger) by {
                assert(modifiers[i] == head[i] && modifiers[j] == head[j]);
            }
        }
        lemma_cancelled_fixed(head);
        if head.len() > 0 {
            let i = head.len() - 1;
            let j = head.len() as int;
            assert(modifiers[i] == head.last());
            assert(!(modifiers[i] == GateModifier::Dagger && modifiers[j]
                == GateModifier::Dagger));
        }
        assert(head.push(modifiers.last()) =~= modifiers);
    }
}

/// Counts the modifiers that bring a qubit, and among them the forks.
pub fn count_lifts(modifiers: &Vec<GateModifier>) -> (r: (usize, usize))
    ensures
        r.0 == lifts(modifiers@),
        r.1 == forks(modifiers@),
{
    let mut l: usize = 0;
    let mut f: usize = 0;
    let mut i: usize = 0;
    while i < modifiers.len()
        invariant
            i <= modifiers.len(),
            l == lifts(modifiers@.take(i as int)),
            f == forks(modifiers@.take(i as int)),
            f <= l <= i,
        decreases modifiers.len() - i,
    {
        proof {
            assert(modifiers@.take(i + 1) =~= modifiers@.take(i as int).push(modifiers@[i as int]));
            lemma_lifts_push(modifiers@.take(i as int), modifiers@[i as int]);
        }
        match modifiers[i] {
            GateModifier::Controlled => {
                l = l + 1;
            },
            GateModifier::Dagger => {},
            GateModifier::Forked => {
                l = l + 1;
                f = f + 1;
            },
        }
        i = i + 1;
    }
    assert(modifiers@.take(i as int) =~= modifiers@);
    (l, f)
}

proof fn lemma_scale_step(base: nat, k: nat)
    ensures
        base * pow2(k + 1) == 2 * (base * pow2(k)),
{
    lemma_pow2_unfold(k + 1);
    assert(base * (2 * pow2(k)) == 2 * (base * pow2(k))) by (nonlinear_arith);
}

proof fn lemma_scale_grows(base: nat, j: nat, k: nat)
    requires
        j <= k,
    ensures
        base * pow2(j) <= base * pow2(k),
    decreases k - j,
{
    if j < k {
        lemma_scale_grows(base, j, (k - 1) as nat);
        lemma_scale_step(base, (k - 1) as nat);
    }
}

/// Whether `count` is `base` doubled `doublings` times.
pub fn is_scaled(count: usize, base: usize, doublings: usize) -> (r: bool)
    ensures
        r == (count == base * pow2(doublings as nat)),
{
    let mut e: usize = base;
    let mut k: usize = 0;
    proof {
        vstd::arithmetic::power2::lemma2_to64();
        lemma_scale_grows(base as nat, 0, doublings as nat);
    }
    if base > count {
        return false;
    }
    while k < doublings
        invariant
            k <= doublings,
            e == base * pow2(k as nat),
            e <= count,
        decreases doublings - k,
    {
        proof {
            lemma_scale_step(base as nat, k as nat);
        }
        if e > count / 2 {
            proof {
                lemma_scale_grows(base as nat, (k + 1) as nat, doublings as nat);
            }
            return false;
        }
        e = 2 * e;
        k = k + 1;
    }
    e == count
}

/// Whether the counts fit the arity under the modifiers.
pub fn fits(arity: Arity, parameters: usize, qubits: usize, modifiers: &Vec<GateModifier>) -> (r:
    bool)
    ensures
        r == arity_fits(arity, parameters as nat, qubits as nat, modifiers@),
{
    let (l, f) = count_lifts(modifiers);
    qubits >= l && qubits - l == arity.qubits && is_scaled(parameters, arity.parameters, f)
}

/// A gate: a name, its parameters, the qubits it acts on, and the modifiers that were
/// applied to it, in the order in which they were applied.
#[derive(Debug, Hash)]
pub struct Gate {
    pub name: String,
    pub parameters: Vec<Expression>,
    pub qubits: Vec<Qubit>,
    pub modifiers: Vec<GateModifier>,
}

pub struct GateView {
    pub name: Seq<char>,
    pub parameters: Seq<ExpressionView>,
    pub qubits: Seq<Qubit>,
    pub modifiers: Seq<GateModifier>,
}

impl View for Gate {
    type V = GateView;

    open spec fn view(&self) -> GateView {
        GateView {
            name: self.name@,
            parameters: expression_views(self.parameters@),
            qubits: self.qubits@,
            modifiers: self.modifiers@,
        }
    }
}

impl GateView {
    /// A gate with a built-in name has the parameters and operands that the name and the
    /// modifiers ask for. Any other name is free.
    pub open spec fn well_formed(self) -> bool {
        known_arity(self.name) matches Some(arity) ==> arity_fits(
            arity,
            self.parameters.len(),
            self.qubits.len(),
            self.modifiers,
        )
    }

    /// The adjoint of this gate.
    pub open spec fn dagger(self) -> GateView {
        GateView { modifiers: self.modifiers.push(GateModifier::Dagger), ..self }
    }

    /// This gate under the control of `qubit`, which becomes its first operand.
    pub open spec fn controlled(self, qubit: Qubit) -> GateView {
        GateView {
            qubits: seq![qubit] + self.qubits,
            modifiers: self.modifiers.push(GateModifier::Controlled),
            ..self
        }
    }

    /// This gate forked on `qubit`, which becomes its first operand: this gate's own
    /// parameters where the qubit is 0, `parameters` where it is 1.
    pub open spec fn forked(self, qubit: Qubit, parameters: Seq<ExpressionView>) -> GateView {
        GateView {
            parameters: self.parameters + parameters,
            qubits: seq![qubit] + self.qubits,
            modifiers: self.modifiers.push(GateModifier::Forked),
            ..self
        }
    }

    /// This gate with the adjoints that undo each other taken off its stack.
    pub open spec fn normalized(self) -> GateView {
        GateView { modifiers: cancelled(self.modifiers), ..self }
    }

    /// The modifiers, the last one pushed first, each followed by a space.
    pub open spec fn modifiers_rendered(modifiers: Seq<GateModifier>) -> Seq<char>
        decreases modifiers.len(),
    {
        if modifiers.len() == 0 {
            Seq::<char>::empty()
        } else {
            modifiers.last().rendered() + " "@ + Self::modifiers_rendered(modifiers.drop_last())
        }
    }

    /// The texts of the expressions, with `, ` between them.
    pub open spec fn expressions_joined(expressions: Seq<ExpressionView>) -> Seq<char>
        decreases expressions.len(),
    {
        if expressions.len() == 0 {
            Seq::<char>::empty()
        } else if expressions.len() == 1 {
            expressions[0].text
        } else {
            Self::expressions_joined(expressions.drop_last()) + ", "@ + expressions.last().text
        }
    }

    /// The parameters in round brackets; nothing where there is none.
    pub open spec fn parameters_rendered(parameters: Seq<ExpressionView>) -> Seq<char> {
        if parameters.len() == 0 {
            Seq::<char>::empty()
        } else {
            "("@ + Self::expressions_joined(parameters) + ")"@
        }
    }

    /// Each qubit behind a space.
    pub open spec fn qubits_rendered(qubits: Seq<Qubit>) -> Seq<char>
        decreases qubits.len(),
    {
        if qubits.len() == 0 {
            Seq::<char>::empty()
        } else {
            Self::qubits_rendered(qubits.drop_last()) + " "@ + decimal(
                qubits.last().index as nat,
            )
        }
    }

    /// `MODIFIERS NAME(parameters) qubits`.
    pub open spec fn rendered(self) -> Seq<char> {
        Self::modifiers_rendered(self.modifiers) + self.name + Self::parameters_rendered(
            self.parameters,
        ) + Self::qubits_rendered(self.qubits)
    }

    /// The adjoint of a well-formed gate is well formed.
    pub proof fn lemma_dagger_well_formed(self)
        requires
            self.well_formed(),
        ensures
            self.dagger().well_formed(),
    {
        lemma_lifts_push(self.modifiers, GateModifier::Dagger);
    }

    /// A well-formed gate under control is well formed.
    pub proof fn lemma_controlled_well_formed(self, qubit: Qubit)
        requires
            self.well_formed(),
        ensures
            self.controlled(qubit).well_formed(),
    {
        lemma_lifts_push(self.modifiers, GateModifier::Controlled);
    }

    /// A well-formed gate, forked with as many parameters as it has, is well formed.
    pub proof fn lemma_forked_well_formed(self, qubit: Qubit, parameters: Seq<ExpressionView>)
        requires
            self.well_formed(),
            parameters.len() == self.parameters.len(),
        ensures
            self.forked(qubit, parameters).well_formed(),
    {
        lemma_lifts_push(self.modifiers, GateModifier::Forked);
        match known_arity(self.name) {
            Some(arity) => {
                lemma_scale_step(arity.parameters as nat, forks(self.modifiers));
            },
            None => {},
        }
    }

    /// Taking the cancelling adjoints off a gate keeps it well formed, and a gate that is
    /// not well formed does not become so.
    pub proof fn lemma_normalized_well_formed(self)
        ensures
            self.normalized().well_formed() == self.well_formed(),
            self.normalized().normalized() == self.normalized(),
    {
        lemma_cancelled(self.modifiers);
        lemma_cancelled_reduced(self.modifiers);
        lemma_cancelled_fixed(cancelled(self.modifiers));
    }

    /// Two gates are equal exactly if they agree in name, parameters, qubits and
    /// modifiers, each in its order.
    pub proof fn lemma_equal_by_parts(self, other: GateView)
        ensures
            self == other <==> {
                &&& self.name == other.name
                &&& self.parameters == other.parameters
                &&& self.qubits == other.qubits
                &&& self.modifiers == other.modifiers
            },
    {
    }

    /// Two gates whose modifiers differ at some place are different gates, whatever else
    /// they share.
    pub proof fn lemma_modifier_order_matters(self, other: GateView, i: int)
        requires
            0 <= i < self.modifiers.len(),
            i < other.modifiers.len(),
            self.modifiers[i] != other.modifiers[i],
        ensures
            self != other,
    {
    }
}

/// Whether two lists hold the same qubits in the same order.
pub fn same_qubits(a: &Vec<Qubit>, b: &Vec<Qubit>) -> (r: bool)
    ensures
        r == (a@ == b@),
{
    if a.len() != b.len() {
        return false;
    }
    let mut i: usize = 0;
    while i < a.len()
        invariant
            i <= a.len(),
            a.len() == b.len(),
            forall|k: int| 0 <= k < i ==> a@[k] == b@[k],
        decreases a.len() - i,
    {
        if a[i] != b[i] {
            return false;
        }
        i = i + 1;
    }
    assert(a@ =~= b@);
    true
}

/// Whether two stacks hold the same modifiers in the same order.
pub fn same_modifiers(a: &Vec<GateModifier>, b: &Vec<GateModifier>) -> (r: bool)
    ensures
        r == (a@ == b@),
{
    if a.len() != b.len() {
        return false;
    }
    let mut i: usize = 0;
    while i < a.len()
        invariant
            i <= a.len(),
            a.len() == b.len(),
            forall|k: int| 0 <= k < i ==> a@[k] == b@[k],
        decreases a.len() - i,
    {
        if a[i] != b[i] {
            return false;
        }
        i = i + 1;
    }
    assert(a@ =~= b@);
    true
}

/// Whether `qubit` stands in `list`.
pub fn holds_qubit(list: &Vec<Qubit>, qubit: Qubit) -> (r: bool)
    ensures
        r == list@.contains(qubit),
{
    let mut i: usize = 0;
    while i < list.len()
        invariant
            i <= list.len(),
            forall|k: int| 0 <= k < i ==> list@[k] != qubit,
        decreases list.len() - i,
    {
        if list[i] == qubit {
            return true;
        }
        i = i + 1;
    }
    false
}

impl PartialEq for Gate {
    fn eq(&self, other: &Self) -> (r: bool) {
        self.name == other.name && same_expressions(&self.parameters, &other.parameters)
            && same_qubits(&self.qubits, &other.qubits) && same_modifiers(
            &self.modifiers,
            &other.modifiers,
        )
    }
}

impl PartialEqSpecImpl for Gate {
    open spec fn obeys_eq_spec() -> bool {
        true
    }

    open spec fn eq_spec(&self, other: &Self) -> bool {
        self@ == other@
    }
}

impl Eq for Gate {

}

impl Clone for Gate {
    fn clone(&self) -> (r: Self)
        ensures
            r@ == self@,
    {
        Gate {
            name: self.name.clone(),
            parameters: copy_expressions(&self.parameters),
            qubits: copy_items(&self.qubits),
            modifiers: copy_items(&self.modifiers),
        }
    }
}

impl Gate {
    /// Builds a gate. A built-in name fixes how many parameters and qubits a gate has,
    /// given its modifiers; with other counts there is no gate. Any other name takes what
    /// it is given.
    pub fn new(
        name: String,
        parameters: Vec<Expression>,
        qubits: Vec<Qubit>,
        modifiers: Vec<GateModifier>,
    ) -> (r: Result<Gate, GateError>)
        ensures
            match r {
                Ok(g) => {
                    &&& g.name == name
                    &&& g.parameters == parameters
                    &&& g.qubits == qubits
                    &&& g.modifiers == modifiers
                    &&& g@.well_formed()
                },
                Err(e) => {
                    &&& e == GateError::InvalidArity
                    &&& !(GateView {
                        name: name@,
                        parameters: expression_views(parameters@),
                        qubits: qubits@,
                        modifiers: modifiers@,
                    }).well_formed()
                },
            },
    {
        let fitting = match arity_of(name.as_str()) {
            None => true,
            Some(arity) => fits(arity, parameters.len(), qubits.len(), &modifiers),
        };
        if fitting {
            Ok(Gate { name, parameters, qubits, modifiers })
        } else {
            Err(GateError::InvalidArity)
        }
    }

    /// Whether this gate has the parameters and operands that its name and modifiers ask
    /// for.
    pub fn is_well_formed(&self) -> (r: bool)
        ensures
            r == self@.well_formed(),
    {
        match arity_of(self.name.as_str()) {
            None => true,
            Some(arity) => fits(
                arity,
                self.parameters.len(),
                self.qubits.len(),
                &self.modifiers,
            ),
        }
    }

    /// The adjoint of this gate: the same gate with one more modifier. Two adjoints in a
    /// row both stay on the stack.
    pub fn dagger(&self) -> (r: Gate)
        ensures
            r@ == self@.dagger(),
            self@.well_formed() ==> r@.well_formed(),
    {
        let mut modifiers = copy_items(&self.modifiers);
        modifiers.push(GateModifier::Dagger);
        proof {
            if self@.well_formed() {
                self@.lemma_dagger_well_formed();
            }
        }
        Gate {
            name: self.name.clone(),
            parameters: copy_expressions(&self.parameters),
            qubits: copy_items(&self.qubits),
            modifiers,
        }
    }

    /// This gate under the control of `control_qubit`, which must not be one of its
    /// operands already.
    pub fn controlled(&self, control_qubit: Qubit) -> (r: Result<Gate, GateError>)
        ensures
            match r {
                Ok(g) => {
                    &&& !self@.qubits.contains(control_qubit)
                    &&& g@ == self@.controlled(control_qubit)
                    &&& self@.well_formed() ==> g@.well_formed()
                },
                Err(e) => e == GateError::DuplicateQubit && self@.qubits.contains(
                    control_qubit,
                ),
            },
    {
        if holds_qubit(&self.qubits, control_qubit) {
            return Err(GateError::DuplicateQubit);
        }
        let mut qubits = copy_items(&self.qubits);
        qubits.insert(0, control_qubit);
        let mut modifiers = copy_items(&self.modifiers);
        modifiers.push(GateModifier::Controlled);
        proof {
            assert(qubits@ =~= seq![control_qubit] + self.qubits@);
            if self@.well_formed() {
                self@.lemma_controlled_well_formed(control_qubit);
            }
        }
        Ok(
            Gate {
                name: self.name.clone(),
                parameters: copy_expressions(&self.parameters),
                qubits,
                modifiers,
            },
        )
    }

    /// This gate forked on `fork_qubit`: as many new parameters as this gate has, or there
    /// is no fork. The new parameters follow the old ones.
    pub fn forked(&self, fork_qubit: Qubit, params: Vec<Expression>) -> (r: Result<
        Gate,
        GateError,
    >)
        ensures
            match r {
                Ok(g) => {
                    &&& params.len() == self.parameters.len()
                    &&& g@ == self@.forked(fork_qubit, expression_views(params@))
                    &&& g.parameters.len() == 2 * self.parameters.len()
                    &&& self@.well_formed() ==> g@.well_formed()
                },
                Err(e) => e == GateError::ParameterCountMismatch && params.len()
                    != self.parameters.len(),
            },
    {
        if params.len() != self.parameters.len() {
            return Err(GateError::ParameterCountMismatch);
        }
        let mut parameters = copy_expressions(&self.parameters);
        let mut rest = params;
        let ghost before = parameters@;
        parameters.append(&mut rest);
        let mut qubits = copy_items(&self.qubits);
        qubits.insert(0, fork_qubit);
        let mut modifiers = copy_items(&self.modifiers);
        modifiers.push(GateModifier::Forked);
        proof {
            assert(qubits@ =~= seq![fork_qubit] + self.qubits@);
            assert(expression_views(parameters@) =~= expression_views(before) + expression_views(
                params@,
            ));
            if self@.well_formed() {
                self@.lemma_forked_well_formed(fork_qubit, expression_views(params@));
            }
        }
        Ok(Gate { name: self.name.clone(), parameters, qubits, modifiers })
    }

    /// Takes the adjoints that undo each other off the stack, in place. Name, parameters
    /// and qubits stay, and so does the matrix that this gate stands for.
    pub fn normalize(&mut self)
        ensures
            final(self)@ == old(self)@.normalized(),
    {
        let mut kept: Vec<GateModifier> = Vec::new();
        let mut i: usize = 0;
        assert(self.modifiers@.take(0) =~= Seq::<GateModifier>::empty());
        while i < self.modifiers.len()
            invariant
                i <= self.modifiers.len(),
                kept@ == cancelled(self.modifiers@.take(i as int)),
            decreases self.modifiers.len() - i,
        {
            let modifier = self.modifiers[i];
            proof {
                let next = self.modifiers@.take(i + 1);
                assert(next.drop_last() =~= self.modifiers@.take(i as int));
                assert(next.last() == modifier);
            }
            let n = kept.len();
            if modifier == GateModifier::Dagger && n > 0 && kept[n - 1] == GateModifier::Dagger {
                kept.pop();
                assert(kept@ =~= cancelled(self.modifiers@.take(i as int)).drop_last());
            } else {
                kept.push(modifier);
            }
            i = i + 1;
        }
        assert(self.modifiers@.take(i as int) =~= self.modifiers@);
        self.modifiers = kept;
    }

    pub fn to_quil(&self) -> (r: String)
        ensures
            r@ == self@.rendered(),
    {
        let mut out = String::new();
        let mut i: usize = self.modifiers.len();
        assert(self.modifiers@.take(i as int) =~= self.modifiers@);
        assert(out@ + GateView::modifiers_rendered(self.modifiers@)
            =~= GateView::modifiers_rendered(self.modifiers@));
        while i > 0
            invariant
                i <= self.modifiers.len(),
                out@ + GateView::modifiers_rendered(self.modifiers@.take(i as int))
                    == GateView::modifiers_rendered(self.modifiers@),
            decreases i,
        {
            let ghost before = out@;
            i = i - 1;
            out.append(self.modifiers[i].keyword());
            out.append(" ");
            proof {
                let head = self.modifiers@.take(i + 1);
                assert(head.drop_last() =~= self.modifiers@.take(i as int));
                assert(head.last() == self.modifiers@[i as int]);
                assert(out@ + GateView::modifiers_rendered(self.modifiers@.take(i as int))
                    =~= before + GateView::modifiers_rendered(head));
            }
        }
        assert(out@ =~= GateView::modifiers_rendered(self.modifiers@)) by {
            assert(self.modifiers@.take(0) =~= Seq::<GateModifier>::empty());
            assert(out@ + Seq::<char>::empty() =~= out@);
        }
        out.append(self.name.as_str());
        write_parameters(&self.parameters, &mut out);
        let ghost base = out@;
        let mut j: usize = 0;
        while j < self.qubits.len()
            invariant
                j <= self.qubits.len(),
                out@ == base + GateView::qubits_rendered(self.qubits@.take(j as int)),
            decreases self.qubits.len() - j,
        {
            out.append(" ");
            push_decimal(&mut out, self.qubits[j].index);
            proof {
                let next = self.qubits@.take(j + 1);
                assert(next.drop_last() =~= self.qubits@.take(j as int));
                assert(out@ =~= base + GateView::qubits_rendered(next));
            }
            j = j + 1;
        }
        assert(self.qubits@.take(j as int) =~= self.qubits@);
        assert(out@ =~= self@.rendered());
        out
    }
}

/// Appends the parameters in round brackets, or nothing where there is none.
pub fn write_parameters(parameters: &Vec<Expression>, out: &mut String)
    ensures
        final(out)@ == old(out)@ + GateView::parameters_rendered(expression_views(parameters@)),
{
    let ghost views = expression_views(parameters@);
    if parameters.len() == 0 {
        assert(out@ =~= old(out)@ + GateView::parameters_rendered(views));
        return ;
    }
    out.append("(");
    let ghost base = out@;
    let mut i: usize = 0;
    while i < parameters.len()
        invariant
            i <= parameters.len(),
            views == expression_views(parameters@),
            out@ == base + GateView::expressions_joined(views.take(i as int)),
        decreases parameters.len() - i,
    {
        if i > 0 {
            out.append(", ");
        }
        out.append(parameters[i].text.as_str());
        proof {
            let next = views.take(i + 1);
            assert(next.drop_last() =~= views.take(i as int));
            assert(next.last() == parameters@[i as int]@);
            assert(out@ =~= base + GateView::expressions_joined(next));
        }
        i = i + 1;
    }
    assert(views.take(i as int) =~= views);
    out.append(")");
    assert(out@ =~= old(out)@ + GateView::parameters_rendered(views));
}

} // verus!
