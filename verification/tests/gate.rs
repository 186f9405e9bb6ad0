use std::collections::HashSet;

use quil::catalog::{arity_of, Arity};
use quil::expression::{Expression, Number, Qubit};
use quil::gate::{is_scaled, Gate, GateError, GateModifier};

fn number(x: f64) -> Expression {
    Expression::new(format!("{:?}", x), Some(Number { re: x.to_bits(), im: 0f64.to_bits() }))
}

fn variable(name: &str) -> Expression {
    Expression::new(format!("%{}", name), None)
}

fn qubits(indices: &[u64]) -> Vec<Qubit> {
    indices.iter().map(|i| Qubit::new(*i)).collect()
}

fn gate(name: &str, parameters: Vec<Expression>, indices: &[u64]) -> Gate {
    Gate::new(name.to_string(), parameters, qubits(indices), vec![]).unwrap()
}

#[test]
fn built_in_names_have_their_arity() {
    for name in ["I", "X", "Y", "Z", "H", "S", "T"] {
        assert_eq!(arity_of(name), Some(Arity { parameters: 0, qubits: 1 }));
    }
    for name in ["RX", "RY", "RZ", "PHASE"] {
        assert_eq!(arity_of(name), Some(Arity { parameters: 1, qubits: 1 }));
    }
    for name in ["CNOT", "CZ", "SWAP", "ISWAP"] {
        assert_eq!(arity_of(name), Some(Arity { parameters: 0, qubits: 2 }));
    }
    for name in ["CPHASE", "CPHASE00", "CPHASE01", "CPHASE10", "PSWAP"] {
        assert_eq!(arity_of(name), Some(Arity { parameters: 1, qubits: 2 }));
    }
    for name in ["CCNOT", "CSWAP"] {
        assert_eq!(arity_of(name), Some(Arity { parameters: 0, qubits: 3 }));
    }
    for name in ["", "x", "XX", "MYGATE", "CNOT ", "RX2"] {
        assert_eq!(arity_of(name), None);
    }
}

#[test]
fn new_keeps_what_it_is_given() {
    let g = Gate::new("RX".to_string(), vec![number(0.5)], qubits(&[3]), vec![]).unwrap();
    assert_eq!(g.name, "RX");
    assert_eq!(g.parameters, vec![number(0.5)]);
    assert_eq!(g.qubits, qubits(&[3]));
    assert_eq!(g.modifiers, vec![]);
    assert!(g.is_well_formed());
}

#[test]
fn new_rejects_counts_that_do_not_fit_a_built_in_name() {
    let cases: Vec<(&str, Vec<Expression>, Vec<u64>)> = vec![
        ("X", vec![], vec![]),
        ("X", vec![], vec![0, 1]),
        ("X", vec![number(1.0)], vec![0]),
        ("RX", vec![], vec![0]),
        ("RX", vec![number(1.0), number(2.0)], vec![0]),
        ("CNOT", vec![], vec![0]),
        ("CPHASE", vec![number(1.0)], vec![0]),
        ("CCNOT", vec![], vec![0, 1]),
    ];
    for (name, parameters, indices) in cases {
        let r = Gate::new(name.to_string(), parameters, qubits(&indices), vec![]);
        assert_eq!(r.unwrap_err(), GateError::InvalidArity);
    }
}

#[test]
fn new_counts_the_modifiers_in() {
    let ok = Gate::new(
        "X".to_string(),
        vec![],
        qubits(&[2, 1, 0]),
        vec![GateModifier::Controlled, GateModifier::Dagger, GateModifier::Controlled],
    );
    assert!(ok.is_ok());
    let short = Gate::new(
        "X".to_string(),
        vec![],
        qubits(&[1, 0]),
        vec![GateModifier::Controlled, GateModifier::Controlled],
    );
    assert_eq!(short.unwrap_err(), GateError::InvalidArity);
    let forked = Gate::new(
        "RZ".to_string(),
        vec![number(1.0), number(2.0), number(3.0), number(4.0)],
        qubits(&[2, 1, 0]),
        vec![GateModifier::Forked, GateModifier::Forked],
    );
    assert!(forked.is_ok());
    let odd = Gate::new(
        "RZ".to_string(),
        vec![number(1.0), number(2.0), number(3.0)],
        qubits(&[2, 1, 0]),
        vec![GateModifier::Forked, GateModifier::Forked],
    );
    assert_eq!(odd.unwrap_err(), GateError::InvalidArity);
    let plain_fork = Gate::new(
        "X".to_string(),
        vec![],
        qubits(&[1, 0]),
        vec![GateModifier::Forked],
    );
    assert!(plain_fork.is_ok());
}

#[test]
fn new_leaves_other_names_free() {
    let g = Gate::new(
        "MYGATE".to_string(),
        vec![number(1.0), variable("t"), number(3.0)],
        qubits(&[5, 5]),
        vec![GateModifier::Forked],
    );
    assert!(g.is_ok());
    assert!(Gate::new("G".to_string(), vec![], vec![], vec![]).is_ok());
}

#[test]
fn is_scaled_doubles_the_base() {
    assert!(is_scaled(1, 1, 0));
    assert!(is_scaled(8, 1, 3));
    assert!(is_scaled(12, 3, 2));
    assert!(!is_scaled(11, 3, 2));
    assert!(!is_scaled(6, 3, 2));
    assert!(is_scaled(0, 0, 70));
    assert!(!is_scaled(1, 0, 1));
    assert!(!is_scaled(usize::MAX, 1, 200));
    assert!(!is_scaled(2, 3, 0));
}

#[test]
fn dagger_pushes_one_modifier() {
    let g = gate("X", vec![], &[0]);
    let d = g.dagger();
    assert_eq!(d.modifiers, vec![GateModifier::Dagger]);
    assert_eq!(d.name, g.name);
    assert_eq!(d.qubits, g.qubits);
    assert_eq!(d.parameters, g.parameters);
    assert_eq!(g.modifiers, vec![]);
}

#[test]
fn dagger_twice_keeps_both_modifiers() {
    let g = gate("S", vec![], &[0]).dagger().dagger();
    assert_eq!(g.modifiers, vec![GateModifier::Dagger, GateModifier::Dagger]);
    assert_ne!(g, gate("S", vec![], &[0]));
}

#[test]
fn controlled_puts_the_control_first() {
    let g = gate("X", vec![], &[0]);
    let c = g.controlled(Qubit::new(1)).unwrap();
    assert_eq!(c.qubits, qubits(&[1, 0]));
    assert_eq!(c.modifiers, vec![GateModifier::Controlled]);
    assert_eq!(c.name, "X");
    assert!(c.is_well_formed());
    let cc = c.controlled(Qubit::new(7)).unwrap();
    assert_eq!(cc.qubits, qubits(&[7, 1, 0]));
    assert_eq!(cc.modifiers, vec![GateModifier::Controlled, GateModifier::Controlled]);
}

#[test]
fn controlled_rejects_an_operand_as_control() {
    let g = gate("CNOT", vec![], &[0, 1]);
    assert_eq!(g.controlled(Qubit::new(0)).unwrap_err(), GateError::DuplicateQubit);
    assert_eq!(g.controlled(Qubit::new(1)).unwrap_err(), GateError::DuplicateQubit);
    assert!(g.controlled(Qubit::new(2)).is_ok());
    assert_eq!(g.qubits, qubits(&[0, 1]));
}

#[test]
fn forked_rejects_another_number_of_parameters() {
    let g = gate("RX", vec![number(1.0)], &[0]);
    assert_eq!(g.forked(Qubit::new(1), vec![]).unwrap_err(), GateError::ParameterCountMismatch);
    assert_eq!(
        g.forked(Qubit::new(1), vec![number(1.0), number(2.0)]).unwrap_err(),
        GateError::ParameterCountMismatch
    );
    let plain = gate("X", vec![], &[0]);
    assert_eq!(
        plain.forked(Qubit::new(1), vec![number(1.0)]).unwrap_err(),
        GateError::ParameterCountMismatch
    );
}

#[test]
fn forked_doubles_the_parameters() {
    let g = gate("RX", vec![number(1.0)], &[0]);
    let f = g.forked(Qubit::new(1), vec![number(2.0)]).unwrap();
    assert_eq!(f.parameters, vec![number(1.0), number(2.0)]);
    assert_eq!(f.qubits, qubits(&[1, 0]));
    assert_eq!(f.modifiers, vec![GateModifier::Forked]);
    assert!(f.is_well_formed());
    let ff = f.forked(Qubit::new(2), vec![number(3.0), number(4.0)]).unwrap();
    assert_eq!(ff.parameters, vec![number(1.0), number(2.0), number(3.0), number(4.0)]);
    assert_eq!(ff.qubits, qubits(&[2, 1, 0]));
    assert_eq!(ff.modifiers, vec![GateModifier::Forked, GateModifier::Forked]);
    assert!(ff.is_well_formed());
    let plain = gate("X", vec![], &[0]).forked(Qubit::new(1), vec![]).unwrap();
    assert_eq!(plain.parameters.len(), 0);
    assert_eq!(plain.qubits, qubits(&[1, 0]));
}

#[test]
fn forked_does_not_look_at_the_fork_qubit() {
    let g = gate("RX", vec![number(1.0)], &[0]);
    let f = g.forked(Qubit::new(0), vec![number(2.0)]).unwrap();
    assert_eq!(f.qubits, qubits(&[0, 0]));
}

#[test]
fn gates_are_equal_by_all_four_parts() {
    let base = || gate("RX", vec![number(1.0)], &[0]);
    assert_eq!(base(), base());
    assert_eq!(base().clone(), base());
    assert_ne!(base(), gate("RY", vec![number(1.0)], &[0]));
    assert_ne!(base(), gate("RX", vec![number(2.0)], &[0]));
    assert_ne!(base(), gate("RX", vec![number(1.0)], &[1]));
    assert_ne!(base(), base().dagger());
    assert_ne!(
        gate("G", vec![number(1.0), number(2.0)], &[0]),
        gate("G", vec![number(2.0), number(1.0)], &[0])
    );
    assert_ne!(gate("CNOT", vec![], &[0, 1]), gate("CNOT", vec![], &[1, 0]));
    assert_ne!(
        gate("G", vec![Expression::new("1".to_string(), None)], &[0]),
        gate("G", vec![Expression::new("1".to_string(), Some(Number { re: 0, im: 0 }))], &[0])
    );
}

#[test]
fn the_order_of_modifiers_tells_gates_apart() {
    let a = gate("X", vec![], &[0]).controlled(Qubit::new(1)).unwrap().dagger();
    let b = gate("X", vec![], &[0]).dagger().controlled(Qubit::new(1)).unwrap();
    assert_eq!(a.modifiers, vec![GateModifier::Controlled, GateModifier::Dagger]);
    assert_eq!(b.modifiers, vec![GateModifier::Dagger, GateModifier::Controlled]);
    assert_eq!(a.name, b.name);
    assert_eq!(a.qubits, b.qubits);
    assert_eq!(a.parameters, b.parameters);
    assert_ne!(a, b);
}

#[test]
fn equal_gates_hash_alike() {
    let mut set: HashSet<Gate> = HashSet::new();
    set.insert(gate("X", vec![], &[0]));
    set.insert(gate("X", vec![], &[0]));
    set.insert(gate("X", vec![], &[0]).dagger());
    set.insert(gate("RX", vec![number(1.0)], &[0]));
    set.insert(gate("RX", vec![number(1.0)], &[0]));
    assert_eq!(set.len(), 3);
    assert!(set.contains(&gate("X", vec![], &[0]).dagger()));
}

#[test]
fn normalize_takes_paired_adjoints_away() {
    const C: GateModifier = GateModifier::Controlled;
    const D: GateModifier = GateModifier::Dagger;
    const F: GateModifier = GateModifier::Forked;
    let stacks: Vec<(Vec<GateModifier>, Vec<GateModifier>)> = {
        vec![
            (vec![], vec![]),
            (vec![D], vec![D]),
            (vec![D, D], vec![]),
            (vec![D, D, D], vec![D]),
            (vec![D, C, D], vec![D, C, D]),
            (vec![C, D, D, C], vec![C, C]),
            (vec![D, C, D, D, C, D], vec![D, C, C, D]),
            (vec![C, D, F, D, D, F, D, C], vec![C, D, F, F, D, C]),
            (vec![D, F, D, D, F, D], vec![D, F, F, D]),
            (vec![F, D, D, D, D, F], vec![F, F]),
        ]
    };
    for (before, after) in stacks {
        let mut g = Gate {
            name: "G".to_string(),
            parameters: vec![number(1.0)],
            qubits: qubits(&[0]),
            modifiers: before,
        };
        g.normalize();
        assert_eq!(g.modifiers, after);
        assert_eq!(g.name, "G");
        assert_eq!(g.parameters, vec![number(1.0)]);
        assert_eq!(g.qubits, qubits(&[0]));
        let once = g.clone();
        g.normalize();
        assert_eq!(g, once);
    }
}

#[test]
fn gates_render_modifiers_name_parameters_qubits() {
    assert_eq!(gate("X", vec![], &[0]).to_quil(), "X 0");
    assert_eq!(gate("CNOT", vec![], &[10, 2]).to_quil(), "CNOT 10 2");
    let rx = gate("RX", vec![variable("theta")], &[0]);
    assert_eq!(rx.to_quil(), "RX(%theta) 0");
    let g = rx.controlled(Qubit::new(1)).unwrap().dagger();
    assert_eq!(g.to_quil(), "DAGGER CONTROLLED RX(%theta) 1 0");
    let f = gate("RZ", vec![Expression::new("pi".to_string(), None)], &[0])
        .forked(Qubit::new(3), vec![Expression::new("pi/2".to_string(), None)])
        .unwrap();
    assert_eq!(f.to_quil(), "FORKED RZ(pi, pi/2) 3 0");
    assert_eq!(gate("G", vec![], &[]).to_quil(), "G");
}

#[test]
fn modifiers_render_as_keywords() {
    assert_eq!(GateModifier::Controlled.to_quil(), "CONTROLLED");
    assert_eq!(GateModifier::Dagger.to_quil(), "DAGGER");
    assert_eq!(GateModifier::Forked.to_quil(), "FORKED");
}

#[test]
fn qubits_render_as_numerals() {
    assert_eq!(Qubit::new(0).to_quil(), "0");
    assert_eq!(Qubit::new(42).to_quil(), "42");
    assert_eq!(Qubit::new(42).index, 42);
}

#[test]
fn expressions_tell_whether_they_are_numbers() {
    assert!(number(1.5).is_resolved());
    assert!(!variable("x").is_resolved());
    assert_eq!(number(1.5), number(1.5).clone());
    assert_ne!(number(1.5), number(2.5));
}
