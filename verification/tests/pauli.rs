use quil::expression::{Expression, Number};
use quil::pauli::{PauliGate, PauliSum, PauliSumError, PauliTerm};

fn one() -> Expression {
    Expression::new("1.0".to_string(), Some(Number { re: 1f64.to_bits(), im: 0 }))
}

fn term(pairs: &[(PauliGate, &str)], expression: Expression) -> PauliTerm {
    PauliTerm::new(pairs.iter().map(|(g, a)| (*g, a.to_string())).collect(), expression)
}

fn names(items: &[&str]) -> Vec<String> {
    items.iter().map(|s| s.to_string()).collect()
}

#[test]
fn pauli_gates_render_as_letters() {
    assert_eq!(PauliGate::I.to_quil(), "I");
    assert_eq!(PauliGate::X.to_quil(), "X");
    assert_eq!(PauliGate::Y.to_quil(), "Y");
    assert_eq!(PauliGate::Z.to_quil(), "Z");
}

#[test]
fn pauli_gates_parse_from_letters() {
    assert_eq!(PauliGate::parse("I").unwrap(), PauliGate::I);
    assert_eq!(PauliGate::parse("X").unwrap(), PauliGate::X);
    assert_eq!(PauliGate::parse("Y").unwrap(), PauliGate::Y);
    assert_eq!(PauliGate::parse("Z").unwrap(), PauliGate::Z);
    for g in [PauliGate::I, PauliGate::X, PauliGate::Y, PauliGate::Z] {
        assert_eq!(PauliGate::parse(&g.to_quil()).unwrap(), g);
    }
}

#[test]
fn pauli_gates_reject_other_text() {
    for text in ["", "x", "XX", "A", " X", "X ", "i", "W"] {
        assert_eq!(PauliGate::parse(text).unwrap_err().input, text);
    }
}

#[test]
fn pauli_term_keeps_its_parts() {
    let t = term(&[(PauliGate::X, "a"), (PauliGate::Z, "b")], one());
    assert_eq!(t.arguments, vec![(PauliGate::X, "a".to_string()), (PauliGate::Z, "b".to_string())]);
    assert_eq!(t.expression, one());
    assert_eq!(t.to_quil(), "XZ(1.0) a b");
    assert_eq!(term(&[], one()).to_quil(), "(1.0)");
}

#[test]
fn pauli_term_arguments_can_be_replaced() {
    let mut t = term(&[(PauliGate::X, "a")], one());
    t.set_arguments(vec![(PauliGate::Y, "b".to_string()), (PauliGate::I, "c".to_string())]);
    assert_eq!(t.arguments, vec![(PauliGate::Y, "b".to_string()), (PauliGate::I, "c".to_string())]);
    assert_eq!(t.expression, one());
}

#[test]
fn pauli_sum_rejects_a_name_it_does_not_have() {
    let r = PauliSum::new(names(&["p"]), vec![term(&[(PauliGate::X, "q")], one())]);
    assert_eq!(r.unwrap_err(), PauliSumError::UnknownArgument);
}

#[test]
fn pauli_sum_rejects_one_bad_name_among_good_ones() {
    let terms = vec![
        term(&[(PauliGate::X, "a"), (PauliGate::Y, "b")], one()),
        term(&[(PauliGate::Z, "b"), (PauliGate::Z, "c")], one()),
    ];
    let r = PauliSum::new(names(&["a", "b"]), terms);
    assert_eq!(r.unwrap_err(), PauliSumError::UnknownArgument);
    let r = PauliSum::new(vec![], vec![term(&[(PauliGate::I, "a")], one())]);
    assert_eq!(r.unwrap_err(), PauliSumError::UnknownArgument);
}

#[test]
fn pauli_sum_takes_terms_over_its_arguments() {
    let terms = vec![
        term(&[(PauliGate::X, "a"), (PauliGate::Y, "b")], one()),
        term(&[(PauliGate::Z, "b")], one()),
        term(&[], one()),
    ];
    let s = PauliSum::new(names(&["a", "b", "c"]), terms).unwrap();
    assert_eq!(s.arguments, names(&["a", "b", "c"]));
    assert_eq!(s.terms.len(), 3);
    assert!(s.is_well_formed());
    assert!(PauliSum::new(vec![], vec![]).is_ok());
    assert!(PauliSum::new(names(&["a"]), vec![]).is_ok());
}

#[test]
fn pauli_sum_equality_keeps_the_order() {
    let a = term(&[(PauliGate::X, "p")], one());
    let b = term(&[(PauliGate::Z, "q")], one());
    let ab = PauliSum::new(names(&["p", "q"]), vec![a.clone(), b.clone()]).unwrap();
    let ba = PauliSum::new(names(&["p", "q"]), vec![b.clone(), a.clone()]).unwrap();
    let ab_swapped = PauliSum::new(names(&["q", "p"]), vec![a.clone(), b.clone()]).unwrap();
    assert_eq!(ab, ab.clone());
    assert_ne!(ab, ba);
    assert_ne!(ab, ab_swapped);
    assert_ne!(a, b);
    assert_ne!(
        term(&[(PauliGate::X, "p"), (PauliGate::Z, "q")], one()),
        term(&[(PauliGate::Z, "q"), (PauliGate::X, "p")], one())
    );
}

#[test]
fn pauli_sum_renders_arguments_and_terms() {
    let sum = PauliSum::new(
        names(&["a", "b"]),
        vec![
            term(&[(PauliGate::X, "a"), (PauliGate::Y, "b")], one()),
            term(&[(PauliGate::Z, "b")], one()),
        ],
    )
    .unwrap();
    assert_eq!(sum.to_quil(), "PAULI-SUM a b:\n\tXY(1.0) a b\n\tZ(1.0) b");
    assert_eq!(PauliSum::new(vec![], vec![]).unwrap().to_quil(), "PAULI-SUM:");
}
