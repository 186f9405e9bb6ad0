use quil::definition::{check_permutation, GateDefinition, GateSpecification};
use quil::expression::{Expression, Number};
use quil::gate::GateError;
use quil::pauli::{PauliGate, PauliSum, PauliTerm};
use quil::power::{bit_of, exponent_of, power_of_two};

fn e(text: &str) -> Expression {
    Expression::new(text.to_string(), None)
}

fn n(x: f64) -> Expression {
    Expression::new(format!("{:?}", x), Some(Number { re: x.to_bits(), im: 0 }))
}

fn square(side: usize) -> Vec<Vec<Expression>> {
    (0..side).map(|r| (0..side).map(|c| n(if r == c { 1.0 } else { 0.0 })).collect()).collect()
}

#[test]
fn exponents_of_powers_of_two() {
    assert_eq!(exponent_of(0), None);
    assert_eq!(exponent_of(1), Some(0));
    assert_eq!(exponent_of(2), Some(1));
    assert_eq!(exponent_of(3), None);
    assert_eq!(exponent_of(4), Some(2));
    assert_eq!(exponent_of(6), None);
    assert_eq!(exponent_of(1024), Some(10));
    assert_eq!(exponent_of(1023), None);
    assert_eq!(exponent_of(usize::MAX), None);
    assert_eq!(exponent_of(1usize << 31), Some(31));
}

#[test]
fn powers_and_digits() {
    assert_eq!(power_of_two(0), 1);
    assert_eq!(power_of_two(1), 2);
    assert_eq!(power_of_two(10), 1024);
    assert_eq!(power_of_two(63), 1u64 << 63);
    assert_eq!(bit_of(5, 0), 1);
    assert_eq!(bit_of(5, 1), 0);
    assert_eq!(bit_of(5, 2), 1);
    assert_eq!(bit_of(5, 3), 0);
    assert_eq!(bit_of(u64::MAX, 63), 1);
    assert_eq!(bit_of(1u64 << 62, 63), 0);
}

#[test]
fn permutations_are_told_from_other_lists() {
    assert!(check_permutation(&vec![]));
    assert!(check_permutation(&vec![0]));
    assert!(check_permutation(&vec![0, 1, 3, 2]));
    assert!(check_permutation(&vec![2, 0, 1]));
    assert!(!check_permutation(&vec![1]));
    assert!(!check_permutation(&vec![0, 0]));
    assert!(!check_permutation(&vec![0, 1, 2, 4]));
    assert!(!check_permutation(&vec![3, 1, 1, 0]));
    assert!(!check_permutation(&vec![u64::MAX, 0]));
}

#[test]
fn definition_takes_square_matrices_of_side_two_to_the_n() {
    for side in [1usize, 2, 4, 8] {
        let d = GateDefinition::new("G".to_string(), vec![], GateSpecification::Matrix(square(side)));
        let d = d.unwrap();
        assert_eq!(d.name, "G");
        assert_eq!(d.specification, GateSpecification::Matrix(square(side)));
        assert_eq!(d.specification.qubits(), Some(side.trailing_zeros() as usize));
    }
}

#[test]
fn definition_rejects_matrices_out_of_shape() {
    for side in [0usize, 3, 5, 6] {
        let d = GateDefinition::new("G".to_string(), vec![], GateSpecification::Matrix(square(side)));
        assert_eq!(d.unwrap_err(), GateError::InvalidSpecificationShape);
    }
    let mut ragged = square(2);
    ragged[1].pop();
    let d = GateDefinition::new("G".to_string(), vec![], GateSpecification::Matrix(ragged));
    assert_eq!(d.unwrap_err(), GateError::InvalidSpecificationShape);
    let wide = vec![vec![n(1.0); 4], vec![n(1.0); 4]];
    let d = GateDefinition::new("G".to_string(), vec![], GateSpecification::Matrix(wide));
    assert_eq!(d.unwrap_err(), GateError::InvalidSpecificationShape);
    assert!(!GateSpecification::Matrix(square(3)).is_shape_valid());
    assert_eq!(GateSpecification::Matrix(square(3)).qubits(), None);
}

#[test]
fn definition_checks_the_length_of_a_permutation_only() {
    let ok = GateDefinition::new(
        "P".to_string(),
        vec![],
        GateSpecification::Permutation(vec![0, 1, 3, 2]),
    );
    assert!(ok.is_ok());
    let not_one_to_one = GateDefinition::new(
        "P".to_string(),
        vec![],
        GateSpecification::Permutation(vec![0, 0, 0, 0]),
    );
    assert!(not_one_to_one.is_ok());
    for p in [vec![], vec![0, 1, 2], vec![0, 1, 2, 3, 4]] {
        let d = GateDefinition::new("P".to_string(), vec![], GateSpecification::Permutation(p));
        assert_eq!(d.unwrap_err(), GateError::InvalidSpecificationShape);
    }
}

#[test]
fn definition_takes_any_sum() {
    let sum = PauliSum::new(
        vec!["a".to_string(), "b".to_string(), "c".to_string()],
        vec![PauliTerm::new(vec![(PauliGate::X, "a".to_string())], e("%t"))],
    )
    .unwrap();
    let spec = GateSpecification::PauliSum(sum);
    assert_eq!(spec.qubits(), Some(3));
    let d = GateDefinition::new("G".to_string(), vec!["t".to_string()], spec.clone()).unwrap();
    assert_eq!(d.parameters, vec!["t".to_string()]);
    assert_eq!(d.specification, spec);
}

#[test]
fn definitions_render() {
    let h = vec![vec![e("1/sqrt(2)"), e("1/sqrt(2)")], vec![e("1/sqrt(2)"), e("-1/sqrt(2)")]];
    let d = GateDefinition::new("HAD".to_string(), vec![], GateSpecification::Matrix(h)).unwrap();
    assert_eq!(d.to_quil(), "DEFGATE HAD AS MATRIX:\n\t1/sqrt(2), 1/sqrt(2)\n\t1/sqrt(2), -1/sqrt(2)");
    let r = vec![vec![e("cos(%a)"), e("%b")], vec![e("0"), e("1")]];
    let d = GateDefinition::new(
        "R".to_string(),
        vec!["a".to_string(), "b".to_string()],
        GateSpecification::Matrix(r),
    )
    .unwrap();
    assert_eq!(d.to_quil(), "DEFGATE R(%a, %b) AS MATRIX:\n\tcos(%a), %b\n\t0, 1");
    let p = GateDefinition::new(
        "CN".to_string(),
        vec![],
        GateSpecification::Permutation(vec![0, 1, 3, 2]),
    )
    .unwrap();
    assert_eq!(p.to_quil(), "DEFGATE CN AS PERMUTATION:\n\t0, 1, 3, 2");
    assert_eq!(p.specification.to_quil(), "\n\t0, 1, 3, 2");
    let sum = PauliSum::new(
        vec!["a".to_string(), "b".to_string()],
        vec![
            PauliTerm::new(
                vec![(PauliGate::X, "a".to_string()), (PauliGate::Y, "b".to_string())],
                e("%t"),
            ),
            PauliTerm::new(vec![(PauliGate::Z, "a".to_string())], e("2.0")),
        ],
    )
    .unwrap();
    let d =
        GateDefinition::new("G".to_string(), vec!["t".to_string()], GateSpecification::PauliSum(sum))
            .unwrap();
    assert_eq!(d.to_quil(), "DEFGATE G(%t) a b AS PAULI-SUM:\n\tXY(%t) a b\n\tZ(2.0) a");
}

#[test]
fn definitions_are_equal_by_structure() {
    let make = |name: &str, p: Vec<u64>| GateDefinition {
        name: name.to_string(),
        parameters: vec![],
        specification: GateSpecification::Permutation(p),
    };
    assert_eq!(make("P", vec![0, 1]), make("P", vec![0, 1]));
    assert_eq!(make("P", vec![0, 1]).clone(), make("P", vec![0, 1]));
    assert_ne!(make("P", vec![0, 1]), make("P", vec![1, 0]));
    assert_ne!(make("P", vec![0, 1]), make("Q", vec![0, 1]));
    assert_ne!(GateSpecification::Matrix(square(2)), GateSpecification::Permutation(vec![0, 1]));
    assert_eq!(GateSpecification::Matrix(square(2)), GateSpecification::Matrix(square(2)).clone());
    assert_ne!(GateSpecification::Matrix(square(2)), GateSpecification::Matrix(square(4)));
}
