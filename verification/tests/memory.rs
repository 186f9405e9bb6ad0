use std::collections::HashMap;

use quil::memory::{Declaration, MemoryReference, Offset, ScalarType, Sharing, Vector};

fn reference(name: &str, index: u64) -> MemoryReference {
    MemoryReference::new(name.to_string(), index)
}

#[test]
fn memory_reference_renders_name_and_index() {
    assert_eq!(reference("ro", 3).to_quil(), "ro[3]");
    assert_eq!(reference("theta", 0).to_quil(), "theta[0]");
    assert_eq!(reference("a_b-c", 18446744073709551615).to_quil(), "a_b-c[18446744073709551615]");
}

#[test]
fn memory_reference_parse_gives_the_value_back() {
    let parsed = MemoryReference::parse("ro[3]").unwrap();
    assert_eq!(parsed, reference("ro", 3));
    assert_eq!(parsed.name, "ro");
    assert_eq!(parsed.index, 3);
}

#[test]
fn memory_reference_round_trips() {
    for (name, index) in [("ro", 0u64), ("x", 7), ("_m", 10), ("long-name_1", 1234567890123)] {
        let m = reference(name, index);
        assert_eq!(MemoryReference::parse(&m.to_quil()).unwrap(), m);
    }
}

#[test]
fn memory_reference_parse_rejects_an_open_bracket() {
    let e = MemoryReference::parse("ro[").unwrap_err();
    assert_eq!(e.input, "ro[");
}

#[test]
fn memory_reference_parse_rejects_malformed_text() {
    for text in [
        "", "ro", "ro[]", "ro[3", "ro3]", "[3]", "3ro[1]", "-ro[1]", "ro[x]", "ro[-1]", "ro[1]]",
        "ro[1] ", " ro[1]", "r o[1]", "ro[1][2]", "ro[1.0]", "ro[+1]",
    ] {
        let e = MemoryReference::parse(text).unwrap_err();
        assert_eq!(e.input, text);
    }
}

#[test]
fn memory_reference_parse_reads_leading_zeros() {
    assert_eq!(MemoryReference::parse("ro[007]").unwrap(), reference("ro", 7));
}

#[test]
fn memory_reference_parse_stops_at_sixty_four_bits() {
    assert_eq!(
        MemoryReference::parse("ro[18446744073709551615]").unwrap(),
        reference("ro", u64::MAX)
    );
    assert!(MemoryReference::parse("ro[18446744073709551616]").is_err());
    assert!(MemoryReference::parse("ro[99999999999999999999999]").is_err());
}

#[test]
fn memory_reference_equality_is_by_name_and_index() {
    assert_eq!(reference("ro", 3), reference("ro", 3));
    assert_ne!(reference("ro", 3), reference("ro", 4));
    assert_ne!(reference("ro", 3), reference("r", 3));
    assert_eq!(reference("ro", 3).clone(), reference("ro", 3));
}

#[test]
fn memory_reference_is_a_map_key() {
    let mut values: HashMap<MemoryReference, i64> = HashMap::new();
    values.insert(reference("ro", 0), 1);
    values.insert(reference("ro", 1), 2);
    values.insert(reference("ro", 0), 3);
    assert_eq!(values.len(), 2);
    assert_eq!(values[&reference("ro", 0)], 3);
    assert_eq!(values[&reference("ro", 1)], 2);
}

#[test]
fn scalar_types_render_as_keywords() {
    assert_eq!(ScalarType::Bit.to_quil(), "BIT");
    assert_eq!(ScalarType::Integer.to_quil(), "INTEGER");
    assert_eq!(ScalarType::Octet.to_quil(), "OCTET");
    assert_eq!(ScalarType::Real.to_quil(), "REAL");
}

#[test]
fn vector_and_offset_render() {
    let v = Vector::new(ScalarType::Real, 16);
    assert_eq!(v.data_type, ScalarType::Real);
    assert_eq!(v.length, 16);
    assert_eq!(v.to_quil(), "REAL[16]");
    let o = Offset::new(4, ScalarType::Bit);
    assert_eq!(o.offset, 4);
    assert_eq!(o.data_type, ScalarType::Bit);
    assert_eq!(o.to_quil(), "4 BIT");
}

#[test]
fn vector_holds_at_least_one_element() {
    assert!(Vector::new(ScalarType::Bit, 1).is_well_formed());
    assert!(!Vector::new(ScalarType::Bit, 0).is_well_formed());
}

#[test]
fn declaration_renders_without_sharing() {
    let d = Declaration::new("ro".to_string(), Vector::new(ScalarType::Bit, 2), None);
    assert!(d.allocates());
    assert_eq!(d.to_quil(), "DECLARE ro BIT[2]");
}

#[test]
fn declaration_renders_sharing_and_offsets() {
    let plain = Sharing::new("other".to_string(), vec![]);
    let d = Declaration::new("a".to_string(), Vector::new(ScalarType::Octet, 8), Some(plain));
    assert!(!d.allocates());
    assert_eq!(d.to_quil(), "DECLARE a OCTET[8] SHARING other");
    let offsets = vec![Offset::new(2, ScalarType::Integer), Offset::new(5, ScalarType::Bit)];
    let shared = Sharing::new("other".to_string(), offsets);
    let d = Declaration::new("a".to_string(), Vector::new(ScalarType::Real, 1), Some(shared));
    assert_eq!(d.to_quil(), "DECLARE a REAL[1] SHARING other OFFSET 2 INTEGER 5 BIT");
}

#[test]
fn declaration_equality_is_structural() {
    let make = |offset: u64| {
        Declaration::new(
            "a".to_string(),
            Vector::new(ScalarType::Real, 1),
            Some(Sharing::new("b".to_string(), vec![Offset::new(offset, ScalarType::Real)])),
        )
    };
    assert_eq!(make(1), make(1));
    assert_ne!(make(1), make(2));
    assert_ne!(make(1), Declaration::new("a".to_string(), Vector::new(ScalarType::Real, 1), None));
    assert_eq!(make(3).clone(), make(3));
    assert_ne!(
        Sharing::new("b".to_string(), vec![Offset::new(1, ScalarType::Real), Offset::new(2, ScalarType::Bit)]),
        Sharing::new("b".to_string(), vec![Offset::new(2, ScalarType::Bit), Offset::new(1, ScalarType::Real)])
    );
}
