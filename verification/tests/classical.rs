use quil::classical::{ArithmeticOperand, Load, Store};
use quil::expression::Real;
use quil::memory::MemoryReference;

fn reference(name: &str, index: u64) -> MemoryReference {
    MemoryReference::new(name.to_string(), index)
}

#[test]
fn load_renders_destination_source_offset() {
    let load = Load::new(reference("dest", 0), "table".to_string(), reference("idx", 2));
    assert_eq!(load.destination, reference("dest", 0));
    assert_eq!(load.source, "table");
    assert_eq!(load.offset, reference("idx", 2));
    assert_eq!(load.to_quil(), "LOAD dest[0] table idx[2]");
}

#[test]
fn store_renders_destination_offset_source() {
    let store = Store::new(
        "table".to_string(),
        reference("idx", 1),
        ArithmeticOperand::MemoryReference(reference("value", 4)),
    );
    assert_eq!(store.destination, "table");
    assert_eq!(store.to_quil(), "STORE table idx[1] value[4]");
    let store =
        Store::new("table".to_string(), reference("idx", 1), ArithmeticOperand::LiteralInteger(-12));
    assert_eq!(store.to_quil(), "STORE table idx[1] -12");
    let half = Real::new("0.5".to_string(), 0.5f64.to_bits());
    let store =
        Store::new("table".to_string(), reference("idx", 1), ArithmeticOperand::LiteralReal(half));
    assert_eq!(store.to_quil(), "STORE table idx[1] 0.5");
}

#[test]
fn integer_operands_render_with_their_sign() {
    assert_eq!(ArithmeticOperand::LiteralInteger(0).to_quil(), "0");
    assert_eq!(ArithmeticOperand::LiteralInteger(7).to_quil(), "7");
    assert_eq!(ArithmeticOperand::LiteralInteger(-1).to_quil(), "-1");
    assert_eq!(ArithmeticOperand::LiteralInteger(i64::MAX).to_quil(), "9223372036854775807");
    assert_eq!(ArithmeticOperand::LiteralInteger(i64::MIN).to_quil(), "-9223372036854775808");
}

#[test]
fn load_and_store_equality_is_structural() {
    let load = |i: u64| Load::new(reference("d", 0), "s".to_string(), reference("o", i));
    assert_eq!(load(1), load(1));
    assert_ne!(load(1), load(2));
    assert_eq!(load(5).clone(), load(5));
    let store = |n: i64| {
        Store::new("d".to_string(), reference("o", 0), ArithmeticOperand::LiteralInteger(n))
    };
    assert_eq!(store(1), store(1));
    assert_ne!(store(1), store(-1));
    assert_eq!(store(9).clone(), store(9));
    assert_ne!(
        ArithmeticOperand::LiteralInteger(1),
        ArithmeticOperand::LiteralReal(Real::new("1".to_string(), 1f64.to_bits()))
    );
    assert_ne!(
        ArithmeticOperand::LiteralReal(Real::new("1.0".to_string(), 1f64.to_bits())),
        ArithmeticOperand::LiteralReal(Real::new("1.0".to_string(), 2f64.to_bits()))
    );
}
