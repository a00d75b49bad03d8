use acvm_js::blackbox::Resolution;
use acvm_js::codec::decode;
use acvm_js::error::ExecutionError;
use acvm_js::field::FieldElement;
use acvm_js::logic::{field_logic, solve_logic_opcode, LogicOp};
use acvm_js::witness::WitnessMap;

fn fe(x: u64) -> FieldElement {
    FieldElement::from_u64(x)
}

#[test]
fn and_of_small_values() {
    assert_eq!(field_logic(LogicOp::And, &fe(0b1100), &fe(0b1010), 4), fe(0b1000));
    assert_eq!(field_logic(LogicOp::And, &fe(0xff), &fe(0xff), 4), fe(0x0f));
    assert_eq!(field_logic(LogicOp::And, &fe(0xff), &fe(0xff), 0), fe(0));
    assert_eq!(field_logic(LogicOp::And, &fe(0x1ff), &fe(0x1ff), 8), fe(0xff));
    assert_eq!(field_logic(LogicOp::And, &fe(u64::MAX), &fe(0x1234), 64), fe(0x1234));
}

#[test]
fn xor_of_small_values() {
    assert_eq!(field_logic(LogicOp::Xor, &fe(0b1100), &fe(0b1010), 4), fe(0b0110));
    assert_eq!(field_logic(LogicOp::Xor, &fe(0xff), &fe(0x0f), 8), fe(0xf0));
    assert_eq!(field_logic(LogicOp::Xor, &fe(0xff), &fe(0x0f), 6), fe(0x30));
    assert_eq!(field_logic(LogicOp::Xor, &fe(5), &fe(5), 32), fe(0));
    assert_eq!(field_logic(LogicOp::Xor, &fe(5), &fe(0), 300), fe(5));
}

#[test]
fn xor_is_reduced_modulo_the_prime() {
    let x = decode("0x2000000000000000000000000000000000000000000000000000000000000000").unwrap();
    let y = decode("0x1fffffffffffffffffffffffffffffffffffffffffffffffffffffffffffffff").unwrap();
    let expected =
        decode("0x0f9bb18d1ece5fd647afba497e7ea7a2d7cc17b786468f6ebc1e0a6c0ffffffe").unwrap();
    assert_eq!(field_logic(LogicOp::Xor, &x, &y, 254), expected);
    assert_eq!(field_logic(LogicOp::And, &x, &y, 254), fe(0));
}

#[test]
fn opcode_waits_for_its_operands() {
    let mut map = WitnessMap::new();
    map.assign(1, fe(12)).unwrap();
    assert_eq!(solve_logic_opcode(&mut map, LogicOp::And, 1, 2, 4, 3), Ok(Resolution::Waiting));
    assert_eq!(solve_logic_opcode(&mut map, LogicOp::And, 2, 1, 4, 3), Ok(Resolution::Waiting));
    assert_eq!(map.len(), 1);
}

#[test]
fn opcode_writes_its_output_once() {
    let mut map = WitnessMap::new();
    map.assign(1, fe(12)).unwrap();
    map.assign(2, fe(10)).unwrap();
    assert_eq!(solve_logic_opcode(&mut map, LogicOp::And, 1, 2, 4, 3), Ok(Resolution::Resolved));
    assert_eq!(map.get(3), Some(fe(8)));
    assert_eq!(solve_logic_opcode(&mut map, LogicOp::And, 1, 2, 4, 3), Ok(Resolution::Resolved));
    assert_eq!(map.len(), 3);
    assert_eq!(
        solve_logic_opcode(&mut map, LogicOp::Xor, 1, 2, 4, 3),
        Err(ExecutionError::UnsatisfiedConstraint)
    );
    assert_eq!(map.get(3), Some(fe(8)));
    assert_eq!(map.len(), 3);
    assert_eq!(solve_logic_opcode(&mut map, LogicOp::Xor, 1, 2, 4, 4), Ok(Resolution::Resolved));
    assert_eq!(map.get(4), Some(fe(6)));
}
