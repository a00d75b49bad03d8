use acvm_js::blackbox::Resolution;
use acvm_js::codec::decode;
use acvm_js::error::ExecutionError;
use acvm_js::field::FieldElement;
use acvm_js::gate::{check_gate, evaluate_gate, field_product, field_sum, Gate, LinearTerm, MulTerm};
use acvm_js::witness::WitnessMap;

fn fe(x: u64) -> FieldElement {
    FieldElement::from_u64(x)
}

fn minus(x: u64) -> FieldElement {
    let zero = fe(0);
    let mut candidate = decode("0x30644e72e131a029b85045b68181585d2833e84879b9709143e1f593f0000000").unwrap();
    // p - 1 is minus one; multiply to reach minus x.
    candidate = field_product(&candidate, &fe(x));
    assert_eq!(field_sum(&candidate, &fe(x)), zero);
    candidate
}

fn sum_gate() -> Gate {
    Gate {
        mul_terms: vec![],
        linear_terms: vec![
            LinearTerm { coefficient: fe(1), witness: 1 },
            LinearTerm { coefficient: fe(1), witness: 2 },
            LinearTerm { coefficient: minus(1), witness: 3 },
        ],
        constant: fe(0),
    }
}

#[test]
fn field_sums_and_products() {
    assert_eq!(field_sum(&fe(3), &fe(4)), fe(7));
    assert_eq!(field_product(&fe(3), &fe(4)), fe(12));
    assert_eq!(field_product(&fe(0), &fe(4)), fe(0));
    let top = decode("0x30644e72e131a029b85045b68181585d2833e84879b9709143e1f593f0000000").unwrap();
    assert_eq!(field_sum(&top, &fe(1)), fe(0));
    assert_eq!(field_sum(&top, &fe(5)), fe(4));
    assert_eq!(field_product(&top, &top), fe(1));
    assert_eq!(
        field_product(&fe(u64::MAX), &fe(u64::MAX)),
        decode("0xfffffffffffffffe0000000000000001").unwrap()
    );
}

#[test]
fn sum_gate_holds_for_three_four_seven() {
    let mut map = WitnessMap::new();
    map.assign(1, fe(3)).unwrap();
    map.assign(2, fe(4)).unwrap();
    assert_eq!(check_gate(&map, &sum_gate()), Ok(Resolution::Waiting));
    assert_eq!(evaluate_gate(&map, &sum_gate()), None);
    map.assign(3, fe(7)).unwrap();
    assert_eq!(evaluate_gate(&map, &sum_gate()), Some(fe(0)));
    assert_eq!(check_gate(&map, &sum_gate()), Ok(Resolution::Resolved));
    assert_eq!(map.len(), 3);
}

#[test]
fn sum_gate_fails_for_three_four_eight() {
    let mut map = WitnessMap::new();
    map.assign(1, fe(3)).unwrap();
    map.assign(2, fe(4)).unwrap();
    map.assign(3, fe(8)).unwrap();
    assert_eq!(check_gate(&map, &sum_gate()), Err(ExecutionError::UnsatisfiedConstraint));
    assert_eq!(evaluate_gate(&map, &sum_gate()), Some(minus(1)));
}

#[test]
fn product_terms_are_evaluated() {
    let mut map = WitnessMap::new();
    map.assign(1, fe(3)).unwrap();
    map.assign(2, fe(4)).unwrap();
    let gate = Gate {
        mul_terms: vec![MulTerm { coefficient: fe(2), left: 1, right: 2 }],
        linear_terms: vec![LinearTerm { coefficient: fe(10), witness: 1 }],
        constant: fe(5),
    };
    assert_eq!(evaluate_gate(&map, &gate), Some(fe(59)));
    let balanced = Gate {
        mul_terms: vec![MulTerm { coefficient: fe(2), left: 1, right: 2 }],
        linear_terms: vec![],
        constant: minus(24),
    };
    assert_eq!(check_gate(&map, &balanced), Ok(Resolution::Resolved));
    let waiting = Gate {
        mul_terms: vec![MulTerm { coefficient: fe(2), left: 1, right: 9 }],
        linear_terms: vec![],
        constant: fe(0),
    };
    assert_eq!(check_gate(&map, &waiting), Ok(Resolution::Waiting));
}

#[test]
fn empty_gate_is_its_constant() {
    let map = WitnessMap::new();
    let zero = Gate { mul_terms: vec![], linear_terms: vec![], constant: fe(0) };
    assert_eq!(check_gate(&map, &zero), Ok(Resolution::Resolved));
    let one = Gate { mul_terms: vec![], linear_terms: vec![], constant: fe(1) };
    assert_eq!(check_gate(&map, &one), Err(ExecutionError::UnsatisfiedConstraint));
}
