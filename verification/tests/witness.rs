use acvm_js::field::FieldElement;
use acvm_js::witness::{WitnessMap, WriteOnceViolation};

#[test]
fn new_map_is_empty() {
    let map = WitnessMap::new();
    assert_eq!(map.len(), 0);
    assert_eq!(map.get(0), None);
}

#[test]
fn assign_then_get() {
    let mut map = WitnessMap::new();
    assert_eq!(map.assign(1, FieldElement::from_u64(3)), Ok(()));
    assert_eq!(map.assign(2, FieldElement::from_u64(4)), Ok(()));
    assert_eq!(map.get(1), Some(FieldElement::from_u64(3)));
    assert_eq!(map.get(2), Some(FieldElement::from_u64(4)));
    assert_eq!(map.get(3), None);
    assert_eq!(map.len(), 2);
}

#[test]
fn same_value_again_is_a_no_op() {
    let mut map = WitnessMap::new();
    assert_eq!(map.assign(7, FieldElement::from_u64(9)), Ok(()));
    assert_eq!(map.assign(7, FieldElement::from_u64(9)), Ok(()));
    assert_eq!(map.len(), 1);
    assert_eq!(map.get(7), Some(FieldElement::from_u64(9)));
}

#[test]
fn other_value_is_refused() {
    let mut map = WitnessMap::new();
    assert_eq!(map.assign(7, FieldElement::from_u64(9)), Ok(()));
    assert_eq!(map.assign(7, FieldElement::from_u64(10)), Err(WriteOnceViolation { witness: 7 }));
    assert_eq!(map.len(), 1);
    assert_eq!(map.get(7), Some(FieldElement::from_u64(9)));
}

#[test]
fn duplicate_keeps_entries() {
    let mut map = WitnessMap::new();
    map.assign(5, FieldElement::from_u64(50)).unwrap();
    map.assign(1, FieldElement::from_u64(10)).unwrap();
    let copy = map.duplicate();
    assert_eq!(copy.entries, map.entries);
    assert_eq!(copy.get(5), Some(FieldElement::from_u64(50)));
}

#[test]
fn entries_ascend_whatever_the_order_of_assignment() {
    let mut map = WitnessMap::new();
    for w in [7u32, 2, 9, 0, 5, 2, 7] {
        map.assign(w, FieldElement::from_u64(w as u64 * 10)).unwrap();
    }
    let order: Vec<u32> = map.entries.iter().map(|e| e.witness).collect();
    assert_eq!(order, vec![0, 2, 5, 7, 9]);
    for w in [0u32, 2, 5, 7, 9] {
        assert_eq!(map.get(w), Some(FieldElement::from_u64(w as u64 * 10)));
    }
    assert_eq!(map.get(1), None);
    assert_eq!(map.get(8), None);
    assert_eq!(map.get(10), None);
}
