use acvm_js::error::ExecutionError;
use acvm_js::field::FieldElement;
use acvm_js::interchange::{export_witness_map, import_witness_map, EncodedAssignment};
use acvm_js::witness::WitnessMap;

fn pair(witness: u32, value: &str) -> EncodedAssignment {
    EncodedAssignment { witness, value: value.to_string() }
}

#[test]
fn export_lists_entries_by_ascending_index() {
    let mut map = WitnessMap::new();
    map.assign(4, FieldElement::from_u64(16)).unwrap();
    map.assign(2, FieldElement::from_u64(255)).unwrap();
    assert_eq!(
        export_witness_map(&map),
        vec![
            pair(2, "0x00000000000000000000000000000000000000000000000000000000000000ff"),
            pair(4, "0x0000000000000000000000000000000000000000000000000000000000000010"),
        ]
    );
    assert!(export_witness_map(&WitnessMap::new()).is_empty());
}

#[test]
fn import_reads_back_an_export() {
    let mut map = WitnessMap::new();
    map.assign(4, FieldElement::from_u64(16)).unwrap();
    map.assign(2, FieldElement::from_u64(255)).unwrap();
    map.assign(9, FieldElement::from_u64(u64::MAX)).unwrap();
    let back = import_witness_map(&export_witness_map(&map)).unwrap();
    assert_eq!(back.entries, map.entries);
}

#[test]
fn import_accepts_a_repeated_equal_pair() {
    let map = import_witness_map(&vec![pair(1, "0x05"), pair(1, "0x5")]).unwrap();
    assert_eq!(map.len(), 1);
    assert_eq!(map.get(1), Some(FieldElement::from_u64(5)));
}

#[test]
fn import_refuses_conflicting_pairs() {
    assert_eq!(
        import_witness_map(&vec![pair(1, "0x05"), pair(2, "0x01"), pair(1, "0x06"), pair(2, "0x02")]).err(),
        Some(ExecutionError::WriteOnceViolation { witness: 1 })
    );
}

#[test]
fn import_refuses_unreadable_text() {
    assert_eq!(
        import_witness_map(&vec![pair(1, "0x05"), pair(2, "five")]).err(),
        Some(ExecutionError::Deserialization)
    );
    assert_eq!(
        import_witness_map(&vec![pair(1, "0x05"), pair(1, "0x06"), pair(2, "five")]).err(),
        Some(ExecutionError::Deserialization)
    );
}
