use acvm_js::blackbox::{
    blackbox_failure, fits_in_bits, range_check, same_text, schnorr_verify_inputs,
    unimplemented_failure, BlackBoxFunc, Resolution,
};
use acvm_js::error::ExecutionError;
use acvm_js::field::FieldElement;
use acvm_js::wide::U256;
use acvm_js::witness::WitnessMap;

#[test]
fn names_select_primitives() {
    let all = vec![
        (BlackBoxFunc::Sha256, "sha256"),
        (BlackBoxFunc::Blake2s, "blake2s"),
        (BlackBoxFunc::LogicAnd, "logicAnd"),
        (BlackBoxFunc::LogicXor, "logicXor"),
        (BlackBoxFunc::RangeCheck, "rangeCheck"),
        (BlackBoxFunc::EcdsaSecp256k1Verify, "ecdsaSecp256k1Verify"),
        (BlackBoxFunc::HashToField128Security, "hashToField128Security"),
        (BlackBoxFunc::SchnorrVerify, "schnorrVerify"),
        (BlackBoxFunc::PedersenHash, "pedersenHash"),
        (BlackBoxFunc::FixedBaseScalarMul, "fixedBaseScalarMul"),
    ];
    for (f, name) in all {
        assert_eq!(f.name(), name);
        assert_eq!(BlackBoxFunc::from_name(name), Ok(f));
    }
}

#[test]
fn unknown_name_is_unsupported() {
    assert_eq!(
        BlackBoxFunc::from_name("keccak256"),
        Err(ExecutionError::UnsupportedBlackBoxFunction { name: "keccak256".to_string() })
    );
    assert_eq!(
        BlackBoxFunc::from_name("SHA256"),
        Err(ExecutionError::UnsupportedBlackBoxFunction { name: "SHA256".to_string() })
    );
    assert_eq!(
        BlackBoxFunc::from_name(""),
        Err(ExecutionError::UnsupportedBlackBoxFunction { name: String::new() })
    );
}

#[test]
fn texts_compare_by_characters() {
    assert!(same_text("abc", "abc"));
    assert!(!same_text("abc", "abd"));
    assert!(!same_text("abc", "ab"));
    assert!(same_text("", ""));
}

#[test]
fn failures_carry_the_name() {
    assert_eq!(
        blackbox_failure(BlackBoxFunc::SchnorrVerify, "bad signature".to_string()),
        ExecutionError::BlackBoxFunctionFailed {
            name: "schnorrVerify".to_string(),
            reason: "bad signature".to_string()
        }
    );
    assert_eq!(
        unimplemented_failure(BlackBoxFunc::PedersenHash),
        ExecutionError::UnimplementedBlackBoxFunction { name: "pedersenHash".to_string() }
    );
}

#[test]
fn schnorr_inputs_layout() {
    let x = FieldElement::from_u64(0x0102);
    let y = FieldElement { repr: U256 { w3: 0x1100000000000000, w2: 0, w1: 0, w0: 0x33 } };
    let s = FieldElement::from_u64(7);
    let e = FieldElement::from_u64(0x0900);
    let inputs = schnorr_verify_inputs(&x, &y, &s, &e);
    assert_eq!(inputs.public_key.len(), 64);
    assert_eq!(&inputs.public_key[..32], &x.to_be_bytes()[..]);
    assert_eq!(&inputs.public_key[32..], &y.to_be_bytes()[..]);
    assert_eq!(inputs.public_key[30], 1);
    assert_eq!(inputs.public_key[31], 2);
    assert_eq!(inputs.public_key[32], 0x11);
    assert_eq!(inputs.public_key[63], 0x33);
    assert_eq!(inputs.signature_s.len(), 32);
    assert_eq!(inputs.signature_s[31], 7);
    assert_eq!(inputs.signature_e[30], 9);
    assert_eq!(inputs.signature_e[31], 0);
}

#[test]
fn bit_widths() {
    assert!(fits_in_bits(&FieldElement::from_u64(255), 8));
    assert!(!fits_in_bits(&FieldElement::from_u64(256), 8));
    assert!(fits_in_bits(&FieldElement::from_u64(0), 0));
    assert!(!fits_in_bits(&FieldElement::from_u64(1), 0));
    assert!(fits_in_bits(&FieldElement::from_u64(1), 1));
    assert!(fits_in_bits(&FieldElement::from_u64(u64::MAX), 64));
    assert!(!fits_in_bits(&FieldElement::from_u64(u64::MAX), 63));
    let wide = FieldElement { repr: U256 { w3: 0, w2: 1, w1: 0, w0: 0 } };
    assert!(!fits_in_bits(&wide, 128));
    assert!(fits_in_bits(&wide, 129));
    assert!(fits_in_bits(&wide, u32::MAX));
}

#[test]
fn range_check_reads_only() {
    let mut map = WitnessMap::new();
    map.assign(1, FieldElement::from_u64(300)).unwrap();
    assert_eq!(range_check(&map, 1, 8), Err(ExecutionError::UnsatisfiedConstraint));
    assert_eq!(range_check(&map, 1, 9), Ok(Resolution::Resolved));
    assert_eq!(range_check(&map, 2, 9), Ok(Resolution::Waiting));
    assert_eq!(map.len(), 1);
    assert_eq!(map.get(1), Some(FieldElement::from_u64(300)));
}
