use acvm_js::codec::{decode, digit_value_of, encode, hex_char_of, MalformedFieldEncoding};
use acvm_js::field::{modulus_words, FieldElement};
use acvm_js::wide::U256;

const ZEROS_63: &str = "000000000000000000000000000000000000000000000000000000000000000";
const MODULUS_HEX: &str = "30644e72e131a029b85045b68181585d2833e84879b9709143e1f593f0000001";
const MODULUS_MINUS_ONE_HEX: &str =
    "30644e72e131a029b85045b68181585d2833e84879b9709143e1f593f0000000";

#[test]
fn encode_small_values() {
    assert_eq!(encode(&FieldElement::zero()), format!("0x{}0", ZEROS_63));
    assert_eq!(encode(&FieldElement::from_u64(3)), format!("0x{}3", ZEROS_63));
    assert_eq!(
        encode(&FieldElement::from_u64(0xdead_beef)),
        "0x00000000000000000000000000000000000000000000000000000000deadbeef"
    );
    assert_eq!(
        encode(&FieldElement::from_u64(u64::MAX)),
        "0x000000000000000000000000000000000000000000000000ffffffffffffffff"
    );
}

#[test]
fn encode_is_fixed_width_lowercase() {
    let values: Vec<u64> = vec![0, 1, 15, 16, 255, 0xABCDEF, u64::MAX];
    for v in values {
        let text = encode(&FieldElement::from_u64(v));
        assert_eq!(text.len(), 66);
        assert!(text.starts_with("0x"));
        assert!(text[2..].chars().all(|c| c.is_ascii_digit() || ('a'..='f').contains(&c)));
    }
}

#[test]
fn encode_uses_every_word() {
    let x = FieldElement {
        repr: U256 {
            w3: 0x0123456789abcdef,
            w2: 0xfedcba9876543210,
            w1: 0x0011223344556677,
            w0: 0x8899aabbccddeeff,
        },
    };
    assert_eq!(
        encode(&x),
        "0x0123456789abcdeffedcba987654321000112233445566778899aabbccddeeff"
    );
}

#[test]
fn decode_round_trips_encode() {
    let samples: Vec<FieldElement> = vec![
        FieldElement::zero(),
        FieldElement::from_u64(1),
        FieldElement::from_u64(7),
        FieldElement::from_u64(u64::MAX),
        FieldElement {
            repr: U256 { w3: 0x30644e72e131a029, w2: 0xb85045b68181585d, w1: 0x2833e84879b97091, w0: 0x43e1f593f0000000 },
        },
        FieldElement { repr: U256 { w3: 1, w2: 2, w1: 3, w0: 4 } },
    ];
    for x in samples {
        assert_eq!(decode(&encode(&x)), Ok(x));
    }
}

#[test]
fn decode_accepts_short_and_uppercase_and_bare() {
    assert_eq!(decode("0x7"), Ok(FieldElement::from_u64(7)));
    assert_eq!(decode("0xFF"), Ok(FieldElement::from_u64(255)));
    assert_eq!(decode("0xaB"), Ok(FieldElement::from_u64(171)));
    assert_eq!(decode("10"), Ok(FieldElement::from_u64(16)));
    assert_eq!(decode("0x0a"), Ok(FieldElement::from_u64(10)));
}

#[test]
fn decode_largest_element() {
    let top = decode(&format!("0x{}", MODULUS_MINUS_ONE_HEX)).unwrap();
    assert_eq!(top.repr.w0, 0x43e1f593f0000000);
    assert_eq!(top.repr.w3, 0x30644e72e131a029);
    assert_eq!(encode(&top), format!("0x{}", MODULUS_MINUS_ONE_HEX));
}

#[test]
fn decode_refuses_modulus_and_above() {
    assert_eq!(decode(&format!("0x{}", MODULUS_HEX)), Err(MalformedFieldEncoding));
    assert_eq!(
        decode("0xffffffffffffffffffffffffffffffffffffffffffffffffffffffffffffffff"),
        Err(MalformedFieldEncoding)
    );
    assert_eq!(
        decode("0x30644e72e131a029b85045b68181585d2833e84879b9709143e1f593f0000002"),
        Err(MalformedFieldEncoding)
    );
}

#[test]
fn decode_refuses_too_long() {
    assert_eq!(decode(&format!("0x0{}1", ZEROS_63)), Err(MalformedFieldEncoding));
    assert_eq!(decode(&format!("00{}1", ZEROS_63)), Err(MalformedFieldEncoding));
}

#[test]
fn decode_refuses_bad_text() {
    assert_eq!(decode(""), Err(MalformedFieldEncoding));
    assert_eq!(decode("0x"), Err(MalformedFieldEncoding));
    assert_eq!(decode("0xg1"), Err(MalformedFieldEncoding));
    assert_eq!(decode("0x12 "), Err(MalformedFieldEncoding));
    assert_eq!(decode("0X12"), Err(MalformedFieldEncoding));
    assert_eq!(decode("-1"), Err(MalformedFieldEncoding));
    assert_eq!(decode("0x1\u{e9}"), Err(MalformedFieldEncoding));
}

#[test]
fn digits_both_ways() {
    let digits: Vec<char> = "0123456789abcdef".chars().collect();
    for n in 0u8..16 {
        assert_eq!(hex_char_of(n), digits[n as usize]);
        assert_eq!(digit_value_of(digits[n as usize]), Some(n));
    }
    assert_eq!(digit_value_of('C'), Some(12));
    assert_eq!(digit_value_of('g'), None);
    assert_eq!(digit_value_of('x'), None);
}

#[test]
fn wide_arithmetic() {
    let m = modulus_words();
    assert!(U256::from_u64(5).lt(&m));
    assert!(!m.lt(&m));
    assert!(!m.lt(&U256::from_u64(5)));
    let x = U256 { w3: 0, w2: 0, w1: 1, w0: 0x23 };
    let (q, d) = x.pop_digit();
    assert_eq!(d, 3);
    assert_eq!(q, U256 { w3: 0, w2: 0, w1: 0, w0: 0x1000_0000_0000_0002 });
    assert_eq!(q.push_digit(3), x);
    assert!(q.has_room_for_digit());
    assert!(!U256 { w3: 0x1000_0000_0000_0000, w2: 0, w1: 0, w0: 0 }.has_room_for_digit());
    let (q2, b) = x.pop_byte();
    assert_eq!(b, 0x23);
    assert_eq!(q2, U256 { w3: 0, w2: 0, w1: 0, w0: 0x0100_0000_0000_0000 });
    assert_eq!(x.half(), U256 { w3: 0, w2: 0, w1: 0, w0: 0x8000_0000_0000_0011 });
    assert!(U256::from_u64(0).is_zero());
    assert!(!x.is_zero());
}

#[test]
fn from_repr_checks_the_modulus() {
    assert_eq!(FieldElement::from_repr(modulus_words()), None);
    let below = U256 { w3: 0x30644e72e131a029, w2: 0xb85045b68181585d, w1: 0x2833e84879b97091, w0: 0x43e1f593f0000000 };
    assert_eq!(FieldElement::from_repr(below), Some(FieldElement { repr: below }));
    assert_eq!(FieldElement::from_repr(U256::from_u64(9)), Some(FieldElement::from_u64(9)));
}

#[test]
fn big_endian_bytes() {
    let bytes = FieldElement::from_u64(0x0102).to_be_bytes();
    assert_eq!(bytes.len(), 32);
    assert_eq!(bytes[31], 2);
    assert_eq!(bytes[30], 1);
    assert!(bytes[..30].iter().all(|b| *b == 0));
    let x = FieldElement { repr: U256 { w3: 0x0102030405060708, w2: 0, w1: 0, w0: 0xff } };
    let bytes = x.to_be_bytes();
    assert_eq!(&bytes[..8], &[1u8, 2, 3, 4, 5, 6, 7, 8][..]);
    assert_eq!(bytes[31], 0xff);
}
