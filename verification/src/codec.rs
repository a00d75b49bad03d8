//! The textual form of field elements: `0x` and 64 lowercase hexadecimal digits.

use vstd::prelude::*;
use vstd::string::*;
use crate::field::{modulus, modulus_words, FieldElement};
use crate::wide::U256;

verus! {

/// The error of `decode`: the text is not the encoding of a field element.
#[derive(Clone, Copy, Debug, PartialEq, Eq, Structural)]
pub struct MalformedFieldEncoding;

/// The lowercase hexadecimal digit for a number below sixteen.
pub open spec fn hex_char(n: nat) -> char {
    if n == 0 { '0' } else if n == 1 { '1' } else if n == 2 { '2' } else if n == 3 { '3' }
    else if n == 4 { '4' } else if n == 5 { '5' } else if n == 6 { '6' } else if n == 7 { '7' }
    else if n == 8 { '8' } else if n == 9 { '9' } else if n == 10 { 'a' } else if n == 11 { 'b' }
    else if n == 12 { 'c' } else if n == 13 { 'd' } else if n == 14 { 'e' } else { 'f' }
}

/// The number that a hexadecimal digit of either case denotes.
pub open spec fn digit_value(c: char) -> Option<nat> {
    if c == '0' { Some(0) } else if c == '1' { Some(1) } else if c == '2' { Some(2) }
    else if c == '3' { Some(3) } else if c == '4' { Some(4) } else if c == '5' { Some(5) }
    else if c == '6' { Some(6) } else if c == '7' { Some(7) } else if c == '8' { Some(8) }
    else if c == '9' { Some(9) } else if c == 'a' || c == 'A' { Some(10) }
    else if c == 'b' || c == 'B' { Some(11) } else if c == 'c' || c == 'C' { Some(12) }
    else if c == 'd' || c == 'D' { Some(13) } else if c == 'e' || c == 'E' { Some(14) }
    else if c == 'f' || c == 'F' { Some(15) } else { None }
}

/// Every character of `d` is a hexadecimal digit.
pub open spec fn all_hex(d: Seq<char>) -> bool {
    forall|i: int| 0 <= i < d.len() ==> (#[trigger] digit_value(d[i])).is_some()
}

/// The number that a big-endian digit string denotes; a character that is no
/// digit counts as zero.
pub open spec fn hex_value(d: Seq<char>) -> nat
    decreases d.len(),
{
    if d.len() == 0 {
        0
    } else {
        let last: nat = match digit_value(d.last()) {
            Some(v) => v,
            None => 0,
        };
        hex_value(d.drop_last()) * 16 + last
    }
}

/// The lowest `n` hexadecimal digits of `v`, most significant first.
pub open spec fn hex_digits(v: nat, n: nat) -> Seq<char>
    decreases n,
{
    if n == 0 {
        Seq::empty()
    } else {
        hex_digits(v / 16, (n - 1) as nat).push(hex_char(v % 16))
    }
}

/// The digits of an encoding: the text without a leading `0x`.
pub open spec fn digits_of(s: Seq<char>) -> Seq<char> {
    if s.len() >= 2 && s[0] == '0' && s[1] == 'x' {
        s.subrange(2, s.len() as int)
    } else {
        s
    }
}

/// The text that encodes `v`.
pub open spec fn encode_spec(v: nat) -> Seq<char> {
    seq!['0', 'x'] + hex_digits(v, 64)
}

/// The number that a text encodes, if it encodes one: after an optional
/// `0x`, between one and 64 hexadecimal digits that denote a number below
/// the modulus.
pub open spec fn decode_spec(s: Seq<char>) -> Option<nat> {
    let d = digits_of(s);
    if 1 <= d.len() <= 64 && all_hex(d) && hex_value(d) < modulus() {
        Some(hex_value(d))
    } else {
        None
    }
}

/// Sixteen to the power `n`.
pub open spec fn pow16(n: nat) -> nat
    decreases n,
{
    if n == 0 {
        1
    } else {
        16 * pow16((n - 1) as nat)
    }
}

/// `hex_digits` gives as many digits as it is asked for.
proof fn lemma_hex_digits_len(v: nat, n: nat)
    ensures
        hex_digits(v, n).len() == n,
    decreases n,
{
    if n > 0 {
        lemma_hex_digits_len(v / 16, (n - 1) as nat);
    }
}

/// Reading back the `n` lowest digits of a number below `16^n` gives the number.
pub proof fn lemma_hex_value_of_digits(v: nat, n: nat)
    requires
        v < pow16(n),
    ensures
        hex_digits(v, n).len() == n,
        all_hex(hex_digits(v, n)),
        hex_value(hex_digits(v, n)) == v,
    decreases n,
{
    if n > 0 {
        let rest = hex_digits(v / 16, (n - 1) as nat);
        lemma_hex_value_of_digits(v / 16, (n - 1) as nat);
        let d = hex_digits(v, n);
        assert(d == rest.push(hex_char(v % 16)));
        assert(d.drop_last() =~= rest);
        assert(d.last() == hex_char(v % 16));
        assert(digit_value(hex_char(v % 16)) == Some(v % 16));
        assert forall|i: int| 0 <= i < d.len() implies (#[trigger] digit_value(d[i])).is_some() by {
            if i < rest.len() {
                assert(d[i] == rest[i]);
            }
        }
    }
}

/// A digit string denotes at least what any of its prefixes denotes.
proof fn lemma_hex_value_prefix(d: Seq<char>, k: int)
    requires
        0 <= k <= d.len(),
    ensures
        hex_value(d.take(k)) <= hex_value(d),
    decreases d.len(),
{
    if k == d.len() {
        assert(d.take(k) =~= d);
    } else {
        lemma_hex_value_prefix(d.drop_last(), k);
        assert(d.drop_last().take(k) =~= d.take(k));
    }
}

/// The modulus has no more than 64 hexadecimal digits.
proof fn lemma_modulus_below_pow16()
    ensures
        modulus() < pow16(64),
        pow16(64) == 0x1_0000_0000_0000_0000_0000_0000_0000_0000_0000_0000_0000_0000_0000_0000_0000_0000,
{
    reveal_with_fuel(pow16, 17);
    assert(pow16(16) == 0x1_0000_0000_0000_0000);
    assert(pow16(32) == 0x1_0000_0000_0000_0000 * pow16(16));
    assert(pow16(48) == 0x1_0000_0000_0000_0000 * pow16(32));
    assert(pow16(64) == 0x1_0000_0000_0000_0000 * pow16(48));
}

/// Decoding the encoding of a number below the modulus gives the number back.
pub proof fn lemma_decode_encode_value(v: nat)
    requires
        v < modulus(),
    ensures
        decode_spec(encode_spec(v)) == Some(v),
{
    let e = encode_spec(v);
    let h = hex_digits(v, 64);
    lemma_modulus_below_pow16();
    lemma_hex_value_of_digits(v, 64);
    assert(e[0] == '0' && e[1] == 'x');
    assert(digits_of(e) =~= h);
}

/// Decoding the encoding of an element gives the element back.
pub proof fn lemma_decode_encode(x: FieldElement)
    requires
        x.wf(),
    ensures
        decode_spec(encode_spec(x@)) == Some(x@),
{
    lemma_decode_encode_value(x@);
}

/// An encoding is `0x` and then exactly 64 lowercase hexadecimal digits.
pub proof fn lemma_encode_shape(v: nat)
    ensures
        encode_spec(v).len() == 66,
        encode_spec(v)[0] == '0',
        encode_spec(v)[1] == 'x',
        forall|i: int| 2 <= i < 66 ==> exists|n: nat| n < 16 && #[trigger] encode_spec(v)[i] == hex_char(n),
{
    lemma_hex_digits_len(v, 64);
    assert forall|i: int| 2 <= i < 66 implies exists|n: nat| n < 16 && #[trigger] encode_spec(v)[i] == hex_char(n) by {
        lemma_hex_digits_lowercase(v, 64, i - 2);
        assert(encode_spec(v)[i] == hex_digits(v, 64)[i - 2]);
    }
}

/// Every digit that `hex_digits` gives is a lowercase hexadecimal digit.
proof fn lemma_hex_digits_lowercase(v: nat, n: nat, i: int)
    requires
        0 <= i < n,
    ensures
        hex_digits(v, n).len() == n,
        exists|m: nat| m < 16 && hex_digits(v, n)[i] == hex_char(m),
    decreases n,
{
    lemma_hex_digits_len(v, n);
    lemma_hex_digits_len(v / 16, (n - 1) as nat);
    if i == n - 1 {
        assert(hex_digits(v, n)[i] == hex_char(v % 16));
    } else {
        lemma_hex_digits_lowercase(v / 16, (n - 1) as nat, i);
        assert(hex_digits(v, n)[i] == hex_digits(v / 16, (n - 1) as nat)[i]);
    }
}

/// `String::push` appends the character to the end of the string and
/// changes nothing else of it.
pub assume_specification[ String::push ](s: &mut String, c: char)
    ensures
        final(s)@ == old(s)@.push(c),
;

/// The lowercase hexadecimal digit for `n`.
pub fn hex_char_of(n: u8) -> (c: char)
    requires
        n < 16,
    ensures
        c == hex_char(n as nat),
{
    if n == 0 { '0' } else if n == 1 { '1' } else if n == 2 { '2' } else if n == 3 { '3' }
    else if n == 4 { '4' } else if n == 5 { '5' } else if n == 6 { '6' } else if n == 7 { '7' }
    else if n == 8 { '8' } else if n == 9 { '9' } else if n == 10 { 'a' } else if n == 11 { 'b' }
    else if n == 12 { 'c' } else if n == 13 { 'd' } else if n == 14 { 'e' } else { 'f' }
}

/// The number that the hexadecimal digit `c` denotes, if it is one.
pub fn digit_value_of(c: char) -> (r: Option<u8>)
    ensures
        match digit_value(c) {
            Some(v) => r == Some(v as u8) && v < 16,
            None => r.is_none(),
        },
{
    if c == '0' { Some(0) } else if c == '1' { Some(1) } else if c == '2' { Some(2) }
    else if c == '3' { Some(3) } else if c == '4' { Some(4) } else if c == '5' { Some(5) }
    else if c == '6' { Some(6) } else if c == '7' { Some(7) } else if c == '8' { Some(8) }
    else if c == '9' { Some(9) } else if c == 'a' || c == 'A' { Some(10) }
    else if c == 'b' || c == 'B' { Some(11) } else if c == 'c' || c == 'C' { Some(12) }
    else if c == 'd' || c == 'D' { Some(13) } else if c == 'e' || c == 'E' { Some(14) }
    else if c == 'f' || c == 'F' { Some(15) } else { None }
}

/// Writes a field element as `0x` and 64 lowercase hexadecimal digits.
pub fn encode(x: &FieldElement) -> (s: String)
    ensures
        s@ == encode_spec(x@),
        s@.len() == 66,
{
    let mut buf: Vec<char> = Vec::new();
    let mut k: usize = 0;
    while k < 64
        invariant
            k <= 64,
            buf@.len() == k,
        decreases 64 - k,
    {
        buf.push('0');
        k += 1;
    }
    let mut cur: U256 = x.repr;
    let mut i: usize = 0;
    while i < 64
        invariant
            i <= 64,
            buf@.len() == 64,
            hex_digits(x@, 64) == hex_digits(cur@, (64 - i) as nat) + buf@.subrange(64 - i, 64),
        decreases 64 - i,
    {
        let (q, d) = cur.pop_digit();
        let ghost before = buf@;
        buf.set(63 - i, hex_char_of(d));
        proof {
            let head = hex_digits(q@, (63 - i) as nat);
            lemma_hex_digits_len(q@, (63 - i) as nat);
            assert(hex_digits(cur@, (64 - i) as nat) == head.push(hex_char(d as nat)));
            assert(head.push(hex_char(d as nat)) + before.subrange(64 - i, 64)
                =~= head + buf@.subrange(63 - i, 64));
        }
        cur = q;
        i += 1;
    }
    proof {
        assert(hex_digits(cur@, 0) + buf@.subrange(0, 64) =~= buf@);
    }
    let mut out = String::new();
    out.push('0');
    out.push('x');
    let mut j: usize = 0;
    while j < 64
        invariant
            j <= 64,
            buf@.len() == 64,
            out@ == seq!['0', 'x'] + buf@.take(j as int),
        decreases 64 - j,
    {
        out.push(buf[j]);
        proof {
            assert(buf@.take(j + 1) =~= buf@.take(j as int).push(buf@[j as int]));
            assert((seq!['0', 'x'] + buf@.take(j as int)).push(buf@[j as int])
                =~= seq!['0', 'x'] + buf@.take(j + 1));
        }
        j += 1;
    }
    proof {
        assert(buf@.take(64) =~= buf@);
        lemma_hex_digits_len(x@, 64);
    }
    out
}

/// Reads a field element from its text: an optional `0x`, then between one
/// and 64 hexadecimal digits of either case that denote a number below the
/// modulus. Anything else is refused.
pub fn decode(s: &str) -> (r: Result<FieldElement, MalformedFieldEncoding>)
    ensures
        match decode_spec(s@) {
            Some(v) => r.is_ok() && r.unwrap()@ == v && r.unwrap().wf(),
            None => r.is_err(),
        },
{
    let n: usize = s.unicode_len();
    let mut start: usize = 0;
    if n >= 2 {
        let c0 = s.get_char(0);
        let c1 = s.get_char(1);
        if c0 == '0' && c1 == 'x' {
            start = 2;
        }
    }
    let ghost d = digits_of(s@);
    assert(d =~= s@.subrange(start as int, n as int));
    if n - start > 64 || n - start < 1 {
        return Err(MalformedFieldEncoding);
    }
    let mut acc: U256 = U256::from_u64(0);
    let mut i: usize = start;
    proof {
        assert(d.take(0).len() == 0);
    }
    while i < n
        invariant
            start <= i <= n,
            n == s@.len(),
            d == s@.subrange(start as int, n as int),
            d == digits_of(s@),
            1 <= d.len() <= 64,
            acc@ == hex_value(d.take(i - start)),
            all_hex(d.take(i - start)),
        decreases n - i,
    {
        let c = s.get_char(i);
        assert(d[i - start] == c);
        let ghost next = d.take(i - start + 1);
        proof {
            assert(next.drop_last() =~= d.take(i - start));
            assert(next.last() == c);
            lemma_hex_value_prefix(d, i - start + 1);
        }
        match digit_value_of(c) {
            None => {
                assert(digit_value(d[i - start]).is_none());
                return Err(MalformedFieldEncoding);
            },
            Some(v) => {
                if !acc.has_room_for_digit() {
                    proof {
                        lemma_modulus_below_pow16();
                        assert(hex_value(next) == acc@ * 16 + v as nat);
                    }
                    return Err(MalformedFieldEncoding);
                }
                acc = acc.push_digit(v);
                proof {
                    assert forall|k: int| 0 <= k < next.len() implies (#[trigger] digit_value(
                        next[k],
                    )).is_some() by {
                        if k < next.len() - 1 {
                            assert(next[k] == d.take(i - start)[k]);
                        }
                    }
                }
            },
        }
        i += 1;
    }
    proof {
        assert(d.take(n - start) =~= d);
    }
    let m = modulus_words();
    if acc.lt(&m) {
        Ok(FieldElement { repr: acc })
    } else {
        Err(MalformedFieldEncoding)
    }
}

} // verus!
