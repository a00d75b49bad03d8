//! Elements of the prime field that witnesses and circuit constants live in.

use vstd::prelude::*;
use crate::wide::U256;

verus! {

/// The prime modulus of the field.
pub open spec fn modulus() -> nat {
    crate::wide::words_value(
        0x30644e72e131a029,
        0xb85045b68181585d,
        0x2833e84879b97091,
        0x43e1f593f0000001,
    )
}

/// The modulus as an executable value.
pub fn modulus_words() -> (r: U256)
    ensures
        r@ == modulus(),
{
    U256 {
        w3: 0x30644e72e131a029,
        w2: 0xb85045b68181585d,
        w1: 0x2833e84879b97091,
        w0: 0x43e1f593f0000001,
    }
}

/// The lowest `n` bytes of `v`, most significant first.
pub open spec fn be_bytes(v: nat, n: nat) -> Seq<u8>
    decreases n,
{
    if n == 0 {
        Seq::empty()
    } else {
        be_bytes(v / 256, (n - 1) as nat).push((v % 256) as u8)
    }
}

/// `be_bytes` gives as many bytes as it is asked for.
pub proof fn lemma_be_bytes_len(v: nat, n: nat)
    ensures
        be_bytes(v, n).len() == n,
    decreases n,
{
    if n > 0 {
        lemma_be_bytes_len(v / 256, (n - 1) as nat);
    }
}

/// An integer modulo the field's prime, held as its canonical representative.
#[derive(Clone, Copy, Debug, PartialEq, Eq, Structural)]
pub struct FieldElement {
    pub repr: U256,
}

impl View for FieldElement {
    type V = nat;

    open spec fn view(&self) -> nat {
        self.repr@
    }
}

impl FieldElement {
    /// The representative lies below the modulus.
    pub open spec fn wf(&self) -> bool {
        self@ < modulus()
    }

    /// The element zero.
    pub fn zero() -> (r: FieldElement)
        ensures
            r.wf(),
            r@ == 0,
    {
        FieldElement { repr: U256::from_u64(0) }
    }

    /// The element that a machine word denotes.
    pub fn from_u64(x: u64) -> (r: FieldElement)
        ensures
            r.wf(),
            r@ == x as nat,
    {
        FieldElement { repr: U256::from_u64(x) }
    }

    /// The element as 32 bytes, most significant first.
    pub fn to_be_bytes(&self) -> (r: Vec<u8>)
        ensures
            r@ == be_bytes(self@, 32),
            r@.len() == 32,
    {
        let mut buf: Vec<u8> = Vec::new();
        let mut k: usize = 0;
        while k < 32
            invariant
                k <= 32,
                buf@.len() == k,
            decreases 32 - k,
        {
            buf.push(0);
            k += 1;
        }
        let mut cur: U256 = self.repr;
        let mut i: usize = 0;
        while i < 32
            invariant
                i <= 32,
                buf@.len() == 32,
                be_bytes(self@, 32) == be_bytes(cur@, (32 - i) as nat) + buf@.subrange(32 - i, 32),
            decreases 32 - i,
        {
            let (q, b) = cur.pop_byte();
            let ghost before = buf@;
            buf.set(31 - i, b);
            proof {
                let head = be_bytes(q@, (31 - i) as nat);
                lemma_be_bytes_len(q@, (31 - i) as nat);
                assert(be_bytes(cur@, (32 - i) as nat) == head.push(b));
                assert(head.push(b) + before.subrange(32 - i, 32) =~= head + buf@.subrange(
                    31 - i,
                    32,
                ));
            }
            cur = q;
            i += 1;
        }
        proof {
            assert(be_bytes(cur@, 0) + buf@.subrange(0, 32) =~= buf@);
        }
        buf
    }

    /// The element with the given representative, if that is canonical.
    pub fn from_repr(repr: U256) -> (r: Option<FieldElement>)
        ensures
            repr@ < modulus() ==> r == Some(FieldElement { repr }),
            repr@ >= modulus() ==> r.is_none(),
    {
        let m = modulus_words();
        if repr.lt(&m) {
            Some(FieldElement { repr })
        } else {
            None
        }
    }
}

/// Two elements that denote the same number are the same element.
pub proof fn lemma_value_determines_element(a: FieldElement, b: FieldElement)
    requires
        a@ == b@,
    ensures
        a == b,
{
    crate::wide::lemma_words_unique(a.repr, b.repr);
}

} // verus!
