//! Unsigned 256-bit integers as four machine words.

use vstd::prelude::*;

verus! {

/// The number that four 64-bit words denote, most significant word first.
pub open spec fn words_value(w3: u64, w2: u64, w1: u64, w0: u64) -> nat {
    (((w3 as nat * 0x1_0000_0000_0000_0000 + w2 as nat) * 0x1_0000_0000_0000_0000 + w1 as nat)
        * 0x1_0000_0000_0000_0000 + w0 as nat) as nat
}

/// An unsigned 256-bit integer, most significant word first.
#[derive(Clone, Copy, Debug, PartialEq, Eq, Structural)]
pub struct U256 {
    pub w3: u64,
    pub w2: u64,
    pub w1: u64,
    pub w0: u64,
}

impl View for U256 {
    type V = nat;

    open spec fn view(&self) -> nat {
        words_value(self.w3, self.w2, self.w1, self.w0)
    }
}

/// Two 256-bit integers that denote the same number have the same words.
pub proof fn lemma_words_unique(a: U256, b: U256)
    requires
        a@ == b@,
    ensures
        a == b,
{
}

impl U256 {
    /// The integer with the given low word and zero above it.
    pub fn from_u64(x: u64) -> (r: U256)
        ensures
            r@ == x as nat,
    {
        U256 { w3: 0, w2: 0, w1: 0, w0: x }
    }

    /// Whether `self` is strictly below `other`.
    pub fn lt(&self, other: &U256) -> (r: bool)
        ensures
            r == (self@ < other@),
    {
        if self.w3 != other.w3 {
            self.w3 < other.w3
        } else if self.w2 != other.w2 {
            self.w2 < other.w2
        } else if self.w1 != other.w1 {
            self.w1 < other.w1
        } else {
            self.w0 < other.w0
        }
    }

    /// Whether the top four bits are clear, so that one more hexadecimal
    /// digit can be appended without loss.
    pub fn has_room_for_digit(&self) -> (r: bool)
        ensures
            r == (self@ * 16 < 0x1_0000_0000_0000_0000_0000_0000_0000_0000_0000_0000_0000_0000_0000_0000_0000_0000),
    {
        self.w3 < 0x1000_0000_0000_0000
    }

    /// Appends one hexadecimal digit at the low end.
    pub fn push_digit(&self, d: u8) -> (r: U256)
        requires
            d < 16,
            self@ * 16 < 0x1_0000_0000_0000_0000_0000_0000_0000_0000_0000_0000_0000_0000_0000_0000_0000_0000,
        ensures
            r@ == self@ * 16 + d as nat,
    {
        let n3: u64 = (self.w3 % 0x1000_0000_0000_0000) * 16 + self.w2 / 0x1000_0000_0000_0000;
        let n2: u64 = (self.w2 % 0x1000_0000_0000_0000) * 16 + self.w1 / 0x1000_0000_0000_0000;
        let n1: u64 = (self.w1 % 0x1000_0000_0000_0000) * 16 + self.w0 / 0x1000_0000_0000_0000;
        let n0: u64 = (self.w0 % 0x1000_0000_0000_0000) * 16 + d as u64;
        U256 { w3: n3, w2: n2, w1: n1, w0: n0 }
    }

    /// Splits off the lowest hexadecimal digit.
    pub fn pop_digit(&self) -> (r: (U256, u8))
        ensures
            r.0@ == self@ / 16,
            r.1 as nat == self@ % 16,
    {
        let n3: u64 = self.w3 / 16;
        let n2: u64 = (self.w3 % 16) * 0x1000_0000_0000_0000 + self.w2 / 16;
        let n1: u64 = (self.w2 % 16) * 0x1000_0000_0000_0000 + self.w1 / 16;
        let n0: u64 = (self.w1 % 16) * 0x1000_0000_0000_0000 + self.w0 / 16;
        let d: u8 = (self.w0 % 16) as u8;
        let q = U256 { w3: n3, w2: n2, w1: n1, w0: n0 };
        assert(self@ == q@ * 16 + d as nat);
        (q, d)
    }

    /// Whether this is the number zero.
    pub fn is_zero(&self) -> (r: bool)
        ensures
            r == (self@ == 0),
    {
        self.w3 == 0 && self.w2 == 0 && self.w1 == 0 && self.w0 == 0
    }

    /// Half of the number, rounded down.
    pub fn half(&self) -> (r: U256)
        ensures
            r@ == self@ / 2,
    {
        let n3: u64 = self.w3 / 2;
        let n2: u64 = (self.w3 % 2) * 0x8000_0000_0000_0000 + self.w2 / 2;
        let n1: u64 = (self.w2 % 2) * 0x8000_0000_0000_0000 + self.w1 / 2;
        let n0: u64 = (self.w1 % 2) * 0x8000_0000_0000_0000 + self.w0 / 2;
        let q = U256 { w3: n3, w2: n2, w1: n1, w0: n0 };
        assert(self@ == q@ * 2 + (self.w0 % 2) as nat);
        q
    }

    /// Splits off the lowest byte.
    pub fn pop_byte(&self) -> (r: (U256, u8))
        ensures
            r.0@ == self@ / 256,
            r.1 as nat == self@ % 256,
    {
        let n3: u64 = self.w3 / 256;
        let n2: u64 = (self.w3 % 256) * 0x100_0000_0000_0000 + self.w2 / 256;
        let n1: u64 = (self.w2 % 256) * 0x100_0000_0000_0000 + self.w1 / 256;
        let n0: u64 = (self.w1 % 256) * 0x100_0000_0000_0000 + self.w0 / 256;
        let b: u8 = (self.w0 % 256) as u8;
        let q = U256 { w3: n3, w2: n2, w1: n1, w0: n0 };
        assert(self@ == q@ * 256 + b as nat);
        (q, b)
    }
}

} // verus!
