//! The primitives that a circuit calls by name, and what the engine itself
//! does for them: the dispatch by name, the range check, and the byte
//! layout of the inputs that a signature backend takes.

use vstd::prelude::*;
use vstd::string::*;
use crate::error::ExecutionError;
use crate::field::{be_bytes, FieldElement};
use crate::wide::U256;
use crate::witness::WitnessMap;

verus! {

/// The primitives that a backend has to offer.
#[derive(Clone, Copy, Debug, PartialEq, Eq, Structural)]
pub enum BlackBoxFunc {
    Sha256,
    Blake2s,
    LogicAnd,
    LogicXor,
    RangeCheck,
    EcdsaSecp256k1Verify,
    HashToField128Security,
    SchnorrVerify,
    PedersenHash,
    FixedBaseScalarMul,
}

/// The name by which a circuit calls a primitive.
pub open spec fn name_spec(f: BlackBoxFunc) -> Seq<char> {
    match f {
        BlackBoxFunc::Sha256 => "sha256"@,
        BlackBoxFunc::Blake2s => "blake2s"@,
        BlackBoxFunc::LogicAnd => "logicAnd"@,
        BlackBoxFunc::LogicXor => "logicXor"@,
        BlackBoxFunc::RangeCheck => "rangeCheck"@,
        BlackBoxFunc::EcdsaSecp256k1Verify => "ecdsaSecp256k1Verify"@,
        BlackBoxFunc::HashToField128Security => "hashToField128Security"@,
        BlackBoxFunc::SchnorrVerify => "schnorrVerify"@,
        BlackBoxFunc::PedersenHash => "pedersenHash"@,
        BlackBoxFunc::FixedBaseScalarMul => "fixedBaseScalarMul"@,
    }
}

/// The primitive that a name stands for, if it stands for one.
pub open spec fn func_of_name(s: Seq<char>) -> Option<BlackBoxFunc> {
    if s == "sha256"@ {
        Some(BlackBoxFunc::Sha256)
    } else if s == "blake2s"@ {
        Some(BlackBoxFunc::Blake2s)
    } else if s == "logicAnd"@ {
        Some(BlackBoxFunc::LogicAnd)
    } else if s == "logicXor"@ {
        Some(BlackBoxFunc::LogicXor)
    } else if s == "rangeCheck"@ {
        Some(BlackBoxFunc::RangeCheck)
    } else if s == "ecdsaSecp256k1Verify"@ {
        Some(BlackBoxFunc::EcdsaSecp256k1Verify)
    } else if s == "hashToField128Security"@ {
        Some(BlackBoxFunc::HashToField128Security)
    } else if s == "schnorrVerify"@ {
        Some(BlackBoxFunc::SchnorrVerify)
    } else if s == "pedersenHash"@ {
        Some(BlackBoxFunc::PedersenHash)
    } else if s == "fixedBaseScalarMul"@ {
        Some(BlackBoxFunc::FixedBaseScalarMul)
    } else {
        None
    }
}

/// Whether two texts hold the same characters.
pub fn same_text(a: &str, b: &str) -> (r: bool)
    ensures
        r == (a@ == b@),
{
    let n: usize = a.unicode_len();
    if b.unicode_len() != n {
        return false;
    }
    let mut i: usize = 0;
    while i < n
        invariant
            i <= n,
            n == a@.len(),
            n == b@.len(),
            forall|k: int| 0 <= k < i ==> a@[k] == b@[k],
        decreases n - i,
    {
        if a.get_char(i) != b.get_char(i) {
            return false;
        }
        i += 1;
    }
    assert(a@ =~= b@);
    true
}

impl BlackBoxFunc {
    /// The name by which a circuit calls this primitive.
    pub fn name(&self) -> (r: &'static str)
        ensures
            r@ == name_spec(*self),
    {
        match self {
            BlackBoxFunc::Sha256 => "sha256",
            BlackBoxFunc::Blake2s => "blake2s",
            BlackBoxFunc::LogicAnd => "logicAnd",
            BlackBoxFunc::LogicXor => "logicXor",
            BlackBoxFunc::RangeCheck => "rangeCheck",
            BlackBoxFunc::EcdsaSecp256k1Verify => "ecdsaSecp256k1Verify",
            BlackBoxFunc::HashToField128Security => "hashToField128Security",
            BlackBoxFunc::SchnorrVerify => "schnorrVerify",
            BlackBoxFunc::PedersenHash => "pedersenHash",
            BlackBoxFunc::FixedBaseScalarMul => "fixedBaseScalarMul",
        }
    }

    /// Selects a primitive by its name. A name that stands for none is
    /// refused as unsupported.
    pub fn from_name(name: &str) -> (r: Result<BlackBoxFunc, ExecutionError>)
        ensures
            match func_of_name(name@) {
                Some(f) => r == Ok::<BlackBoxFunc, ExecutionError>(f),
                None => (r matches Err(ExecutionError::UnsupportedBlackBoxFunction { name: n })
                    && n@ == name@),
            },
    {
        if same_text(name, "sha256") {
            Ok(BlackBoxFunc::Sha256)
        } else if same_text(name, "blake2s") {
            Ok(BlackBoxFunc::Blake2s)
        } else if same_text(name, "logicAnd") {
            Ok(BlackBoxFunc::LogicAnd)
        } else if same_text(name, "logicXor") {
            Ok(BlackBoxFunc::LogicXor)
        } else if same_text(name, "rangeCheck") {
            Ok(BlackBoxFunc::RangeCheck)
        } else if same_text(name, "ecdsaSecp256k1Verify") {
            Ok(BlackBoxFunc::EcdsaSecp256k1Verify)
        } else if same_text(name, "hashToField128Security") {
            Ok(BlackBoxFunc::HashToField128Security)
        } else if same_text(name, "schnorrVerify") {
            Ok(BlackBoxFunc::SchnorrVerify)
        } else if same_text(name, "pedersenHash") {
            Ok(BlackBoxFunc::PedersenHash)
        } else if same_text(name, "fixedBaseScalarMul") {
            Ok(BlackBoxFunc::FixedBaseScalarMul)
        } else {
            Err(ExecutionError::UnsupportedBlackBoxFunction { name: name.to_owned() })
        }
    }
}

/// Every primitive is found again under its own name.
pub proof fn lemma_name_selects_func(f: BlackBoxFunc)
    ensures
        func_of_name(name_spec(f)) == Some(f),
{
    reveal_strlit("sha256");
    reveal_strlit("blake2s");
    reveal_strlit("logicAnd");
    reveal_strlit("logicXor");
    reveal_strlit("rangeCheck");
    reveal_strlit("ecdsaSecp256k1Verify");
    reveal_strlit("hashToField128Security");
    reveal_strlit("schnorrVerify");
    reveal_strlit("pedersenHash");
    reveal_strlit("fixedBaseScalarMul");
    assert("sha256"@.len() == 6);
    assert("blake2s"@.len() == 7);
    assert("logicAnd"@.len() == 8);
    assert("logicXor"@.len() == 8);
    assert("rangeCheck"@.len() == 10);
    assert("ecdsaSecp256k1Verify"@.len() == 20);
    assert("hashToField128Security"@.len() == 22);
    assert("schnorrVerify"@.len() == 13);
    assert("pedersenHash"@.len() == 12);
    assert("fixedBaseScalarMul"@.len() == 18);
    assert("logicAnd"@[5] == 'A');
    assert("logicXor"@[5] == 'X');
}

/// The failure of a primitive that rejected its inputs, with the reason
/// that the backend gave.
pub fn blackbox_failure(func: BlackBoxFunc, reason: String) -> (e: ExecutionError)
    ensures
        e matches ExecutionError::BlackBoxFunctionFailed { name, reason: given } && name@
            == name_spec(func) && given == reason,
{
    ExecutionError::BlackBoxFunctionFailed { name: func.name().to_owned(), reason }
}

/// The failure of a primitive that the backend does not implement.
pub fn unimplemented_failure(func: BlackBoxFunc) -> (e: ExecutionError)
    ensures
        e matches ExecutionError::UnimplementedBlackBoxFunction { name } && name@ == name_spec(
            func,
        ),
{
    ExecutionError::UnimplementedBlackBoxFunction { name: func.name().to_owned() }
}

/// What a signature backend takes for a Schnorr verification: the public
/// key as 64 bytes and the two halves of the signature as 32 bytes each.
#[derive(Debug)]
pub struct SchnorrInputs {
    pub public_key: Vec<u8>,
    pub signature_s: Vec<u8>,
    pub signature_e: Vec<u8>,
}

/// Lays out the inputs of a Schnorr verification: the key is the 32
/// big-endian bytes of its `x` coordinate followed by those of `y`; each
/// half of the signature is its 32 big-endian bytes.
pub fn schnorr_verify_inputs(
    public_key_x: &FieldElement,
    public_key_y: &FieldElement,
    signature_s: &FieldElement,
    signature_e: &FieldElement,
) -> (r: SchnorrInputs)
    ensures
        r.public_key@ == be_bytes(public_key_x@, 32) + be_bytes(public_key_y@, 32),
        r.public_key@.len() == 64,
        r.signature_s@ == be_bytes(signature_s@, 32),
        r.signature_e@ == be_bytes(signature_e@, 32),
{
    let mut public_key = public_key_x.to_be_bytes();
    let mut low = public_key_y.to_be_bytes();
    public_key.append(&mut low);
    SchnorrInputs {
        public_key,
        signature_s: signature_s.to_be_bytes(),
        signature_e: signature_e.to_be_bytes(),
    }
}

/// Two to the power `n`.
pub open spec fn pow2(n: nat) -> nat
    decreases n,
{
    if n == 0 {
        1
    } else {
        2 * pow2((n - 1) as nat)
    }
}

/// A power of two is positive.
proof fn lemma_pow2_positive(n: nat)
    ensures
        pow2(n) > 0,
    decreases n,
{
    if n > 0 {
        lemma_pow2_positive((n - 1) as nat);
    }
}

/// Whether `x` can be written with `bits` binary digits.
pub fn fits_in_bits(x: &FieldElement, bits: u32) -> (r: bool)
    ensures
        r == (x@ < pow2(bits as nat)),
{
    let mut cur: U256 = x.repr;
    let mut i: u32 = 0;
    while i < bits && !cur.is_zero()
        invariant
            i <= bits,
            (x@ < pow2(bits as nat)) == (cur@ < pow2((bits - i) as nat)),
        decreases bits - i,
    {
        let ghost p = pow2((bits - i - 1) as nat);
        assert(pow2((bits - i) as nat) == 2 * p);
        let next = cur.half();
        assert((cur@ < 2 * p) == (next@ < p));
        cur = next;
        i += 1;
    }
    proof {
        lemma_pow2_positive((bits - i) as nat);
    }
    cur.is_zero()
}

/// How far an opcode has come.
#[derive(Clone, Copy, Debug, PartialEq, Eq, Structural)]
pub enum Resolution {
    /// The opcode is resolved.
    Resolved,
    /// An input of the opcode has no value yet.
    Waiting,
}

/// The range check on `witness`: it waits while the witness has no value,
/// is resolved if the value can be written with `bits` binary digits, and
/// fails as an unsatisfied constraint otherwise. The witness map is only
/// read.
pub fn range_check(map: &WitnessMap, witness: u32, bits: u32) -> (r: Result<
    Resolution,
    ExecutionError,
>)
    requires
        map.wf(),
    ensures
        !map@.contains_key(witness) ==> r == Ok::<Resolution, ExecutionError>(Resolution::Waiting),
        map@.contains_key(witness) && map@[witness] < pow2(bits as nat) ==> r == Ok::<
            Resolution,
            ExecutionError,
        >(Resolution::Resolved),
        map@.contains_key(witness) && map@[witness] >= pow2(bits as nat) ==> r == Err::<
            Resolution,
            ExecutionError,
        >(ExecutionError::UnsatisfiedConstraint),
{
    match map.get(witness) {
        None => Ok(Resolution::Waiting),
        Some(value) => {
            if fits_in_bits(&value, bits) {
                Ok(Resolution::Resolved)
            } else {
                Err(ExecutionError::UnsatisfiedConstraint)
            }
        },
    }
}

} // verus!
