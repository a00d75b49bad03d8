//! The bitwise primitives on field elements. The bit work is the solver
//! crate's; what is written into the witness map, and when, is decided here.

use vstd::prelude::*;
use vstd::string::*;
use crate::blackbox::Resolution;
use crate::codec::{decode, decode_spec, encode, encode_spec, lemma_decode_encode_value};
use crate::error::ExecutionError;
use crate::field::{modulus, FieldElement};
use crate::witness::{assign_spec, WitnessMap};

verus! {

/// The two bitwise primitives.
#[derive(Clone, Copy, Debug, PartialEq, Eq, Structural)]
pub enum LogicOp {
    And,
    Xor,
}

/// The bitwise AND of the lowest `n` binary digits of `a` and `b`.
pub open spec fn and_bits(a: nat, b: nat, n: nat) -> nat
    decreases n,
{
    if n == 0 {
        0
    } else {
        2 * and_bits(a / 2, b / 2, (n - 1) as nat) + (a % 2) * (b % 2)
    }
}

/// The bitwise XOR of the lowest `n` binary digits of `a` and `b`.
pub open spec fn xor_bits(a: nat, b: nat, n: nat) -> nat
    decreases n,
{
    if n == 0 {
        0
    } else {
        2 * xor_bits(a / 2, b / 2, (n - 1) as nat) + (a % 2 + b % 2) % 2
    }
}

/// The field element that a bitwise primitive gives: the operation on the
/// lowest `bits` binary digits of the operands, reduced modulo the prime.
pub open spec fn logic_spec(op: LogicOp, a: nat, b: nat, bits: u32) -> nat {
    match op {
        LogicOp::And => and_bits(a, b, bits as nat) % modulus(),
        LogicOp::Xor => xor_bits(a, b, bits as nat) % modulus(),
    }
}

/// `acvm::FieldElement::and`, on encoded elements: it keeps the lowest
/// `bits` binary digits of both operands, combines them digit by digit with
/// AND, and reduces the result modulo the prime. The operands are read with
/// `from_hex` and the result is written with `to_hex`.
#[verifier::external_body]
fn solver_and(lhs: &str, rhs: &str, bits: u32) -> (r: String)
    requires
        lhs@.len() == 66,
        rhs@.len() == 66,
        decode_spec(lhs@).is_some(),
        decode_spec(rhs@).is_some(),
    ensures
        r@ == encode_spec(
            and_bits(decode_spec(lhs@).unwrap(), decode_spec(rhs@).unwrap(), bits as nat)
                % modulus(),
        ),
{
    let a = acvm::FieldElement::from_hex(lhs).unwrap();
    let b = acvm::FieldElement::from_hex(rhs).unwrap();
    format!("0x{}", a.and(&b, bits).to_hex())
}

/// `acvm::FieldElement::xor`, on encoded elements: as `solver_and`, with
/// XOR in place of AND.
#[verifier::external_body]
fn solver_xor(lhs: &str, rhs: &str, bits: u32) -> (r: String)
    requires
        lhs@.len() == 66,
        rhs@.len() == 66,
        decode_spec(lhs@).is_some(),
        decode_spec(rhs@).is_some(),
    ensures
        r@ == encode_spec(
            xor_bits(decode_spec(lhs@).unwrap(), decode_spec(rhs@).unwrap(), bits as nat)
                % modulus(),
        ),
{
    let a = acvm::FieldElement::from_hex(lhs).unwrap();
    let b = acvm::FieldElement::from_hex(rhs).unwrap();
    format!("0x{}", a.xor(&b, bits).to_hex())
}

/// Applies a bitwise primitive to two field elements.
pub fn field_logic(op: LogicOp, lhs: &FieldElement, rhs: &FieldElement, bits: u32) -> (r:
    FieldElement)
    requires
        lhs.wf(),
        rhs.wf(),
    ensures
        r.wf(),
        r@ == logic_spec(op, lhs@, rhs@, bits),
{
    let left = encode(lhs);
    let right = encode(rhs);
    proof {
        lemma_decode_encode_value(lhs@);
        lemma_decode_encode_value(rhs@);
        lemma_decode_encode_value(logic_spec(op, lhs@, rhs@, bits));
    }
    let text = match op {
        LogicOp::And => solver_and(left.as_str(), right.as_str(), bits),
        LogicOp::Xor => solver_xor(left.as_str(), right.as_str(), bits),
    };
    match decode(text.as_str()) {
        Ok(x) => x,
        Err(_) => {
            assert(false);
            FieldElement::zero()
        },
    }
}

/// What a bitwise opcode makes of the map `m`: nothing while an operand has
/// no value; else the result assigned to the output witness, or `None`
/// where that witness already holds another value.
pub open spec fn logic_opcode_spec(
    m: Map<u32, nat>,
    op: LogicOp,
    lhs: u32,
    rhs: u32,
    bits: u32,
    output: u32,
) -> Option<Map<u32, nat>> {
    if m.contains_key(lhs) && m.contains_key(rhs) {
        assign_spec(m, output, logic_spec(op, m[lhs], m[rhs], bits))
    } else {
        Some(m)
    }
}

/// Resolves a bitwise opcode: it waits while an operand has no value;
/// else it assigns the result to the output witness and is resolved. An
/// output witness that already holds another value makes the constraint
/// unsatisfied, and the map stays as it was.
pub fn solve_logic_opcode(
    map: &mut WitnessMap,
    op: LogicOp,
    lhs: u32,
    rhs: u32,
    bits: u32,
    output: u32,
) -> (r: Result<Resolution, ExecutionError>)
    requires
        old(map).wf(),
    ensures
        final(map).wf(),
        match logic_opcode_spec(old(map)@, op, lhs, rhs, bits, output) {
            Some(m) => final(map)@ == m && r == Ok::<Resolution, ExecutionError>(
                if old(map)@.contains_key(lhs) && old(map)@.contains_key(rhs) {
                    Resolution::Resolved
                } else {
                    Resolution::Waiting
                },
            ),
            None => r == Err::<Resolution, ExecutionError>(ExecutionError::UnsatisfiedConstraint)
                && *final(map) == *old(map),
        },
        !(old(map)@.contains_key(lhs) && old(map)@.contains_key(rhs)) ==> *final(map) == *old(map),
{
    let left = match map.get(lhs) {
        Some(v) => v,
        None => {
            return Ok(Resolution::Waiting);
        },
    };
    let right = match map.get(rhs) {
        Some(v) => v,
        None => {
            return Ok(Resolution::Waiting);
        },
    };
    let value = field_logic(op, &left, &right, bits);
    match map.assign(output, value) {
        Ok(()) => Ok(Resolution::Resolved),
        Err(_) => Err(ExecutionError::UnsatisfiedConstraint),
    }
}

} // verus!
