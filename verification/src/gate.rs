//! Arithmetic gates: expressions over witnesses that have to evaluate to
//! zero in the field. The field's sums and products are the solver crate's.

use vstd::prelude::*;
use vstd::string::*;
use vstd::arithmetic::div_mod::{lemma_add_mod_noop, lemma_mul_mod_noop_left, lemma_small_mod};
use crate::blackbox::Resolution;
use crate::codec::{decode, decode_spec, encode, encode_spec, lemma_decode_encode_value};
use crate::error::ExecutionError;
use crate::field::{modulus, FieldElement};
use crate::witness::WitnessMap;

verus! {

/// The sum of two numbers in the field.
pub open spec fn sum_spec(a: nat, b: nat) -> nat {
    ((a as int + b as int) % (modulus() as int)) as nat
}

/// The product of two numbers in the field.
pub open spec fn product_spec(a: nat, b: nat) -> nat {
    ((a as int * b as int) % (modulus() as int)) as nat
}

/// `acvm::FieldElement`'s `+`, on encoded elements: the sum of the two
/// operands modulo the prime. The operands are read with `from_hex` and the
/// result is written with `to_hex`.
#[verifier::external_body]
fn solver_sum(lhs: &str, rhs: &str) -> (r: String)
    requires
        lhs@.len() == 66,
        rhs@.len() == 66,
        decode_spec(lhs@).is_some(),
        decode_spec(rhs@).is_some(),
    ensures
        r@ == encode_spec(sum_spec(decode_spec(lhs@).unwrap(), decode_spec(rhs@).unwrap())),
{
    let a = acvm::FieldElement::from_hex(lhs).unwrap();
    let b = acvm::FieldElement::from_hex(rhs).unwrap();
    format!("0x{}", (a + b).to_hex())
}

/// `acvm::FieldElement`'s `*`, on encoded elements: the product of the two
/// operands modulo the prime. The operands are read with `from_hex` and the
/// result is written with `to_hex`.
#[verifier::external_body]
fn solver_product(lhs: &str, rhs: &str) -> (r: String)
    requires
        lhs@.len() == 66,
        rhs@.len() == 66,
        decode_spec(lhs@).is_some(),
        decode_spec(rhs@).is_some(),
    ensures
        r@ == encode_spec(product_spec(decode_spec(lhs@).unwrap(), decode_spec(rhs@).unwrap())),
{
    let a = acvm::FieldElement::from_hex(lhs).unwrap();
    let b = acvm::FieldElement::from_hex(rhs).unwrap();
    format!("0x{}", (a * b).to_hex())
}

/// The sum of two field elements.
pub fn field_sum(lhs: &FieldElement, rhs: &FieldElement) -> (r: FieldElement)
    requires
        lhs.wf(),
        rhs.wf(),
    ensures
        r.wf(),
        r@ == sum_spec(lhs@, rhs@),
{
    let left = encode(lhs);
    let right = encode(rhs);
    proof {
        lemma_decode_encode_value(lhs@);
        lemma_decode_encode_value(rhs@);
        lemma_decode_encode_value(sum_spec(lhs@, rhs@));
    }
    let text = solver_sum(left.as_str(), right.as_str());
    match decode(text.as_str()) {
        Ok(x) => x,
        Err(_) => {
            assert(false);
            FieldElement::zero()
        },
    }
}

/// The product of two field elements.
pub fn field_product(lhs: &FieldElement, rhs: &FieldElement) -> (r: FieldElement)
    requires
        lhs.wf(),
        rhs.wf(),
    ensures
        r.wf(),
        r@ == product_spec(lhs@, rhs@),
{
    let left = encode(lhs);
    let right = encode(rhs);
    proof {
        lemma_decode_encode_value(lhs@);
        lemma_decode_encode_value(rhs@);
        lemma_decode_encode_value(product_spec(lhs@, rhs@));
    }
    let text = solver_product(left.as_str(), right.as_str());
    match decode(text.as_str()) {
        Ok(x) => x,
        Err(_) => {
            assert(false);
            FieldElement::zero()
        },
    }
}

/// A term `coefficient * witness`.
#[derive(Clone, Copy, Debug, PartialEq, Eq, Structural)]
pub struct LinearTerm {
    pub coefficient: FieldElement,
    pub witness: u32,
}

/// A term `coefficient * left * right`.
#[derive(Clone, Copy, Debug, PartialEq, Eq, Structural)]
pub struct MulTerm {
    pub coefficient: FieldElement,
    pub left: u32,
    pub right: u32,
}

/// An arithmetic gate: the sum of its terms and its constant has to be zero.
#[derive(Debug)]
pub struct Gate {
    pub mul_terms: Vec<MulTerm>,
    pub linear_terms: Vec<LinearTerm>,
    pub constant: FieldElement,
}

/// The sum of linear terms under the assignment `m`, as an integer.
pub open spec fn linear_sum(m: Map<u32, nat>, terms: Seq<LinearTerm>) -> int
    decreases terms.len(),
{
    if terms.len() == 0 {
        0
    } else {
        linear_sum(m, terms.drop_last()) + (terms.last().coefficient@ as int) * (
        m[terms.last().witness] as int)
    }
}

/// The sum of product terms under the assignment `m`, as an integer.
pub open spec fn mul_sum(m: Map<u32, nat>, terms: Seq<MulTerm>) -> int
    decreases terms.len(),
{
    if terms.len() == 0 {
        0
    } else {
        mul_sum(m, terms.drop_last()) + (terms.last().coefficient@ as int) * (
        m[terms.last().left] as int) * (m[terms.last().right] as int)
    }
}

impl Gate {
    /// Every coefficient and the constant are canonical elements.
    pub open spec fn wf(&self) -> bool {
        &&& self.constant.wf()
        &&& forall|i: int|
            0 <= i < self.linear_terms@.len() ==> (#[trigger] self.linear_terms@[i]).coefficient.wf()
        &&& forall|i: int|
            0 <= i < self.mul_terms@.len() ==> (#[trigger] self.mul_terms@[i]).coefficient.wf()
    }

    /// Every witness mentioned by a term has a value in `m`.
    pub open spec fn assigned_in(&self, m: Map<u32, nat>) -> bool {
        &&& forall|i: int|
            0 <= i < self.linear_terms@.len() ==> m.contains_key(
                (#[trigger] self.linear_terms@[i]).witness,
            )
        &&& forall|i: int|
            0 <= i < self.mul_terms@.len() ==> m.contains_key((#[trigger] self.mul_terms@[i]).left)
                && m.contains_key(self.mul_terms@[i].right)
    }

    /// What the terms and the constant add up to in the field under the assignment `m`.
    pub open spec fn value_in(&self, m: Map<u32, nat>) -> int {
        (self.constant@ as int + linear_sum(m, self.linear_terms@) + mul_sum(m, self.mul_terms@))
            % (modulus() as int)
    }
}

/// Evaluates a gate on the witness map: its value in the field if every
/// witness that it mentions has a value, else nothing.
pub fn evaluate_gate(map: &WitnessMap, gate: &Gate) -> (r: Option<FieldElement>)
    requires
        map.wf(),
        gate.wf(),
    ensures
        r.is_some() == gate.assigned_in(map@),
        r.is_some() ==> r.unwrap().wf() && r.unwrap()@ == gate.value_in(map@),
{
    let ghost p = modulus() as int;
    let mut acc = gate.constant;
    let mut i: usize = 0;
    proof {
        assert(gate.linear_terms@.take(0).len() == 0);
        assert(gate.mul_terms@.take(0).len() == 0);
        lemma_small_mod(gate.constant@, modulus());
    }
    while i < gate.linear_terms.len()
        invariant
            i <= gate.linear_terms@.len(),
            map.wf(),
            gate.wf(),
            p == modulus() as int,
            acc.wf(),
            acc@ == (gate.constant@ as int + linear_sum(map@, gate.linear_terms@.take(i as int))) % p,
            forall|k: int|
                0 <= k < i ==> map@.contains_key((#[trigger] gate.linear_terms@[k]).witness),
        decreases gate.linear_terms@.len() - i,
    {
        let term = gate.linear_terms[i];
        let value = match map.get(term.witness) {
            Some(v) => v,
            None => {
                return None;
            },
        };
        let product = field_product(&term.coefficient, &value);
        let ghost before = gate.constant@ as int + linear_sum(
            map@,
            gate.linear_terms@.take(i as int),
        );
        acc = field_sum(&acc, &product);
        proof {
            let next = gate.linear_terms@.take(i + 1);
            assert(next.drop_last() =~= gate.linear_terms@.take(i as int));
            assert(next.last() == term);
            lemma_add_mod_noop(before, (term.coefficient@ as int) * (value@ as int), p);
        }
        i += 1;
    }
    proof {
        assert(gate.linear_terms@.take(i as int) =~= gate.linear_terms@);
    }
    let ghost linear = gate.constant@ as int + linear_sum(map@, gate.linear_terms@);
    let mut j: usize = 0;
    while j < gate.mul_terms.len()
        invariant
            j <= gate.mul_terms@.len(),
            map.wf(),
            gate.wf(),
            p == modulus() as int,
            acc.wf(),
            linear == gate.constant@ as int + linear_sum(map@, gate.linear_terms@),
            acc@ == (linear + mul_sum(map@, gate.mul_terms@.take(j as int))) % p,
            forall|k: int|
                0 <= k < gate.linear_terms@.len() ==> map@.contains_key(
                    (#[trigger] gate.linear_terms@[k]).witness,
                ),
            forall|k: int|
                0 <= k < j ==> map@.contains_key((#[trigger] gate.mul_terms@[k]).left)
                    && map@.contains_key(gate.mul_terms@[k].right),
        decreases gate.mul_terms@.len() - j,
    {
        let term = gate.mul_terms[j];
        let left = match map.get(term.left) {
            Some(v) => v,
            None => {
                return None;
            },
        };
        let right = match map.get(term.right) {
            Some(v) => v,
            None => {
                return None;
            },
        };
        let scaled = field_product(&term.coefficient, &left);
        let product = field_product(&scaled, &right);
        let ghost before = linear + mul_sum(map@, gate.mul_terms@.take(j as int));
        acc = field_sum(&acc, &product);
        proof {
            let next = gate.mul_terms@.take(j + 1);
            assert(next.drop_last() =~= gate.mul_terms@.take(j as int));
            assert(next.last() == term);
            lemma_mul_mod_noop_left(
                (term.coefficient@ as int) * (left@ as int),
                right@ as int,
                p,
            );
            lemma_add_mod_noop(
                before,
                (term.coefficient@ as int) * (left@ as int) * (right@ as int),
                p,
            );
        }
        j += 1;
    }
    proof {
        assert(gate.mul_terms@.take(j as int) =~= gate.mul_terms@);
    }
    Some(acc)
}

/// Checks a gate on the witness map: it waits while a witness that it
/// mentions has no value, is resolved if it evaluates to zero, and is an
/// unsatisfied constraint otherwise. The witness map is only read.
pub fn check_gate(map: &WitnessMap, gate: &Gate) -> (r: Result<Resolution, ExecutionError>)
    requires
        map.wf(),
        gate.wf(),
    ensures
        !gate.assigned_in(map@) ==> r == Ok::<Resolution, ExecutionError>(Resolution::Waiting),
        gate.assigned_in(map@) && gate.value_in(map@) == 0 ==> r == Ok::<
            Resolution,
            ExecutionError,
        >(Resolution::Resolved),
        gate.assigned_in(map@) && gate.value_in(map@) != 0 ==> r == Err::<
            Resolution,
            ExecutionError,
        >(ExecutionError::UnsatisfiedConstraint),
{
    match evaluate_gate(map, gate) {
        None => Ok(Resolution::Waiting),
        Some(value) => {
            if value.repr.is_zero() {
                Ok(Resolution::Resolved)
            } else {
                Err(ExecutionError::UnsatisfiedConstraint)
            }
        },
    }
}

} // verus!
