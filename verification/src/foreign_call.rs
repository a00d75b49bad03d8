//! The bridge to the resolver of foreign calls: what is sent, and how the
//! answer is checked and written into the witness map.

use vstd::prelude::*;
use crate::codec::{decode, decode_spec, encode, encode_spec};
use crate::error::ExecutionError;
use crate::field::FieldElement;
use crate::witness::{assign_all_spec, lemma_conflict_stays, WitnessMap};

verus! {

/// A foreign call that blocks the solver: its name, the input groups with the
/// values they had when the call became blocking, and the witnesses that
/// wait for its outputs.
#[derive(Debug)]
pub struct ForeignCallRecord {
    pub name: String,
    pub inputs: Vec<Vec<FieldElement>>,
    pub outputs: Vec<u32>,
}

/// The numbers that a list of elements denotes.
pub open spec fn values_of(v: Seq<FieldElement>) -> Seq<nat> {
    Seq::new(v.len(), |i: int| v[i]@)
}

/// Every text of the answer encodes a field element.
pub open spec fn all_decodable(response: Seq<String>) -> bool {
    forall|i: int| 0 <= i < response.len() ==> decode_spec(#[trigger] response[i]@).is_some()
}

/// The numbers that the texts of a decodable answer encode.
pub open spec fn decoded_values(response: Seq<String>) -> Seq<nat> {
    Seq::new(response.len(), |i: int| decode_spec(response[i]@).unwrap())
}

/// Encodes one group of inputs, value by value.
pub fn encode_input_group(group: &Vec<FieldElement>) -> (r: Vec<String>)
    ensures
        r@.len() == group@.len(),
        forall|j: int| 0 <= j < group@.len() ==> (#[trigger] r@[j])@ == encode_spec(group@[j]@),
{
    let mut out: Vec<String> = Vec::new();
    let mut j: usize = 0;
    while j < group.len()
        invariant
            j <= group@.len(),
            out@.len() == j,
            forall|k: int| 0 <= k < j ==> (#[trigger] out@[k])@ == encode_spec(group@[k]@),
        decreases group@.len() - j,
    {
        out.push(encode(&group[j]));
        j += 1;
    }
    out
}

/// Encodes the inputs of a foreign call for the resolver: one list of texts
/// for each input group, in the order of the groups and of their values.
pub fn encode_foreign_call_inputs(foreign_call_inputs: &Vec<Vec<FieldElement>>) -> (r: Vec<
    Vec<String>,
>)
    ensures
        r@.len() == foreign_call_inputs@.len(),
        forall|i: int|
            0 <= i < r@.len() ==> (#[trigger] r@[i])@.len() == foreign_call_inputs@[i]@.len(),
        forall|i: int, j: int|
            0 <= i < r@.len() && 0 <= j < foreign_call_inputs@[i]@.len() ==> (#[trigger] r@[i]@[j])@
                == encode_spec(foreign_call_inputs@[i]@[j]@),
{
    let mut out: Vec<Vec<String>> = Vec::new();
    let mut i: usize = 0;
    while i < foreign_call_inputs.len()
        invariant
            i <= foreign_call_inputs@.len(),
            out@.len() == i,
            forall|k: int|
                0 <= k < i ==> (#[trigger] out@[k])@.len() == foreign_call_inputs@[k]@.len(),
            forall|k: int, j: int|
                0 <= k < i && 0 <= j < foreign_call_inputs@[k]@.len() ==> (#[trigger] out@[k]@[j])@
                    == encode_spec(foreign_call_inputs@[k]@[j]@),
        decreases foreign_call_inputs@.len() - i,
    {
        out.push(encode_input_group(&foreign_call_inputs[i]));
        i += 1;
    }
    out
}

/// Checks and decodes a resolver's answer to `call`: it must hold as many
/// texts as the call has output witnesses, each the encoding of a field
/// element.
pub fn decode_foreign_call_outputs(call: &ForeignCallRecord, response: &Vec<String>) -> (r: Result<
    Vec<FieldElement>,
    ExecutionError,
>)
    ensures
        response@.len() != call.outputs@.len() ==> (r matches Err(
            ExecutionError::ForeignCallOutputCountMismatch { name, expected, actual },
        ) && name@ == call.name@ && expected == call.outputs@.len() && actual == response@.len()),
        response@.len() == call.outputs@.len() && !all_decodable(response@) ==> (r matches Err(
            ExecutionError::MalformedForeignCallResult { name },
        ) && name@ == call.name@),
        response@.len() == call.outputs@.len() && all_decodable(response@) ==> (r matches Ok(v)
            && values_of(v@) == decoded_values(response@) && forall|i: int|
            0 <= i < v@.len() ==> (#[trigger] v@[i]).wf()),
{
    if response.len() != call.outputs.len() {
        return Err(
            ExecutionError::ForeignCallOutputCountMismatch {
                name: call.name.clone(),
                expected: call.outputs.len(),
                actual: response.len(),
            },
        );
    }
    let mut out: Vec<FieldElement> = Vec::new();
    let mut i: usize = 0;
    while i < response.len()
        invariant
            i <= response@.len(),
            response@.len() == call.outputs@.len(),
            out@.len() == i,
            forall|k: int| 0 <= k < i ==> decode_spec(#[trigger] response@[k]@).is_some(),
            forall|k: int|
                0 <= k < i ==> (#[trigger] out@[k])@ == decode_spec(response@[k]@).unwrap()
                    && out@[k].wf(),
        decreases response@.len() - i,
    {
        match decode(response[i].as_str()) {
            Ok(x) => {
                out.push(x);
            },
            Err(_) => {
                assert(decode_spec(response@[i as int]@).is_none());
                return Err(ExecutionError::MalformedForeignCallResult { name: call.name.clone() });
            },
        }
        i += 1;
    }
    proof {
        assert(values_of(out@) =~= decoded_values(response@));
    }
    Ok(out)
}

/// What an accepted answer makes of the map: its decoded values assigned to
/// the output witnesses in order. `None` where the answer is refused: the
/// count is wrong, a text does not decode, or an assignment conflicts.
pub open spec fn resolve_spec(m: Map<u32, nat>, outputs: Seq<u32>, response: Seq<String>) -> Option<
    Map<u32, nat>,
> {
    if response.len() == outputs.len() && all_decodable(response) {
        match assign_all_spec(m, outputs, decoded_values(response)) {
            Ok(m2) => Some(m2),
            Err(_) => None,
        }
    } else {
        None
    }
}

/// `e` is the error with which `response` is refused as the answer to
/// `call` on the map `m`: the wrong count comes first, then a text that
/// does not decode, then the first conflicting witness.
pub open spec fn is_refusal(
    e: ExecutionError,
    m: Map<u32, nat>,
    call: ForeignCallRecord,
    response: Seq<String>,
) -> bool {
    if response.len() != call.outputs@.len() {
        e matches ExecutionError::ForeignCallOutputCountMismatch { name, expected, actual }
            && name@ == call.name@ && expected == call.outputs@.len() && actual == response.len()
    } else if !all_decodable(response) {
        e matches ExecutionError::MalformedForeignCallResult { name } && name@ == call.name@
    } else {
        match assign_all_spec(m, call.outputs@, decoded_values(response)) {
            Err(w) => e == (ExecutionError::WriteOnceViolation { witness: w }),
            Ok(_) => false,
        }
    }
}

/// Writes a resolver's answer to `call` into the witness map: the decoded
/// values go to the call's output witnesses, in order. The map changes only
/// if the whole answer is accepted: the count is right, every text decodes,
/// and no output witness already holds another value.
pub fn resolve_foreign_call(
    map: &mut WitnessMap,
    call: &ForeignCallRecord,
    response: &Vec<String>,
) -> (r: Result<(), ExecutionError>)
    requires
        old(map).wf(),
    ensures
        final(map).wf(),
        match resolve_spec(old(map)@, call.outputs@, response@) {
            Some(m) => r.is_ok() && final(map)@ == m,
            None => (r matches Err(e) && is_refusal(e, old(map)@, *call, response@)) && *final(map)
                == *old(map),
        },
{
    let values = match decode_foreign_call_outputs(call, response) {
        Ok(v) => v,
        Err(e) => {
            return Err(e);
        },
    };
    let ghost ws = call.outputs@;
    let ghost vs = decoded_values(response@);
    let mut work = map.duplicate();
    let mut i: usize = 0;
    proof {
        assert(ws.take(0).len() == 0);
    }
    while i < values.len()
        invariant
            i <= values@.len(),
            values@.len() == ws.len(),
            ws.len() == vs.len(),
            ws == call.outputs@,
            vs == decoded_values(response@),
            response@.len() == call.outputs@.len(),
            all_decodable(response@),
            values_of(values@) == vs,
            forall|k: int| 0 <= k < values@.len() ==> (#[trigger] values@[k]).wf(),
            work.wf(),
            map.wf(),
            assign_all_spec(map@, ws.take(i as int), vs.take(i as int)) == Ok::<Map<u32, nat>, u32>(
                work@,
            ),
        decreases values@.len() - i,
    {
        proof {
            assert(ws.take(i + 1).drop_last() =~= ws.take(i as int));
            assert(vs.take(i + 1).drop_last() =~= vs.take(i as int));
            assert(vs[i as int] == values@[i as int]@);
        }
        match work.assign(call.outputs[i], values[i]) {
            Ok(()) => {},
            Err(e) => {
                proof {
                    assert(ws.take(i + 1).last() == call.outputs@[i as int]);
                    assert(assign_all_spec(map@, ws.take(i + 1), vs.take(i + 1)) == Err::<
                        Map<u32, nat>,
                        u32,
                    >(e.witness));
                    lemma_conflict_stays(map@, ws, vs, i + 1);
                }
                return Err(ExecutionError::WriteOnceViolation { witness: e.witness });
            },
        }
        i += 1;
    }
    proof {
        assert(ws.take(ws.len() as int) =~= ws);
        assert(vs.take(vs.len() as int) =~= vs);
    }
    *map = work;
    Ok(())
}

/// A blocked foreign call together with the resolver's answer to it.
#[derive(Debug)]
pub struct AnsweredCall {
    pub call: ForeignCallRecord,
    pub response: Vec<String>,
}

/// Which answer of a batch was refused, and why.
#[derive(Debug, PartialEq, Eq)]
pub struct BatchFailure {
    pub index: usize,
    pub error: ExecutionError,
}

/// The map after the first `n` answers of a batch were accepted one after
/// the other; `None` if one of them is refused.
pub open spec fn resolve_many_spec(m: Map<u32, nat>, answered: Seq<AnsweredCall>, n: nat) -> Option<
    Map<u32, nat>,
>
    recommends
        n <= answered.len(),
    decreases n,
{
    if n == 0 {
        Some(m)
    } else {
        match resolve_many_spec(m, answered, (n - 1) as nat) {
            None => None,
            Some(m2) => resolve_spec(
                m2,
                answered[n - 1].call.outputs@,
                answered[n - 1].response@,
            ),
        }
    }
}

/// Once an answer of a batch is refused, no longer front part of the batch
/// is accepted.
pub proof fn lemma_refusal_stays(m: Map<u32, nat>, answered: Seq<AnsweredCall>, k: nat, n: nat)
    requires
        k <= n,
        resolve_many_spec(m, answered, k).is_none(),
    ensures
        resolve_many_spec(m, answered, n).is_none(),
    decreases n,
{
    if k < n {
        lemma_refusal_stays(m, answered, k, (n - 1) as nat);
    }
}

/// Writes the answers to a batch of blocked foreign calls into the witness
/// map, call by call in the order of the batch. The first answer that is
/// refused ends the work: the answers before it stay written, and nothing
/// of the refused one or of those after it is.
pub fn resolve_foreign_calls(map: &mut WitnessMap, answered: &Vec<AnsweredCall>) -> (r: Result<
    (),
    BatchFailure,
>)
    requires
        old(map).wf(),
    ensures
        final(map).wf(),
        r.is_ok() == resolve_many_spec(old(map)@, answered@, answered@.len()).is_some(),
        match r {
            Ok(_) => resolve_many_spec(old(map)@, answered@, answered@.len()) == Some(final(map)@),
            Err(f) => f.index < answered@.len() && resolve_many_spec(
                old(map)@,
                answered@,
                f.index as nat,
            ) == Some(final(map)@) && is_refusal(
                f.error,
                final(map)@,
                answered@[f.index as int].call,
                answered@[f.index as int].response@,
            ),
        },
{
    let ghost m0 = map@;
    let mut i: usize = 0;
    while i < answered.len()
        invariant
            i <= answered@.len(),
            map.wf(),
            m0 == old(map)@,
            resolve_many_spec(m0, answered@, i as nat) == Some(map@),
        decreases answered@.len() - i,
    {
        match resolve_foreign_call(map, &answered[i].call, &answered[i].response) {
            Ok(()) => {},
            Err(e) => {
                proof {
                    assert(resolve_many_spec(m0, answered@, (i + 1) as nat).is_none());
                    lemma_refusal_stays(m0, answered@, (i + 1) as nat, answered@.len());
                }
                return Err(BatchFailure { index: i, error: e });
            },
        }
        i += 1;
    }
    Ok(())
}

} // verus!
