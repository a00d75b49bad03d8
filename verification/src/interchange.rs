//! Witness maps at the boundary: lists of witness indices with encoded values.

use vstd::prelude::*;
use crate::codec::{decode, decode_spec, encode, encode_spec, lemma_decode_encode};
use crate::error::ExecutionError;
use crate::witness::{
    assign_all_spec, assign_spec, assignments, distinct_witnesses, lemma_conflict_stays,
    lemma_unassigned, Assignment, WitnessMap,
};

verus! {

/// A witness index with the text that encodes its value.
#[derive(Debug, PartialEq, Eq)]
pub struct EncodedAssignment {
    pub witness: u32,
    pub value: String,
}

/// The witness indices of a list, in order.
pub open spec fn pair_witnesses(pairs: Seq<EncodedAssignment>) -> Seq<u32> {
    Seq::new(pairs.len(), |i: int| pairs[i].witness)
}

/// Every text of the list encodes a field element.
pub open spec fn pairs_decodable(pairs: Seq<EncodedAssignment>) -> bool {
    forall|i: int| 0 <= i < pairs.len() ==> decode_spec((#[trigger] pairs[i]).value@).is_some()
}

/// The numbers that the texts of a decodable list encode, in order.
pub open spec fn pair_values(pairs: Seq<EncodedAssignment>) -> Seq<nat> {
    Seq::new(pairs.len(), |i: int| decode_spec(pairs[i].value@).unwrap())
}

/// `pairs` lists the entries of a map, each value encoded, in their order.
pub open spec fn is_export_of(pairs: Seq<EncodedAssignment>, entries: Seq<Assignment>) -> bool {
    &&& pairs.len() == entries.len()
    &&& forall|i: int|
        0 <= i < pairs.len() ==> (#[trigger] pairs[i]).witness == entries[i].witness
            && pairs[i].value@ == encode_spec(entries[i].value@)
}

/// Lists the entries of a witness map, each value encoded, in ascending
/// order of the witness indices.
pub fn export_witness_map(map: &WitnessMap) -> (r: Vec<EncodedAssignment>)
    ensures
        is_export_of(r@, map.entries@),
{
    let mut out: Vec<EncodedAssignment> = Vec::new();
    let mut i: usize = 0;
    while i < map.entries.len()
        invariant
            i <= map.entries@.len(),
            is_export_of(out@, map.entries@.take(i as int)),
        decreases map.entries@.len() - i,
    {
        let entry = &map.entries[i];
        out.push(EncodedAssignment { witness: entry.witness, value: encode(&entry.value) });
        i += 1;
    }
    proof {
        assert(map.entries@.take(map.entries@.len() as int) =~= map.entries@);
    }
    out
}

/// Reads a witness map from a list of encoded assignments, taken in order.
/// A text that encodes no field element makes the list unreadable; an index
/// that comes twice with different values is a write-once violation.
pub fn import_witness_map(pairs: &Vec<EncodedAssignment>) -> (r: Result<WitnessMap, ExecutionError>)
    ensures
        !pairs_decodable(pairs@) ==> r == Err::<WitnessMap, ExecutionError>(
            ExecutionError::Deserialization,
        ),
        pairs_decodable(pairs@) ==> (match assign_all_spec(
            Map::empty(),
            pair_witnesses(pairs@),
            pair_values(pairs@),
        ) {
            Ok(m) => (r matches Ok(map) && map.wf() && map@ == m),
            Err(w) => (r matches Err(ExecutionError::WriteOnceViolation { witness })
                && witness == w),
        }),
{
    let mut map = WitnessMap::new();
    let mut conflict: Option<u32> = None;
    let ghost ws = pair_witnesses(pairs@);
    let ghost vs = pair_values(pairs@);
    let mut i: usize = 0;
    proof {
        assert(ws.take(0).len() == 0);
    }
    while i < pairs.len()
        invariant
            i <= pairs@.len(),
            ws == pair_witnesses(pairs@),
            vs == pair_values(pairs@),
            map.wf(),
            forall|k: int| 0 <= k < i ==> decode_spec((#[trigger] pairs@[k]).value@).is_some(),
            ws.len() == pairs@.len(),
            vs.len() == pairs@.len(),
            match conflict {
                None => assign_all_spec(Map::empty(), ws.take(i as int), vs.take(i as int))
                    == Ok::<Map<u32, nat>, u32>(map@),
                Some(w) => exists|k: int|
                    0 <= k <= i && #[trigger] assign_all_spec(Map::empty(), ws.take(k), vs.take(k))
                        == Err::<Map<u32, nat>, u32>(w),
            },
        decreases pairs@.len() - i,
    {
        let value = match decode(pairs[i].value.as_str()) {
            Ok(v) => v,
            Err(_) => {
                return Err(ExecutionError::Deserialization);
            },
        };
        if conflict.is_none() {
            proof {
                assert(ws.take(i + 1).drop_last() =~= ws.take(i as int));
                assert(vs.take(i + 1).drop_last() =~= vs.take(i as int));
                assert(vs[i as int] == value@);
                assert(ws[i as int] == pairs@[i as int].witness);
            }
            match map.assign(pairs[i].witness, value) {
                Ok(()) => {},
                Err(e) => {
                    conflict = Some(e.witness);
                    proof {
                        assert(ws.take(i + 1).last() == pairs@[i as int].witness);
                        assert(assign_all_spec(Map::empty(), ws.take(i + 1), vs.take(i + 1))
                            == Err::<Map<u32, nat>, u32>(e.witness));
                    }
                },
            }
        }
        i += 1;
    }
    proof {
        assert(ws.take(ws.len() as int) =~= ws);
        assert(vs.take(vs.len() as int) =~= vs);
    }
    match conflict {
        None => Ok(map),
        Some(w) => {
            proof {
                let k = choose|k: int|
                    0 <= k <= pairs@.len() && #[trigger] assign_all_spec(
                        Map::empty(),
                        ws.take(k),
                        vs.take(k),
                    ) == Err::<Map<u32, nat>, u32>(w);
                lemma_conflict_stays(Map::empty(), ws, vs, k);
            }
            Err(ExecutionError::WriteOnceViolation { witness: w })
        },
    }
}

/// Assigning the entries of a list without repeats, one after the other,
/// to the empty map gives the map that the list denotes.
pub proof fn lemma_assign_all_of_entries(entries: Seq<Assignment>)
    requires
        distinct_witnesses(entries),
    ensures
        assign_all_spec(
            Map::empty(),
            Seq::new(entries.len(), |i: int| entries[i].witness),
            Seq::new(entries.len(), |i: int| entries[i].value@),
        ) == Ok::<Map<u32, nat>, u32>(assignments(entries)),
    decreases entries.len(),
{
    let ws = Seq::new(entries.len(), |i: int| entries[i].witness);
    let vs = Seq::new(entries.len(), |i: int| entries[i].value@);
    if entries.len() > 0 {
        let front = entries.drop_last();
        lemma_assign_all_of_entries(front);
        assert(ws.drop_last() =~= Seq::new(front.len(), |i: int| front[i].witness));
        assert(vs.drop_last() =~= Seq::new(front.len(), |i: int| front[i].value@));
        let w = entries.last().witness;
        assert forall|i: int| 0 <= i < front.len() implies (#[trigger] front[i]).witness != w by {
            assert(front[i] == entries[i]);
        }
        lemma_unassigned(front, w);
        assert(assign_spec(assignments(front), w, entries.last().value@) == Some(
            assignments(entries),
        ));
    }
}

/// The exchange is lossless: reading back the exported list of a witness
/// map gives a map with the same assignments.
pub proof fn lemma_import_of_export(map: WitnessMap, pairs: Seq<EncodedAssignment>)
    requires
        map.wf(),
        is_export_of(pairs, map.entries@),
    ensures
        pairs_decodable(pairs),
        assign_all_spec(Map::empty(), pair_witnesses(pairs), pair_values(pairs)) == Ok::<
            Map<u32, nat>,
            u32,
        >(map@),
{
    let entries = map.entries@;
    crate::witness::lemma_ascending_distinct(entries);
    assert forall|i: int| 0 <= i < pairs.len() implies decode_spec((#[trigger] pairs[i]).value@)
        == Some(entries[i].value@) by {
        lemma_decode_encode(entries[i].value);
    }
    lemma_assign_all_of_entries(entries);
    assert(pair_witnesses(pairs) =~= Seq::new(entries.len(), |i: int| entries[i].witness));
    assert(pair_values(pairs) =~= Seq::new(entries.len(), |i: int| entries[i].value@));
}

} // verus!
