//! The assignment of field elements to witness indices, written once each.

use vstd::prelude::*;
use crate::field::{lemma_value_determines_element, FieldElement};

verus! {

/// One witness index with the element assigned to it.
#[derive(Clone, Copy, Debug, PartialEq, Eq, Structural)]
pub struct Assignment {
    pub witness: u32,
    pub value: FieldElement,
}

/// A second, different value was offered for a witness that has one.
#[derive(Clone, Copy, Debug, PartialEq, Eq, Structural)]
pub struct WriteOnceViolation {
    pub witness: u32,
}

/// The map that a list of assignments denotes, later entries written last.
pub open spec fn assignments(s: Seq<Assignment>) -> Map<u32, nat>
    decreases s.len(),
{
    if s.len() == 0 {
        Map::empty()
    } else {
        assignments(s.drop_last()).insert(s.last().witness, s.last().value@)
    }
}

/// No witness index occurs twice in `s`.
pub open spec fn distinct_witnesses(s: Seq<Assignment>) -> bool {
    forall|i: int, j: int| 0 <= i < j < s.len() ==> s[i].witness != s[j].witness
}

/// The witness indices of `s` ascend strictly.
pub open spec fn ascending(s: Seq<Assignment>) -> bool {
    forall|i: int, j: int| 0 <= i < j < s.len() ==> s[i].witness < s[j].witness
}

/// A list whose indices ascend strictly holds no index twice.
pub proof fn lemma_ascending_distinct(s: Seq<Assignment>)
    requires
        ascending(s),
    ensures
        distinct_witnesses(s),
{
}

/// What assigning `v` to `w` makes of `m`: `None` where `w` already has
/// another value, else `m` with `w` at `v`.
pub open spec fn assign_spec(m: Map<u32, nat>, w: u32, v: nat) -> Option<Map<u32, nat>> {
    if m.contains_key(w) && m[w] != v {
        None
    } else {
        Some(m.insert(w, v))
    }
}

/// What assigning `vs` to `ws`, one after the other from the front, makes of
/// `m`: the new map, or the first witness whose assignment conflicts.
pub open spec fn assign_all_spec(m: Map<u32, nat>, ws: Seq<u32>, vs: Seq<nat>) -> Result<
    Map<u32, nat>,
    u32,
>
    recommends
        ws.len() == vs.len(),
    decreases ws.len(),
{
    if ws.len() == 0 || vs.len() == 0 {
        Ok(m)
    } else {
        match assign_all_spec(m, ws.drop_last(), vs.drop_last()) {
            Err(w) => Err(w),
            Ok(m2) => match assign_spec(m2, ws.last(), vs.last()) {
                Some(m3) => Ok(m3),
                None => Err(ws.last()),
            },
        }
    }
}

/// If assigning a front part of the pairs conflicts at a witness, assigning
/// all of them conflicts at that witness.
pub proof fn lemma_conflict_stays(m: Map<u32, nat>, ws: Seq<u32>, vs: Seq<nat>, k: int)
    requires
        ws.len() == vs.len(),
        0 <= k <= ws.len(),
        assign_all_spec(m, ws.take(k), vs.take(k)).is_err(),
    ensures
        assign_all_spec(m, ws, vs) == assign_all_spec(m, ws.take(k), vs.take(k)),
    decreases ws.len(),
{
    if k == ws.len() {
        assert(ws.take(k) =~= ws);
        assert(vs.take(k) =~= vs);
    } else {
        assert(ws.drop_last().take(k) =~= ws.take(k));
        assert(vs.drop_last().take(k) =~= vs.take(k));
        lemma_conflict_stays(m, ws.drop_last(), vs.drop_last(), k);
    }
}

/// An index that occurs in a list without repeats is mapped to its entry's value.
pub proof fn lemma_assigned(s: Seq<Assignment>, i: int)
    requires
        distinct_witnesses(s),
        0 <= i < s.len(),
    ensures
        assignments(s).contains_key(s[i].witness),
        assignments(s)[s[i].witness] == s[i].value@,
    decreases s.len(),
{
    if i < s.len() - 1 {
        lemma_assigned(s.drop_last(), i);
    }
}

/// An index that occurs nowhere in a list is not mapped.
pub proof fn lemma_unassigned(s: Seq<Assignment>, w: u32)
    requires
        forall|i: int| 0 <= i < s.len() ==> (#[trigger] s[i]).witness != w,
    ensures
        !assignments(s).contains_key(w),
    decreases s.len(),
{
    if s.len() > 0 {
        let t = s.drop_last();
        assert forall|i: int| 0 <= i < t.len() implies (#[trigger] t[i]).witness != w by {
            assert(t[i] == s[i]);
        }
        lemma_unassigned(t, w);
        assert(s.last() == s[s.len() - 1]);
    }
}

/// Putting an entry with a new index anywhere into a list adds its
/// assignment to the map that the list denotes.
pub proof fn lemma_insert_entry(s: Seq<Assignment>, i: int, e: Assignment)
    requires
        0 <= i <= s.len(),
        forall|k: int| 0 <= k < s.len() ==> (#[trigger] s[k]).witness != e.witness,
    ensures
        assignments(s.insert(i, e)) == assignments(s).insert(e.witness, e.value@),
    decreases s.len(),
{
    let t = s.insert(i, e);
    if i == s.len() {
        assert(t.drop_last() =~= s);
        assert(t.last() == e);
    } else {
        let front = s.drop_last();
        assert(t.drop_last() =~= front.insert(i, e));
        assert(t.last() == s.last());
        assert forall|k: int| 0 <= k < front.len() implies (#[trigger] front[k]).witness
            != e.witness by {
            assert(front[k] == s[k]);
        }
        lemma_insert_entry(front, i, e);
        assert(s.last() == s[s.len() - 1]);
        assert(assignments(front).insert(e.witness, e.value@).insert(
            s.last().witness,
            s.last().value@,
        ) =~= assignments(front).insert(s.last().witness, s.last().value@).insert(
            e.witness,
            e.value@,
        ));
    }
}

/// A witness map is determined by its assignments: two ascending lists of
/// canonical values that denote the same map are the same list.
pub proof fn lemma_entries_determined(a: Seq<Assignment>, b: Seq<Assignment>)
    requires
        ascending(a),
        ascending(b),
        forall|i: int| 0 <= i < a.len() ==> (#[trigger] a[i]).value.wf(),
        forall|i: int| 0 <= i < b.len() ==> (#[trigger] b[i]).value.wf(),
        assignments(a) == assignments(b),
    ensures
        a == b,
    decreases a.len(),
{
    lemma_ascending_distinct(a);
    lemma_ascending_distinct(b);
    if a.len() == 0 {
        if b.len() > 0 {
            lemma_assigned(b, 0);
        }
        assert(a =~= b);
    } else {
        if b.len() == 0 {
            lemma_assigned(a, 0);
        }
        let la = a.last();
        let lb = b.last();
        let fa = a.drop_last();
        let fb = b.drop_last();
        lemma_assigned(a, a.len() - 1);
        lemma_assigned(b, b.len() - 1);
        if forall|k: int| 0 <= k < b.len() ==> (#[trigger] b[k]).witness != la.witness {
            lemma_unassigned(b, la.witness);
        }
        if forall|k: int| 0 <= k < a.len() ==> (#[trigger] a[k]).witness != lb.witness {
            lemma_unassigned(a, lb.witness);
        }
        assert(la.witness == lb.witness);
        lemma_value_determines_element(la.value, lb.value);
        assert(la == lb);
        assert forall|k: int| 0 <= k < fa.len() implies (#[trigger] fa[k]).witness
            != la.witness by {
            assert(fa[k] == a[k]);
        }
        assert forall|k: int| 0 <= k < fb.len() implies (#[trigger] fb[k]).witness
            != lb.witness by {
            assert(fb[k] == b[k]);
        }
        lemma_unassigned(fa, la.witness);
        lemma_unassigned(fb, lb.witness);
        assert(assignments(fa) =~= assignments(a).remove(la.witness));
        assert(assignments(fb) =~= assignments(b).remove(lb.witness));
        assert forall|i: int, j: int| 0 <= i < j < fa.len() implies fa[i].witness
            < fa[j].witness by {
            assert(fa[i] == a[i] && fa[j] == a[j]);
        }
        assert forall|i: int, j: int| 0 <= i < j < fb.len() implies fb[i].witness
            < fb[j].witness by {
            assert(fb[i] == b[i] && fb[j] == b[j]);
        }
        assert forall|i: int| 0 <= i < fa.len() implies (#[trigger] fa[i]).value.wf() by {
            assert(fa[i] == a[i]);
        }
        assert forall|i: int| 0 <= i < fb.len() implies (#[trigger] fb[i]).value.wf() by {
            assert(fb[i] == b[i]);
        }
        lemma_entries_determined(fa, fb);
        assert(a =~= fa.push(la));
        assert(b =~= fb.push(lb));
    }
}

/// The witness map: its entries in ascending order of their witness indices,
/// each index at most once, every value a canonical element.
#[derive(Debug)]
pub struct WitnessMap {
    pub entries: Vec<Assignment>,
}

impl View for WitnessMap {
    type V = Map<u32, nat>;

    open spec fn view(&self) -> Map<u32, nat> {
        assignments(self.entries@)
    }
}

impl WitnessMap {
    /// The indices ascend strictly, and every value is below the modulus.
    pub open spec fn wf(&self) -> bool {
        &&& ascending(self.entries@)
        &&& forall|i: int| 0 <= i < self.entries@.len() ==> (#[trigger] self.entries@[i]).value.wf()
    }

    /// The map that assigns nothing.
    pub fn new() -> (r: WitnessMap)
        ensures
            r.wf(),
            r@ == Map::<u32, nat>::empty(),
    {
        WitnessMap { entries: Vec::new() }
    }

    /// The number of assigned witnesses.
    pub fn len(&self) -> (n: usize)
        ensures
            n == self.entries@.len(),
    {
        self.entries.len()
    }

    /// Where `w` stands among the entries, or where it would have to stand:
    /// whether it is assigned, and the number of entries with a smaller index.
    fn position(&self, w: u32) -> (r: (bool, usize))
        requires
            self.wf(),
        ensures
            r.1 <= self.entries@.len(),
            forall|k: int| 0 <= k < r.1 ==> (#[trigger] self.entries@[k]).witness < w,
            forall|k: int|
                r.1 <= k < self.entries@.len() ==> (#[trigger] self.entries@[k]).witness >= w,
            r.0 == self@.contains_key(w),
            !r.0 ==> forall|k: int|
                0 <= k < self.entries@.len() ==> (#[trigger] self.entries@[k]).witness != w,
            r.0 ==> r.1 < self.entries@.len() && self.entries@[r.1 as int].witness == w && self@[w]
                == self.entries@[r.1 as int].value@,
    {
        let mut i: usize = 0;
        while i < self.entries.len() && self.entries[i].witness < w
            invariant
                i <= self.entries@.len(),
                self.wf(),
                forall|k: int| 0 <= k < i ==> (#[trigger] self.entries@[k]).witness < w,
            decreases self.entries@.len() - i,
        {
            i += 1;
        }
        proof {
            lemma_ascending_distinct(self.entries@);
        }
        if i < self.entries.len() && self.entries[i].witness == w {
            proof {
                lemma_assigned(self.entries@, i as int);
            }
            (true, i)
        } else {
            proof {
                assert forall|k: int| 0 <= k < self.entries@.len() implies (
                #[trigger] self.entries@[k]).witness != w by {
                    if k > i {
                        assert(self.entries@[i as int].witness < self.entries@[k].witness);
                    }
                }
                lemma_unassigned(self.entries@, w);
            }
            (false, i)
        }
    }

    /// The element assigned to `w`, if any.
    pub fn get(&self, w: u32) -> (r: Option<FieldElement>)
        requires
            self.wf(),
        ensures
            r.is_some() == self@.contains_key(w),
            r.is_some() ==> r.unwrap()@ == self@[w] && r.unwrap().wf(),
    {
        let (found, i) = self.position(w);
        if found {
            Some(self.entries[i].value)
        } else {
            None
        }
    }

    /// Assigns `v` to `w`. A witness is written once: offering the value it
    /// already has changes nothing and succeeds, offering another one is
    /// refused and changes nothing.
    pub fn assign(&mut self, w: u32, v: FieldElement) -> (r: Result<(), WriteOnceViolation>)
        requires
            old(self).wf(),
            v.wf(),
        ensures
            final(self).wf(),
            match assign_spec(old(self)@, w, v@) {
                Some(m) => r.is_ok() && final(self)@ == m,
                None => r == Err::<(), WriteOnceViolation>(WriteOnceViolation { witness: w })
                    && *final(self) == *old(self),
            },
            old(self)@.contains_key(w) ==> *final(self) == *old(self),
    {
        let (found, i) = self.position(w);
        if found {
            let held = self.entries[i].value;
            if held == v {
                assert(self@.insert(w, v@) =~= self@);
                Ok(())
            } else {
                proof {
                    if held@ == v@ {
                        lemma_value_determines_element(held, v);
                    }
                }
                Err(WriteOnceViolation { witness: w })
            }
        } else {
            let ghost before = self.entries@;
            let entry = Assignment { witness: w, value: v };
            self.entries.insert(i, entry);
            proof {
                lemma_insert_entry(before, i as int, entry);
                let after = self.entries@;
                assert(after == before.insert(i as int, entry));
                assert forall|a: int, b: int| 0 <= a < b < after.len() implies after[a].witness
                    < after[b].witness by {
                    if b < i {
                        assert(after[a] == before[a] && after[b] == before[b]);
                    } else if b == i {
                        assert(after[a] == before[a]);
                    } else if a < i {
                        assert(after[a] == before[a] && after[b] == before[b - 1]);
                    } else if a == i {
                        assert(after[b] == before[b - 1]);
                    } else {
                        assert(after[a] == before[a - 1] && after[b] == before[b - 1]);
                    }
                }
                assert forall|k: int| 0 <= k < after.len() implies (#[trigger] after[k]).value.wf() by {
                    if k < i {
                        assert(after[k] == before[k]);
                    } else if k > i {
                        assert(after[k] == before[k - 1]);
                    }
                }
            }
            Ok(())
        }
    }

    /// A second map with the same entries in the same order.
    pub fn duplicate(&self) -> (r: WitnessMap)
        ensures
            r.entries@ == self.entries@,
    {
        let mut entries: Vec<Assignment> = Vec::new();
        let mut i: usize = 0;
        while i < self.entries.len()
            invariant
                i <= self.entries@.len(),
                entries@ == self.entries@.take(i as int),
            decreases self.entries@.len() - i,
        {
            entries.push(self.entries[i]);
            proof {
                assert(self.entries@.take(i + 1) =~= self.entries@.take(i as int).push(
                    self.entries@[i as int],
                ));
            }
            i += 1;
        }
        proof {
            assert(self.entries@.take(self.entries@.len() as int) =~= self.entries@);
        }
        WitnessMap { entries }
    }
}

/// Assigning to a witness the value it already has succeeds and leaves the
/// map as it was; assigning any other value to it is refused.
pub proof fn lemma_write_once(m: Map<u32, nat>, w: u32, v: nat)
    requires
        m.contains_key(w),
    ensures
        m[w] == v ==> assign_spec(m, w, v) == Some(m),
        m[w] != v ==> assign_spec(m, w, v).is_none(),
{
    if m[w] == v {
        assert(m.insert(w, v) =~= m);
    }
}

} // verus!
