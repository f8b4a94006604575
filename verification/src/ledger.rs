use crate::keyed::{first_at, lemma_lookup_absent, lemma_lookup_first, lemma_lookup_insert, lemma_lookup_update, lookup};
use crate::types::{IuocId, Tick};
use vstd::prelude::*;

verus! {

/// A quality change waiting for its tick. The change is an `f32` kept as its bit
/// pattern; the host applies it.
#[derive(Clone, Copy, Debug)]
pub struct PendingDelta {
    pub actor: IuocId,
    pub delta_bits: u32,
    pub action_id: u128,
}

/// Order of pending keys: by due tick, then by action id.
pub open spec fn key_lt(a: (u64, u128), b: (u64, u128)) -> bool {
    a.0 < b.0 || (a.0 == b.0 && a.1 < b.1)
}

pub open spec fn sorted_by_key(s: Seq<((u64, u128), PendingDelta)>) -> bool {
    forall|i: int, j: int| 0 <= i < j < s.len() ==> key_lt(s[i].0, s[j].0)
}

/// The deltas of a run of entries, in order.
pub open spec fn deltas_of(s: Seq<((u64, u128), PendingDelta)>) -> Seq<PendingDelta> {
    s.map_values(|e: ((u64, u128), PendingDelta)| e.1)
}

/// Delayed quality changes, keyed by (due tick, action id) and kept in key order.
/// A second change under the same key replaces the first.
#[derive(Debug)]
pub struct LedgerQueue {
    entries: Vec<((u64, u128), PendingDelta)>,
}

impl View for LedgerQueue {
    type V = Seq<((u64, u128), PendingDelta)>;

    closed spec fn view(&self) -> Self::V {
        self.entries@
    }
}

impl LedgerQueue {
    pub closed spec fn wf(&self) -> bool {
        sorted_by_key(self.entries@)
    }

    /// The change waiting under key `k`, if any.
    pub open spec fn pending_at(&self, k: (u64, u128)) -> Option<PendingDelta> {
        lookup(self@, k)
    }

    pub fn new() -> (r: Self)
        ensures
            r.wf(),
            r@.len() == 0,
    {
        LedgerQueue { entries: Vec::new() }
    }

    /// Schedules `delta_bits` for `actor` at tick `due` under action `action_id`.
    pub fn enqueue(&mut self, actor: IuocId, delta_bits: u32, due: Tick, action_id: u128)
        requires
            old(self).wf(),
        ensures
            final(self).wf(),
            forall|q: (u64, u128)|
                #[trigger] final(self).pending_at(q) == (if q == (due.0, action_id) {
                    Some(PendingDelta { actor, delta_bits, action_id })
                } else {
                    old(self).pending_at(q)
                }),
    {
        let k = (due.0, action_id);
        let ev = PendingDelta { actor, delta_bits, action_id };
        let mut i: usize = 0;
        while i < self.entries.len()
            invariant
                i <= self.entries@.len(),
                k == (due.0, action_id),
                sorted_by_key(self.entries@),
                forall|j: int| 0 <= j < i ==> key_lt(#[trigger] self.entries@[j].0, k),
            ensures
                i <= self.entries@.len(),
                sorted_by_key(self.entries@),
                forall|j: int| 0 <= j < i ==> key_lt(#[trigger] self.entries@[j].0, k),
                i < self.entries@.len() ==> !key_lt(self.entries@[i as int].0, k),
            decreases self.entries@.len() - i,
        {
            let (t, a) = self.entries[i].0;
            if !(t < due.0 || (t == due.0 && a < action_id)) {
                break;
            }
            assert(key_lt(self.entries@[i as int].0, k));
            i = i + 1;
        }
        let ghost s = self.entries@;
        if i < self.entries.len() && self.entries[i].0.0 == due.0 && self.entries[i].0.1 == action_id {
            proof {
                assert(first_at(s, k, i as int));
                assert forall|q: (u64, u128)|
                    #[trigger] lookup(s.update(i as int, (k, ev)), q) == (if q == k { Some(ev) } else { lookup(s, q) }) by {
                    lemma_lookup_update(s, k, i as int, ev, q);
                }
            }
            self.entries.set(i, (k, ev));
            proof {
                assert forall|x: int, y: int| 0 <= x < y < self.entries@.len() implies key_lt(
                    self.entries@[x].0,
                    self.entries@[y].0,
                ) by {
                    assert(self.entries@[x].0 == s[x].0);
                    assert(self.entries@[y].0 == s[y].0);
                }
            }
        } else {
            proof {
                assert forall|j: int| 0 <= j < s.len() implies s[j].0 != k by {
                    if j >= i {
                        assert(!key_lt(s[i as int].0, k));
                        if j > i {
                            assert(key_lt(s[i as int].0, s[j].0));
                        }
                    }
                }
                assert forall|q: (u64, u128)|
                    #[trigger] lookup(s.insert(i as int, (k, ev)), q) == (if q == k { Some(ev) } else { lookup(s, q) }) by {
                    lemma_lookup_insert(s, i as int, k, ev, q);
                }
            }
            self.entries.insert(i, (k, ev));
            proof {
                let t = self.entries@;
                assert forall|x: int, y: int| 0 <= x < y < t.len() implies key_lt(t[x].0, t[y].0) by {
                    if y < i {
                        assert(t[x] == s[x] && t[y] == s[y]);
                    } else if y == i {
                        assert(t[x] == s[x]);
                    } else if x == i {
                        assert(t[y] == s[y - 1]);
                        assert(!key_lt(s[i as int].0, k));
                        if y - 1 > i {
                            assert(key_lt(s[i as int].0, s[y - 1].0));
                        }
                    } else if x < i {
                        assert(t[x] == s[x] && t[y] == s[y - 1]);
                    } else {
                        assert(t[x] == s[x - 1] && t[y] == s[y - 1]);
                    }
                }
            }
        }
    }

    /// Takes out every change due at or before `now`, in key order; the rest stay.
    pub fn take_due(&mut self, now: Tick) -> (due: Vec<PendingDelta>)
        requires
            old(self).wf(),
        ensures
            final(self).wf(),
            exists|n: int|
                0 <= n <= old(self)@.len() && {
                    &&& due@ == deltas_of(old(self)@.take(n))
                    &&& final(self)@ == old(self)@.skip(n)
                    &&& forall|i: int| 0 <= i < n ==> (#[trigger] old(self)@[i]).0.0 <= now.0
                    &&& forall|i: int| n <= i < old(self)@.len() ==> (#[trigger] old(self)@[i]).0.0 > now.0
                },
    {
        let ghost s = self.entries@;
        let mut n: usize = 0;
        while n < self.entries.len()
            invariant
                n <= s.len(),
                self.entries@ == s,
                forall|i: int| 0 <= i < n ==> (#[trigger] s[i]).0.0 <= now.0,
            ensures
                n <= s.len(),
                self.entries@ == s,
                forall|i: int| 0 <= i < n ==> (#[trigger] s[i]).0.0 <= now.0,
                n < s.len() ==> s[n as int].0.0 > now.0,
            decreases s.len() - n,
        {
            if self.entries[n].0.0 > now.0 {
                break;
            }
            n = n + 1;
        }
        proof {
            assert forall|i: int| n <= i < s.len() implies (#[trigger] s[i]).0.0 > now.0 by {
                if i > n {
                    assert(key_lt(s[n as int].0, s[i].0));
                }
            }
        }
        let mut taken = self.entries.split_off(n);
        std::mem::swap(&mut taken, &mut self.entries);
        let mut due: Vec<PendingDelta> = Vec::new();
        let mut i: usize = 0;
        while i < taken.len()
            invariant
                i <= taken@.len(),
                taken@ == s.take(n as int),
                due@ == deltas_of(taken@.take(i as int)),
            decreases taken@.len() - i,
        {
            due.push(taken[i].1);
            proof {
                assert(deltas_of(taken@.take(i + 1)) =~= deltas_of(taken@.take(i as int)).push(taken@[i as int].1));
            }
            i = i + 1;
        }
        proof {
            assert(taken@.take(taken@.len() as int) =~= taken@);
            assert(self.entries@ =~= s.skip(n as int));
            assert forall|x: int, y: int| 0 <= x < y < self.entries@.len() implies key_lt(
                self.entries@[x].0,
                self.entries@[y].0,
            ) by {
                assert(self.entries@[x] == s[x + n]);
                assert(self.entries@[y] == s[y + n]);
            }
        }
        proof {
            assert(due@ == deltas_of(s.take(n as int)));
            assert(self.entries@ == s.skip(n as int));
            assert(old(self)@ == s);
            let m = n as int;
            assert(0 <= m <= s.len());
            assert(forall|i: int| 0 <= i < m ==> (#[trigger] s[i]).0.0 <= now.0);
            assert(forall|i: int| m <= i < s.len() ==> (#[trigger] s[i]).0.0 > now.0);
        }
        due
    }

    /// Number of changes still waiting.
    pub fn pending_count(&self) -> (r: usize)
        ensures
            r == self@.len(),
    {
        self.entries.len()
    }
}

/// The changes `take_due` hands out, a prefix of the queue, come in (tick, action)
/// order.
pub proof fn lemma_taken_in_key_order(s: Seq<((u64, u128), PendingDelta)>, n: int)
    requires
        sorted_by_key(s),
        0 <= n <= s.len(),
    ensures
        sorted_by_key(s.take(n)),
{
}

/// After `take_due(now)` nothing left in the queue is due at or before `now`.
pub proof fn lemma_nothing_due_left(before: Seq<((u64, u128), PendingDelta)>, n: int, now: u64)
    requires
        0 <= n <= before.len(),
        forall|i: int| n <= i < before.len() ==> (#[trigger] before[i]).0.0 > now,
    ensures
        forall|i: int| 0 <= i < before.skip(n).len() ==> (#[trigger] before.skip(n)[i]).0.0 > now,
{
    assert forall|i: int| 0 <= i < before.skip(n).len() implies (#[trigger] before.skip(n)[i]).0.0 > now by {
        assert(before.skip(n)[i] == before[i + n]);
    }
}

} // verus!
