use crate::keyed::top_up;
use std::collections::HashMap;
use vstd::prelude::*;
use vstd::std_specs::hash::*;
use vstd::std_specs::iter::IteratorSpec;

verus! {

broadcast use vstd::std_specs::hash::group_hash_axioms;

/// The keys of a map, each once.
fn keys_of(m: &HashMap<u128, u64>) -> (r: Vec<u128>)
    ensures
        r@.to_set() == m@.dom(),
        r@.no_duplicates(),
{
    let mut r: Vec<u128> = Vec::new();
    let ghost ks = spec_keys_iter(m).remaining();
    proof {
        axiom_spec_keys_iter(m);
    }
    for k in it: m.keys()
        invariant
            ks == spec_keys_iter(m).remaining(),
            it.seq() == ks,
            r@.len() == it.index(),
            forall|j: int| 0 <= j < r@.len() ==> r@[j] == *ks[j],
    {
        r.push(*k);
    }
    proof {
        assert(r@ =~= ks.unref());
    }
    r
}

/// Counters per session id, in a hash map.
#[derive(Debug)]
pub struct KeyedCounts {
    map: HashMap<u128, u64>,
}

impl KeyedCounts {
    pub closed spec fn get_spec(&self, k: u128) -> Option<u64> {
        if self.map@.contains_key(k) {
            Some(self.map@[k])
        } else {
            None
        }
    }

    pub fn new() -> (r: Self)
        ensures
            forall|k: u128| r.get_spec(k) == None::<u64>,
    {
        KeyedCounts { map: HashMap::new() }
    }

    pub fn get(&self, k: u128) -> (r: Option<u64>)
        ensures
            r == self.get_spec(k),
    {
        match self.map.get(&k) {
            Some(v) => Some(*v),
            None => None,
        }
    }

    pub fn set(&mut self, k: u128, v: u64)
        ensures
            forall|q: u128|
                #[trigger] final(self).get_spec(q) == (if q == k {
                    Some(v)
                } else {
                    old(self).get_spec(q)
                }),
    {
        self.map.insert(k, v);
    }

    pub fn clear(&mut self)
        ensures
            forall|k: u128| final(self).get_spec(k) == None::<u64>,
    {
        self.map.clear();
    }

    /// Raises every stored value by `add`, capped at `cap`.
    pub fn top_up_all(&mut self, add: u64, cap: u64)
        ensures
            forall|q: u128|
                #[trigger] final(self).get_spec(q) == (match old(self).get_spec(q) {
                    Some(v) => Some(top_up(v, add, cap)),
                    None => None,
                }),
    {
        let ghost orig = self.map@;
        let keys = keys_of(&self.map);
        let mut i: usize = 0;
        while i < keys.len()
            invariant
                i <= keys@.len(),
                keys@.to_set() == orig.dom(),
                keys@.no_duplicates(),
                self.map@.dom() == orig.dom(),
                forall|j: int| 0 <= j < i ==> #[trigger] self.map@[keys@[j]] == top_up(orig[keys@[j]], add, cap),
                forall|j: int| i <= j < keys@.len() ==> #[trigger] self.map@[keys@[j]] == orig[keys@[j]],
            decreases keys@.len() - i,
        {
            let k = keys[i];
            proof {
                assert(keys@.to_set().contains(k));
            }
            let v: u64 = match self.map.get(&k) {
                Some(v) => *v,
                None => 0,
            };
            let nv: u64 = if (v as u128 + add as u128) < (cap as u128) {
                v + add
            } else {
                cap
            };
            let ghost before = self.map@;
            self.map.insert(k, nv);
            proof {
                assert forall|j: int| 0 <= j < keys@.len() && j != i implies keys@[j] != k by {}
                assert(self.map@.dom() =~= orig.dom());
            }
            i = i + 1;
        }
        proof {
            assert forall|q: u128| #[trigger] self.get_spec(q) == (match lookup_map(orig, q) {
                Some(v) => Some(top_up(v, add, cap)),
                None => None,
            }) by {
                if orig.dom().contains(q) {
                    assert(keys@.to_set().contains(q));
                    let j = choose|j: int| 0 <= j < keys@.len() && keys@[j] == q;
                    assert(self.map@[keys@[j]] == top_up(orig[keys@[j]], add, cap));
                }
            }
        }
    }
}

spec fn lookup_map(m: Map<u128, u64>, q: u128) -> Option<u64> {
    if m.contains_key(q) { Some(m[q]) } else { None }
}

} // verus!

verus! {

/// The value a map holds for `k`, if any.
pub open spec fn stored_at<V>(m: Map<u128, V>, k: u128) -> Option<V> {
    if m.contains_key(k) {
        Some(m[k])
    } else {
        None
    }
}

/// Stores `v` for `k`, replacing what was there.
pub fn map_put<V>(m: &mut HashMap<u128, V>, k: u128, v: V)
    ensures
        forall|q: u128| #[trigger] stored_at(final(m)@, q) == (if q == k { Some(v) } else { stored_at(old(m)@, q) }),
{
    m.insert(k, v);
}

/// Takes out the value stored for `k`, if any.
pub fn map_take<V>(m: &mut HashMap<u128, V>, k: u128) -> (r: Option<V>)
    ensures
        r == stored_at(old(m)@, k),
        forall|q: u128| #[trigger] stored_at(final(m)@, q) == (if q == k { None } else { stored_at(old(m)@, q) }),
{
    m.remove(&k)
}

/// The value stored for `k`, by reference.
pub fn map_get<V>(m: &HashMap<u128, V>, k: u128) -> (r: Option<&V>)
    ensures
        match r {
            Some(v) => stored_at(m@, k) == Some(*v),
            None => stored_at(m@, k) == None::<V>,
        },
{
    m.get(&k)
}

} // verus!
