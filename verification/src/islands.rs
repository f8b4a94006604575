use vstd::prelude::*;

verus! {

/// Islands a frame aims for.
pub const TARGET_ISLANDS: usize = 40;

/// Beam steps one tick may spend across all islands (about 768 per island for 40 islands at 20 Hz).
pub const STEP_BUDGET_PER_TICK: usize = 35_000;

/// Per-tick profile of the island beams.
#[derive(Clone, Copy, Debug)]
pub struct IslandProfiler {
    pub island_count: usize,
    pub total_steps_last_tick: usize,
    pub max_steps_per_island: usize,
    pub observations_last_tick: usize,
    pub ticks_profiled: u64,
    pub within_budget: bool,
}

impl Default for IslandProfiler {
    fn default() -> (p: Self)
        ensures
            p.island_count == 0,
            p.total_steps_last_tick == 0,
            p.max_steps_per_island == 0,
            p.observations_last_tick == 0,
            p.ticks_profiled == 0,
            p.within_budget,
    {
        IslandProfiler {
            island_count: 0,
            total_steps_last_tick: 0,
            max_steps_per_island: 0,
            observations_last_tick: 0,
            ticks_profiled: 0,
            within_budget: true,
        }
    }
}

impl IslandProfiler {
    /// Records one tick; it is within budget when its steps fit the per-tick budget.
    pub fn record_tick(&mut self, island_count: usize, steps: usize, max_steps: usize, obs: usize)
        requires
            old(self).ticks_profiled < u64::MAX,
        ensures
            final(self).island_count == island_count,
            final(self).total_steps_last_tick == steps,
            final(self).max_steps_per_island == max_steps,
            final(self).observations_last_tick == obs,
            final(self).ticks_profiled == old(self).ticks_profiled + 1,
            final(self).within_budget == (steps <= STEP_BUDGET_PER_TICK),
    {
        self.island_count = island_count;
        self.total_steps_last_tick = steps;
        self.max_steps_per_island = max_steps;
        self.observations_last_tick = obs;
        self.ticks_profiled = self.ticks_profiled + 1;
        self.within_budget = steps <= STEP_BUDGET_PER_TICK;
    }
}

} // verus!

verus! {

/// The contents of each cluster.
pub open spec fn cluster_views<T>(s: Seq<Vec<T>>) -> Seq<Seq<T>> {
    s.map_values(|c: Vec<T>| c@)
}

/// `x` placed after every cluster no larger than it.
pub open spec fn insert_by_size<T>(s: Seq<Seq<T>>, x: Seq<T>) -> Seq<Seq<T>>
    decreases s.len(),
{
    if s.len() == 0 {
        seq![x]
    } else if s.last().len() <= x.len() {
        s.push(x)
    } else {
        insert_by_size(s.drop_last(), x).push(s.last())
    }
}

/// Stable sort of clusters by size, smallest first.
pub open spec fn sort_by_size<T>(s: Seq<Seq<T>>) -> Seq<Seq<T>>
    decreases s.len(),
{
    if s.len() == 0 {
        Seq::empty()
    } else {
        insert_by_size(sort_by_size(s.drop_last()), s.last())
    }
}

pub proof fn lemma_insert_by_size_len<T>(s: Seq<Seq<T>>, x: Seq<T>)
    ensures
        insert_by_size(s, x).len() == s.len() + 1,
    decreases s.len(),
{
    if s.len() > 0 && s.last().len() > x.len() {
        lemma_insert_by_size_len(s.drop_last(), x);
    }
}

pub proof fn lemma_sort_by_size_len<T>(s: Seq<Seq<T>>)
    ensures
        sort_by_size(s).len() == s.len(),
    decreases s.len(),
{
    if s.len() > 0 {
        lemma_sort_by_size_len(s.drop_last());
        lemma_insert_by_size_len(sort_by_size(s.drop_last()), s.last());
    }
}

/// One merge: after sorting by size, the two smallest clusters become one, placed last.
pub open spec fn merge_smallest<T>(s: Seq<Seq<T>>) -> Seq<Seq<T>> {
    let t = sort_by_size(s);
    t.subrange(2, t.len() as int).push(t[0] + t[1])
}

/// Clusters merged two smallest at a time until at most `TARGET_ISLANDS` remain.
pub open spec fn capped<T>(s: Seq<Seq<T>>) -> Seq<Seq<T>>
    decreases s.len(),
{
    if s.len() <= TARGET_ISLANDS {
        s
    } else {
        proof {
            lemma_sort_by_size_len(s);
        }
        capped(merge_smallest(s))
    }
}

/// Capping leaves `min(n, TARGET_ISLANDS)` clusters.
pub proof fn lemma_capped_len<T>(s: Seq<Seq<T>>)
    ensures
        capped(s).len() == if s.len() <= TARGET_ISLANDS { s.len() } else { TARGET_ISLANDS as nat },
    decreases s.len(),
{
    if s.len() > TARGET_ISLANDS {
        lemma_sort_by_size_len(s);
        lemma_capped_len(merge_smallest(s));
    }
}

proof fn lemma_insert_at_size<T>(s: Seq<Seq<T>>, x: Seq<T>, pos: int)
    requires
        0 <= pos <= s.len(),
        forall|k: int| pos <= k < s.len() ==> s[k].len() > x.len(),
        pos > 0 ==> s[pos - 1].len() <= x.len(),
    ensures
        insert_by_size(s, x) == s.insert(pos, x),
    decreases s.len(),
{
    if s.len() == 0 {
        assert(s.insert(pos, x) =~= seq![x]);
    } else if s.last().len() <= x.len() {
        assert(s.insert(pos, x) =~= s.push(x));
    } else {
        lemma_insert_at_size(s.drop_last(), x, pos);
        assert(s.drop_last().insert(pos, x).push(s.last()) =~= s.insert(pos, x));
    }
}

/// Sizes never decrease along the sequence.
pub open spec fn size_sorted<T>(s: Seq<Seq<T>>) -> bool {
    forall|i: int, j: int| 0 <= i <= j < s.len() ==> s[i].len() <= s[j].len()
}

proof fn lemma_insert_keeps_size_sorted<T>(s: Seq<Seq<T>>, x: Seq<T>, pos: int)
    requires
        size_sorted(s),
        0 <= pos <= s.len(),
        forall|k: int| pos <= k < s.len() ==> s[k].len() > x.len(),
        pos > 0 ==> s[pos - 1].len() <= x.len(),
    ensures
        size_sorted(s.insert(pos, x)),
{
    let t = s.insert(pos, x);
    assert forall|i: int, j: int| 0 <= i <= j < t.len() implies t[i].len() <= t[j].len() by {
        if i < pos && j < pos {
            assert(t[i] == s[i] && t[j] == s[j]);
        } else if i < pos && j == pos {
            assert(t[i] == s[i]);
        } else if i < pos {
            assert(t[i] == s[i] && t[j] == s[j - 1]);
        } else if i == pos && j > pos {
            assert(t[j] == s[j - 1]);
        } else if i > pos {
            assert(t[i] == s[i - 1] && t[j] == s[j - 1]);
        }
    }
}

/// Sorts clusters by size, keeping the order of equal sizes.
fn sort_clusters<T>(v: Vec<Vec<T>>) -> (r: Vec<Vec<T>>)
    ensures
        cluster_views(r@) == sort_by_size(cluster_views(v@)),
{
    let ghost orig = cluster_views(v@);
    let mut rest = v;
    let mut out: Vec<Vec<T>> = Vec::new();
    let ghost mut k: int = 0;
    while rest.len() > 0
        invariant
            0 <= k <= orig.len(),
            cluster_views(rest@) == orig.subrange(k, orig.len() as int),
            cluster_views(out@) == sort_by_size(orig.take(k)),
            size_sorted(cluster_views(out@)),
        decreases rest@.len(),
    {
        let ghost rest_before = rest@;
        proof {
            assert(cluster_views(rest_before).len() == rest_before.len());
            assert(cluster_views(rest_before)[0] == rest_before[0]@);
            assert(orig.subrange(k, orig.len() as int)[0] == orig[k]);
        }
        let item = rest.remove(0);
        proof {
            assert(item@ == orig[k]);
            assert(orig.take(k + 1).drop_last() =~= orig.take(k));
            assert(orig.take(k + 1).last() == orig[k]);
            assert(cluster_views(rest@) =~= cluster_views(rest_before).drop_first());
            assert(cluster_views(rest@) =~= orig.subrange(k + 1, orig.len() as int));
        }
        let mut pos: usize = out.len();
        while pos > 0 && out[pos - 1].len() > item.len()
            invariant
                pos <= out@.len(),
                forall|j: int| pos <= j < out@.len() ==> out@[j]@.len() > item@.len(),
            decreases pos,
        {
            pos = pos - 1;
        }
        proof {
            let sv = cluster_views(out@);
            assert forall|j: int| pos <= j < sv.len() implies sv[j].len() > item@.len() by {
                assert(sv[j] == out@[j]@);
            }
            if pos > 0 {
                assert(sv[pos - 1] == out@[pos - 1]@);
            }
            lemma_insert_at_size(sv, item@, pos as int);
            lemma_insert_keeps_size_sorted(sv, item@, pos as int);
        }
        let ghost out_before = out@;
        out.insert(pos, item);
        proof {
            assert(cluster_views(out@) =~= cluster_views(out_before).insert(pos as int, item@));
            k = k + 1;
        }
    }
    proof {
        assert(orig.take(k) =~= orig);
    }
    out
}

/// Merges the two smallest clusters, again and again, until at most
/// `TARGET_ISLANDS` remain; a merged cluster holds the smaller one's members, then
/// the other's, and goes last.
pub fn cap_clusters<T>(clusters: Vec<Vec<T>>) -> (r: Vec<Vec<T>>)
    ensures
        cluster_views(r@) == capped(cluster_views(clusters@)),
        r@.len() == if clusters@.len() <= TARGET_ISLANDS { clusters@.len() } else { TARGET_ISLANDS as nat },
{
    let ghost orig = cluster_views(clusters@);
    let mut cur = clusters;
    while cur.len() > TARGET_ISLANDS
        invariant
            capped(cluster_views(cur@)) == capped(orig),
        decreases cur@.len(),
    {
        let ghost before = cluster_views(cur@);
        let sorted = sort_clusters(cur);
        proof {
            lemma_sort_by_size_len(before);
        }
        let mut rest = sorted;
        let ghost t = cluster_views(rest@);
        let mut a = rest.remove(0);
        let mut b = rest.remove(0);
        a.append(&mut b);
        rest.push(a);
        proof {
            assert(cluster_views(rest@) =~= t.subrange(2, t.len() as int).push(t[0] + t[1]));
            assert(cluster_views(rest@) == merge_smallest(before));
            assert(capped(before) == capped(merge_smallest(before)));
        }
        cur = rest;
    }
    proof {
        lemma_capped_len(orig);
        lemma_capped_len(cluster_views(cur@));
    }
    cur
}

} // verus!

verus! {

proof fn lemma_insert_by_size_members<T>(s: Seq<Seq<T>>, x: Seq<T>)
    ensures
        insert_by_size(s, x).flatten().to_multiset() == s.flatten().to_multiset().add(
            x.to_multiset(),
        ),
    decreases s.len(),
{
    broadcast use vstd::multiset::group_multiset_axioms;

    if s.len() == 0 {
        assert(seq![x] =~= Seq::<Seq<T>>::empty().push(x));
        Seq::<Seq<T>>::empty().lemma_flatten_push(x);
        assert(Seq::<Seq<T>>::empty().flatten() + x =~= x);
        assert(s.flatten() =~= Seq::<T>::empty());
        s.flatten().to_multiset_ensures();
        vstd::multiset::lemma_multiset_empty_len(s.flatten().to_multiset());
        assert(s.flatten().to_multiset() =~= vstd::multiset::Multiset::<T>::empty());
        assert(x.to_multiset() =~= vstd::multiset::Multiset::<T>::empty().add(x.to_multiset()));
    } else if s.last().len() <= x.len() {
        s.lemma_flatten_push(x);
        vstd::seq_lib::lemma_multiset_commutative(s.flatten(), x);
    } else {
        let d = s.drop_last();
        let l = s.last();
        lemma_insert_by_size_members(d, x);
        let r = insert_by_size(d, x);
        r.lemma_flatten_push(l);
        vstd::seq_lib::lemma_multiset_commutative(r.flatten(), l);
        assert(d.push(l) =~= s);
        d.lemma_flatten_push(l);
        vstd::seq_lib::lemma_multiset_commutative(d.flatten(), l);
        assert(d.flatten().to_multiset().add(x.to_multiset()).add(l.to_multiset())
            =~= d.flatten().to_multiset().add(l.to_multiset()).add(x.to_multiset()));
    }
}

proof fn lemma_sort_by_size_members<T>(s: Seq<Seq<T>>)
    ensures
        sort_by_size(s).flatten().to_multiset() == s.flatten().to_multiset(),
    decreases s.len(),
{
    broadcast use vstd::multiset::group_multiset_axioms;

    if s.len() == 0 {
        assert(sort_by_size(s) =~= s);
    } else {
        let d = s.drop_last();
        lemma_sort_by_size_members(d);
        lemma_insert_by_size_members(sort_by_size(d), s.last());
        assert(d.push(s.last()) =~= s);
        d.lemma_flatten_push(s.last());
        vstd::seq_lib::lemma_multiset_commutative(d.flatten(), s.last());
    }
}

proof fn lemma_merge_smallest_members<T>(s: Seq<Seq<T>>)
    requires
        s.len() >= 2,
    ensures
        merge_smallest(s).flatten().to_multiset() == s.flatten().to_multiset(),
{
    broadcast use vstd::multiset::group_multiset_axioms;

    let t = sort_by_size(s);
    lemma_sort_by_size_len(s);
    lemma_sort_by_size_members(s);
    let rest = t.subrange(2, t.len() as int);
    let both = t[0] + t[1];
    assert(t =~= seq![t[0], t[1]] + rest);
    vstd::seq_lib::lemma_flatten_concat(seq![t[0], t[1]], rest);
    assert(seq![t[0], t[1]] =~= Seq::<Seq<T>>::empty().push(t[0]).push(t[1]));
    Seq::<Seq<T>>::empty().lemma_flatten_push(t[0]);
    Seq::<Seq<T>>::empty().push(t[0]).lemma_flatten_push(t[1]);
    assert(Seq::<Seq<T>>::empty().flatten() + t[0] =~= t[0]);
    assert(seq![t[0], t[1]].flatten() =~= both);
    rest.lemma_flatten_push(both);
    vstd::seq_lib::lemma_multiset_commutative(both, rest.flatten());
    vstd::seq_lib::lemma_multiset_commutative(rest.flatten(), both);
}

/// Capping the clusters keeps every member: the merged clusters hold exactly the
/// members they held before, as often as before.
pub proof fn lemma_capped_keeps_members<T>(s: Seq<Seq<T>>)
    ensures
        capped(s).flatten().to_multiset() == s.flatten().to_multiset(),
    decreases s.len(),
{
    if s.len() > TARGET_ISLANDS {
        lemma_sort_by_size_len(s);
        lemma_merge_smallest_members(s);
        lemma_capped_keeps_members(merge_smallest(s));
    }
}

} // verus!
