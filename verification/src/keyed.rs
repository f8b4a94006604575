use vstd::prelude::*;

verus! {

/// Value stored for `k` in an association list: the first entry with that key wins.
pub open spec fn lookup<K, V>(s: Seq<(K, V)>, k: K) -> Option<V>
    decreases s.len(),
{
    if s.len() == 0 {
        None
    } else if s[0].0 == k {
        Some(s[0].1)
    } else {
        lookup(s.drop_first(), k)
    }
}

/// `i` holds the first entry for `k`.
pub open spec fn first_at<K, V>(s: Seq<(K, V)>, k: K, i: int) -> bool {
    &&& 0 <= i < s.len()
    &&& s[i].0 == k
    &&& forall|j: int| 0 <= j < i ==> s[j].0 != k
}

pub proof fn lemma_lookup_first<K, V>(s: Seq<(K, V)>, k: K, i: int)
    requires
        first_at(s, k, i),
    ensures
        lookup(s, k) == Some(s[i].1),
    decreases i,
{
    if i > 0 {
        assert(s[0].0 != k);
        lemma_lookup_first(s.drop_first(), k, i - 1);
    }
}

pub proof fn lemma_lookup_absent<K, V>(s: Seq<(K, V)>, k: K)
    requires
        forall|j: int| 0 <= j < s.len() ==> s[j].0 != k,
    ensures
        lookup(s, k) == None::<V>,
    decreases s.len(),
{
    if s.len() > 0 {
        lemma_lookup_absent(s.drop_first(), k);
    }
}

pub proof fn lemma_lookup_update<K, V>(s: Seq<(K, V)>, k: K, i: int, v: V, q: K)
    requires
        first_at(s, k, i),
    ensures
        lookup(s.update(i, (k, v)), q) == (if q == k { Some(v) } else { lookup(s, q) }),
    decreases i,
{
    let t = s.update(i, (k, v));
    if i == 0 {
        assert(t.drop_first() =~= s.drop_first());
    } else {
        assert(t.drop_first() =~= s.drop_first().update(i - 1, (k, v)));
        lemma_lookup_update(s.drop_first(), k, i - 1, v, q);
    }
}

pub proof fn lemma_lookup_push<K, V>(s: Seq<(K, V)>, k: K, v: V, q: K)
    requires
        lookup(s, k) == None::<V>,
    ensures
        lookup(s.push((k, v)), q) == (if q == k { Some(v) } else { lookup(s, q) }),
    decreases s.len(),
{
    let t = s.push((k, v));
    if s.len() == 0 {
        assert(t.drop_first() =~= Seq::<(K, V)>::empty());
        assert(t[0] == (k, v));
    } else {
        assert(t.drop_first() =~= s.drop_first().push((k, v)));
        assert(t[0] == s[0]);
        assert(s[0].0 != k);
        lemma_lookup_push(s.drop_first(), k, v, q);
    }
}

/// No key occurs twice.
pub open spec fn keys_distinct<V>(s: Seq<(u128, V)>) -> bool {
    forall|i: int, j: int| 0 <= i < j < s.len() ==> s[i].0 != s[j].0
}

/// Removing the entry for `k` from a list with distinct keys forgets `k` only.
pub proof fn lemma_lookup_remove<V>(s: Seq<(u128, V)>, i: int, q: u128)
    requires
        keys_distinct(s),
        0 <= i < s.len(),
    ensures
        lookup(s.remove(i), q) == (if q == s[i].0 { None } else { lookup(s, q) }),
    decreases i,
{
    let t = s.remove(i);
    if i == 0 {
        assert(t =~= s.drop_first());
        if q == s[0].0 {
            assert forall|j: int| 0 <= j < t.len() implies t[j].0 != q by {
                assert(t[j] == s[j + 1]);
            }
            lemma_lookup_absent(t, q);
        }
    } else {
        assert(t.drop_first() =~= s.drop_first().remove(i - 1));
        assert(t[0] == s[0]);
        lemma_lookup_remove(s.drop_first(), i - 1, q);
    }
}

/// Inserting an entry for a key that is absent, anywhere in the list, stores it.
pub proof fn lemma_lookup_insert<K, V>(s: Seq<(K, V)>, i: int, k: K, v: V, q: K)
    requires
        0 <= i <= s.len(),
        forall|j: int| 0 <= j < s.len() ==> s[j].0 != k,
    ensures
        lookup(s.insert(i, (k, v)), q) == (if q == k { Some(v) } else { lookup(s, q) }),
    decreases i,
{
    let t = s.insert(i, (k, v));
    if i == 0 {
        assert(t[0] == (k, v));
        assert(t.drop_first() =~= s);
    } else {
        assert(t[0] == s[0]);
        assert(t.drop_first() =~= s.drop_first().insert(i - 1, (k, v)));
        lemma_lookup_insert(s.drop_first(), i - 1, k, v, q);
    }
}

/// Position of the entry for `k`, if there is one.
pub fn find_key<V>(s: &Vec<(u128, V)>, k: u128) -> (r: Option<usize>)
    ensures
        match r {
            Some(i) => first_at(s@, k, i as int),
            None => forall|j: int| 0 <= j < s@.len() ==> s@[j].0 != k,
        },
{
    let mut i: usize = 0;
    while i < s.len()
        invariant
            i <= s@.len(),
            forall|j: int| 0 <= j < i ==> s@[j].0 != k,
        decreases s@.len() - i,
    {
        if s[i].0 == k {
            return Some(i);
        }
        i = i + 1;
    }
    None
}

/// Stores `v` for `k`, replacing what was there.
pub fn assoc_put<V>(s: &mut Vec<(u128, V)>, k: u128, v: V)
    requires
        keys_distinct(old(s)@),
    ensures
        keys_distinct(final(s)@),
        forall|q: u128|
            #[trigger] lookup(final(s)@, q) == (if q == k { Some(v) } else { lookup(old(s)@, q) }),
{
    match find_key(s, k) {
        Some(i) => {
            proof {
                assert forall|q: u128|
                    #[trigger] lookup(s@.update(i as int, (k, v)), q) == (if q == k {
                        Some(v)
                    } else {
                        lookup(s@, q)
                    }) by {
                    lemma_lookup_update(s@, k, i as int, v, q);
                }
            }
            s.set(i, (k, v));
        },
        None => {
            proof {
                lemma_lookup_absent(s@, k);
                assert forall|q: u128|
                    #[trigger] lookup(s@.push((k, v)), q) == (if q == k {
                        Some(v)
                    } else {
                        lookup(s@, q)
                    }) by {
                    lemma_lookup_push(s@, k, v, q);
                }
            }
            s.push((k, v));
        },
    }
}

/// Takes out the value stored for `k`, if any.
pub fn assoc_take<V>(s: &mut Vec<(u128, V)>, k: u128) -> (r: Option<V>)
    requires
        keys_distinct(old(s)@),
    ensures
        keys_distinct(final(s)@),
        r == lookup(old(s)@, k),
        forall|q: u128|
            #[trigger] lookup(final(s)@, q) == (if q == k { None } else { lookup(old(s)@, q) }),
{
    match find_key(s, k) {
        Some(i) => {
            proof {
                lemma_lookup_first(s@, k, i as int);
                assert forall|q: u128|
                    #[trigger] lookup(s@.remove(i as int), q) == (if q == k {
                        None
                    } else {
                        lookup(s@, q)
                    }) by {
                    lemma_lookup_remove(s@, i as int, q);
                }
            }
            let (_, v) = s.remove(i);
            Some(v)
        },
        None => {
            proof {
                lemma_lookup_absent(s@, k);
            }
            None
        },
    }
}

/// The value stored for `k`, by reference.
pub fn assoc_get<V>(s: &Vec<(u128, V)>, k: u128) -> (r: Option<&V>)
    ensures
        match r {
            Some(v) => lookup(s@, k) == Some(*v),
            None => lookup(s@, k) == None::<V>,
        },
{
    match find_key(s, k) {
        Some(i) => {
            proof {
                lemma_lookup_first(s@, k, i as int);
            }
            Some(&s[i].1)
        },
        None => {
            proof {
                lemma_lookup_absent(s@, k);
            }
            None
        },
    }
}

/// Topped-up value: `v + add`, but never above `cap`.
pub open spec fn top_up(v: u64, add: u64, cap: u64) -> u64 {
    if v + add < cap { (v + add) as u64 } else { cap }
}


} // verus!
