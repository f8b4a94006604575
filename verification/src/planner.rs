use vstd::prelude::*;

verus! {

/// A life situation a soul can be reborn into.
#[derive(Clone, Debug)]
pub struct PacketTemplate {
    pub id: String,
    pub title: String,
    pub situation: String,
    pub faction: String,
    pub start_shard: u32,
}

/// Offers a planner makes at most.
pub const MAX_OFFERS: usize = 5;

/// The starter pool, as (id, title, situation, faction, start shard).
pub open spec fn starter_entry(i: int) -> (Seq<char>, Seq<char>, Seq<char>, Seq<char>, u32) {
    if i == 0 {
        ("pkt.merchant"@, "The Debtor's Ledger"@, "You inherit a failing stall in the market quarter."@, "traders"@, 0)
    } else if i == 1 {
        ("pkt.watcher"@, "Night Watch"@, "A border tower needs a soul willing to see what others ignore."@, "wardens"@, 1)
    } else if i == 2 {
        ("pkt.healer"@, "Field Medic"@, "A clinic on the seam between shards asks for help without applause."@, "healers"@, 0)
    } else if i == 3 {
        ("pkt.hermit"@, "Quiet Ridge"@, "A hermitage offers solitude and no audience."@, "solitary"@, 1)
    } else if i == 4 {
        ("pkt.scholar"@, "Academy Audition"@, "NPMR faculty scouts PMR for one curious mind."@, "academy"@, 0)
    } else {
        ("pkt.guard"@, "Strip Patrol"@, "The overlap strip between shards needs a walker."@, "wardens"@, 1)
    }
}

pub open spec fn template_matches(t: PacketTemplate, e: (Seq<char>, Seq<char>, Seq<char>, Seq<char>, u32)) -> bool {
    &&& t.id@ == e.0
    &&& t.title@ == e.1
    &&& t.situation@ == e.2
    &&& t.faction@ == e.3
    &&& t.start_shard == e.4
}

fn template(id: &str, title: &str, situation: &str, faction: &str, start_shard: u32) -> (t: PacketTemplate)
    ensures
        t.id@ == id@,
        t.title@ == title@,
        t.situation@ == situation@,
        t.faction@ == faction@,
        t.start_shard == start_shard,
{
    PacketTemplate {
        id: String::from_str(id),
        title: String::from_str(title),
        situation: String::from_str(situation),
        faction: String::from_str(faction),
        start_shard,
    }
}

/// The six starter templates, in their fixed order.
pub fn starter_pool() -> (pool: Vec<PacketTemplate>)
    ensures
        pool@.len() == 6,
        forall|i: int| 0 <= i < 6 ==> template_matches(#[trigger] pool@[i], starter_entry(i)),
{
    let mut pool: Vec<PacketTemplate> = Vec::new();
    pool.push(template("pkt.merchant", "The Debtor's Ledger", "You inherit a failing stall in the market quarter.", "traders", 0));
    pool.push(template("pkt.watcher", "Night Watch", "A border tower needs a soul willing to see what others ignore.", "wardens", 1));
    pool.push(template("pkt.healer", "Field Medic", "A clinic on the seam between shards asks for help without applause.", "healers", 0));
    pool.push(template("pkt.hermit", "Quiet Ridge", "A hermitage offers solitude and no audience.", "solitary", 1));
    pool.push(template("pkt.scholar", "Academy Audition", "NPMR faculty scouts PMR for one curious mind.", "academy", 0));
    pool.push(template("pkt.guard", "Strip Patrol", "The overlap strip between shards needs a walker.", "wardens", 1));
    pool
}

/// Whether `id` is among the seen template ids.
pub open spec fn seen_contains(seen: Seq<String>, id: Seq<char>) -> bool {
    exists|i: int| 0 <= i < seen.len() && seen[i]@ == id
}

/// Templates of `pool` in ranking order: those not seen yet first, then the seen ones,
/// each group in pool order.
pub open spec fn ranked(pool: Seq<PacketTemplate>, seen: Seq<String>) -> Seq<PacketTemplate> {
    unseen_part(pool, seen) + seen_part(pool, seen)
}

/// The templates of `pool` not seen yet, in pool order.
pub open spec fn unseen_part(pool: Seq<PacketTemplate>, seen: Seq<String>) -> Seq<PacketTemplate> {
    pool.filter(|t: PacketTemplate| !seen_contains(seen, t.id@))
}

/// The templates of `pool` already seen, in pool order.
pub open spec fn seen_part(pool: Seq<PacketTemplate>, seen: Seq<String>) -> Seq<PacketTemplate> {
    pool.filter(|t: PacketTemplate| seen_contains(seen, t.id@))
}

/// What `rank_templates` offers: the ranking, cut to `MAX_OFFERS`.
pub open spec fn offered(pool: Seq<PacketTemplate>, seen: Seq<String>) -> Seq<PacketTemplate> {
    if ranked(pool, seen).len() > MAX_OFFERS {
        ranked(pool, seen).take(MAX_OFFERS as int)
    } else {
        ranked(pool, seen)
    }
}

/// No two templates share an id.
pub open spec fn distinct_ids(s: Seq<PacketTemplate>) -> bool {
    forall|i: int, j: int| 0 <= i < j < s.len() ==> s[i].id@ != s[j].id@
}

fn is_seen(seen: &Vec<String>, id: &String) -> (r: bool)
    ensures
        r == seen_contains(seen@, id@),
{
    let mut i: usize = 0;
    while i < seen.len()
        invariant
            i <= seen@.len(),
            forall|k: int| 0 <= k < i ==> seen@[k]@ != id@,
        decreases seen@.len() - i,
    {
        if seen[i] == *id {
            return true;
        }
        i = i + 1;
    }
    false
}

/// Ranks reincarnation templates: unseen templates first (novelty outweighs
/// everything else), then seen ones, each group in pool order, at most five.
pub fn rank_templates(pool: Vec<PacketTemplate>, seen: &Vec<String>) -> (out: Vec<PacketTemplate>)
    ensures
        out@ == offered(pool@, seen@),
{
    let ghost p = pool@;
    let ghost fresh_pred = |t: PacketTemplate| !seen_contains(seen@, t.id@);
    let ghost seen_pred = |t: PacketTemplate| seen_contains(seen@, t.id@);
    let mut fresh: Vec<PacketTemplate> = Vec::new();
    let mut stale: Vec<PacketTemplate> = Vec::new();
    let mut rest = pool;
    let ghost mut k: int = 0;
    proof {
        reveal(Seq::filter);
        assert(p.take(0).filter(fresh_pred) =~= Seq::<PacketTemplate>::empty());
        assert(p.take(0).filter(seen_pred) =~= Seq::<PacketTemplate>::empty());
    }
    while rest.len() > 0
        invariant
            0 <= k <= p.len(),
            rest@ == p.subrange(k, p.len() as int),
            fresh_pred == (|t: PacketTemplate| !seen_contains(seen@, t.id@)),
            seen_pred == (|t: PacketTemplate| seen_contains(seen@, t.id@)),
            fresh@ == p.take(k).filter(fresh_pred),
            stale@ == p.take(k).filter(seen_pred),
        decreases rest@.len(),
    {
        let t = rest.remove(0);
        proof {
            assert(p.take(k + 1).drop_last() =~= p.take(k));
            assert(p.take(k + 1).last() == t);
            k = k + 1;
            assert(rest@ =~= p.subrange(k, p.len() as int));
        }
        if is_seen(seen, &t.id) {
            stale.push(t);
        } else {
            fresh.push(t);
        }
        proof {
            reveal(Seq::filter);
            assert(p.take(k).drop_last() =~= p.take(k - 1));
            assert(p.take(k).last() == t);
            assert(p.take(k).filter(fresh_pred) == (if fresh_pred(t) {
                p.take(k - 1).filter(fresh_pred).push(t)
            } else {
                p.take(k - 1).filter(fresh_pred)
            }));
            assert(p.take(k).filter(seen_pred) == (if seen_pred(t) {
                p.take(k - 1).filter(seen_pred).push(t)
            } else {
                p.take(k - 1).filter(seen_pred)
            }));
        }
    }
    proof {
        assert(p.take(k) =~= p);
    }
    fresh.append(&mut stale);
    if fresh.len() > MAX_OFFERS {
        fresh.truncate(MAX_OFFERS);
    }
    proof {
        assert(fresh@ =~= (if ranked(p, seen@).len() > MAX_OFFERS {
            ranked(p, seen@).take(MAX_OFFERS as int)
        } else {
            ranked(p, seen@)
        }));
    }
    fresh
}

proof fn lemma_parts(s: Seq<PacketTemplate>, seen: Seq<String>)
    ensures
        unseen_part(s, seen).len() + seen_part(s, seen).len() == s.len(),
        forall|i: int| 0 <= i < unseen_part(s, seen).len() ==>
            !seen_contains(seen, (#[trigger] unseen_part(s, seen)[i]).id@) && s.contains(unseen_part(s, seen)[i]),
        forall|i: int| 0 <= i < seen_part(s, seen).len() ==>
            seen_contains(seen, (#[trigger] seen_part(s, seen)[i]).id@) && s.contains(seen_part(s, seen)[i]),
        distinct_ids(s) ==> distinct_ids(unseen_part(s, seen)) && distinct_ids(seen_part(s, seen)),
    decreases s.len(),
{
    if s.len() > 0 {
        let init = s.drop_last();
        let x = s.last();
        lemma_parts(init, seen);
        let u0 = unseen_part(init, seen);
        let v0 = seen_part(init, seen);
        let u = unseen_part(s, seen);
        let v = seen_part(s, seen);
        reveal(Seq::filter);
        assert(u == (if !seen_contains(seen, x.id@) { u0.push(x) } else { u0 }));
        assert(v == (if seen_contains(seen, x.id@) { v0.push(x) } else { v0 }));
        assert forall|y: PacketTemplate| init.contains(y) implies s.contains(y) by {
            let k = choose|k: int| 0 <= k < init.len() && init[k] == y;
            assert(s[k] == y);
        }
        assert(s.contains(x)) by {
            assert(s[s.len() - 1] == x);
        }
        if distinct_ids(s) {
            assert(distinct_ids(init)) by {
                assert forall|i: int, j: int| 0 <= i < j < init.len() implies init[i].id@ != init[j].id@ by {
                    assert(init[i] == s[i] && init[j] == s[j]);
                }
            }
            assert forall|y: PacketTemplate| init.contains(y) implies y.id@ != x.id@ by {
                let k = choose|k: int| 0 <= k < init.len() && init[k] == y;
                assert(s[k] == y);
                assert(s[s.len() - 1] == x);
            }
            assert forall|i: int, j: int| 0 <= i < j < u.len() implies u[i].id@ != u[j].id@ by {
                if j == u0.len() {
                    assert(u0[i] == u[i]);
                    assert(init.contains(u0[i]));
                } else {
                    assert(u0[i] == u[i] && u0[j] == u[j]);
                }
            }
            assert forall|i: int, j: int| 0 <= i < j < v.len() implies v[i].id@ != v[j].id@ by {
                if j == v0.len() {
                    assert(v0[i] == v[i]);
                    assert(init.contains(v0[i]));
                } else {
                    assert(v0[i] == v[i] && v0[j] == v[j]);
                }
            }
        }
        assert forall|i: int| 0 <= i < u.len() implies !seen_contains(seen, (#[trigger] u[i]).id@) && s.contains(u[i]) by {
            if i < u0.len() {
                assert(u[i] == u0[i]);
            }
        }
        assert forall|i: int| 0 <= i < v.len() implies seen_contains(seen, (#[trigger] v[i]).id@) && s.contains(v[i]) by {
            if i < v0.len() {
                assert(v[i] == v0[i]);
            }
        }
    }
}

/// The offers made from a pool whose ids are distinct: `min(pool size, 5)` of them,
/// no template twice, each from the pool, and every template not seen yet before every
/// template already seen.
pub proof fn lemma_offers_ranked(pool: Seq<PacketTemplate>, seen: Seq<String>)
    requires
        distinct_ids(pool),
    ensures
        offered(pool, seen).len() == (if pool.len() > MAX_OFFERS { MAX_OFFERS as nat } else { pool.len() }),
        distinct_ids(offered(pool, seen)),
        forall|i: int| 0 <= i < offered(pool, seen).len() ==> pool.contains(#[trigger] offered(pool, seen)[i]),
        forall|i: int, j: int|
            0 <= i < j < offered(pool, seen).len() && seen_contains(seen, offered(pool, seen)[i].id@)
                ==> seen_contains(seen, offered(pool, seen)[j].id@),
{
    lemma_parts(pool, seen);
    let u = unseen_part(pool, seen);
    let v = seen_part(pool, seen);
    let r = ranked(pool, seen);
    let o = offered(pool, seen);
    assert(r == u + v);
    assert forall|i: int| 0 <= i < r.len() implies pool.contains(#[trigger] r[i])
        && (seen_contains(seen, r[i].id@) <==> i >= u.len()) by {
        if i < u.len() {
            assert(r[i] == u[i]);
        } else {
            assert(r[i] == v[i - u.len()]);
        }
    }
    assert forall|i: int, j: int| 0 <= i < j < r.len() implies r[i].id@ != r[j].id@ by {
        if j < u.len() {
            assert(r[i] == u[i] && r[j] == u[j]);
        } else if i >= u.len() {
            assert(r[i] == v[i - u.len()] && r[j] == v[j - u.len()]);
        } else {
            assert(r[i] == u[i] && r[j] == v[j - u.len()]);
        }
    }
    assert forall|i: int| 0 <= i < o.len() implies o[i] == r[i] by {}
}

/// The starter templates have distinct ids, so five of them are always offered.
pub proof fn lemma_starter_ids_distinct(pool: Seq<PacketTemplate>)
    requires
        pool.len() == 6,
        forall|i: int| 0 <= i < 6 ==> template_matches(#[trigger] pool[i], starter_entry(i)),
    ensures
        distinct_ids(pool),
{
    reveal_strlit("pkt.merchant");
    reveal_strlit("pkt.watcher");
    reveal_strlit("pkt.healer");
    reveal_strlit("pkt.hermit");
    reveal_strlit("pkt.scholar");
    reveal_strlit("pkt.guard");
    assert(template_matches(pool[0], starter_entry(0)));
    assert(template_matches(pool[1], starter_entry(1)));
    assert(template_matches(pool[2], starter_entry(2)));
    assert(template_matches(pool[3], starter_entry(3)));
    assert(template_matches(pool[4], starter_entry(4)));
    assert(template_matches(pool[5], starter_entry(5)));
    assert forall|i: int, j: int| 0 <= i < j < pool.len() implies pool[i].id@ != pool[j].id@ by {
        let a = pool[i].id@;
        let b = pool[j].id@;
        if a.len() == b.len() {
            // equal lengths: merchant/scholar (12), healer/hermit (10)
            if a[5] == b[5] && a[6] == b[6] {
                assert(a[7] != b[7] || a[8] != b[8]);
            }
            assert(a[5] != b[5] || a[6] != b[6] || a[7] != b[7] || a[8] != b[8]);
        }
    }
}

} // verus!
