use crate::guardrails::{GuardrailState, MILLI_TOKENS};
use crate::intent::{later_part, views, Intent};
use crate::types::{Entity, FwauId, Tick};
use std::collections::HashMap;
use vstd::prelude::*;

verus! {

/// Slots in the snapshot ring.
pub const SNAPSHOT_RING: usize = 8;

/// How far ahead of the authoritative tick an intent may be scheduled.
pub const MAX_AHEAD_TICKS: u64 = 4;

/// Position of one entity at a tick. Coordinates are carried as the bit patterns
/// of their `f32` values; the netcode never computes on them.
#[derive(Clone, Copy, Debug)]
pub struct EntityPose {
    pub entity: Entity,
    pub x_bits: u32,
    pub y_bits: u32,
    pub z_bits: u32,
}

/// Poses of all entities at one tick, with their checksum.
#[derive(Clone, Debug)]
pub struct TickSnapshot {
    pub tick: Tick,
    pub poses: Vec<EntityPose>,
    pub checksum: u32,
}

/// Result of a rewind-replay sent back to clients.
#[derive(Clone, Debug)]
pub struct Correction {
    pub from_tick: u64,
    pub checksums: HashMap<u64, u32>,
    pub poses: Vec<EntityPose>,
}

/// Why an intent was refused.
#[derive(Clone, Copy, Debug, PartialEq, Eq, Structural)]
pub enum IntentReject {
    TooOld,
    TooFarAhead,
    SpeedHack,
    UnknownFwau,
    RateLimited,
    QueueFull,
}

/// Ring slot that holds the snapshot of tick `t`.
pub open spec fn slot_of(t: u64) -> int {
    (t % SNAPSHOT_RING as u64) as int
}

/// The snapshot a ring holds for tick `t`, if that slot still holds tick `t`.
pub open spec fn snapshot_in(ring: Seq<Option<TickSnapshot>>, t: u64) -> Option<TickSnapshot> {
    match ring[slot_of(t)] {
        Some(s) => if s.tick.0 == t { Some(s) } else { None },
        None => None,
    }
}

/// The intent a bucket holds for tick `t`: the first one at that tick.
pub open spec fn entry_at(b: Seq<Intent>, t: u64) -> Option<Intent>
    decreases b.len(),
{
    if b.len() == 0 {
        None
    } else if b[0].tick.0 == t {
        Some(b[0])
    } else {
        entry_at(b.drop_first(), t)
    }
}

/// A bucket with `x` stored at its tick: it replaces the intent already there, or is appended.
pub open spec fn put(b: Seq<Intent>, x: Intent) -> Seq<Intent> {
    if exists|j: int| 0 <= j < b.len() && b[j].tick == x.tick {
        b.update(choose|j: int| 0 <= j < b.len() && b[j].tick == x.tick, x)
    } else {
        b.push(x)
    }
}

/// Ticks within a bucket are distinct.
pub open spec fn distinct_ticks(b: Seq<Intent>) -> bool {
    forall|i: int, j: int| 0 <= i < j < b.len() ==> b[i].tick != b[j].tick
}

/// Pending buckets, one per session, as plain sequences.
pub open spec fn buckets_view(p: Seq<(FwauId, Vec<Intent>)>) -> Seq<(FwauId, Seq<Intent>)> {
    p.map_values(|e: (FwauId, Vec<Intent>)| (e.0, e.1@))
}

/// Index of the bucket of `f`, if any.
pub open spec fn bucket_index(p: Seq<(FwauId, Seq<Intent>)>, f: FwauId) -> Option<int> {
    if exists|i: int| 0 <= i < p.len() && p[i].0 == f {
        Some(choose|i: int| 0 <= i < p.len() && p[i].0 == f)
    } else {
        None
    }
}

/// The intents buffered for `f`.
pub open spec fn bucket_of(p: Seq<(FwauId, Seq<Intent>)>, f: FwauId) -> Seq<Intent> {
    match bucket_index(p, f) {
        Some(i) => p[i].1,
        None => Seq::empty(),
    }
}

/// The intents at tick `t`, one per bucket that has one, in bucket order.
pub open spec fn collect_at(p: Seq<(FwauId, Seq<Intent>)>, t: u64) -> Seq<Intent>
    decreases p.len(),
{
    if p.len() == 0 {
        Seq::empty()
    } else {
        let rest = collect_at(p.drop_last(), t);
        match entry_at(p.last().1, t) {
            Some(x) => rest.push(x),
            None => rest,
        }
    }
}

/// Every bucket with its intents up to tick `t` dropped.
pub open spec fn cleared_through(p: Seq<(FwauId, Seq<Intent>)>, t: u64) -> Seq<(FwauId, Seq<Intent>)> {
    p.map_values(|e: (FwauId, Seq<Intent>)| (e.0, later_part(e.1, t)))
}

/// How an intent for tick `t` is classified against authoritative tick `auth`,
/// given the number of intents already buffered for its session.
pub open spec fn classify(t: u64, auth: u64, buffered: nat, cap: nat) -> Result<bool, IntentReject> {
    if t + SNAPSHOT_RING < auth {
        Err(IntentReject::TooOld)
    } else if t > auth + MAX_AHEAD_TICKS {
        Err(IntentReject::TooFarAhead)
    } else if buffered >= cap {
        Err(IntentReject::QueueFull)
    } else {
        Ok(t < auth)
    }
}

proof fn lemma_entry_at_index(b: Seq<Intent>, t: u64, j: int)
    requires
        distinct_ticks(b),
        0 <= j < b.len(),
        b[j].tick.0 == t,
    ensures
        entry_at(b, t) == Some(b[j]),
    decreases b.len(),
{
    if j > 0 {
        assert(b[0].tick != b[j].tick);
        assert(distinct_ticks(b.drop_first()));
        lemma_entry_at_index(b.drop_first(), t, j - 1);
    }
}

proof fn lemma_entry_at_none(b: Seq<Intent>, t: u64)
    requires
        forall|j: int| 0 <= j < b.len() ==> b[j].tick.0 != t,
    ensures
        entry_at(b, t) == None::<Intent>,
    decreases b.len(),
{
    if b.len() > 0 {
        lemma_entry_at_none(b.drop_first(), t);
    }
}

proof fn lemma_later_part_distinct(b: Seq<Intent>, t: u64)
    requires
        distinct_ticks(b),
    ensures
        distinct_ticks(later_part(b, t)),
        forall|x: Intent| later_part(b, t).contains(x) ==> b.contains(x),
    decreases b.len(),
{
    if b.len() > 0 {
        let c = b.drop_last();
        assert(distinct_ticks(c));
        lemma_later_part_distinct(c, t);
        assert forall|x: Intent| later_part(c, t).contains(x) implies b.contains(x) by {
            let k = choose|k: int| 0 <= k < later_part(c, t).len() && later_part(c, t)[k] == x;
            assert(c.contains(x));
            let m = choose|m: int| 0 <= m < c.len() && c[m] == x;
            assert(b[m] == x);
        }
        if b.last().tick.0 > t {
            let l = later_part(c, t);
            assert forall|i: int, j: int|
                0 <= i < j < l.push(b.last()).len() implies l.push(b.last())[i].tick != l.push(
                b.last(),
            )[j].tick by {
                if j == l.len() {
                    assert(l.contains(l[i]));
                    assert(c.contains(l[i]));
                    let m = choose|m: int| 0 <= m < c.len() && c[m] == l[i];
                    assert(b[m] == l[i]);
                    assert(b[b.len() - 1] == b.last());
                }
            }
            assert forall|x: Intent| l.push(b.last()).contains(x) implies b.contains(x) by {
                let k = choose|k: int| 0 <= k < l.push(b.last()).len() && l.push(b.last())[k] == x;
                if k == l.len() {
                    assert(b[b.len() - 1] == x);
                } else {
                    assert(l.contains(x));
                }
            }
        }
    }
}

/// The intents of `b` scheduled after `tick`, in order.
fn keep_later(b: Vec<Intent>, tick: Tick) -> (r: Vec<Intent>)
    ensures
        r@ == later_part(b@, tick.0),
{
    let ghost orig = b@;
    let mut rest = b;
    let mut kept: Vec<Intent> = Vec::new();
    let ghost mut k: int = 0;
    while rest.len() > 0
        invariant
            0 <= k <= orig.len(),
            rest@ == orig.subrange(k, orig.len() as int),
            kept@ == later_part(orig.take(k), tick.0),
        decreases rest@.len(),
    {
        let item = rest.remove(0);
        proof {
            assert(orig.take(k + 1).drop_last() =~= orig.take(k));
            assert(orig.take(k + 1).last() == item);
            k = k + 1;
            assert(rest@ =~= orig.subrange(k, orig.len() as int));
        }
        if item.tick.0 > tick.0 {
            kept.push(item);
        }
    }
    proof {
        assert(orig.take(k) =~= orig);
    }
    kept
}

/// Authoritative rewind-replay netcode state.
pub struct NetcodeState {
    pub ring: Vec<Option<TickSnapshot>>,
    pub pending: Vec<(FwauId, Vec<Intent>)>,
    pub auth_tick: Tick,
    pub corrections: Vec<Correction>,
    pub rejects: Vec<(FwauId, IntentReject)>,
}

impl NetcodeState {
    /// The ring has its fixed size, each session has one bucket, and a bucket holds
    /// at most one intent per tick.
    pub open spec fn wf(&self) -> bool {
        &&& self.ring@.len() == SNAPSHOT_RING
        &&& forall|i: int, j: int|
            0 <= i < j < self.pending@.len() ==> self.pending@[i].0 != self.pending@[j].0
        &&& forall|i: int| 0 <= i < self.pending@.len() ==> distinct_ticks(#[trigger] self.pending@[i].1@)
    }

    /// The pending buckets as sequences.
    pub open spec fn buckets(&self) -> Seq<(FwauId, Seq<Intent>)> {
        buckets_view(self.pending@)
    }

    pub fn new() -> (n: Self)
        ensures
            n.wf(),
            forall|i: int| 0 <= i < SNAPSHOT_RING ==> n.ring@[i] is None,
            n.buckets() == Seq::<(FwauId, Seq<Intent>)>::empty(),
            n.auth_tick == Tick(0),
            n.corrections@ == Seq::<Correction>::empty(),
            n.rejects@ == Seq::<(FwauId, IntentReject)>::empty(),
    {
        let mut ring: Vec<Option<TickSnapshot>> = Vec::new();
        let mut i: usize = 0;
        while i < SNAPSHOT_RING
            invariant
                i <= SNAPSHOT_RING,
                ring@.len() == i,
                forall|k: int| 0 <= k < i ==> ring@[k] is None,
            decreases SNAPSHOT_RING - i,
        {
            ring.push(None);
            i = i + 1;
        }
        let n = NetcodeState {
            ring,
            pending: Vec::new(),
            auth_tick: Tick(0),
            corrections: Vec::new(),
            rejects: Vec::new(),
        };
        proof {
            assert(n.buckets() =~= Seq::<(FwauId, Seq<Intent>)>::empty());
        }
        n
    }

    pub fn ring_index(tick: u64) -> (i: usize)
        ensures
            i == slot_of(tick),
            i < SNAPSHOT_RING,
    {
        (tick % SNAPSHOT_RING as u64) as usize
    }

    /// Records the snapshot of `tick` in its ring slot and makes `tick` authoritative.
    /// The checksum is computed by the caller from the poses' coordinates.
    pub fn store_snapshot(&mut self, tick: Tick, poses: Vec<EntityPose>, checksum: u32)
        requires
            old(self).wf(),
        ensures
            final(self).wf(),
            final(self).ring@ == old(self).ring@.update(
                slot_of(tick.0),
                Some(TickSnapshot { tick, poses, checksum }),
            ),
            final(self).auth_tick == tick,
            final(self).pending@ == old(self).pending@,
            final(self).corrections@ == old(self).corrections@,
            final(self).rejects@ == old(self).rejects@,
    {
        let snap = TickSnapshot { tick, poses, checksum };
        let i = Self::ring_index(tick.0);
        self.ring.set(i, Some(snap));
        self.auth_tick = tick;
    }

    /// Like `store_snapshot`, but takes the poses out of `poses`, leaving it empty.
    pub fn store_snapshot_reuse(&mut self, tick: Tick, poses: &mut Vec<EntityPose>, checksum: u32)
        requires
            old(self).wf(),
        ensures
            final(self).wf(),
            final(self).ring@ == old(self).ring@.update(
                slot_of(tick.0),
                Some(TickSnapshot { tick, poses: *old(poses), checksum }),
            ),
            final(poses)@ == Seq::<EntityPose>::empty(),
            final(self).auth_tick == tick,
            final(self).pending@ == old(self).pending@,
            final(self).corrections@ == old(self).corrections@,
            final(self).rejects@ == old(self).rejects@,
    {
        let mut taken: Vec<EntityPose> = Vec::new();
        std::mem::swap(&mut taken, poses);
        self.store_snapshot(tick, taken, checksum);
    }

    /// The snapshot of `tick`, if the ring still holds it.
    pub fn snapshot_at(&self, tick: Tick) -> (r: Option<&TickSnapshot>)
        requires
            self.wf(),
        ensures
            match r {
                Some(s) => snapshot_in(self.ring@, tick.0) == Some(*s),
                None => snapshot_in(self.ring@, tick.0) is None,
            },
    {
        let i = Self::ring_index(tick.0);
        match &self.ring[i] {
            Some(s) => if s.tick.0 == tick.0 {
                Some(s)
            } else {
                None
            },
            None => None,
        }
    }

    fn find_bucket(&self, f: FwauId) -> (r: Option<usize>)
        requires
            self.wf(),
        ensures
            match r {
                Some(i) => i < self.pending@.len() && self.pending@[i as int].0 == f
                    && bucket_index(self.buckets(), f) == Some(i as int),
                None => bucket_index(self.buckets(), f) is None,
            },
    {
        let mut i: usize = 0;
        while i < self.pending.len()
            invariant
                self.wf(),
                i <= self.pending@.len(),
                forall|j: int| 0 <= j < i ==> self.pending@[j].0 != f,
            decreases self.pending@.len() - i,
        {
            if self.pending[i].0 == f {
                proof {
                    let p = self.buckets();
                    assert(p[i as int].0 == f);
                    let c = choose|k: int| 0 <= k < p.len() && p[k].0 == f;
                    assert(self.pending@[c].0 == f);
                    assert(c == i);
                }
                return Some(i);
            }
            i = i + 1;
        }
        proof {
            let p = self.buckets();
            assert(!exists|k: int| 0 <= k < p.len() && p[k].0 == f) by {
                if exists|k: int| 0 <= k < p.len() && p[k].0 == f {
                    let k = choose|k: int| 0 <= k < p.len() && p[k].0 == f;
                    assert(self.pending@[k].0 == f);
                }
            }
        }
        None
    }

    /// Number of intents buffered for `fwau`.
    pub fn pending_count(&self, fwau: FwauId) -> (n: usize)
        requires
            self.wf(),
        ensures
            n == bucket_of(self.buckets(), fwau).len(),
    {
        match self.find_bucket(fwau) {
            Some(i) => self.pending[i].1.len(),
            None => 0,
        }
    }

    /// Accepts or refuses an intent. Too old (more than a ring behind the authoritative
    /// tick), too far ahead, or a full bucket refuse; otherwise the intent is buffered at
    /// its tick, replacing one already there, and the result says whether it lies in the
    /// past, so that a rewind is needed.
    pub fn accept_intent(&mut self, intent: Intent, pending_cap: usize) -> (r: Result<bool, IntentReject>)
        requires
            old(self).wf(),
            intent.tick.0 + SNAPSHOT_RING <= u64::MAX,
            old(self).auth_tick.0 + MAX_AHEAD_TICKS <= u64::MAX,
        ensures
            final(self).wf(),
            r == classify(
                intent.tick.0,
                old(self).auth_tick.0,
                bucket_of(old(self).buckets(), intent.fwau).len(),
                pending_cap as nat,
            ),
            r is Err ==> final(self).buckets() == old(self).buckets(),
            r is Ok ==> match bucket_index(old(self).buckets(), intent.fwau) {
                Some(i) => final(self).buckets() == old(self).buckets().update(
                    i,
                    (intent.fwau, put(old(self).buckets()[i].1, intent)),
                ),
                None => final(self).buckets() == old(self).buckets().push(
                    (intent.fwau, seq![intent]),
                ),
            },
            final(self).ring@ == old(self).ring@,
            final(self).auth_tick == old(self).auth_tick,
            final(self).corrections@ == old(self).corrections@,
            final(self).rejects@ == old(self).rejects@,
    {
        let fwau = intent.fwau;
        let t = intent.tick.0;
        let auth = self.auth_tick.0;
        if t + (SNAPSHOT_RING as u64) < auth {
            return Err(IntentReject::TooOld);
        }
        if t > auth + MAX_AHEAD_TICKS {
            return Err(IntentReject::TooFarAhead);
        }
        let ghost old_buckets = self.buckets();
        match self.find_bucket(fwau) {
            Some(i) => {
                if self.pending[i].1.len() >= pending_cap {
                    return Err(IntentReject::QueueFull);
                }
                let (f, mut b) = self.pending.remove(i);
                let ghost ob = b@;
                let mut j: usize = 0;
                let mut found: bool = false;
                while j < b.len() && !found
                    invariant
                        b@ == ob,
                        j <= b@.len(),
                        t == intent.tick.0,
                        found ==> j < b@.len() && b@[j as int].tick.0 == t,
                        !found ==> forall|k: int| 0 <= k < j ==> b@[k].tick.0 != t,
                    decreases b@.len() - j + (if found { 0int } else { 1int }),
                {
                    if b[j].tick.0 == t {
                        found = true;
                    } else {
                        j = j + 1;
                    }
                }
                proof {
                    assert(distinct_ticks(ob));
                    if found {
                        assert(ob[j as int].tick == intent.tick);
                        assert(exists|k: int| 0 <= k < ob.len() && ob[k].tick == intent.tick);
                        let c = choose|k: int| 0 <= k < ob.len() && ob[k].tick == intent.tick;
                        assert(c == j);
                    } else {
                        assert(j == ob.len());
                        assert(!exists|k: int| 0 <= k < ob.len() && ob[k].tick == intent.tick);
                    }
                }
                if found {
                    b.set(j, intent);
                } else {
                    b.push(intent);
                }
                proof {
                    assert(b@ == put(ob, intent));
                    assert forall|x: int, y: int| 0 <= x < y < b@.len() implies b@[x].tick
                        != b@[y].tick by {
                        if !found && y == ob.len() {
                            assert(ob[x].tick != intent.tick);
                        }
                    }
                }
                self.pending.insert(i, (f, b));
                proof {
                    assert(self.buckets() =~= old_buckets.update(
                        i as int,
                        (intent.fwau, put(old_buckets[i as int].1, intent)),
                    ));
                    assert forall|x: int| 0 <= x < self.pending@.len() implies distinct_ticks(
                        #[trigger] self.pending@[x].1@,
                    ) by {
                        if x != i {
                            assert(self.pending@[x] == old(self).pending@[x]);
                        }
                    }
                    assert forall|x: int, y: int|
                        0 <= x < y < self.pending@.len() implies self.pending@[x].0
                        != self.pending@[y].0 by {
                        assert(self.pending@[x].0 == old(self).pending@[x].0);
                        assert(self.pending@[y].0 == old(self).pending@[y].0);
                    }
                }
            },
            None => {
                if 0 >= pending_cap {
                    return Err(IntentReject::QueueFull);
                }
                let mut b: Vec<Intent> = Vec::new();
                b.push(intent);
                self.pending.push((fwau, b));
                proof {
                    assert(self.buckets() =~= old_buckets.push((intent.fwau, seq![intent])));
                    assert forall|x: int, y: int|
                        0 <= x < y < self.pending@.len() implies self.pending@[x].0
                        != self.pending@[y].0 by {
                        if y == self.pending@.len() - 1 {
                            assert(old_buckets[x].0 == self.pending@[x].0);
                        }
                    }
                    assert forall|x: int| 0 <= x < self.pending@.len() implies distinct_ticks(
                        #[trigger] self.pending@[x].1@,
                    ) by {
                        if x < old(self).pending@.len() {
                            assert(self.pending@[x] == old(self).pending@[x]);
                        }
                    }
                }
            },
        }
        Ok(t < auth)
    }

    /// The buffered intents for `tick`, one per session that has one.
    pub fn pending_for_tick(&self, tick: Tick) -> (out: Vec<Intent>)
        requires
            self.wf(),
        ensures
            views(out@) == views(collect_at(self.buckets(), tick.0)),
    {
        let mut out: Vec<Intent> = Vec::new();
        self.pending_for_tick_into(tick, &mut out);
        out
    }

    /// Fills `out` (after clearing it) with the buffered intents for `tick`.
    pub fn pending_for_tick_into(&self, tick: Tick, out: &mut Vec<Intent>)
        requires
            self.wf(),
        ensures
            views(final(out)@) == views(collect_at(self.buckets(), tick.0)),
    {
        out.clear();
        let t = tick.0;
        proof {
            assert(views(out@) =~= views(collect_at(self.buckets().take(0), t)));
        }
        let ghost p = self.buckets();
        let mut i: usize = 0;
        while i < self.pending.len()
            invariant
                self.wf(),
                p == self.buckets(),
                i <= self.pending@.len(),
                views(out@) == views(collect_at(p.take(i as int), t)),
            decreases self.pending@.len() - i,
        {
            let b = &self.pending[i].1;
            let mut j: usize = 0;
            let mut hit: Option<usize> = None;
            while j < b.len() && hit.is_none()
                invariant
                    j <= b@.len(),
                    hit matches Some(k) ==> k < b@.len() && b@[k as int].tick.0 == t,
                    hit is None ==> forall|k: int| 0 <= k < j ==> b@[k].tick.0 != t,
                decreases b@.len() - j + (if hit is None { 1int } else { 0int }),
            {
                if b[j].tick.0 == t {
                    hit = Some(j);
                } else {
                    j = j + 1;
                }
            }
            proof {
                assert(p.take(i + 1).drop_last() =~= p.take(i as int));
                assert(p.take(i + 1).last() == p[i as int]);
                assert(p[i as int].1 == b@);
                assert(distinct_ticks(b@));
            }
            match hit {
                Some(k) => {
                    proof {
                        lemma_entry_at_index(b@, t, k as int);
                    }
                    let x = b[k].clone();
                    let ghost before = out@;
                    out.push(x);
                    proof {
                        let c = collect_at(p.take(i as int), t);
                        let y = b@[k as int];
                        assert(views(before.push(x)) =~= views(before).push(x@));
                        assert(views(c.push(y)) =~= views(c).push(y@));
                        assert(views(out@) =~= views(c.push(y)));
                    }
                },
                None => {
                    proof {
                        lemma_entry_at_none(b@, t);
                    }
                },
            }
            i = i + 1;
        }
        proof {
            assert(p.take(self.pending@.len() as int) =~= p);
        }
    }

    /// Drops, in every bucket, the intents at or before `tick`; later ones stay in order.
    pub fn clear_pending_through(&mut self, tick: Tick)
        requires
            old(self).wf(),
        ensures
            final(self).wf(),
            final(self).buckets() == cleared_through(old(self).buckets(), tick.0),
            final(self).ring@ == old(self).ring@,
            final(self).auth_tick == old(self).auth_tick,
            final(self).corrections@ == old(self).corrections@,
            final(self).rejects@ == old(self).rejects@,
    {
        let ghost orig = self.buckets();
        let ghost orig_pending = self.pending@;
        let mut i: usize = 0;
        while i < self.pending.len()
            invariant
                self.wf(),
                self.pending@.len() == orig.len(),
                orig == buckets_view(orig_pending),
                orig_pending.len() == orig.len(),
                i <= orig.len(),
                forall|k: int| 0 <= k < orig.len() ==> #[trigger] self.pending@[k].0 == orig[k].0,
                forall|k: int| 0 <= k < i ==> #[trigger] self.pending@[k].1@ == later_part(orig[k].1, tick.0),
                forall|k: int| i <= k < orig.len() ==> #[trigger] self.pending@[k].1@ == orig[k].1,
                self.ring@ == old(self).ring@,
                self.auth_tick == old(self).auth_tick,
                self.corrections@ == old(self).corrections@,
                self.rejects@ == old(self).rejects@,
            decreases orig.len() - i,
        {
            let ghost before = self.pending@;
            let (f, b) = self.pending.remove(i);
            proof {
                assert(distinct_ticks(b@)) by {
                    assert(before[i as int].1@ == b@);
                }
                lemma_later_part_distinct(b@, tick.0);
            }
            let kept = keep_later(b, tick);
            self.pending.insert(i, (f, kept));
            proof {
                assert forall|x: int, y: int|
                    0 <= x < y < self.pending@.len() implies self.pending@[x].0
                    != self.pending@[y].0 by {
                    assert(self.pending@[x].0 == before[x].0);
                    assert(self.pending@[y].0 == before[y].0);
                }
                assert forall|x: int| 0 <= x < self.pending@.len() implies distinct_ticks(
                    #[trigger] self.pending@[x].1@,
                ) by {
                    if x != i {
                        assert(self.pending@[x] == before[x]);
                    }
                }
                assert forall|k: int| 0 <= k < orig.len() implies #[trigger] self.pending@[k].0
                    == orig[k].0 by {
                    if k != i {
                        assert(self.pending@[k] == before[k]);
                    }
                }
                assert forall|k: int| 0 <= k <= i implies #[trigger] self.pending@[k].1@
                    == later_part(orig[k].1, tick.0) by {
                    if k != i {
                        assert(self.pending@[k] == before[k]);
                    }
                }
                assert forall|k: int| i < k < orig.len() implies #[trigger] self.pending@[k].1@
                    == orig[k].1 by {
                    assert(self.pending@[k] == before[k]);
                }
            }
            i = i + 1;
        }
        proof {
            assert(self.buckets() =~= cleared_through(orig, tick.0));
        }
    }

    pub fn push_correction(&mut self, correction: Correction)
        ensures
            final(self).corrections@ == old(self).corrections@.push(correction),
            final(self).ring@ == old(self).ring@,
            final(self).pending@ == old(self).pending@,
            final(self).auth_tick == old(self).auth_tick,
            final(self).rejects@ == old(self).rejects@,
    {
        self.corrections.push(correction);
    }

    pub fn drain_corrections(&mut self) -> (out: Vec<Correction>)
        ensures
            out@ == old(self).corrections@,
            final(self).corrections@ == Seq::<Correction>::empty(),
            final(self).ring@ == old(self).ring@,
            final(self).pending@ == old(self).pending@,
            final(self).auth_tick == old(self).auth_tick,
            final(self).rejects@ == old(self).rejects@,
    {
        let mut out: Vec<Correction> = Vec::new();
        std::mem::swap(&mut out, &mut self.corrections);
        out
    }

    pub fn record_reject(&mut self, fwau: FwauId, reason: IntentReject)
        ensures
            final(self).rejects@ == old(self).rejects@.push((fwau, reason)),
            final(self).ring@ == old(self).ring@,
            final(self).pending@ == old(self).pending@,
            final(self).auth_tick == old(self).auth_tick,
            final(self).corrections@ == old(self).corrections@,
    {
        self.rejects.push((fwau, reason));
    }

    pub fn drain_rejects(&mut self) -> (out: Vec<(FwauId, IntentReject)>)
        ensures
            out@ == old(self).rejects@,
            final(self).rejects@ == Seq::<(FwauId, IntentReject)>::empty(),
            final(self).ring@ == old(self).ring@,
            final(self).pending@ == old(self).pending@,
            final(self).auth_tick == old(self).auth_tick,
            final(self).corrections@ == old(self).corrections@,
    {
        let mut out: Vec<(FwauId, IntentReject)> = Vec::new();
        std::mem::swap(&mut out, &mut self.rejects);
        out
    }
}

/// A stored snapshot is read back at its tick, and storing it leaves every tick that
/// maps to another slot as it was.
pub proof fn lemma_snapshot_read_after_store(
    ring: Seq<Option<TickSnapshot>>,
    snap: TickSnapshot,
    other: u64,
)
    requires
        ring.len() == SNAPSHOT_RING,
    ensures
        snapshot_in(ring.update(slot_of(snap.tick.0), Some(snap)), snap.tick.0) == Some(snap),
        slot_of(other) != slot_of(snap.tick.0) ==> snapshot_in(
            ring.update(slot_of(snap.tick.0), Some(snap)),
            other,
        ) == snapshot_in(ring, other),
{
}

/// The snapshot of a tick survives the stores of the next `SNAPSHOT_RING - 1` ticks:
/// those ticks use other slots.
pub proof fn lemma_ring_keeps_recent(older: u64, newer: u64)
    requires
        older < newer,
        newer < older + SNAPSHOT_RING,
    ensures
        slot_of(older) != slot_of(newer),
{
    let a = older as int;
    let b = newer as int;
    assert(a % 8 != b % 8) by (nonlinear_arith)
        requires
            0 <= a < b,
            b < a + 8,
    ;
}

/// A buffered intent is what the bucket then holds at its tick, and ticks stay distinct.
pub proof fn lemma_put_then_entry(b: Seq<Intent>, x: Intent)
    requires
        distinct_ticks(b),
    ensures
        distinct_ticks(put(b, x)),
        entry_at(put(b, x), x.tick.0) == Some(x),
{
    if exists|j: int| 0 <= j < b.len() && b[j].tick == x.tick {
        let j = choose|j: int| 0 <= j < b.len() && b[j].tick == x.tick;
        let n = b.update(j, x);
        assert forall|p: int, q: int| 0 <= p < q < n.len() implies n[p].tick != n[q].tick by {
            if p == j {
                assert(b[q].tick != b[j].tick);
            } else if q == j {
                assert(b[p].tick != b[j].tick);
            }
        }
        lemma_entry_at_index(n, x.tick.0, j);
    } else {
        let n = b.push(x);
        assert forall|p: int, q: int| 0 <= p < q < n.len() implies n[p].tick != n[q].tick by {
            if q == b.len() {
                assert(b[p].tick != x.tick);
            }
        }
        lemma_entry_at_index(n, x.tick.0, b.len() as int);
    }
}

/// Once the buffers are cleared through a tick, nothing is pending at or before it.
pub proof fn lemma_cleared_has_nothing_due(p: Seq<(FwauId, Seq<Intent>)>, t: u64, u: u64)
    requires
        u <= t,
    ensures
        collect_at(cleared_through(p, t), u) == Seq::<Intent>::empty(),
    decreases p.len(),
{
    if p.len() > 0 {
        assert(cleared_through(p, t).drop_last() =~= cleared_through(p.drop_last(), t));
        lemma_cleared_has_nothing_due(p.drop_last(), t, u);
        let b = later_part(p.last().1, t);
        crate::intent::lemma_drain_partitions(p.last().1, t);
        assert forall|j: int| 0 <= j < b.len() implies b[j].tick.0 != u by {
            assert(b[j].tick.0 > t);
        }
        lemma_entry_at_none(b, u);
    }
}

/// Decides on one submitted intent, in the order the frame applies its checks: the
/// session must be known, the guardrails must admit it, a move must be within the speed
/// envelope (`within_speed`, judged by the caller from the payload), and the netcode must
/// buffer it. Every refusal is recorded as a reject; a full buffer is also counted by the
/// guardrails. When the buffered intent lies in the past and a rewind is still allowed in
/// this tick, the tick to rewind from is returned.
pub fn admit_intent(
    netcode: &mut NetcodeState,
    guardrails: &mut GuardrailState,
    known_session: bool,
    within_speed: bool,
    intent: Intent,
) -> (r: Result<Option<Tick>, IntentReject>)
    requires
        old(netcode).wf(),
        old(guardrails).wf(),
        old(guardrails).rate_limited < u32::MAX,
        old(guardrails).queue_full < u32::MAX,
        intent.tick.0 + SNAPSHOT_RING <= u64::MAX,
        old(netcode).auth_tick.0 + MAX_AHEAD_TICKS <= u64::MAX,
    ensures
        final(netcode).wf(),
        final(guardrails).wf(),
        ({
            let f = intent.fwau;
            let admitted = old(guardrails).intents_of(f) < old(guardrails).config.max_intents_per_tick
                && old(guardrails).tokens_of(f) >= MILLI_TOKENS;
            let buffered = classify(
                intent.tick.0,
                old(netcode).auth_tick.0,
                bucket_of(old(netcode).buckets(), f).len(),
                old(guardrails).config.pending_intent_cap as nat,
            );
            &&& !known_session ==> r == Err::<Option<Tick>, IntentReject>(IntentReject::UnknownFwau)
            &&& known_session && !admitted ==> r == Err::<Option<Tick>, IntentReject>(IntentReject::RateLimited)
            &&& known_session && admitted && !within_speed ==> r == Err::<Option<Tick>, IntentReject>(IntentReject::SpeedHack)
            &&& known_session && admitted && within_speed ==> match buffered {
                Err(e) => r == Err::<Option<Tick>, IntentReject>(e),
                Ok(late) => r is Ok && (r->Ok_0 is Some <==> (late
                    && old(guardrails).rewinds() < old(guardrails).config.max_rewinds_per_tick))
                    && (r->Ok_0 is Some ==> r->Ok_0->Some_0 == intent.tick)
                    && final(netcode).buckets() == match bucket_index(old(netcode).buckets(), f) {
                        Some(i) => old(netcode).buckets().update(i, (f, put(old(netcode).buckets()[i].1, intent))),
                        None => old(netcode).buckets().push((f, seq![intent])),
                    },
            }
            &&& r is Err ==> final(netcode).rejects@ == old(netcode).rejects@.push((f, r->Err_0))
                && final(netcode).buckets() == old(netcode).buckets()
            &&& r is Ok ==> final(netcode).rejects@ == old(netcode).rejects@
            &&& final(guardrails).queue_full == old(guardrails).queue_full + (if r == Err::<Option<Tick>, IntentReject>(IntentReject::QueueFull) { 1int } else { 0int })
            &&& final(guardrails).rate_limited == old(guardrails).rate_limited + (if known_session && !admitted { 1int } else { 0int })
            &&& known_session && admitted ==> final(guardrails).intents_of(f) == old(guardrails).intents_of(f) + 1
                && final(guardrails).tokens_of(f) == old(guardrails).tokens_of(f) - MILLI_TOKENS
            &&& !(known_session && admitted) ==> final(guardrails).intents_of(f) == old(guardrails).intents_of(f)
                && final(guardrails).tokens_of(f) == old(guardrails).tokens_of(f)
            &&& final(guardrails).rewinds() == old(guardrails).rewinds() + (if r matches Ok(Some(_)) { 1int } else { 0int })
        }),
        forall|g: FwauId| g != intent.fwau ==> #[trigger] final(guardrails).intents_of(g) == old(guardrails).intents_of(g),
        forall|g: FwauId| g != intent.fwau ==> #[trigger] final(guardrails).tokens_of(g) == old(guardrails).tokens_of(g),
        final(guardrails).stall_count == old(guardrails).stall_count,
        final(guardrails).budget_overruns == old(guardrails).budget_overruns,
        final(guardrails).throttled_ticks == old(guardrails).throttled_ticks,
        final(netcode).ring@ == old(netcode).ring@,
        final(netcode).auth_tick == old(netcode).auth_tick,
        final(netcode).corrections@ == old(netcode).corrections@,
        final(guardrails).config == old(guardrails).config,
{
    let f = intent.fwau;
    if !known_session {
        netcode.record_reject(f, IntentReject::UnknownFwau);
        return Err(IntentReject::UnknownFwau);
    }
    if !guardrails.allow_intent(f) {
        netcode.record_reject(f, IntentReject::RateLimited);
        return Err(IntentReject::RateLimited);
    }
    if !within_speed {
        netcode.record_reject(f, IntentReject::SpeedHack);
        return Err(IntentReject::SpeedHack);
    }
    let cap = guardrails.config.pending_intent_cap;
    let tick = intent.tick;
    match netcode.accept_intent(intent, cap) {
        Ok(late) => {
            if late && guardrails.allow_rewind() {
                Ok(Some(tick))
            } else {
                Ok(None)
            }
        },
        Err(e) => {
            if e == IntentReject::QueueFull {
                guardrails.record_queue_full();
            }
            netcode.record_reject(f, e);
            Err(e)
        },
    }
}

/// Intents are refused as too old exactly when they lie more than the eight ring slots
/// behind the authoritative tick, and as too far ahead when they lie more than four
/// ticks beyond it; an intent within those bounds and with room in its bucket is
/// accepted, flagged late (a rewind) exactly when its tick is before the authoritative
/// one.
pub proof fn lemma_intent_window(t: u64, auth: u64, buffered: nat, cap: nat)
    ensures
        classify(t, auth, buffered, cap) == Err::<bool, IntentReject>(IntentReject::TooOld) <==> t + 8 < auth,
        t + 8 >= auth ==> (classify(t, auth, buffered, cap) == Err::<bool, IntentReject>(IntentReject::TooFarAhead)
            <==> t > auth + 4),
        t + 8 >= auth && t <= auth + 4 && buffered >= cap ==> classify(t, auth, buffered, cap)
            == Err::<bool, IntentReject>(IntentReject::QueueFull),
        auth <= t + 8 && t < auth && buffered < cap ==> classify(t, auth, buffered, cap) == Ok::<bool, IntentReject>(true),
        auth <= t && t <= auth + 4 && buffered < cap ==> classify(t, auth, buffered, cap) == Ok::<bool, IntentReject>(false),
{
}

} // verus!
