use crate::types::{FwauId, Tick};
use vstd::prelude::*;

verus! {

/// What a player asks the frame to do.
#[derive(Clone, Copy, PartialEq, Eq, Structural, Debug)]
pub enum Verb {
    Move,
    Blink,
    Look,
    Interact,
    Attack,
    Speak,
    PsiQuery,
    Consent,
    Emote,
}

/// Proof that a target soul consented to help in a scope, until a tick.
#[derive(Debug)]
pub struct ConsentStamp {
    pub target: u128,
    pub scope: String,
    pub expires_tick: u64,
}

/// One player intent scheduled for a tick.
#[derive(Debug)]
pub struct Intent {
    pub fwau: FwauId,
    pub tick: Tick,
    pub seq: u32,
    pub verb: Verb,
    pub payload: Vec<u8>,
    pub consent: Option<ConsentStamp>,
    pub checksum: u32,
}

/// The contents of an intent as plain values.
pub struct IntentView {
    pub fwau: FwauId,
    pub tick: Tick,
    pub seq: u32,
    pub verb: Verb,
    pub payload: Seq<u8>,
    pub consent: Option<(u128, Seq<char>, u64)>,
    pub checksum: u32,
}

impl View for Intent {
    type V = IntentView;

    open spec fn view(&self) -> IntentView {
        IntentView {
            fwau: self.fwau,
            tick: self.tick,
            seq: self.seq,
            verb: self.verb,
            payload: self.payload@,
            consent: match self.consent {
                Some(c) => Some((c.target, c.scope@, c.expires_tick)),
                None => None,
            },
            checksum: self.checksum,
        }
    }
}

impl Clone for ConsentStamp {
    fn clone(&self) -> (r: Self)
        ensures
            r.target == self.target,
            r.scope@ == self.scope@,
            r.expires_tick == self.expires_tick,
    {
        ConsentStamp { target: self.target, scope: self.scope.clone(), expires_tick: self.expires_tick }
    }
}

impl Clone for Intent {
    fn clone(&self) -> (r: Self)
        ensures
            r@ == self@,
    {
        let payload = self.payload.clone();
        proof {
            assert(payload@ =~= self.payload@);
        }
        let consent = match &self.consent {
            Some(c) => Some(c.clone()),
            None => None,
        };
        Intent {
            fwau: self.fwau,
            tick: self.tick,
            seq: self.seq,
            verb: self.verb,
            payload,
            consent,
            checksum: self.checksum,
        }
    }
}

/// The views of a sequence of intents.
pub open spec fn views(s: Seq<Intent>) -> Seq<IntentView> {
    s.map_values(|x: Intent| x@)
}

/// The intents of `s` due at or before tick `t`, in their order.
pub open spec fn due_part(s: Seq<Intent>, t: u64) -> Seq<Intent>
    decreases s.len(),
{
    if s.len() == 0 {
        Seq::empty()
    } else if s.last().tick.0 <= t {
        due_part(s.drop_last(), t).push(s.last())
    } else {
        due_part(s.drop_last(), t)
    }
}

/// The intents of `s` scheduled after tick `t`, in their order.
pub open spec fn later_part(s: Seq<Intent>, t: u64) -> Seq<Intent>
    decreases s.len(),
{
    if s.len() == 0 {
        Seq::empty()
    } else if s.last().tick.0 <= t {
        later_part(s.drop_last(), t)
    } else {
        later_part(s.drop_last(), t).push(s.last())
    }
}

/// Bounded per-session queue of intents.
#[derive(Debug)]
pub struct IntentQueue {
    queue: Vec<Intent>,
    cap: usize,
}

impl View for IntentQueue {
    type V = Seq<Intent>;

    closed spec fn view(&self) -> Seq<Intent> {
        self.queue@
    }
}

impl IntentQueue {
    /// The most intents the queue holds.
    pub closed spec fn capacity(&self) -> nat {
        self.cap as nat
    }

    pub fn with_cap(cap: usize) -> (q: Self)
        ensures
            q@ == Seq::<Intent>::empty(),
            q.capacity() == cap,
    {
        IntentQueue { queue: Vec::new(), cap }
    }

    /// Appends `intent` unless the queue is full; says whether it was taken.
    pub fn push(&mut self, intent: Intent) -> (accepted: bool)
        ensures
            accepted == (old(self)@.len() < old(self).capacity()),
            accepted ==> final(self)@ == old(self)@.push(intent),
            !accepted ==> final(self)@ == old(self)@,
            final(self).capacity() == old(self).capacity(),
    {
        if self.queue.len() >= self.cap {
            return false;
        }
        self.queue.push(intent);
        true
    }

    /// Removes and returns, in order, every intent due at or before `tick`;
    /// the later ones stay queued in order.
    pub fn drain_for_tick(&mut self, tick: Tick) -> (due: Vec<Intent>)
        ensures
            due@ == due_part(old(self)@, tick.0),
            final(self)@ == later_part(old(self)@, tick.0),
            final(self).capacity() == old(self).capacity(),
    {
        let ghost orig = self.queue@;
        let mut rest: Vec<Intent> = Vec::new();
        std::mem::swap(&mut rest, &mut self.queue);
        let mut result: Vec<Intent> = Vec::new();
        let ghost mut k: int = 0;
        while rest.len() > 0
            invariant
                0 <= k <= orig.len(),
                rest@ == orig.subrange(k, orig.len() as int),
                result@ == due_part(orig.take(k), tick.0),
                self.queue@ == later_part(orig.take(k), tick.0),
                self.cap == old(self).cap,
            decreases rest@.len(),
        {
            let item = rest.remove(0);
            proof {
                assert(orig.take(k + 1).drop_last() =~= orig.take(k));
                assert(orig.take(k + 1).last() == item);
                k = k + 1;
                assert(rest@ =~= orig.subrange(k, orig.len() as int));
            }
            if item.tick.0 <= tick.0 {
                result.push(item);
            } else {
                self.queue.push(item);
            }
        }
        proof {
            assert(orig.take(k) =~= orig);
        }
        result
    }

    pub fn len(&self) -> (n: usize)
        ensures
            n == self@.len(),
    {
        self.queue.len()
    }
}

impl Default for IntentQueue {
    fn default() -> (q: Self)
        ensures
            q@ == Seq::<Intent>::empty(),
            q.capacity() == 0,
    {
        IntentQueue { queue: Vec::new(), cap: 0 }
    }
}

/// Draining splits the queue: every intent lands in exactly one part, the due part
/// holds only intents at or before the tick, the rest only later ones.
pub proof fn lemma_drain_partitions(s: Seq<Intent>, t: u64)
    ensures
        due_part(s, t).len() + later_part(s, t).len() == s.len(),
        forall|i: int| 0 <= i < due_part(s, t).len() ==> #[trigger] due_part(s, t)[i].tick.0 <= t,
        forall|i: int|
            0 <= i < later_part(s, t).len() ==> #[trigger] later_part(s, t)[i].tick.0 > t,
    decreases s.len(),
{
    if s.len() > 0 {
        lemma_drain_partitions(s.drop_last(), t);
    }
}

/// Draining the same tick again right away yields nothing and keeps the queue.
pub proof fn lemma_drain_idempotent(s: Seq<Intent>, t: u64)
    ensures
        due_part(later_part(s, t), t) == Seq::<Intent>::empty(),
        later_part(later_part(s, t), t) == later_part(s, t),
    decreases s.len(),
{
    if s.len() > 0 {
        lemma_drain_idempotent(s.drop_last(), t);
        let l = later_part(s.drop_last(), t);
        if s.last().tick.0 > t {
            assert(l.push(s.last()).drop_last() =~= l);
        }
    }
}

} // verus!
