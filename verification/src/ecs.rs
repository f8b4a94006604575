use crate::text::same_text;
use crate::types::{Entity, FwauId, IuocId};
use vstd::prelude::*;

verus! {

/// The session and soul an avatar entity is bound to.
#[derive(Clone, Copy, Debug)]
pub struct FwauBinding {
    pub fwau_id: FwauId,
    pub iuoc_id: IuocId,
}

#[derive(Clone, Copy, Debug, PartialEq, Eq, Structural)]
pub enum BrainKind {
    Utility,
    BehaviorTree,
    Ml,
}

/// What drives a non-player entity.
#[derive(Clone, Copy, Debug)]
pub struct Brain {
    pub kind: BrainKind,
    pub seed: u64,
}

/// What a tick does to an entity's sleep.
#[derive(Clone, Copy, Debug, PartialEq, Eq, Structural)]
pub enum SleepStep {
    Wake,
    Sleep,
    Keep,
}

/// An observed entity wakes; an unobserved awake entity falls asleep once more than
/// `delay` ticks have passed since it last fell asleep; otherwise nothing changes.
pub open spec fn sleep_step_spec(awake: bool, observed: bool, tick: u64, slept_at: u64, delay: u64) -> SleepStep {
    if observed {
        if awake { SleepStep::Keep } else { SleepStep::Wake }
    } else if awake && (if tick >= slept_at { tick - slept_at } else { 0 }) > delay {
        SleepStep::Sleep
    } else {
        SleepStep::Keep
    }
}

pub fn sleep_step(awake: bool, observed: bool, tick: u64, slept_at: u64, delay: u64) -> (r: SleepStep)
    ensures
        r == sleep_step_spec(awake, observed, tick, slept_at, delay),
{
    if observed {
        if awake { SleepStep::Keep } else { SleepStep::Wake }
    } else if awake && tick.saturating_sub(slept_at) > delay {
        SleepStep::Sleep
    } else {
        SleepStep::Keep
    }
}

/// The brain kind a content definition names; anything unknown is a utility brain.
pub open spec fn brain_kind_named(name: Seq<char>) -> BrainKind {
    if name == "BehaviorTree"@ {
        BrainKind::BehaviorTree
    } else if name == "Ml"@ {
        BrainKind::Ml
    } else {
        BrainKind::Utility
    }
}

pub fn brain_kind_from_name(name: &str) -> (k: BrainKind)
    ensures
        k == brain_kind_named(name@),
{
    if same_text(name, "BehaviorTree") {
        BrainKind::BehaviorTree
    } else if same_text(name, "Ml") {
        BrainKind::Ml
    } else {
        BrainKind::Utility
    }
}

/// Whether content of `kind` gets a brain: every `npc`, and anything interactable
/// that is not a `pickup`.
pub fn needs_brain(kind: &str, interactable: Option<bool>) -> (r: bool)
    ensures
        r == (kind@ == "npc"@ || (interactable == Some(true) && kind@ != "pickup"@)),
{
    let npc = same_text(kind, "npc");
    let pickup = same_text(kind, "pickup");
    let flagged = match interactable {
        Some(b) => b,
        None => false,
    };
    npc || (flagged && !pickup)
}

/// Generational slots for entity handles: a despawned slot is reused with a higher
/// generation, so old handles to it stay dead.
#[derive(Debug)]
pub struct EntitySlots {
    live: Vec<bool>,
    generation: Vec<u32>,
    free_list: Vec<u32>,
}

impl EntitySlots {
    /// Number of slots ever allocated.
    pub closed spec fn slot_count(&self) -> nat {
        self.live@.len()
    }

    /// Current generation of slot `i`.
    pub closed spec fn generation_of(&self, i: int) -> u32 {
        self.generation@[i]
    }

    /// Slot `i` holds an entity.
    pub closed spec fn occupied(&self, i: int) -> bool {
        self.live@[i]
    }

    /// The freed slots, most recently freed last.
    pub closed spec fn free_slots(&self) -> Seq<u32> {
        self.free_list@
    }

    /// `e` names an entity that exists now.
    pub open spec fn is_live_spec(&self, e: Entity) -> bool {
        &&& e.index < self.slot_count()
        &&& self.occupied(e.index as int)
        &&& self.generation_of(e.index as int) == e.generation
    }

    /// Free slots are exactly the unoccupied ones, each listed once.
    pub closed spec fn wf(&self) -> bool {
        &&& self.live@.len() == self.generation@.len()
        &&& self.live@.len() <= u32::MAX
        &&& forall|k: int| 0 <= k < self.free_list@.len() ==> (self.free_list@[k] as int) < self.live@.len()
            && !self.live@[self.free_list@[k] as int]
        &&& forall|k: int, m: int| 0 <= k < m < self.free_list@.len() ==> self.free_list@[k] != self.free_list@[m]
        &&& forall|i: int| 0 <= i < self.live@.len() && !self.live@[i] ==> self.free_list@.contains(i as u32)
    }

    pub fn new() -> (w: Self)
        ensures
            w.wf(),
            w.slot_count() == 0,
            w.free_slots() == Seq::<u32>::empty(),
    {
        EntitySlots { live: Vec::new(), generation: Vec::new(), free_list: Vec::new() }
    }

    /// Allocates a handle: the most recently freed slot if any, else a new slot at
    /// generation 0. The handle is live; every other handle keeps its state.
    pub fn spawn(&mut self) -> (e: Entity)
        requires
            old(self).wf(),
            old(self).slot_count() < u32::MAX,
        ensures
            final(self).wf(),
            final(self).is_live_spec(e),
            !old(self).is_live_spec(e),
            e.index < old(self).slot_count() ==> e.generation == old(self).generation_of(e.index as int),
            e.index >= old(self).slot_count() ==> e.index == old(self).slot_count() && e.generation == 0,
            forall|x: Entity| x != e ==> (#[trigger] final(self).is_live_spec(x) <==> old(self).is_live_spec(x)),
            forall|i: int| 0 <= i < old(self).slot_count() ==> #[trigger] final(self).generation_of(i) == old(self).generation_of(i),
            old(self).free_slots().len() > 0 ==> e.index == old(self).free_slots().last()
                && final(self).free_slots() == old(self).free_slots().drop_last()
                && final(self).slot_count() == old(self).slot_count(),
            old(self).free_slots().len() == 0 ==> final(self).slot_count() == old(self).slot_count() + 1
                && final(self).free_slots() == old(self).free_slots(),
    {
        let ghost free_before = self.free_list@;
        let index: u32 = match self.free_list.pop() {
            Some(i) => {
                proof {
                    assert(free_before[free_before.len() - 1] == i);
                }
                i
            },
            None => {
                let i = self.live.len() as u32;
                self.live.push(false);
                self.generation.push(0);
                i
            },
        };
        self.live.set(index as usize, true);
        let e = Entity { index, generation: self.generation[index as usize] };
        proof {
            assert forall|k: int| 0 <= k < self.free_list@.len() implies (self.free_list@[k] as int) < self.live@.len()
                && !self.live@[self.free_list@[k] as int] by {
                assert(free_before.contains(self.free_list@[k]) || true);
                if free_before.len() > 0 && free_before[free_before.len() - 1] == index {
                    assert(self.free_list@[k] == free_before[k]);
                    assert(free_before[k] != free_before[free_before.len() - 1]);
                } else {
                    assert(self.free_list@[k] == free_before[k]);
                }
            }
            assert forall|i: int| 0 <= i < self.live@.len() && !self.live@[i] implies self.free_list@.contains(i as u32) by {
                assert(i != index);
                assert(old(self).live@[i] == false);
                assert(free_before.contains(i as u32));
                let k = choose|k: int| 0 <= k < free_before.len() && free_before[k] == i as u32;
                if free_before.len() > 0 {
                    assert(k != free_before.len() - 1);
                    assert(self.free_list@[k] == i as u32);
                }
            }
        }
        e
    }

    /// Frees the slot of `e` if `e` is live; a stale or unknown handle changes nothing.
    pub fn despawn(&mut self, e: Entity) -> (freed: bool)
        requires
            old(self).wf(),
            old(self).is_live_spec(e) ==> old(self).generation_of(e.index as int) < u32::MAX,
        ensures
            final(self).wf(),
            freed == old(self).is_live_spec(e),
            !final(self).is_live_spec(e),
            freed ==> final(self).generation_of(e.index as int) == old(self).generation_of(e.index as int) + 1,
            forall|x: Entity| x != e ==> (#[trigger] final(self).is_live_spec(x) <==> old(self).is_live_spec(x)),
            forall|i: int| 0 <= i < old(self).slot_count() && i != e.index ==> #[trigger] final(self).generation_of(i) == old(self).generation_of(i),
            !freed ==> final(self).generation_of(e.index as int) == old(self).generation_of(e.index as int),
            final(self).slot_count() == old(self).slot_count(),
            freed ==> final(self).free_slots() == old(self).free_slots().push(e.index),
            !freed ==> final(self).free_slots() == old(self).free_slots(),
    {
        let i = e.index as usize;
        if i < self.live.len() && self.live[i] && self.generation[i] == e.generation {
            self.live.set(i, false);
            let g = self.generation[i];
            self.generation.set(i, g + 1);
            let ghost free_before = self.free_list@;
            self.free_list.push(e.index);
            proof {
                assert forall|k: int, m: int| 0 <= k < m < self.free_list@.len() implies self.free_list@[k] != self.free_list@[m] by {
                    if m == free_before.len() {
                        assert(!old(self).live@[free_before[k] as int]);
                    }
                }
                assert forall|j: int| 0 <= j < self.live@.len() && !self.live@[j] implies self.free_list@.contains(j as u32) by {
                    if j == i {
                        assert(self.free_list@[free_before.len() as int] == j as u32);
                    } else {
                        let k = choose|k: int| 0 <= k < free_before.len() && free_before[k] == j as u32;
                        assert(self.free_list@[k] == j as u32);
                    }
                }
            }
            true
        } else {
            false
        }
    }

    /// Whether `e` names an entity that exists now.
    pub fn is_live(&self, e: Entity) -> (r: bool)
        requires
            self.wf(),
        ensures
            r == self.is_live_spec(e),
    {
        let i = e.index as usize;
        i < self.live.len() && self.live[i] && self.generation[i] == e.generation
    }

    /// Number of slots ever allocated.
    pub fn slots(&self) -> (r: usize)
        requires
            self.wf(),
        ensures
            r == self.slot_count(),
    {
        self.live.len()
    }

    /// The current generation of slot `index`, if the slot exists.
    pub fn slot_generation(&self, index: u32) -> (r: Option<u32>)
        requires
            self.wf(),
        ensures
            match r {
                Some(g) => index < self.slot_count() && g == self.generation_of(index as int),
                None => index >= self.slot_count(),
            },
    {
        let i = index as usize;
        if i < self.generation.len() {
            Some(self.generation[i])
        } else {
            None
        }
    }

    /// The live entities, by slot.
    pub fn all_live(&self) -> (out: Vec<Entity>)
        requires
            self.wf(),
        ensures
            forall|x: Entity| out@.contains(x) <==> self.is_live_spec(x),
            forall|k: int, m: int| 0 <= k < m < out@.len() ==> out@[k].index < out@[m].index,
    {
        let mut out: Vec<Entity> = Vec::new();
        let mut i: usize = 0;
        while i < self.live.len()
            invariant
                self.wf(),
                i <= self.live@.len(),
                forall|x: Entity| out@.contains(x) <==> (self.is_live_spec(x) && x.index < i),
                forall|k: int, m: int| 0 <= k < m < out@.len() ==> out@[k].index < out@[m].index,
                forall|k: int| 0 <= k < out@.len() ==> out@[k].index < i,
            decreases self.live@.len() - i,
        {
            if self.live[i] {
                let x = Entity { index: i as u32, generation: self.generation[i] };
                let ghost before = out@;
                out.push(x);
                proof {
                    assert forall|y: Entity| out@.contains(y) <==> (self.is_live_spec(y) && y.index < i + 1) by {
                        if out@.contains(y) {
                            let k = choose|k: int| 0 <= k < out@.len() && out@[k] == y;
                            if k < before.len() {
                                assert(before.contains(y));
                            }
                        }
                        if self.is_live_spec(y) && y.index < i + 1 {
                            if y.index == i {
                                assert(y == x);
                                assert(out@[before.len() as int] == y);
                            } else {
                                assert(before.contains(y));
                                let k = choose|k: int| 0 <= k < before.len() && before[k] == y;
                                assert(out@[k] == y);
                            }
                        }
                    }
                }
            } else {
                proof {
                    assert forall|y: Entity| out@.contains(y) <==> (self.is_live_spec(y) && y.index < i + 1) by {
                        if out@.contains(y) {
                            let k = choose|k: int| 0 <= k < out@.len() && out@[k] == y;
                            assert(y.index < i);
                        }
                    }
                }
            }
            i = i + 1;
        }
        out
    }
}

/// A handle whose generation is behind its slot's current generation never names a
/// live entity; since a despawn raises the generation, a despawned handle stays dead.
pub proof fn lemma_stale_handle_dead(w: EntitySlots, e: Entity)
    requires
        e.index < w.slot_count(),
        e.generation < w.generation_of(e.index as int),
    ensures
        !w.is_live_spec(e),
{
}

/// The slot a despawn frees is the one the next spawn takes, one generation up: `w1`
/// is `w0` after `despawn(e)` freed `e`, and `e2` is what `spawn` then returns on `w1`,
/// related as the two functions relate them.
pub proof fn lemma_freed_slot_reused(w0: EntitySlots, w1: EntitySlots, e: Entity, e2: Entity)
    requires
        w0.is_live_spec(e),
        w1.free_slots() == w0.free_slots().push(e.index),
        w1.generation_of(e.index as int) == w0.generation_of(e.index as int) + 1,
        w1.slot_count() == w0.slot_count(),
        w1.free_slots().len() > 0 ==> e2.index == w1.free_slots().last(),
        e2.index < w1.slot_count() ==> e2.generation == w1.generation_of(e2.index as int),
    ensures
        e2.index == e.index,
        e2.generation == e.generation + 1,
{
}

} // verus!
