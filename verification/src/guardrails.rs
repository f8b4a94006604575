use crate::counts::KeyedCounts;
use crate::keyed::top_up;
use crate::types::FwauId;
use vstd::prelude::*;

verus! {

/// Token-bucket amounts are kept in thousandths of a token.
pub const MILLI_TOKENS: u64 = 1000;

/// Admitted intents per second for a step of `dt_ms` milliseconds: twice the tick
/// rate, rounded up. A zero step gives an unbounded rate.
pub open spec fn intent_rate_for(dt_ms: u16) -> u32 {
    if dt_ms == 0 {
        u32::MAX
    } else {
        ((2000 + dt_ms - 1) / dt_ms as int) as u32
    }
}

/// A bucket holding `tokens` after gaining `add`, never above `cap`.
pub open spec fn refilled(tokens: nat, add: nat, cap: nat) -> nat {
    if tokens + add < cap { tokens + add } else { cap }
}

/// Operational limits for a frame.
#[derive(Clone, Debug)]
pub struct GuardrailConfig {
    pub step_budget_per_tick: usize,
    pub intent_rate_per_sec: u32,
    pub pending_intent_cap: usize,
    pub max_intents_per_tick: u32,
    pub max_rewinds_per_tick: u32,
    pub max_catchup: u32,
}

impl GuardrailConfig {
    pub fn for_dt_ms(dt_ms: u16) -> (c: Self)
        ensures
            c.step_budget_per_tick == 35_000,
            c.intent_rate_per_sec == intent_rate_for(dt_ms),
            c.pending_intent_cap == 64,
            c.max_intents_per_tick == 8,
            c.max_rewinds_per_tick == 4,
            c.max_catchup == 4,
    {
        let rate: u32 = if dt_ms == 0 {
            u32::MAX
        } else {
            ((2000u32 + dt_ms as u32 - 1) / dt_ms as u32)
        };
        GuardrailConfig {
            step_budget_per_tick: 35_000,
            intent_rate_per_sec: rate,
            pending_intent_cap: 64,
            max_intents_per_tick: 8,
            max_rewinds_per_tick: 4,
            max_catchup: 4,
        }
    }
}

/// Counters a frame reports about its guardrails.
#[derive(Clone, Copy, Debug, Default)]
pub struct GuardrailReport {
    pub stall_count: u32,
    pub budget_overruns: u32,
    pub rate_limited: u32,
    pub queue_full: u32,
    pub rewinds_last_tick: u32,
    pub throttled_ticks: u32,
    pub within_budget: bool,
}

/// Per-tick and token-bucket admission state of a frame.
pub struct GuardrailState {
    pub config: GuardrailConfig,
    pub stall_count: u32,
    pub budget_overruns: u32,
    pub rate_limited: u32,
    pub queue_full: u32,
    pub throttled_ticks: u32,
    pub rewinds_this_tick: u32,
    pub intents_this_tick: KeyedCounts,
    pub rate_tokens: KeyedCounts,
}

impl GuardrailState {
    /// Rewinds allowed so far in this tick.
    pub open spec fn rewinds(&self) -> nat {
        self.rewinds_this_tick as nat
    }

    /// Intents admitted for `f` in this tick.
    pub open spec fn intents_of(&self, f: FwauId) -> nat {
        match self.intents_this_tick.get_spec(f.0) {
            Some(n) => n as nat,
            None => 0,
        }
    }

    /// Tokens (in thousandths) in the bucket of `f`; a session not seen yet has a full bucket.
    pub open spec fn tokens_of(&self, f: FwauId) -> nat {
        match self.rate_tokens.get_spec(f.0) {
            Some(n) => n as nat,
            None => self.bucket_cap(),
        }
    }

    /// A full bucket: one second of the admitted rate.
    pub open spec fn bucket_cap(&self) -> nat {
        self.config.intent_rate_per_sec as nat * MILLI_TOKENS as nat
    }

    /// Stored counters never exceed what their limits let them reach.
    pub closed spec fn wf(&self) -> bool {
        &&& forall|k: u128|
            #[trigger] self.intents_this_tick.get_spec(k) matches Some(n) ==> n
                <= self.config.max_intents_per_tick
        &&& forall|k: u128|
            #[trigger] self.rate_tokens.get_spec(k) matches Some(n) ==> n <= self.bucket_cap()
    }

    pub fn new(config: GuardrailConfig) -> (g: Self)
        ensures
            g.wf(),
            g.config == config,
            g.stall_count == 0,
            g.budget_overruns == 0,
            g.rate_limited == 0,
            g.queue_full == 0,
            g.throttled_ticks == 0,
            g.rewinds() == 0,
            forall|f: FwauId| g.intents_of(f) == 0,
            forall|f: FwauId| #[trigger] g.tokens_of(f) == g.bucket_cap(),
    {
        GuardrailState {
            config,
            stall_count: 0,
            budget_overruns: 0,
            rate_limited: 0,
            queue_full: 0,
            throttled_ticks: 0,
            rewinds_this_tick: 0,
            intents_this_tick: KeyedCounts::new(),
            rate_tokens: KeyedCounts::new(),
        }
    }

    /// Starts a tick of `dt_ms` milliseconds: per-tick counts reset and every bucket
    /// gains `rate * dt_ms` thousandths of a token, up to a full bucket.
    pub fn begin_tick(&mut self, dt_ms: u16)
        requires
            old(self).wf(),
        ensures
            final(self).wf(),
            final(self).config == old(self).config,
            final(self).rewinds() == 0,
            forall|f: FwauId| final(self).intents_of(f) == 0,
            forall|f: FwauId|
                #[trigger] final(self).tokens_of(f) == refilled(
                    old(self).tokens_of(f),
                    old(self).config.intent_rate_per_sec as nat * dt_ms as nat,
                    old(self).bucket_cap(),
                ),
            final(self).stall_count == old(self).stall_count,
            final(self).budget_overruns == old(self).budget_overruns,
            final(self).rate_limited == old(self).rate_limited,
            final(self).queue_full == old(self).queue_full,
            final(self).throttled_ticks == old(self).throttled_ticks,
    {
        self.rewinds_this_tick = 0;
        self.intents_this_tick.clear();
        proof {
            let r = self.config.intent_rate_per_sec as int;
            assert(r * dt_ms <= 0xffff_ffff * 0xffff) by (nonlinear_arith)
                requires
                    0 <= r <= 0xffff_ffff,
                    0 <= dt_ms <= 0xffff,
            ;
        }
        let refill: u64 = self.config.intent_rate_per_sec as u64 * dt_ms as u64;
        let cap: u64 = self.config.intent_rate_per_sec as u64 * MILLI_TOKENS;
        self.rate_tokens.top_up_all(refill, cap);
        proof {
            assert forall|f: FwauId|
                #[trigger] self.tokens_of(f) == refilled(
                    old(self).tokens_of(f),
                    old(self).config.intent_rate_per_sec as nat * dt_ms as nat,
                    old(self).bucket_cap(),
                ) by {
                let g = old(self).rate_tokens.get_spec(f.0);
                assert(self.rate_tokens.get_spec(f.0) == (match g {
                    Some(v) => Some(top_up(v, refill, cap)),
                    None => None,
                }));
            }
            assert forall|k: u128|
                #[trigger] self.rate_tokens.get_spec(k) matches Some(n) ==> n
                    <= self.bucket_cap() by {
                let g = old(self).rate_tokens.get_spec(k);
                assert(self.rate_tokens.get_spec(k) == (match g {
                    Some(v) => Some(top_up(v, refill, cap)),
                    None => None,
                }));
            }
        }
    }

    pub fn record_stall(&mut self)
        requires
            old(self).stall_count < u32::MAX,
        ensures
            final(self).stall_count == old(self).stall_count + 1,
            final(self).config == old(self).config,
            final(self).budget_overruns == old(self).budget_overruns,
            final(self).rate_limited == old(self).rate_limited,
            final(self).queue_full == old(self).queue_full,
            final(self).throttled_ticks == old(self).throttled_ticks,
            final(self).rewinds() == old(self).rewinds(),
            final(self).wf() == old(self).wf(),
            forall|f: FwauId| #[trigger] final(self).intents_of(f) == old(self).intents_of(f),
            forall|f: FwauId| #[trigger] final(self).tokens_of(f) == old(self).tokens_of(f),
    {
        self.stall_count = self.stall_count + 1;
    }

    pub fn record_budget_overrun(&mut self)
        requires
            old(self).budget_overruns < u32::MAX,
        ensures
            final(self).budget_overruns == old(self).budget_overruns + 1,
            final(self).config == old(self).config,
            final(self).stall_count == old(self).stall_count,
            final(self).rate_limited == old(self).rate_limited,
            final(self).queue_full == old(self).queue_full,
            final(self).throttled_ticks == old(self).throttled_ticks,
            final(self).rewinds() == old(self).rewinds(),
            final(self).wf() == old(self).wf(),
            forall|f: FwauId| #[trigger] final(self).intents_of(f) == old(self).intents_of(f),
            forall|f: FwauId| #[trigger] final(self).tokens_of(f) == old(self).tokens_of(f),
    {
        self.budget_overruns = self.budget_overruns + 1;
    }

    pub fn record_throttled_tick(&mut self)
        requires
            old(self).throttled_ticks < u32::MAX,
        ensures
            final(self).throttled_ticks == old(self).throttled_ticks + 1,
            final(self).config == old(self).config,
            final(self).stall_count == old(self).stall_count,
            final(self).budget_overruns == old(self).budget_overruns,
            final(self).rate_limited == old(self).rate_limited,
            final(self).queue_full == old(self).queue_full,
            final(self).rewinds() == old(self).rewinds(),
            final(self).wf() == old(self).wf(),
            forall|f: FwauId| #[trigger] final(self).intents_of(f) == old(self).intents_of(f),
            forall|f: FwauId| #[trigger] final(self).tokens_of(f) == old(self).tokens_of(f),
    {
        self.throttled_ticks = self.throttled_ticks + 1;
    }

    pub fn record_queue_full(&mut self)
        requires
            old(self).queue_full < u32::MAX,
        ensures
            final(self).queue_full == old(self).queue_full + 1,
            final(self).config == old(self).config,
            final(self).stall_count == old(self).stall_count,
            final(self).budget_overruns == old(self).budget_overruns,
            final(self).rate_limited == old(self).rate_limited,
            final(self).throttled_ticks == old(self).throttled_ticks,
            final(self).rewinds() == old(self).rewinds(),
            final(self).wf() == old(self).wf(),
            forall|f: FwauId| #[trigger] final(self).intents_of(f) == old(self).intents_of(f),
            forall|f: FwauId| #[trigger] final(self).tokens_of(f) == old(self).tokens_of(f),
    {
        self.queue_full = self.queue_full + 1;
    }

    /// Allows a rewind unless this tick already had `max_rewinds_per_tick` of them.
    pub fn allow_rewind(&mut self) -> (ok: bool)
        ensures
            ok == (old(self).rewinds() < old(self).config.max_rewinds_per_tick),
            ok ==> final(self).rewinds() == old(self).rewinds() + 1,
            !ok ==> final(self).rewinds() == old(self).rewinds(),
            final(self).config == old(self).config,
            final(self).stall_count == old(self).stall_count,
            final(self).budget_overruns == old(self).budget_overruns,
            final(self).rate_limited == old(self).rate_limited,
            final(self).queue_full == old(self).queue_full,
            final(self).throttled_ticks == old(self).throttled_ticks,
            final(self).wf() == old(self).wf(),
            forall|f: FwauId| #[trigger] final(self).intents_of(f) == old(self).intents_of(f),
            forall|f: FwauId| #[trigger] final(self).tokens_of(f) == old(self).tokens_of(f),
    {
        if self.rewinds_this_tick >= self.config.max_rewinds_per_tick {
            return false;
        }
        self.rewinds_this_tick = self.rewinds_this_tick + 1;
        true
    }

    /// Admits one intent of `fwau` when it is under the per-tick limit and its bucket
    /// holds a whole token; admission spends the token. Each refusal is counted.
    pub fn allow_intent(&mut self, fwau: FwauId) -> (ok: bool)
        requires
            old(self).wf(),
            old(self).rate_limited < u32::MAX,
        ensures
            final(self).wf(),
            ok == (old(self).intents_of(fwau) < old(self).config.max_intents_per_tick
                && old(self).tokens_of(fwau) >= MILLI_TOKENS),
            ok ==> final(self).intents_of(fwau) == old(self).intents_of(fwau) + 1
                && final(self).tokens_of(fwau) == old(self).tokens_of(fwau) - MILLI_TOKENS
                && final(self).rate_limited == old(self).rate_limited,
            !ok ==> final(self).intents_of(fwau) == old(self).intents_of(fwau)
                && final(self).tokens_of(fwau) == old(self).tokens_of(fwau)
                && final(self).rate_limited == old(self).rate_limited + 1,
            forall|f: FwauId|
                f != fwau ==> #[trigger] final(self).intents_of(f) == old(self).intents_of(f),
            forall|f: FwauId|
                f != fwau ==> #[trigger] final(self).tokens_of(f) == old(self).tokens_of(f),
            final(self).config == old(self).config,
            final(self).stall_count == old(self).stall_count,
            final(self).budget_overruns == old(self).budget_overruns,
            final(self).queue_full == old(self).queue_full,
            final(self).throttled_ticks == old(self).throttled_ticks,
            final(self).rewinds() == old(self).rewinds(),
    {
        let per_tick: u64 = match self.intents_this_tick.get(fwau.0) {
            Some(n) => n,
            None => 0,
        };
        if per_tick >= self.config.max_intents_per_tick as u64 {
            self.rate_limited = self.rate_limited + 1;
            return false;
        }
        let cap: u64 = self.config.intent_rate_per_sec as u64 * MILLI_TOKENS;
        let tokens: u64 = match self.rate_tokens.get(fwau.0) {
            Some(n) => n,
            None => cap,
        };
        if tokens < MILLI_TOKENS {
            self.rate_limited = self.rate_limited + 1;
            return false;
        }
        self.rate_tokens.set(fwau.0, tokens - MILLI_TOKENS);
        self.intents_this_tick.set(fwau.0, per_tick + 1);
        proof {
            assert forall|f: FwauId|
                f != fwau ==> #[trigger] self.intents_of(f) == old(self).intents_of(f) by {
                if f != fwau {
                    assert(f.0 != fwau.0);
                }
            }
            assert forall|f: FwauId|
                f != fwau ==> #[trigger] self.tokens_of(f) == old(self).tokens_of(f) by {
                if f != fwau {
                    assert(f.0 != fwau.0);
                }
            }
        }
        true
    }

    /// The counters as a report; `within_budget` comes from the island profiler.
    pub fn report(&self, within_budget: bool) -> (r: GuardrailReport)
        ensures
            r.stall_count == self.stall_count,
            r.budget_overruns == self.budget_overruns,
            r.rate_limited == self.rate_limited,
            r.queue_full == self.queue_full,
            r.rewinds_last_tick == self.rewinds(),
            r.throttled_ticks == self.throttled_ticks,
            r.within_budget == within_budget,
    {
        GuardrailReport {
            stall_count: self.stall_count,
            budget_overruns: self.budget_overruns,
            rate_limited: self.rate_limited,
            queue_full: self.queue_full,
            rewinds_last_tick: self.rewinds_this_tick,
            throttled_ticks: self.throttled_ticks,
            within_budget,
        }
    }
}

/// Within one tick a session is never admitted more than `max_intents_per_tick` intents:
/// once it has reached the limit, every further request is refused.
pub proof fn lemma_per_tick_limit(g: GuardrailState, f: FwauId)
    requires
        g.wf(),
    ensures
        g.intents_of(f) <= g.config.max_intents_per_tick,
{
    assert(g.intents_this_tick.get_spec(f.0) matches Some(n) ==> n
        <= g.config.max_intents_per_tick);
}

} // verus!
