use vstd::prelude::*;

verus! {

/// How a frame's clock relates to its parent's: `n` ticks here for every `k` there.
#[derive(Clone, Debug, Default)]
pub struct ClockRatio {
    pub parent: Option<String>,
    pub n: u32,
    pub k: u32,
}

/// What death does to a bound soul.
#[derive(Clone, Debug)]
pub struct DeathPolicy {
    pub unbind: bool,
    pub park_s: u32,
    pub rewind_s: u32,
}

/// The rulesets a session may be handed off to.
#[derive(Clone, Debug)]
pub struct HandoffPolicy {
    pub allowed_targets: Vec<String>,
}

/// Conflict-free replicated state a ruleset turns on.
#[derive(Clone, Debug)]
pub struct CrdtPolicy {
    pub props: String,
    pub presence: Option<String>,
}

} // verus!
