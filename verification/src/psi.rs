use crate::rww::{message_views, MessageView, RwwBus};
use crate::text::{decimal, push_decimal, same_text};
use vstd::prelude::*;

verus! {

/// What a psi query asks about.
#[derive(Clone, Copy, Debug, PartialEq, Eq, Structural)]
pub enum PsiScope {
    FutureSelf,
    PastOwn,
    PastShared,
    FutureIsland,
    RwwQuery,
    Other,
}

pub open spec fn psi_scope_of(s: Seq<char>) -> PsiScope {
    if s == "FutureSelf"@ {
        PsiScope::FutureSelf
    } else if s == "PastOwn"@ {
        PsiScope::PastOwn
    } else if s == "PastShared"@ {
        PsiScope::PastShared
    } else if s == "FutureIsland"@ {
        PsiScope::FutureIsland
    } else if s == "RwwQuery"@ {
        PsiScope::RwwQuery
    } else {
        PsiScope::Other
    }
}

pub fn psi_scope(s: &str) -> (r: PsiScope)
    ensures
        r == psi_scope_of(s@),
{
    if same_text(s, "FutureSelf") {
        PsiScope::FutureSelf
    } else if same_text(s, "PastOwn") {
        PsiScope::PastOwn
    } else if same_text(s, "PastShared") {
        PsiScope::PastShared
    } else if same_text(s, "FutureIsland") {
        PsiScope::FutureIsland
    } else if same_text(s, "RwwQuery") {
        PsiScope::RwwQuery
    } else {
        PsiScope::Other
    }
}

/// Why a psi query was refused before any budget was spent.
#[derive(Clone, Copy, Debug, PartialEq, Eq, Structural)]
pub enum PsiRefusal {
    Disabled,
    ScopeNotAllowed,
}

/// `scopes` lists `scope`.
pub open spec fn lists_scope(scopes: Seq<String>, scope: Seq<char>) -> bool {
    exists|k: int| 0 <= k < scopes.len() && #[trigger] scopes[k]@ == scope
}

/// A psi query needs psi enabled in the frame and the scope among the frame's scopes.
pub fn psi_gate(enabled: bool, scopes: &Vec<String>, scope: &str) -> (r: Result<(), PsiRefusal>)
    ensures
        r == (if !enabled {
            Err(PsiRefusal::Disabled)
        } else if !lists_scope(scopes@, scope@) {
            Err(PsiRefusal::ScopeNotAllowed)
        } else {
            Ok(())
        }),
{
    if !enabled {
        return Err(PsiRefusal::Disabled);
    }
    let mut k: usize = 0;
    while k < scopes.len()
        invariant
            k <= scopes@.len(),
            enabled,
            forall|j: int| 0 <= j < k ==> #[trigger] scopes@[j]@ != scope@,
        decreases scopes@.len() - k,
    {
        if same_text(scopes[k].as_str(), scope) {
            assert(scopes@[k as int]@ == scope@);
            return Ok(());
        }
        k = k + 1;
    }
    Err(PsiRefusal::ScopeNotAllowed)
}

/// The message of a refused psi query.
pub open spec fn refusal_text(r: PsiRefusal, scope: Seq<char>) -> Seq<char> {
    match r {
        PsiRefusal::Disabled => "Psi disabled by ruleset"@,
        PsiRefusal::ScopeNotAllowed => "Scope "@ + scope + " not allowed in this frame"@,
    }
}

pub fn refusal_message(r: PsiRefusal, scope: &str) -> (s: String)
    ensures
        s@ == refusal_text(r, scope@),
{
    match r {
        PsiRefusal::Disabled => String::from_str("Psi disabled by ruleset"),
        PsiRefusal::ScopeNotAllowed => {
            let mut s = String::from_str("Scope ");
            s.append(scope);
            s.append(" not allowed in this frame");
            s
        },
    }
}

/// One line of fabric recall: a hand-off by subject and tick, a shard crossing by tick.
pub open spec fn handoff_recall(m: MessageView) -> Seq<char> {
    m.subject + " @ tick "@ + decimal(m.at_tick as nat)
}

pub open spec fn cross_recall(m: MessageView) -> Seq<char> {
    "shard cross @ tick "@ + decimal(m.at_tick as nat)
}

/// What a fabric query recalls: the last three hand-offs, then the last three shard
/// crossings.
pub fn rww_recall(bus: &RwwBus) -> (out: Vec<String>)
    ensures
        ({
            let h = bus.recent_spec("rww.handoff"@, 3);
            let c = bus.recent_spec("rww.shard.cross"@, 3);
            &&& out@.len() == h.len() + c.len()
            &&& forall|i: int| 0 <= i < h.len() ==> #[trigger] out@[i]@ == handoff_recall(h[i])
            &&& forall|j: int| 0 <= j < c.len() ==> #[trigger] out@[h.len() + j]@ == cross_recall(c[j])
        }),
{
    let handoffs = bus.recent("rww.handoff", 3);
    let crosses = bus.recent("rww.shard.cross", 3);
    let ghost h = message_views(handoffs@);
    let ghost c = message_views(crosses@);
    let mut out: Vec<String> = Vec::new();
    let mut i: usize = 0;
    while i < handoffs.len()
        invariant
            i <= handoffs@.len(),
            h == message_views(handoffs@),
            out@.len() == i,
            forall|k: int| 0 <= k < i ==> #[trigger] out@[k]@ == handoff_recall(h[k]),
        decreases handoffs@.len() - i,
    {
        let m = &handoffs[i];
        let mut line = m.subject.clone();
        line.append(" @ tick ");
        push_decimal(&mut line, m.at_tick as u128);
        out.push(line);
        i = i + 1;
    }
    let mut j: usize = 0;
    while j < crosses.len()
        invariant
            j <= crosses@.len(),
            h.len() == handoffs@.len(),
            c == message_views(crosses@),
            out@.len() == h.len() + j,
            forall|k: int| 0 <= k < h.len() ==> #[trigger] out@[k]@ == handoff_recall(h[k]),
            forall|k: int| 0 <= k < j ==> #[trigger] out@[h.len() + k]@ == cross_recall(c[k]),
        decreases crosses@.len() - j,
    {
        let m = &crosses[j];
        let mut line = String::from_str("shard cross @ tick ");
        push_decimal(&mut line, m.at_tick as u128);
        out.push(line);
        j = j + 1;
    }
    out
}

} // verus!
