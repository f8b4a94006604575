use crate::text::{decimal, push_decimal, same_text};
use vstd::prelude::*;

verus! {

/// The verbs a ruleset can enable.
#[derive(Clone, Copy, Debug, PartialEq, Eq, Structural)]
pub enum VerbKind {
    Attack,
    Assist,
    Interact,
    Speak,
}

/// Why a verb was refused, named after the check that refused it.
#[derive(Clone, Copy, Debug, PartialEq, Eq, Structural)]
pub enum VerbFailure {
    Disabled,
    NoAvatar,
    NoTarget,
    OutOfRange,
    NoConsent,
    NoAvatarState,
    Unbound,
    StaminaExhausted,
    TargetMissing,
    TargetUnaffected,
    BadSpeech,
    BadStamp,
    NoPlayerRecord,
}

/// What the host found before an attack or an assist: whether the verb is on, the
/// actor's avatar, the target (given or nearest), the distance, consent (always
/// granted for an attack), and the two avatars' states. Distances and stamina are
/// floats, compared by the host.
#[derive(Clone, Copy, Debug)]
pub struct TargetedFacts {
    pub enabled: bool,
    pub avatar_bound: bool,
    pub target_found: bool,
    pub in_range: bool,
    pub consent_ok: bool,
    pub player_record: bool,
    pub player_has_state: bool,
    pub player_dead: bool,
    pub stamina_short: bool,
    pub target_record: bool,
    pub target_has_state: bool,
}

/// The first check a targeted verb fails, in the order the checks run; `Ok` when
/// the verb lands. A missing actor record skips the actor's own checks.
pub open spec fn targeted_outcome(f: TargetedFacts) -> Result<(), VerbFailure> {
    if !f.enabled {
        Err(VerbFailure::Disabled)
    } else if !f.avatar_bound {
        Err(VerbFailure::NoAvatar)
    } else if !f.target_found {
        Err(VerbFailure::NoTarget)
    } else if !f.in_range {
        Err(VerbFailure::OutOfRange)
    } else if !f.consent_ok {
        Err(VerbFailure::NoConsent)
    } else if f.player_record && !f.player_has_state {
        Err(VerbFailure::NoAvatarState)
    } else if f.player_record && f.player_dead {
        Err(VerbFailure::Unbound)
    } else if f.player_record && f.stamina_short {
        Err(VerbFailure::StaminaExhausted)
    } else if !f.target_record {
        Err(VerbFailure::TargetMissing)
    } else if !f.target_has_state {
        Err(VerbFailure::TargetUnaffected)
    } else {
        Ok(())
    }
}

/// Decides whether an attack or an assist lands.
pub fn targeted_gate(f: &TargetedFacts) -> (r: Result<(), VerbFailure>)
    ensures
        r == targeted_outcome(*f),
{
    if !f.enabled {
        Err(VerbFailure::Disabled)
    } else if !f.avatar_bound {
        Err(VerbFailure::NoAvatar)
    } else if !f.target_found {
        Err(VerbFailure::NoTarget)
    } else if !f.in_range {
        Err(VerbFailure::OutOfRange)
    } else if !f.consent_ok {
        Err(VerbFailure::NoConsent)
    } else if f.player_record && !f.player_has_state {
        Err(VerbFailure::NoAvatarState)
    } else if f.player_record && f.player_dead {
        Err(VerbFailure::Unbound)
    } else if f.player_record && f.stamina_short {
        Err(VerbFailure::StaminaExhausted)
    } else if !f.target_record {
        Err(VerbFailure::TargetMissing)
    } else if !f.target_has_state {
        Err(VerbFailure::TargetUnaffected)
    } else {
        Ok(())
    }
}

/// What the host found before an interaction.
#[derive(Clone, Copy, Debug)]
pub struct InteractFacts {
    pub enabled: bool,
    pub avatar_bound: bool,
    pub target_found: bool,
    pub player_record: bool,
    pub player_has_state: bool,
    pub player_dead: bool,
}

pub open spec fn interact_outcome(f: InteractFacts) -> Result<(), VerbFailure> {
    if !f.enabled {
        Err(VerbFailure::Disabled)
    } else if !f.avatar_bound {
        Err(VerbFailure::NoAvatar)
    } else if !f.target_found {
        Err(VerbFailure::NoTarget)
    } else if !f.player_record {
        Err(VerbFailure::NoPlayerRecord)
    } else if !f.player_has_state {
        Err(VerbFailure::NoAvatarState)
    } else if f.player_dead {
        Err(VerbFailure::Unbound)
    } else {
        Ok(())
    }
}

/// Decides whether an interaction goes ahead.
pub fn interact_gate(f: &InteractFacts) -> (r: Result<(), VerbFailure>)
    ensures
        r == interact_outcome(*f),
{
    if !f.enabled {
        Err(VerbFailure::Disabled)
    } else if !f.avatar_bound {
        Err(VerbFailure::NoAvatar)
    } else if !f.target_found {
        Err(VerbFailure::NoTarget)
    } else if !f.player_record {
        Err(VerbFailure::NoPlayerRecord)
    } else if !f.player_has_state {
        Err(VerbFailure::NoAvatarState)
    } else if f.player_dead {
        Err(VerbFailure::Unbound)
    } else {
        Ok(())
    }
}

/// The message a refused verb answers with.
pub open spec fn failure_text(verb: VerbKind, f: VerbFailure) -> Seq<char> {
    match f {
        VerbFailure::Disabled => match verb {
            VerbKind::Attack => "Attack disabled by ruleset"@,
            VerbKind::Assist => "Assist disabled by ruleset"@,
            VerbKind::Interact => "Interact disabled by ruleset"@,
            VerbKind::Speak => "Speak disabled by ruleset"@,
        },
        VerbFailure::NoAvatar => "No avatar bound"@,
        VerbFailure::NoTarget => match verb {
            VerbKind::Assist => "No assist target in range"@,
            VerbKind::Interact => "Nothing to interact with nearby"@,
            _ => "No target in range"@,
        },
        VerbFailure::OutOfRange => "Target out of range"@,
        VerbFailure::NoConsent => "Assist refused — consent pact required from target soul"@,
        VerbFailure::NoAvatarState => "No avatar state"@,
        VerbFailure::Unbound => "You are unbound"@,
        VerbFailure::StaminaExhausted => "Stamina exhausted"@,
        VerbFailure::TargetMissing => "Target missing"@,
        VerbFailure::TargetUnaffected => match verb {
            VerbKind::Assist => "Target cannot receive assist"@,
            _ => "Target cannot be harmed"@,
        },
        VerbFailure::BadSpeech => "Speech empty or too long"@,
        VerbFailure::BadStamp => "Speak refused — consent stamp invalid or expired"@,
        VerbFailure::NoPlayerRecord => "Interact failed"@,
    }
}

pub fn failure_message(verb: VerbKind, f: VerbFailure) -> (s: &'static str)
    ensures
        s@ == failure_text(verb, f),
{
    match f {
        VerbFailure::Disabled => match verb {
            VerbKind::Attack => "Attack disabled by ruleset",
            VerbKind::Assist => "Assist disabled by ruleset",
            VerbKind::Interact => "Interact disabled by ruleset",
            VerbKind::Speak => "Speak disabled by ruleset",
        },
        VerbFailure::NoAvatar => "No avatar bound",
        VerbFailure::NoTarget => match verb {
            VerbKind::Assist => "No assist target in range",
            VerbKind::Interact => "Nothing to interact with nearby",
            _ => "No target in range",
        },
        VerbFailure::OutOfRange => "Target out of range",
        VerbFailure::NoConsent => "Assist refused — consent pact required from target soul",
        VerbFailure::NoAvatarState => "No avatar state",
        VerbFailure::Unbound => "You are unbound",
        VerbFailure::StaminaExhausted => "Stamina exhausted",
        VerbFailure::TargetMissing => "Target missing",
        VerbFailure::TargetUnaffected => match verb {
            VerbKind::Assist => "Target cannot receive assist",
            _ => "Target cannot be harmed",
        },
        VerbFailure::BadSpeech => "Speech empty or too long",
        VerbFailure::BadStamp => "Speak refused — consent stamp invalid or expired",
        VerbFailure::NoPlayerRecord => "Interact failed",
    }
}

/// The message of a landed attack.
pub open spec fn attack_text(target_name: Seq<char>, killed: bool) -> Seq<char> {
    if killed {
        target_name + " fell. Something settled."@
    } else {
        "Strike landed on "@ + target_name + "."@
    }
}

pub fn attack_message(target_name: &str, killed: bool) -> (s: String)
    ensures
        s@ == attack_text(target_name@, killed),
{
    if killed {
        let mut s = String::from_str(target_name);
        s.append(" fell. Something settled.");
        s
    } else {
        let mut s = String::from_str("Strike landed on ");
        s.append(target_name);
        s.append(".");
        s
    }
}

/// How an item rule met an interaction.
#[derive(Clone, Copy, Debug, PartialEq, Eq, Structural)]
pub enum Conservation {
    /// The rule keeps one copy and the player already has it.
    AlreadyCarried,
    /// The item was added to the inventory.
    Granted,
    /// Nothing changed.
    Unchanged,
}

/// `inv` holds an item whose text is `item`.
pub open spec fn carries(inv: Seq<String>, item: Seq<char>) -> bool {
    exists|k: int| 0 <= k < inv.len() && #[trigger] inv[k]@ == item
}

/// Applies a ruleset's item rule to an interaction: under `unique` an item is
/// granted once, under `clone-tax` it is granted when absent (and the grant is
/// taxed), under any other rule nothing is granted.
pub fn apply_conservation(rule: &str, inventory: &mut Vec<String>, item_id: &str) -> (r: Conservation)
    ensures
        ({
            let unique = rule@ == "unique"@;
            let clone_tax = rule@ == "clone-tax"@;
            let had = carries(old(inventory)@, item_id@);
            &&& r == (if unique && had {
                Conservation::AlreadyCarried
            } else if (unique || clone_tax) && !had {
                Conservation::Granted
            } else {
                Conservation::Unchanged
            })
            &&& r == Conservation::Granted ==> final(inventory)@.len() == old(inventory)@.len() + 1
                && final(inventory)@.drop_last() == old(inventory)@ && final(inventory)@.last()@
                == item_id@
            &&& r != Conservation::Granted ==> final(inventory)@ == old(inventory)@
        }),
{
    let unique = same_text(rule, "unique");
    let clone_tax = same_text(rule, "clone-tax");
    let mut had = false;
    let mut k: usize = 0;
    while k < inventory.len()
        invariant
            k <= inventory@.len(),
            had <==> exists|j: int| 0 <= j < k && #[trigger] inventory@[j]@ == item_id@,
        decreases inventory@.len() - k,
    {
        if same_text(inventory[k].as_str(), item_id) {
            had = true;
        }
        k = k + 1;
    }
    if unique && had {
        Conservation::AlreadyCarried
    } else if (unique || clone_tax) && !had {
        inventory.push(String::from_str(item_id));
        Conservation::Granted
    } else {
        Conservation::Unchanged
    }
}

/// `{prefix}:{index}`, the id of the echo an interaction grants.
pub open spec fn item_text(prefix: Seq<char>, index: u32) -> Seq<char> {
    prefix + ":"@ + decimal(index as nat)
}

pub fn item_id(prefix: &str, index: u32) -> (s: String)
    ensures
        s@ == item_text(prefix@, index),
{
    let mut s = String::from_str(prefix);
    s.append(":");
    push_decimal(&mut s, index as u128);
    s
}

/// `prop:{prefix}:{index}`, the id of the prop an interaction places.
pub fn prop_id(prefix: &str, index: u32) -> (s: String)
    ensures
        s@ == "prop:"@ + item_text(prefix@, index),
{
    let mut s = String::from_str("prop:");
    s.append(prefix);
    s.append(":");
    push_decimal(&mut s, index as u128);
    proof {
        assert(s@ =~= "prop:"@ + item_text(prefix@, index));
    }
    s
}

/// The message of an interaction that went ahead.
pub open spec fn interact_text(granted: bool, prop_placed: bool, target_name: Seq<char>) -> Seq<char> {
    if granted && prop_placed {
        "Echo and CRDT prop placed near "@ + target_name + "."@
    } else if granted {
        "Echo received from "@ + target_name + "."@
    } else if prop_placed {
        "CRDT prop placed near "@ + target_name + "."@
    } else {
        "Spoke with "@ + target_name + "."@
    }
}

pub fn interact_message(granted: bool, prop_placed: bool, target_name: &str) -> (s: String)
    ensures
        s@ == interact_text(granted, prop_placed, target_name@),
{
    let mut s = if granted && prop_placed {
        String::from_str("Echo and CRDT prop placed near ")
    } else if granted {
        String::from_str("Echo received from ")
    } else if prop_placed {
        String::from_str("CRDT prop placed near ")
    } else {
        String::from_str("Spoke with ")
    };
    s.append(target_name);
    s.append(".");
    s
}

/// The message under which an `unique` item is refused a second time.
pub fn already_carried_message() -> (s: &'static str)
    ensures
        s@ == "You already carry that echo. Unique conservation."@,
{
    "You already carry that echo. Unique conservation."
}

/// Ticks after a taxed grant at which its clone tax falls due.
pub const CLONE_TAX_DELAY_TICKS: u64 = 400;

/// When an interaction is taxed: an item granted under the `clone-tax` rule owes its tax
/// `CLONE_TAX_DELAY_TICKS` after `now`; nothing else is taxed.
pub fn clone_tax_due(outcome: Conservation, rule: &str, now: u64) -> (r: Option<u64>)
    requires
        now + CLONE_TAX_DELAY_TICKS <= u64::MAX,
    ensures
        r == (if outcome == Conservation::Granted && rule@ == "clone-tax"@ {
            Some((now + CLONE_TAX_DELAY_TICKS) as u64)
        } else {
            None
        }),
{
    if outcome == Conservation::Granted && same_text(rule, "clone-tax") {
        Some(now + CLONE_TAX_DELAY_TICKS)
    } else {
        None
    }
}

/// Whether an attack or assist costs the actor stamina: it does when it lands, and when
/// it reaches a target that has no record or no state to affect; every earlier refusal
/// is free.
pub fn spends_stamina(gate: Result<(), VerbFailure>) -> (r: bool)
    ensures
        r == (gate is Ok || gate == Err::<(), VerbFailure>(VerbFailure::TargetMissing)
            || gate == Err::<(), VerbFailure>(VerbFailure::TargetUnaffected)),
{
    match gate {
        Ok(()) => true,
        Err(VerbFailure::TargetMissing) => true,
        Err(VerbFailure::TargetUnaffected) => true,
        Err(_) => false,
    }
}

/// An attack or assist lands exactly when every check passes: the verb is on, the
/// actor is bound, a target was found in range with consent, the actor (when it has a
/// record) has state, is alive and has the stamina, and the target has a record with
/// state. In particular an actor short of stamina never lands one.
pub proof fn lemma_targeted_lands_iff_all_checks_pass(f: TargetedFacts)
    ensures
        targeted_outcome(f) == Ok::<(), VerbFailure>(()) <==> (f.enabled && f.avatar_bound && f.target_found
            && f.in_range && f.consent_ok && (f.player_record ==> (f.player_has_state && !f.player_dead
            && !f.stamina_short)) && f.target_record && f.target_has_state),
        f.player_record && f.stamina_short ==> targeted_outcome(f) != Ok::<(), VerbFailure>(()),
{
}

/// A refused attack or assist names the first check that failed, in the order: verb
/// on, avatar bound, target found, in range, consent, actor state, actor alive, actor
/// stamina, target record, target state.
pub proof fn lemma_targeted_refusal_is_first_failed_check(f: TargetedFacts)
    ensures
        targeted_outcome(f) == Err::<(), VerbFailure>(VerbFailure::Disabled) <==> !f.enabled,
        targeted_outcome(f) == Err::<(), VerbFailure>(VerbFailure::NoAvatar) <==> f.enabled && !f.avatar_bound,
        targeted_outcome(f) == Err::<(), VerbFailure>(VerbFailure::NoTarget) <==> f.enabled && f.avatar_bound
            && !f.target_found,
        targeted_outcome(f) == Err::<(), VerbFailure>(VerbFailure::OutOfRange) <==> f.enabled && f.avatar_bound
            && f.target_found && !f.in_range,
        targeted_outcome(f) == Err::<(), VerbFailure>(VerbFailure::NoConsent) <==> f.enabled && f.avatar_bound
            && f.target_found && f.in_range && !f.consent_ok,
        targeted_outcome(f) == Err::<(), VerbFailure>(VerbFailure::NoAvatarState) <==> f.enabled
            && f.avatar_bound && f.target_found && f.in_range && f.consent_ok && f.player_record
            && !f.player_has_state,
        targeted_outcome(f) == Err::<(), VerbFailure>(VerbFailure::Unbound) <==> f.enabled && f.avatar_bound
            && f.target_found && f.in_range && f.consent_ok && f.player_record && f.player_has_state
            && f.player_dead,
        targeted_outcome(f) == Err::<(), VerbFailure>(VerbFailure::StaminaExhausted) <==> f.enabled
            && f.avatar_bound && f.target_found && f.in_range && f.consent_ok && f.player_record
            && f.player_has_state && !f.player_dead && f.stamina_short,
        targeted_outcome(f) == Err::<(), VerbFailure>(VerbFailure::TargetMissing) <==> f.enabled
            && f.avatar_bound && f.target_found && f.in_range && f.consent_ok && (f.player_record ==> (
            f.player_has_state && !f.player_dead && !f.stamina_short)) && !f.target_record,
        targeted_outcome(f) == Err::<(), VerbFailure>(VerbFailure::TargetUnaffected) <==> f.enabled
            && f.avatar_bound && f.target_found && f.in_range && f.consent_ok && (f.player_record ==> (
            f.player_has_state && !f.player_dead && !f.stamina_short)) && f.target_record
            && !f.target_has_state,
{
}

} // verus!
