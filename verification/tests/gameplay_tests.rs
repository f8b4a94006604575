use tbc_engine::gameplay::{
    already_carried_message, apply_conservation, attack_message, failure_message, interact_gate,
    interact_message, item_id, prop_id, targeted_gate, Conservation, InteractFacts, TargetedFacts,
    VerbFailure, VerbKind,
};
use tbc_engine::social::{push_recent_speak, speak_check, speak_check_trimmed, speak_message, SpeakEvent};

fn all_good() -> TargetedFacts {
    TargetedFacts {
        enabled: true,
        avatar_bound: true,
        target_found: true,
        in_range: true,
        consent_ok: true,
        player_record: true,
        player_has_state: true,
        player_dead: false,
        stamina_short: false,
        target_record: true,
        target_has_state: true,
    }
}

#[test]
fn targeted_gate_checks_in_order() {
    assert_eq!(targeted_gate(&all_good()), Ok(()));
    let mut f = all_good();
    f.enabled = false;
    f.avatar_bound = false;
    assert_eq!(targeted_gate(&f), Err(VerbFailure::Disabled));
    let mut f = all_good();
    f.in_range = false;
    f.stamina_short = true;
    assert_eq!(targeted_gate(&f), Err(VerbFailure::OutOfRange));
    let mut f = all_good();
    f.consent_ok = false;
    assert_eq!(targeted_gate(&f), Err(VerbFailure::NoConsent));
    let mut f = all_good();
    f.player_dead = true;
    f.stamina_short = true;
    assert_eq!(targeted_gate(&f), Err(VerbFailure::Unbound));
    let mut f = all_good();
    f.player_record = false;
    f.player_dead = true;
    assert_eq!(targeted_gate(&f), Ok(()));
    let mut f = all_good();
    f.target_has_state = false;
    assert_eq!(targeted_gate(&f), Err(VerbFailure::TargetUnaffected));
}

#[test]
fn interact_gate_checks_in_order() {
    let ok = InteractFacts {
        enabled: true,
        avatar_bound: true,
        target_found: true,
        player_record: true,
        player_has_state: true,
        player_dead: false,
    };
    assert_eq!(interact_gate(&ok), Ok(()));
    let mut f = ok;
    f.target_found = false;
    assert_eq!(interact_gate(&f), Err(VerbFailure::NoTarget));
    let mut f = ok;
    f.player_record = false;
    assert_eq!(interact_gate(&f), Err(VerbFailure::NoPlayerRecord));
}

#[test]
fn failure_messages_per_verb() {
    assert_eq!(failure_message(VerbKind::Attack, VerbFailure::Disabled), "Attack disabled by ruleset");
    assert_eq!(failure_message(VerbKind::Assist, VerbFailure::NoTarget), "No assist target in range");
    assert_eq!(failure_message(VerbKind::Interact, VerbFailure::NoTarget), "Nothing to interact with nearby");
    assert_eq!(failure_message(VerbKind::Attack, VerbFailure::TargetUnaffected), "Target cannot be harmed");
    assert_eq!(failure_message(VerbKind::Assist, VerbFailure::TargetUnaffected), "Target cannot receive assist");
    assert_eq!(failure_message(VerbKind::Speak, VerbFailure::BadSpeech), "Speech empty or too long");
    assert_eq!(failure_message(VerbKind::Interact, VerbFailure::NoPlayerRecord), "Interact failed");
}

#[test]
fn attack_messages() {
    assert_eq!(attack_message("AI-Guy-0", true), "AI-Guy-0 fell. Something settled.");
    assert_eq!(attack_message("AI-Guy-0", false), "Strike landed on AI-Guy-0.");
}

#[test]
fn interact_grants_unique_item() {
    let mut inv: Vec<String> = Vec::new();
    let item = item_id("echo", 1);
    assert_eq!(item, "echo:1");
    assert_eq!(apply_conservation("unique", &mut inv, &item), Conservation::Granted);
    assert_eq!(inv, vec!["echo:1".to_string()]);
    assert_eq!(apply_conservation("unique", &mut inv, &item), Conservation::AlreadyCarried);
    assert_eq!(inv.len(), 1);
}

#[test]
fn clone_tax_and_other_rules() {
    let mut inv: Vec<String> = Vec::new();
    assert_eq!(apply_conservation("clone-tax", &mut inv, "a:1"), Conservation::Granted);
    assert_eq!(apply_conservation("clone-tax", &mut inv, "a:1"), Conservation::Unchanged);
    assert_eq!(apply_conservation("free", &mut inv, "a:2"), Conservation::Unchanged);
    assert_eq!(inv, vec!["a:1".to_string()]);
}

#[test]
fn interact_messages() {
    assert_eq!(interact_message(true, true, "Near"), "Echo and CRDT prop placed near Near.");
    assert_eq!(interact_message(true, false, "Near"), "Echo received from Near.");
    assert_eq!(interact_message(false, true, "Near"), "CRDT prop placed near Near.");
    assert_eq!(interact_message(false, false, "Near"), "Spoke with Near.");
    assert_eq!(prop_id("echo", 3), "prop:echo:3");
    assert_eq!(already_carried_message(), "You already carry that echo. Unique conservation.");
}

#[test]
fn speak_checks() {
    assert_eq!(speak_check(false, "hi", false), Err(VerbFailure::Disabled));
    assert_eq!(speak_check(true, "   ", false), Err(VerbFailure::BadSpeech));
    assert_eq!(speak_check(true, "  The seam remembers.  ", false), Ok("The seam remembers.".to_string()));
    assert_eq!(speak_check(true, "hi", true), Err(VerbFailure::BadStamp));
    let long = "x".repeat(121);
    assert_eq!(speak_check_trimmed(&long, false), Err(VerbFailure::BadSpeech));
    assert_eq!(speak_check_trimmed(&long[..120], false), Ok(()));
}

#[test]
fn speak_messages() {
    assert_eq!(speak_message(3), "3 nearby minds heard.");
    assert_eq!(speak_message(0), "Words dissipated. No observers in range.");
}

#[test]
fn recent_speaks_keep_last_32() {
    let mut recent = Vec::new();
    for i in 0..40u64 {
        push_recent_speak(
            &mut recent,
            SpeakEvent {
                fwau: 1,
                text: format!("{}", i),
                tick: i,
            },
        );
    }
    assert_eq!(recent.len(), 32);
    assert_eq!(recent[0].tick, 8);
    assert_eq!(recent[31].tick, 39);
}

#[test]
fn speak_disabled_when_ruleset_off() {
    let res = speak_check(false, "muted", false);
    assert_eq!(res, Err(VerbFailure::Disabled));
    let message = failure_message(VerbKind::Speak, VerbFailure::Disabled);
    assert!(message.contains("disabled"));
}
