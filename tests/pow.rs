use backend::pow::{token_checks_out, PowAction, PowEvent, PowGate, PowStage};
use backend::schemas::CHALLENGE_COUNT;
use std::collections::HashSet;

fn run(seen: &mut HashSet<String>, tokens: &[String]) -> bool {
    let (mut gate, mut act) = PowGate::start_with(true);
    loop {
        act = match act {
            PowAction::LookUp(i) => gate.advance(PowEvent::Seen(seen.contains(&tokens[i])), true),
            PowAction::Mark(i) => {
                seen.insert(tokens[i].clone());
                gate.advance(PowEvent::Marked, true)
            }
            PowAction::Accept => return true,
            PowAction::Reject => return false,
        }
    }
}

fn distinct_tokens(prefix: &str) -> Vec<String> {
    (0..CHALLENGE_COUNT).map(|i| format!("{prefix}{i}")).collect()
}

#[test]
fn reused_token_is_rejected() {
    let mut seen = HashSet::new();
    let same: Vec<String> = (0..CHALLENGE_COUNT).map(|_| "t".to_string()).collect();
    assert!(!run(&mut seen, &same));
    assert!(seen.contains("t"));
}

#[test]
fn batch_is_accepted_once() {
    let mut seen = HashSet::new();
    let tokens = distinct_tokens("a");
    assert!(run(&mut seen, &tokens));
    assert_eq!(seen.len(), CHALLENGE_COUNT);
    assert!(!run(&mut seen, &tokens));
    let mut mixed = distinct_tokens("b");
    mixed[9] = tokens[3].clone();
    assert!(!run(&mut seen, &mixed));
}

#[test]
fn partial_batch_keeps_marks() {
    let mut seen = HashSet::new();
    seen.insert("c5".to_string());
    assert!(!run(&mut seen, &distinct_tokens("c")));
    assert!(seen.contains("c0"));
    assert!(seen.contains("c4"));
    assert!(!seen.contains("c6"));
}

#[test]
fn unreadable_seen_set_rejects() {
    let (mut gate, act) = PowGate::start_with(true);
    assert_eq!(act, PowAction::LookUp(0));
    assert_eq!(gate.advance(PowEvent::LookupFailed, true), PowAction::Reject);
    assert_eq!(gate.stage, PowStage::Over);
}

#[test]
fn invalid_token_rejects() {
    let (gate, act) = PowGate::start_with(false);
    assert_eq!(act, PowAction::Reject);
    assert_eq!(gate.stage, PowStage::Over);
    let (mut gate, _) = PowGate::start_with(true);
    assert_eq!(gate.advance(PowEvent::Seen(false), true), PowAction::Mark(0));
    assert_eq!(gate.advance(PowEvent::Marked, false), PowAction::Reject);
}

#[test]
fn garbage_tokens_do_not_check_out() {
    assert!(!token_checks_out(""));
    assert!(!token_checks_out("1:20:1702684559:not-a-real-token"));
    assert!(!token_checks_out("é"));
    assert!(!token_checks_out(&format!("1:72:1702684559:{}", "x".repeat(80))));
    let garbage: [String; CHALLENGE_COUNT] = std::array::from_fn(|i| format!("junk{i}"));
    let (_, act) = PowGate::start(&garbage);
    assert_eq!(act, PowAction::Reject);
}

#[test]
fn solved_token_checks_out() {
    spow::pow::Pow::init_random().unwrap();
    let challenge = spow::pow::Pow::with_difficulty(10, 900).unwrap().to_string();
    let solved = spow::pow::Pow::work(&challenge).unwrap();
    assert!(token_checks_out(&solved));
    assert!(!token_checks_out(&challenge));
}
