//! The one-shot proof-of-work gate in front of publishing, as a state machine:
//! it decides, the caller reads and marks the seen-set it asks about.
use vstd::prelude::*;
use vstd::string::*;
use vstd::utf8::is_ascii_chars;
use crate::schemas::CHALLENGE_COUNT;

verus! {

/// Where a check of a batch of challenges stands.
#[derive(Clone, Copy, Debug, PartialEq, Eq, Structural)]
pub enum PowStage {
    /// Waiting to hear whether challenge `i` was seen before.
    LookingUp(usize),
    /// Waiting for challenge `i` to be marked as seen.
    Marking(usize),
    Over,
}

/// What the seen-set answered.
#[derive(Clone, Copy, Debug, PartialEq, Eq, Structural)]
pub enum PowEvent {
    /// Whether the challenge asked about was seen before.
    Seen(bool),
    /// The seen-set could not be read.
    LookupFailed,
    /// The challenge was marked as seen, or the attempt failed.
    Marked,
}

/// What the caller is to do next.
#[derive(Clone, Copy, Debug, PartialEq, Eq, Structural)]
pub enum PowAction {
    /// Ask whether challenge `i` was seen before.
    LookUp(usize),
    /// Mark challenge `i` as seen, for as long as challenges stay valid.
    Mark(usize),
    Accept,
    Reject,
}

/// The opening move, given whether the first challenge checks out.
pub open spec fn pow_first(first_valid: bool) -> (PowStage, PowAction) {
    if first_valid {
        (PowStage::LookingUp(0), PowAction::LookUp(0))
    } else {
        (PowStage::Over, PowAction::Reject)
    }
}

/// The next stage and action of a check of `n` challenges, given whether the
/// challenge after the current one checks out. A challenge seen before, or one
/// whose state cannot be read, rejects the batch.
pub open spec fn pow_next(stage: PowStage, event: PowEvent, next_valid: bool, n: nat) -> (PowStage, PowAction) {
    match stage {
        PowStage::LookingUp(i) => match event {
            PowEvent::Seen(false) => (PowStage::Marking(i), PowAction::Mark(i)),
            _ => (PowStage::Over, PowAction::Reject),
        },
        PowStage::Marking(i) => match event {
            PowEvent::Marked => if i + 1 >= n {
                (PowStage::Over, PowAction::Accept)
            } else if next_valid {
                (PowStage::LookingUp((i + 1) as usize), PowAction::LookUp((i + 1) as usize))
            } else {
                (PowStage::Over, PowAction::Reject)
            },
            _ => (PowStage::Over, PowAction::Reject),
        },
        PowStage::Over => (PowStage::Over, PowAction::Reject),
    }
}

/// A decimal digit.
pub open spec fn is_digit(c: char) -> bool {
    c == '0' || c == '1' || c == '2' || c == '3' || c == '4' || c == '5' || c == '6' || c == '7' || c == '8'
        || c == '9'
}

/// The token names, at its third and fourth characters, a difficulty above 64.
pub open spec fn names_high_difficulty(t: Seq<char>) -> bool {
    &&& t.len() >= 4
    &&& is_digit(t[3])
    &&& (t[2] == '7' || t[2] == '8' || t[2] == '9' || (t[2] == '6' && (t[3] == '5' || t[3] == '6'
        || t[3] == '7' || t[3] == '8' || t[3] == '9')))
}

/// Relies on `spow::pow::Pow::validate`, which does not panic on ASCII input
/// naming a difficulty of at most 64 (above that, its bit count overflows a shift).
/// Whether a token checks out depends on the clock, so nothing is stated of it.
#[verifier::external_body]
fn pow_validates(token: &str) -> (ok: bool)
    requires
        is_ascii(token),
        !names_high_difficulty(token@),
{
    spow::pow::Pow::validate(token).is_ok()
}

fn high_difficulty(token: &str) -> (r: bool)
    ensures
        r == names_high_difficulty(token@),
{
    if token.unicode_len() < 4 {
        return false;
    }
    let tens = token.get_char(2);
    let units = token.get_char(3);
    let digit = units == '0' || units == '1' || units == '2' || units == '3' || units == '4' || units == '5'
        || units == '6' || units == '7' || units == '8' || units == '9';
    digit && (tens == '7' || tens == '8' || tens == '9' || (tens == '6' && (units == '5' || units == '6'
        || units == '7' || units == '8' || units == '9')))
}

/// Whether `token` is a solved, unexpired challenge. A token that is not ASCII,
/// or that names a difficulty above 64, never is.
pub fn token_checks_out(token: &str) -> (ok: bool)
    ensures
        !is_ascii_chars(token@) || names_high_difficulty(token@) ==> !ok,
{
    if token.is_ascii() && !high_difficulty(token) {
        pow_validates(token)
    } else {
        false
    }
}

/// One check of a batch of challenges.
pub struct PowGate {
    pub stage: PowStage,
}

impl PowGate {
    /// Opens a check, given whether the first challenge checks out.
    pub fn start_with(first_valid: bool) -> (r: (PowGate, PowAction))
        ensures
            (r.0.stage, r.1) == pow_first(first_valid),
    {
        if first_valid {
            (PowGate { stage: PowStage::LookingUp(0) }, PowAction::LookUp(0))
        } else {
            (PowGate { stage: PowStage::Over }, PowAction::Reject)
        }
    }

    /// Opens a check of `challenges`, validating the first.
    pub fn start(challenges: &[String; CHALLENGE_COUNT]) -> (r: (PowGate, PowAction))
        ensures
            (r.0.stage, r.1) == pow_first(true) || (r.0.stage, r.1) == pow_first(false),
            !is_ascii_chars(challenges@[0]@) ==> (r.0.stage, r.1) == pow_first(false),
            names_high_difficulty(challenges@[0]@) ==> (r.0.stage, r.1) == pow_first(false),
    {
        let ok = token_checks_out(challenges[0].as_str());
        PowGate::start_with(ok)
    }

    /// Takes in the answer to the last action, given whether the challenge after
    /// the current one checks out.
    pub fn advance(&mut self, event: PowEvent, next_valid: bool) -> (act: PowAction)
        ensures
            (final(self).stage, act) == pow_next(old(self).stage, event, next_valid, CHALLENGE_COUNT as nat),
    {
        match (self.stage, event) {
            (PowStage::LookingUp(i), PowEvent::Seen(false)) => {
                self.stage = PowStage::Marking(i);
                PowAction::Mark(i)
            },
            (PowStage::Marking(i), PowEvent::Marked) => {
                if i >= CHALLENGE_COUNT - 1 {
                    self.stage = PowStage::Over;
                    PowAction::Accept
                } else if next_valid {
                    self.stage = PowStage::LookingUp(i + 1);
                    PowAction::LookUp(i + 1)
                } else {
                    self.stage = PowStage::Over;
                    PowAction::Reject
                }
            },
            _ => {
                self.stage = PowStage::Over;
                PowAction::Reject
            },
        }
    }

    /// Takes in the answer to the last action, validating the next challenge
    /// where the check moves on to it.
    pub fn step(&mut self, challenges: &[String; CHALLENGE_COUNT], event: PowEvent) -> (act: PowAction)
        ensures
            (final(self).stage, act) == pow_next(old(self).stage, event, true, CHALLENGE_COUNT as nat)
                || (final(self).stage, act) == pow_next(old(self).stage, event, false, CHALLENGE_COUNT as nat),
            // A next challenge that can never check out takes the rejecting branch.
            old(self).stage is Marking && event == PowEvent::Marked && old(self).stage->Marking_0 + 1
                < CHALLENGE_COUNT && ({
                let next = challenges@[old(self).stage->Marking_0 + 1]@;
                !is_ascii_chars(next) || names_high_difficulty(next)
            }) ==> (final(self).stage, act) == pow_next(old(self).stage, event, false, CHALLENGE_COUNT as nat),
    {
        let next_valid = match (self.stage, event) {
            (PowStage::Marking(i), PowEvent::Marked) => if i < CHALLENGE_COUNT - 1 {
                token_checks_out(challenges[i + 1].as_str())
            } else {
                false
            },
            _ => false,
        };
        self.advance(event, next_valid)
    }
}

/// Whether challenge `k` checks out, by `valid`.
pub open spec fn valid_at(valid: Seq<bool>, k: int) -> bool {
    0 <= k < valid.len() && valid[k]
}

/// A check of `cs` run to its end against a seen-set that answers truthfully
/// and keeps every mark: whether it accepts, and the seen-set after.
pub open spec fn drive(
    seen: Set<Seq<char>>,
    cs: Seq<Seq<char>>,
    valid: Seq<bool>,
    stage: PowStage,
    act: PowAction,
    fuel: nat,
) -> (bool, Set<Seq<char>>)
    decreases fuel,
{
    if fuel == 0 {
        (false, seen)
    } else {
        match act {
            PowAction::Accept => (true, seen),
            PowAction::Reject => (false, seen),
            PowAction::LookUp(i) => {
                let next = pow_next(stage, PowEvent::Seen(seen.contains(cs[i as int])), false, cs.len());
                drive(seen, cs, valid, next.0, next.1, (fuel - 1) as nat)
            },
            PowAction::Mark(i) => {
                let next = pow_next(stage, PowEvent::Marked, valid_at(valid, i + 1), cs.len());
                drive(seen.insert(cs[i as int]), cs, valid, next.0, next.1, (fuel - 1) as nat)
            },
        }
    }
}

/// A whole check of `cs` against `seen`, where `valid` says which challenges check out.
pub open spec fn gate_outcome(seen: Set<Seq<char>>, cs: Seq<Seq<char>>, valid: Seq<bool>) -> (bool, Set<Seq<char>>) {
    let first = pow_first(valid_at(valid, 0));
    drive(seen, cs, valid, first.0, first.1, 2 * cs.len() + 1)
}

proof fn lemma_drive_accepting(
    seen: Set<Seq<char>>,
    cs: Seq<Seq<char>>,
    valid: Seq<bool>,
    i: usize,
    marking: bool,
    fuel: nat,
)
    requires
        i < cs.len() <= usize::MAX,
        ({
            let stage = if marking { PowStage::Marking(i) } else { PowStage::LookingUp(i) };
            let act = if marking { PowAction::Mark(i) } else { PowAction::LookUp(i) };
            drive(seen, cs, valid, stage, act, fuel).0
        }),
    ensures
        ({
            let stage = if marking { PowStage::Marking(i) } else { PowStage::LookingUp(i) };
            let act = if marking { PowAction::Mark(i) } else { PowAction::LookUp(i) };
            let after = drive(seen, cs, valid, stage, act, fuel).1;
            &&& seen.subset_of(after)
            &&& forall|k: int| i <= k < cs.len() ==> after.contains(#[trigger] cs[k])
            &&& forall|k: int| i < k < cs.len() ==> !seen.contains(#[trigger] cs[k])
            &&& !marking ==> !seen.contains(cs[i as int])
            &&& marking ==> forall|k: int| i < k < cs.len() ==> cs[k] != cs[i as int]
        }),
    decreases fuel,
{
    let n = cs.len();
    assert(fuel > 0);
    if marking {
        let seen2 = seen.insert(cs[i as int]);
        let next = pow_next(PowStage::Marking(i), PowEvent::Marked, valid_at(valid, i + 1), n);
        assert(drive(seen, cs, valid, PowStage::Marking(i), PowAction::Mark(i), fuel) == drive(
            seen2, cs, valid, next.0, next.1, (fuel - 1) as nat));
        if i + 1 < n {
            assert(valid_at(valid, i + 1));
            assert(next == (PowStage::LookingUp((i + 1) as usize), PowAction::LookUp((i + 1) as usize)));
            lemma_drive_accepting(seen2, cs, valid, (i + 1) as usize, false, (fuel - 1) as nat);
            let after = drive(seen2, cs, valid, next.0, next.1, (fuel - 1) as nat).1;
            assert forall|k: int| i < k < cs.len() implies cs[k] != cs[i as int] by {
                assert(!seen2.contains(cs[k]));
            }
        } else {
            assert(next == (PowStage::Over, PowAction::Accept));
        }
    } else {
        let next = pow_next(PowStage::LookingUp(i), PowEvent::Seen(seen.contains(cs[i as int])), false, n);
        assert(drive(seen, cs, valid, PowStage::LookingUp(i), PowAction::LookUp(i), fuel) == drive(
            seen, cs, valid, next.0, next.1, (fuel - 1) as nat));
        assert(!seen.contains(cs[i as int]));
        assert(next == (PowStage::Marking(i), PowAction::Mark(i)));
        lemma_drive_accepting(seen, cs, valid, i, true, (fuel - 1) as nat);
    }
}

/// A challenge is good for one accepted batch only: once a batch holding `t` has
/// been accepted, no batch holding `t` is accepted while its mark lasts.
pub proof fn lemma_single_use(
    seen: Set<Seq<char>>,
    cs: Seq<Seq<char>>,
    valid: Seq<bool>,
    later_seen: Set<Seq<char>>,
    later_cs: Seq<Seq<char>>,
    later_valid: Seq<bool>,
    t: Seq<char>,
)
    requires
        0 < cs.len() <= usize::MAX,
        0 < later_cs.len() <= usize::MAX,
        gate_outcome(seen, cs, valid).0,
        gate_outcome(seen, cs, valid).1.subset_of(later_seen),
        cs.contains(t),
        later_cs.contains(t),
    ensures
        !gate_outcome(later_seen, later_cs, later_valid).0,
{
    let fuel = 2 * cs.len() + 1;
    assert(valid_at(valid, 0));
    lemma_drive_accepting(seen, cs, valid, 0, false, fuel);
    let after = gate_outcome(seen, cs, valid).1;
    let k = choose|k: int| 0 <= k < cs.len() && cs[k] == t;
    assert(after.contains(cs[k]));
    if gate_outcome(later_seen, later_cs, later_valid).0 {
        assert(valid_at(later_valid, 0));
        lemma_drive_accepting(later_seen, later_cs, later_valid, 0, false, 2 * later_cs.len() + 1);
        let k2 = choose|k2: int| 0 <= k2 < later_cs.len() && later_cs[k2] == t;
        if k2 > 0 {
            assert(!later_seen.contains(later_cs[k2]));
        }
    }
}

/// A batch that repeats a challenge is never accepted.
pub proof fn lemma_repeat_rejected(seen: Set<Seq<char>>, cs: Seq<Seq<char>>, valid: Seq<bool>, a: int, b: int)
    requires
        0 < cs.len() <= usize::MAX,
        0 <= a < b < cs.len(),
        cs[a] == cs[b],
    ensures
        !gate_outcome(seen, cs, valid).0,
{
    if gate_outcome(seen, cs, valid).0 {
        assert(valid_at(valid, 0));
        lemma_drive_no_repeat(seen, cs, valid, 0, false, 2 * cs.len() + 1, a, b);
    }
}

proof fn lemma_drive_no_repeat(
    seen: Set<Seq<char>>,
    cs: Seq<Seq<char>>,
    valid: Seq<bool>,
    i: usize,
    marking: bool,
    fuel: nat,
    a: int,
    b: int,
)
    requires
        i < cs.len() <= usize::MAX,
        i <= a < b < cs.len(),
        cs[a] == cs[b],
    ensures
        ({
            let stage = if marking { PowStage::Marking(i) } else { PowStage::LookingUp(i) };
            let act = if marking { PowAction::Mark(i) } else { PowAction::LookUp(i) };
            !drive(seen, cs, valid, stage, act, fuel).0
        }),
    decreases fuel,
{
    let stage = if marking { PowStage::Marking(i) } else { PowStage::LookingUp(i) };
    let act = if marking { PowAction::Mark(i) } else { PowAction::LookUp(i) };
    if drive(seen, cs, valid, stage, act, fuel).0 {
        let n = cs.len();
        if marking {
            if a == i {
                lemma_drive_accepting(seen, cs, valid, i, true, fuel);
            } else {
                let seen2 = seen.insert(cs[i as int]);
                let next = pow_next(PowStage::Marking(i), PowEvent::Marked, valid_at(valid, i + 1), n);
                assert(drive(seen, cs, valid, stage, act, fuel) == drive(seen2, cs, valid, next.0, next.1, (fuel - 1) as nat));
                assert(valid_at(valid, i + 1));
                assert(next == (PowStage::LookingUp((i + 1) as usize), PowAction::LookUp((i + 1) as usize)));
                lemma_drive_no_repeat(seen2, cs, valid, (i + 1) as usize, false, (fuel - 1) as nat, a, b);
            }
        } else {
            let next = pow_next(PowStage::LookingUp(i), PowEvent::Seen(seen.contains(cs[i as int])), false, n);
            assert(drive(seen, cs, valid, stage, act, fuel) == drive(seen, cs, valid, next.0, next.1, (fuel - 1) as nat));
            assert(next == (PowStage::Marking(i), PowAction::Mark(i)));
            lemma_drive_no_repeat(seen, cs, valid, i, true, (fuel - 1) as nat, a, b);
        }
    }
}

} // verus!
