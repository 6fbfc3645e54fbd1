use sudo_pop::agent::is_ok_exit;
use sudo_pop::attempts::{Budget, MAX_ATTEMPTS, WRONG_PASSWORD};
use sudo_pop::helper::Outcome;
use sudo_pop::prompt::{
    after_attempt, after_budget, cancelled, exit_for, AfterAttempt, Polled, Retry, Stash,
    EXIT_CANCELLED, EXIT_SUCCESS,
};
use sudo_pop::secret::Secret;

/// Records what the window was told.
struct Rec {
    errors: Vec<String>,
    attempts: Vec<Option<(String, bool)>>,
}

/// The retry loop as the prompt process runs it: after each attempt ask the
/// library what happens next, read the budget when it says to, and tell the
/// window what it says to tell.
fn drive_with_budget(
    outcomes: Vec<Outcome>,
    mut get_budget: impl FnMut() -> Option<Budget>,
) -> (Outcome, usize, Rec) {
    let mut rec = Rec {
        errors: Vec::new(),
        attempts: Vec::new(),
    };
    let mut it = outcomes.into_iter();
    let mut calls = 0;
    let mut attempt = 1;
    let last = loop {
        calls += 1;
        let outcome = it
            .next()
            .expect("run_attempts asked more times than scripted");
        match after_attempt(attempt, outcome) {
            AfterAttempt::Stop(o) => break o,
            AfterAttempt::ReadBudget => match after_budget(get_budget()) {
                Retry::Locked => break Outcome::Cancelled,
                Retry::Again { attempts } => {
                    if let Some(line) = attempts {
                        rec.attempts.push(line);
                    }
                    rec.errors.push(WRONG_PASSWORD.to_owned());
                }
            },
        }
        attempt += 1;
    };
    (last, calls, rec)
}

fn drive(outcomes: Vec<Outcome>) -> (Outcome, usize, Rec) {
    drive_with_budget(outcomes, || None)
}

fn secret(text: &str) -> Secret {
    let mut s = Secret::new();
    s.buffer_mut().push_str(text);
    s
}

#[test]
fn a_sigterm_reads_as_a_cancel_to_the_helper_loop() {
    let mut stash = Stash::new();
    assert!(!cancelled(&mut stash, false, Polled::Nothing), "nothing has happened yet");
    assert!(
        cancelled(&mut stash, true, Polled::Nothing),
        "the flag alone ends the wait, without a window message"
    );
    assert!(cancelled(&mut stash, false, Polled::Cancel));
    assert!(cancelled(&mut stash, false, Polled::Closed));
}

#[test]
fn spent_password_tries_end_the_request_without_a_dbus_error() {
    assert_eq!(exit_for(Outcome::Success), EXIT_SUCCESS);
    assert_eq!(exit_for(Outcome::Failed), EXIT_CANCELLED);
    assert_eq!(exit_for(Outcome::Cancelled), EXIT_CANCELLED);
    assert_eq!(exit_for(Outcome::RefusedWithoutPrompt), EXIT_CANCELLED);
}

#[test]
fn a_right_answer_stops_after_one_attempt() {
    let (last, calls, rec) = drive(vec![Outcome::Success]);
    assert_eq!(last, Outcome::Success);
    assert_eq!(calls, 1);
    assert!(rec.errors.is_empty(), "no retry, so no 'Wrong'");
}

#[test]
fn a_cancel_stops_immediately() {
    let (last, calls, _) = drive(vec![Outcome::Cancelled]);
    assert_eq!(last, Outcome::Cancelled);
    assert_eq!(calls, 1);
}

#[test]
fn wrong_then_right_retries_once() {
    let (last, calls, rec) = drive(vec![Outcome::Failed, Outcome::Success]);
    assert_eq!(last, Outcome::Success);
    assert_eq!(calls, 2);
    assert_eq!(rec.errors, vec![WRONG_PASSWORD.to_owned()]);
}

#[test]
fn three_wrong_answers_stop_at_the_cap() {
    let (last, calls, rec) = drive(vec![Outcome::Failed; MAX_ATTEMPTS as usize]);
    assert_eq!(last, Outcome::Failed);
    assert_eq!(calls, MAX_ATTEMPTS as usize, "no fourth prompt");
    assert_eq!(rec.errors.len(), (MAX_ATTEMPTS - 1) as usize);
}

#[test]
fn wrong_updates_attempts_on_the_window() {
    let mut budgets = vec![
        Some(Budget {
            remaining: 9,
            unlock_in: None,
        }),
        Some(Budget {
            remaining: 8,
            unlock_in: None,
        }),
    ]
    .into_iter();

    let (last, calls, rec) = drive_with_budget(vec![Outcome::Failed, Outcome::Success], || {
        budgets.next().flatten()
    });
    assert_eq!(last, Outcome::Success);
    assert_eq!(calls, 2);
    assert_eq!(
        rec.attempts,
        vec![Some((
            "9 attempt(s) left before the account locks".to_owned(),
            false
        ))]
    );
}

#[test]
fn lockout_during_retries_stops_immediately() {
    let mut budgets = vec![Some(Budget {
        remaining: 0,
        unlock_in: Some(60),
    })]
    .into_iter();

    let (last, calls, rec) = drive_with_budget(vec![Outcome::Failed, Outcome::Failed], || {
        budgets.next().flatten()
    });
    assert_eq!(last, Outcome::Cancelled);
    assert_eq!(calls, 1, "must not attempt a second time when locked");
    assert!(rec.errors.is_empty(), "no 'Wrong' when locked");
}

#[test]
fn a_password_typed_during_a_fingerprint_retry_is_kept() {
    let mut stash = Stash::new();
    assert!(
        !cancelled(&mut stash, false, Polled::Answer(secret("hunter2"))),
        "a typed password is not a cancel"
    );
    let got = stash.take_for(false).expect("stashed answer");
    assert_eq!(got.as_bytes(), b"hunter2");
}

#[test]
fn a_stashed_password_never_answers_an_echoed_prompt() {
    let mut stash = Stash::new();
    assert!(!cancelled(&mut stash, false, Polled::Answer(secret("hunter2"))));
    assert!(
        stash.take_for(true).is_none(),
        "a password typed for a hidden field must not be handed to an echoed prompt"
    );
    assert!(stash.take_for(false).is_none(), "and it is wiped, not kept for later");
}

#[test]
fn only_the_last_typed_password_is_kept() {
    let mut stash = Stash::new();
    stash.keep(secret("first"));
    stash.keep(secret("second"));
    assert_eq!(stash.take_for(false).unwrap().as_bytes(), b"second");
}

#[test]
fn a_spent_budget_alarms_with_error_color() {
    let mut budgets = vec![Some(Budget {
        remaining: 3,
        unlock_in: None,
    })]
    .into_iter();

    let (last, calls, rec) = drive_with_budget(vec![Outcome::Failed, Outcome::Success], || {
        budgets.next().flatten()
    });
    assert_eq!(last, Outcome::Success);
    assert_eq!(calls, 2);
    assert_eq!(
        rec.attempts,
        vec![Some((
            "3 attempt(s) left before the account locks".to_owned(),
            true
        ))]
    );
}

#[test]
fn every_outcome_ends_the_request_without_a_dbus_error() {
    for outcome in [
        Outcome::Success,
        Outcome::Failed,
        Outcome::Cancelled,
        Outcome::RefusedWithoutPrompt,
    ] {
        assert!(is_ok_exit(exit_for(outcome)), "{outcome:?}");
    }
}
