use sudo_pop::attempts::{
    budget, parse_conf_setting, parse_epoch, parse_pam_setting, parse_tally, record, setting,
    stack_counts_failures, used, Budget, STALE_AFTER_SECS, WARN_AT_OR_BELOW,
};
use sudo_pop::pam::PamDir;

#[test]
fn deny_is_read_from_faillock_conf() {
    let conf = "# faillock\ndeny = 10\nunlock_time = 120\n";
    assert_eq!(parse_conf_setting(conf, "deny"), Some(10));
    assert_eq!(parse_conf_setting(conf, "unlock_time"), Some(120));
    assert_eq!(parse_conf_setting(conf, "audit"), None);
    // a commented-out setting does not count
    assert_eq!(parse_conf_setting("# deny = 3\n", "deny"), None);
    // a longer key that merely starts with ours is not a match
    assert_eq!(parse_conf_setting("denyfoo = 3\n", "deny"), None);
}

#[test]
fn deny_is_read_from_a_pam_faillock_line() {
    let pam = "auth  required  pam_faillock.so  preauth deny=10 unlock_time=120\n";
    assert_eq!(parse_pam_setting(pam, "deny"), Some(10));
    assert_eq!(parse_pam_setting(pam, "unlock_time"), Some(120));
    // only pam_faillock lines are consulted
    assert_eq!(
        parse_pam_setting("auth required pam_unix.so deny=3\n", "deny"),
        None
    );
    assert_eq!(
        parse_pam_setting("# pam_faillock.so deny=3\n", "deny"),
        None
    );
}

#[test]
fn faillock_conf_wins_over_the_pam_lines() {
    let pam = "auth required pam_faillock.so preauth deny=5\n";
    assert_eq!(setting(Some("deny = 10\n"), Some(pam), None, "deny"), Some(10));
    assert_eq!(setting(Some("# nothing\n"), Some(pam), None, "deny"), Some(5));
    assert_eq!(setting(None, None, Some(pam), "deny"), Some(5));
    assert_eq!(setting(None, None, None, "deny"), None);
}

#[test]
fn the_tally_counts_only_valid_rows() {
    let out = "\
lmh:
When                Type  Source   Valid
2026-08-19 12:00:01 RHOST host     V
2026-08-19 12:00:02 RHOST host     I
2026-08-19 12:00:03 RHOST host     V
";
    let (valid, newest) = parse_tally(out);
    assert_eq!(valid, 2, "the I row must not count toward the budget");
    assert_eq!(
        newest,
        Some(("2026-08-19".to_owned(), "12:00:03".to_owned())),
        "newest is the last valid row"
    );
}

#[test]
fn a_tally_with_no_valid_rows_is_zero() {
    assert_eq!(parse_tally("lmh:\nWhen Type Source Valid\n"), (0, None));
    assert_eq!(parse_tally(""), (0, None));
}

#[test]
fn dates_come_back_as_a_timestamp() {
    assert_eq!(parse_epoch(b"1786881603\n"), Some(1786881603));
    assert_eq!(parse_epoch(b"date: invalid date\n"), None);
    assert_eq!(parse_epoch(b""), None);
}

#[test]
fn the_budget_line_is_always_there() {
    let b = |remaining| Budget {
        remaining,
        unlock_in: None,
    };
    // Ten left is not a warning, but the window says so all the same.
    assert_eq!(
        b(10).status(),
        Some((
            "10 attempt(s) left before the account locks".to_owned(),
            false
        ))
    );
    assert_eq!(
        b(0).status(),
        None,
        "a locked account speaks through refusal"
    );
}

#[test]
fn only_three_or_fewer_turn_the_line_red() {
    let warned = |remaining| {
        Budget {
            remaining,
            unlock_in: None,
        }
        .status()
        .expect("not locked")
        .1
    };
    assert!(!warned(5));
    assert!(!warned(4));
    assert!(warned(WARN_AT_OR_BELOW));
    assert!(warned(3));
    assert!(warned(1));
}

#[test]
fn a_service_that_does_not_count_has_no_budget() {
    // A stack without pam_faillock has no line and no refusal, whatever the
    // tally says.
    let dir = PamDir::new();
    let counts = stack_counts_failures(&dir, "sudo-pop-no-such-pam-service");
    assert!(!counts);
    assert!(budget(counts, Some(10), Some((10, Some(100))), Some(600), 160).is_none());
}

#[test]
fn the_budget_is_what_deny_leaves() {
    let b = budget(true, Some(10), Some((3, Some(100))), Some(600), 160).unwrap();
    assert_eq!(b.remaining, 7);
    assert_eq!(b.unlock_in, None, "not locked, no countdown");
    let b = budget(true, Some(10), Some((12, Some(100))), Some(600), 160).unwrap();
    assert_eq!(b.remaining, 0);
    assert_eq!(b.unlock_in, Some(540));
    let b = budget(true, Some(10), Some((10, Some(100))), Some(600), 10_000).unwrap();
    assert_eq!(b.unlock_in, Some(0), "past the window, nothing left to wait");
    assert!(budget(true, None, Some((0, None)), None, 0).is_none(), "no deny, no guess");
    assert!(budget(true, Some(10), None, None, 0).is_none(), "no tally, no guess");
}

#[test]
fn refusal_speaks_only_when_locked() {
    assert_eq!(
        Budget {
            remaining: 1,
            unlock_in: None
        }
        .refusal(),
        None
    );
    assert_eq!(
        Budget {
            remaining: 0,
            unlock_in: None
        }
        .refusal()
        .as_deref(),
        Some("account is locked out")
    );
    assert_eq!(
        Budget {
            remaining: 0,
            unlock_in: Some(90)
        }
        .refusal()
        .as_deref(),
        Some("account locked, 90s to go")
    );
}

#[test]
fn the_counter_counts_submissions_and_resets() {
    let now = 1_000_000;
    // A reset removes the file; no file reads as nothing spent.
    assert_eq!(used(None, now), 0);
    let once = record(used(None, now), now);
    assert_eq!(once, "1000000 1\n");
    assert_eq!(used(Some(&once), now), 1);
    let twice = record(used(Some(&once), now), now);
    assert_eq!(used(Some(&twice), now), 2);
    assert_eq!(used(None, now), 0);
}

#[test]
fn a_stale_counter_is_ignored() {
    let now = 1_000_000;
    let old = now - (STALE_AFTER_SECS + 5);
    let text = format!("{old} 3\n");
    assert_eq!(used(Some(&text), now), 0, "a stale count must not gate a fresh command");
    let fresh = format!("{} 3\n", now - 5);
    assert_eq!(used(Some(&fresh), now), 3);
    assert_eq!(used(Some("garbage"), now), 0);
}

#[test]
fn a_budget_speaks_with_exactly_one_voice() {
    for remaining in 0..6 {
        for unlock_in in [None, Some(30)] {
            let b = Budget {
                remaining,
                unlock_in,
            };
            assert_ne!(b.status().is_some(), b.refusal().is_some(), "{remaining}");
        }
    }
}

#[test]
fn a_recorded_submission_counts_until_it_goes_stale() {
    let then = 1_700_000_000u64;
    let text = record(2, then);
    assert_eq!(used(Some(&text), then), 3);
    assert_eq!(used(Some(&text), then + 30), 3);
    assert_eq!(used(Some(&text), then + 60), 3);
    assert_eq!(used(Some(&text), then + 61), 0);
}
