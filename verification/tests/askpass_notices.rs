use sudo_pop::askpass::{allowance_spent, locked_message, prompt_for, warning_for, DEFAULT_PROMPT};
use sudo_pop::attempts::Budget;

fn budget(remaining: u32) -> Budget {
    Budget {
        remaining,
        unlock_in: None,
    }
}

#[test]
fn warns_only_when_the_budget_runs_low() {
    assert_eq!(warning_for(&budget(9)), None);
    assert_eq!(warning_for(&budget(4)), None);
    assert!(warning_for(&budget(3)).is_some());
    assert!(warning_for(&budget(1)).is_some());
}

#[test]
fn warning_counts_read_naturally() {
    assert_eq!(
        warning_for(&budget(1)).unwrap(),
        "1 failed attempt left before lockout"
    );
    assert_eq!(
        warning_for(&budget(2)).unwrap(),
        "2 failed attempts left before lockout"
    );
}

#[test]
fn locked_message_mentions_the_wait_when_known() {
    assert!(locked_message(Some(90)).contains("90s"));
    assert!(locked_message(None).contains("shortly"));
    assert!(!locked_message(None).contains("about"));
    assert_eq!(
        locked_message(Some(90)),
        "Account locked by failed attempts.\nTry again in about 90s."
    );
}

#[test]
fn the_default_prompt_is_a_plain_password_label() {
    assert_eq!(DEFAULT_PROMPT, "Password:");
}

#[test]
fn sudos_prompt_is_used_unless_blank() {
    assert_eq!(prompt_for(Some("[sudo] password for lmh: ")), "[sudo] password for lmh: ");
    assert_eq!(prompt_for(Some("   ")), "Password:");
    assert_eq!(prompt_for(None), "Password:");
}

#[test]
fn a_spent_allowance_refuses_before_drawing() {
    assert!(!allowance_spent(0));
    assert!(!allowance_spent(2));
    assert!(allowance_spent(3));
}
