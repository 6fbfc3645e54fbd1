use sudo_pop::attempts::WRONG_PASSWORD;
use sudo_pop::gui::{
    ceil_secs, countdown, hurry, window_height, Phase, Screen, Subject, ToUi, FINGERPRINT_GLYPH,
    FINGERPRINT_HEIGHT, FIELD_ROW_WIDTH, HURRY_AT_OR_BELOW, LOCK_GAP, LOCK_WIDTH, MIN_WIDTH,
    PANEL_MARGIN, WINDOW_HEIGHT,
};

#[test]
fn the_countdown_rounds_up_so_the_last_second_is_shown() {
    assert_eq!(ceil_secs(0), 0);
    assert_eq!(ceil_secs(1), 1);
    assert_eq!(ceil_secs(999), 1);
    assert_eq!(ceil_secs(1000), 1);
    assert_eq!(ceil_secs(1001), 2);
    assert_eq!(ceil_secs(25_000), 25);
}

#[test]
fn the_password_row_does_not_grow_with_the_window() {
    assert_eq!(FIELD_ROW_WIDTH, MIN_WIDTH - PANEL_MARGIN * 2);
    assert!(FIELD_ROW_WIDTH < MIN_WIDTH);
    assert!(LOCK_WIDTH + LOCK_GAP < FIELD_ROW_WIDTH);
}

#[test]
fn a_spent_countdown_is_not_drawn_at_all() {
    assert_eq!(countdown(0), None);
    assert_eq!(countdown(1), Some(1));
    assert_eq!(countdown(25_000), Some(25));
}

#[test]
fn the_last_five_seconds_are_the_ones_that_alarm() {
    assert!(ceil_secs(4500) <= HURRY_AT_OR_BELOW);
    assert!(ceil_secs(5000) <= HURRY_AT_OR_BELOW);
    assert!(ceil_secs(5001) > HURRY_AT_OR_BELOW);
    assert!(hurry(5));
    assert!(!hurry(6));
}

#[test]
fn the_fingerprint_glyph_is_md_fingerprint_not_weather() {
    assert_eq!(FINGERPRINT_GLYPH, "\u{f0237}");
    assert_ne!(FINGERPRINT_GLYPH, "\u{f0597}");
}

#[test]
fn fingerprint_wait_uses_a_shorter_window() {
    assert_eq!(window_height(true), FINGERPRINT_HEIGHT);
    assert_eq!(window_height(false), WINDOW_HEIGHT);
    assert_eq!(WINDOW_HEIGHT, 200);
}

fn subject(command: Option<&str>, purpose: Option<&str>) -> Subject {
    Subject {
        command: command.map(str::to_owned),
        message: "Authentication is required to mount the filesystem".to_owned(),
        purpose: purpose.map(str::to_owned),
        user: None,
        attempts: None,
        deadline_ms: None,
        fingerprint_wait: false,
    }
}

#[test]
fn the_command_leads_and_the_purpose_follows() {
    let s = subject(Some("quickshell -n"), Some("mount the filesystem"));
    assert_eq!(s.headline(), "quickshell -n");
    assert_eq!(s.detail().as_deref(), Some("mount the filesystem"));
    let s = subject(None, Some("mount the filesystem"));
    assert_eq!(s.headline(), "mount the filesystem");
    assert_eq!(s.detail(), None, "the purpose is already the headline");
    let s = subject(None, None);
    assert_eq!(s.headline(), "Authentication is required to mount the filesystem");
}

fn password_notice(screen: &Screen) -> Option<(String, bool)> {
    match &screen.phase {
        Phase::Password { notice, .. } => notice.clone(),
        Phase::Fingerprint { .. } => None,
    }
}

#[test]
fn the_first_prompt_ends_the_fingerprint_phase_for_good() {
    let mut screen = Screen::new(true, None);
    assert!(matches!(screen.phase, Phase::Fingerprint { .. }));
    let fx = screen.on_message(ToUi::Error("Failed to match fingerprint".to_owned()));
    assert!(!fx.wipe);
    assert!(matches!(
        &screen.phase,
        Phase::Fingerprint { notice: Some(t) } if t == "Failed to match fingerprint"
    ));
    let fx = screen.on_message(ToUi::Prompt {
        text: "Password: ".to_owned(),
        echo: false,
    });
    assert!(fx.rearm && fx.resize);
    assert!(matches!(&screen.phase, Phase::Password { prompt, echo: false, .. } if prompt == "Password: "));
    screen.on_message(ToUi::Info("Place your finger on the reader".to_owned()));
    assert!(matches!(screen.phase, Phase::Password { .. }), "never back to the sensor");
    assert_eq!(password_notice(&screen), None, "the sensor's info is not the field's");
}

#[test]
fn only_a_rejected_password_frees_the_field() {
    let mut screen = Screen::new(false, None);
    screen.submitted();
    assert_eq!(screen.transient(), Some(("Checking...".to_owned(), false)));
    let fx = screen.on_message(ToUi::Error("helper went away".to_owned()));
    assert!(!fx.wipe);
    assert!(matches!(screen.phase, Phase::Password { waiting: true, .. }));
    let fx = screen.on_message(ToUi::Error(WRONG_PASSWORD.to_owned()));
    assert!(fx.wipe);
    assert!(matches!(screen.phase, Phase::Password { waiting: false, .. }));
    assert_eq!(screen.transient(), Some((WRONG_PASSWORD.to_owned(), true)));
    // The re-prompt keeps the notice so a frame can draw it.
    screen.on_message(ToUi::Prompt {
        text: "Password:".to_owned(),
        echo: false,
    });
    assert_eq!(password_notice(&screen), Some((WRONG_PASSWORD.to_owned(), true)));
}

#[test]
fn the_budget_line_and_the_end_come_from_the_helper() {
    let mut screen = Screen::new(false, None);
    let line = Some(("9 attempt(s) left before the account locks".to_owned(), false));
    screen.on_message(ToUi::Attempts(line.clone()));
    assert_eq!(screen.attempts, line);
    assert!(screen.on_message(ToUi::Done).close);
}
