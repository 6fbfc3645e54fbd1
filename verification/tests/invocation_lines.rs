use sudo_pop::invocation::{
    describe, describe_sudo, purpose, status_uid, MAX_DISPLAY_CHARS, MAX_PURPOSE_CHARS,
};

fn cmdline(parts: &[&str]) -> Vec<u8> {
    let mut out = Vec::new();
    for part in parts {
        out.extend_from_slice(part.as_bytes());
        out.push(0);
    }
    out
}

const RUN0: &str = "org.freedesktop.systemd1.manage-units";
const MOUNT: &str = "org.freedesktop.udisks2.filesystem-mount-system";

#[test]
fn shows_the_whole_invocation() {
    assert_eq!(
        describe(&cmdline(&["run0", "pacman", "-Syu"])),
        Some("run0 pacman -Syu".into())
    );
}

#[test]
fn an_empty_cmdline_says_nothing() {
    assert_eq!(describe(&[]), None);
    assert_eq!(describe(&cmdline(&[])), None);
}

#[test]
fn invocation_long_commands_are_cut_short() {
    let shown = describe(&cmdline(&["run0", "sh", "-c", &"x".repeat(300)])).unwrap();
    assert!(shown.chars().count() <= MAX_DISPLAY_CHARS, "{shown}");
    assert!(shown.ends_with('…'));
}

#[test]
fn a_desktop_requests_purpose_is_what_the_command_line_cannot_say() {
    assert_eq!(
        purpose(
            "Authentication is required to mount the filesystem",
            MOUNT,
            true
        )
        .as_deref(),
        Some("mount the filesystem")
    );
}

#[test]
fn run0s_transient_unit_name_is_not_worth_a_line() {
    let message =
        "Authentication is required to start transient unit 'run-p1592228-i1586931.service'.";
    assert_eq!(purpose(message, RUN0, true), None);
    assert_eq!(
        purpose(message, RUN0, false).as_deref(),
        Some("start transient unit 'run-p1592228-i1586931.service'")
    );
}

#[test]
fn the_boilerplate_and_the_full_stop_go() {
    assert_eq!(
        purpose("Authentication is required to reboot the system.", MOUNT, true).as_deref(),
        Some("reboot the system")
    );
}

#[test]
fn a_sentence_we_do_not_recognise_is_shown_whole() {
    assert_eq!(
        purpose("파일 시스템을 마운트하려면 인증이 필요합니다", MOUNT, true).as_deref(),
        Some("파일 시스템을 마운트하려면 인증이 필요합니다")
    );
}

#[test]
fn nothing_to_say_says_nothing() {
    assert_eq!(purpose("", MOUNT, true), None);
    assert_eq!(purpose("   ", MOUNT, true), None);
    assert_eq!(purpose("Authentication is required to .", MOUNT, true), None);
}

#[test]
fn a_long_sentence_is_cut_short() {
    let shown = purpose(
        &format!("Authentication is required to {}", "x".repeat(200)),
        MOUNT,
        true,
    )
    .unwrap();
    assert!(shown.chars().count() <= MAX_PURPOSE_CHARS, "{shown}");
    assert!(shown.ends_with('…'));
}

#[test]
fn finds_the_command_past_sudos_options() {
    assert_eq!(
        describe_sudo(&cmdline(&["sudo", "-A", "pacman", "-Syu"])),
        Some("pacman -Syu".into())
    );
    assert_eq!(
        describe_sudo(&cmdline(&["/usr/bin/sudo", "-A", "-u", "root", "id"])),
        Some("id".into())
    );
}

#[test]
fn respects_the_double_dash() {
    assert_eq!(
        describe_sudo(&cmdline(&["sudo", "-A", "--", "ls", "-l"])),
        Some("ls -l".into())
    );
}

#[test]
fn options_only_invocations_have_no_command() {
    assert_eq!(describe_sudo(&cmdline(&["sudo", "-A", "-v"])), None);
    assert_eq!(describe_sudo(&cmdline(&["sudo"])), None);
}

#[test]
fn a_parent_that_is_not_sudo_is_ignored() {
    assert_eq!(describe_sudo(&cmdline(&["bash", "-c", "something"])), None);
    assert_eq!(describe_sudo(&[]), None);
}

#[test]
fn long_commands_are_cut_short() {
    let shown =
        describe_sudo(&cmdline(&["sudo", "-A", "sh", "-c", &"x".repeat(300)])).unwrap();
    assert!(shown.chars().count() <= MAX_DISPLAY_CHARS, "{shown}");
    assert!(shown.ends_with('…'));
    assert!(shown.starts_with("sh -c xxx"));
}

#[test]
fn bytes_that_are_not_utf8_are_shown_as_replacements() {
    assert_eq!(
        describe(&[b'l', b's', 0, 0xff, 0]),
        Some("ls \u{fffd}".to_owned())
    );
}

#[test]
fn a_process_owner_is_read_from_its_status() {
    let status = "Name:\tbash\nState:\tS (sleeping)\nUid:\t1000\t1000\t1000\t1000\nGid:\t1000\n";
    assert_eq!(status_uid(status), Some(1000));
    assert_eq!(status_uid("Name:\tx\n"), None);
    assert_eq!(status_uid("Uid:\n"), None);
}
