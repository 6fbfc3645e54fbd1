use sudo_pop::fingerprint::{configured, should_wait};
use sudo_pop::pam::PamDir;

fn dir(files: &[(&str, &str)]) -> PamDir {
    let mut d = PamDir::new();
    for (name, text) in files {
        d.add(name, text);
    }
    d
}

fn configured_in(files: &[(&str, &str)]) -> bool {
    configured(&dir(files))
}

const SYSTEM_AUTH: &str = "\
auth       required                    pam_faillock.so      preauth silent deny=10
auth       [success=2 default=ignore]  pam_systemd_home.so
auth       [success=1 default=bad]     pam_unix.so          try_first_pass nullok
auth       [default=die]               pam_faillock.so      authfail deny=10
auth       optional                    pam_permit.so
auth       required                    pam_env.so
auth       required                    pam_faillock.so      authsucc
account    required                    pam_faillock.so
";

#[test]
fn an_auth_line_naming_pam_fprintd_is_configured() {
    assert!(configured_in(&[(
        "polkit-1",
        "auth sufficient pam_fprintd.so\n"
    )]));
}

#[test]
fn a_clamshell_gate_in_front_still_counts() {
    assert!(configured_in(&[(
        "polkit-1",
        "auth  [success=1 default=ignore] pam_exec.so quiet /usr/bin/omarchy-hw-laptop-closed
auth  sufficient pam_fprintd.so
auth  required pam_unix.so
",
    )]));
}

#[test]
fn a_line_reached_through_an_include_counts() {
    assert!(configured_in(&[
        ("polkit-1", "#%PAM-1.0\nauth include system-auth\n"),
        (
            "system-auth",
            "auth sufficient pam_fprintd.so\nauth required pam_unix.so\n"
        ),
    ]));
    assert!(
        !configured_in(&[
            ("polkit-1", "#%PAM-1.0\nauth include system-auth\n"),
            ("system-auth", SYSTEM_AUTH),
        ]),
        "stock Arch without a fingerprint line anywhere"
    );
}

#[test]
fn account_and_session_lines_and_comments_do_not_count() {
    assert!(!configured_in(&[(
        "polkit-1",
        "# auth sufficient pam_fprintd.so
account  required pam_fprintd.so
session  required pam_fprintd.so
auth     required pam_unix.so
",
    )]));
}

#[test]
fn a_missing_file_is_not_configured() {
    assert!(!configured_in(&[]));
    assert!(!configured_in(&[("polkit-1", "   \n# nothing\n")]));
}

#[test]
fn a_closed_lid_skips_the_sensor_wait() {
    let d = dir(&[("polkit-1", "auth sufficient pam_fprintd.so\n")]);
    assert!(should_wait(&d, || false));
    assert!(!should_wait(&d, || true));
    assert!(!should_wait(&dir(&[]), || false));
}

#[test]
fn the_lid_is_not_probed_without_a_fingerprint_line() {
    let probed = std::cell::Cell::new(false);
    let probe = || {
        probed.set(true);
        false
    };
    assert!(!should_wait(&dir(&[("polkit-1", "auth required pam_unix.so\n")]), probe));
    assert!(!probed.get());
    let d = dir(&[("polkit-1", "auth sufficient pam_fprintd.so\n")]);
    assert!(should_wait(&d, || {
        probed.set(true);
        false
    }));
    assert!(probed.get());
}
