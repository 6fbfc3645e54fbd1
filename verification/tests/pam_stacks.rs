use sudo_pop::attempts::stack_counts_failures;
use sudo_pop::pam::{auth_stack_names, PamDir};

/// A PAM directory in memory: service name to file text.
fn stack(files: &[(&str, &str)]) -> PamDir {
    let mut dir = PamDir::new();
    for (name, text) in files {
        dir.add(name, text);
    }
    dir
}

fn names(dir: &PamDir, service: &str, module: &str) -> bool {
    auth_stack_names(dir, service, module)
}

const SYSTEM_AUTH: &str = "\
auth       required                    pam_faillock.so      preauth silent deny=10
auth       [success=2 default=ignore]  pam_systemd_home.so
auth       [success=1 default=bad]     pam_unix.so          try_first_pass nullok
auth       [default=die]               pam_faillock.so      authfail deny=10
auth       optional                    pam_permit.so
auth       required                    pam_env.so
auth       required                    pam_faillock.so      authsucc
account    required                    pam_faillock.so
";

const OMARCHY_POLKIT: &str = "auth      [success=1 default=ignore] pam_exec.so quiet /usr/bin/omarchy-hw-laptop-closed
auth      sufficient pam_fprintd.so
auth      required pam_unix.so

account   required pam_unix.so
password  required pam_unix.so
session   required pam_unix.so
";

const FINGERPRINT_OVER_INCLUDE: &str = "auth      [success=1 default=ignore] pam_exec.so quiet /usr/bin/omarchy-hw-laptop-closed
auth      sufficient pam_fprintd.so
#%PAM-1.0
auth\t\tinclude\t\tsystem-auth
account\t\tinclude\t\tsystem-auth
";

#[test]
fn pam_stock_arch_counts_through_system_auth() {
    let read = stack(&[
        (
            "polkit-1",
            "#%PAM-1.0\nauth include system-auth\naccount include system-auth\n",
        ),
        ("system-auth", SYSTEM_AUTH),
    ]);
    assert!(names(&read, "polkit-1", "pam_faillock"));
    assert!(
        !names(&read, "polkit-1", "pam_fprintd"),
        "a module that is not there is not found either"
    );
}

#[test]
fn pam_omarchys_fingerprint_polkit_stack_does_not_count() {
    let read = stack(&[("polkit-1", OMARCHY_POLKIT), ("system-auth", SYSTEM_AUTH)]);
    assert!(
        !names(&read, "polkit-1", "pam_faillock"),
        "nothing includes system-auth, so nothing counts"
    );
    assert!(
        names(&read, "polkit-1", "pam_fprintd"),
        "a line placed ahead of pam_fprintd does not stop it from counting"
    );
}

#[test]
fn pam_the_fingerprint_lines_over_an_include_still_count() {
    let read = stack(&[("sudo", FINGERPRINT_OVER_INCLUDE), ("system-auth", SYSTEM_AUTH)]);
    assert!(names(&read, "sudo", "pam_faillock"));
}

#[test]
fn pam_substack_and_debian_include_are_followed() {
    let read = stack(&[
        ("a", "auth substack b\n"),
        ("b", "@include c\n"),
        ("c", "auth required pam_faillock.so preauth\n"),
    ]);
    assert!(names(&read, "a", "pam_faillock"));
}

#[test]
fn a_module_outside_the_auth_group_does_not_count() {
    let read = stack(&[(
        "svc",
        "account required pam_faillock.so\nsession required pam_fprintd.so\nauth required pam_unix.so\n",
    )]);
    assert!(!names(&read, "svc", "pam_faillock"));
    assert!(!names(&read, "svc", "pam_fprintd"));
}

#[test]
fn pam_a_commented_line_does_not_count() {
    let read = stack(&[(
        "svc",
        "# auth required pam_faillock.so\nauth required pam_unix.so\n",
    )]);
    assert!(!names(&read, "svc", "pam_faillock"));
    let read = stack(&[("svc", "# auth sufficient pam_fprintd.so\n")]);
    assert!(!names(&read, "svc", "pam_fprintd"));
}

#[test]
fn pam_a_missing_file_or_an_include_loop_is_not_counted() {
    let read = stack(&[("a", "auth include b\n"), ("b", "auth include a\n")]);
    assert!(!names(&read, "a", "pam_faillock"), "a loop ends");
    assert!(!names(&read, "nope", "pam_faillock"));
    let read = stack(&[("svc", "")]);
    assert!(
        !names(&read, "svc", "pam_fprintd"),
        "an empty file has nothing"
    );
}

#[test]
fn module_arguments_do_not_change_the_answer() {
    // Presence is the whole fact; `max-tries` and `deny` are not parsed.
    let read = stack(&[(
        "svc",
        "auth sufficient pam_fprintd.so max-tries=1 timeout=10\n",
    )]);
    assert!(names(&read, "svc", "pam_fprintd"));
}

#[test]
fn attempts_stock_arch_counts_through_system_auth() {
    let read = stack(&[
        (
            "polkit-1",
            "#%PAM-1.0\nauth include system-auth\naccount include system-auth\n",
        ),
        ("system-auth", SYSTEM_AUTH),
    ]);
    assert!(stack_counts_failures(&read, "polkit-1"));
    assert!(
        !names(&read, "polkit-1", "pam_fprintd"),
        "a module that is not there is not found either"
    );
}

#[test]
fn attempts_omarchys_fingerprint_polkit_stack_does_not_count() {
    let read = stack(&[("polkit-1", OMARCHY_POLKIT), ("system-auth", SYSTEM_AUTH)]);
    assert!(
        !stack_counts_failures(&read, "polkit-1"),
        "nothing includes system-auth, so nothing counts"
    );
}

#[test]
fn attempts_the_fingerprint_lines_over_an_include_still_count() {
    let read = stack(&[("sudo", FINGERPRINT_OVER_INCLUDE), ("system-auth", SYSTEM_AUTH)]);
    assert!(stack_counts_failures(&read, "sudo"));
}

#[test]
fn attempts_substack_and_debian_include_are_followed() {
    let read = stack(&[
        ("a", "auth substack b\n"),
        ("b", "@include c\n"),
        ("c", "auth required pam_faillock.so preauth\n"),
    ]);
    assert!(stack_counts_failures(&read, "a"));
}

#[test]
fn faillock_outside_the_auth_group_does_not_count() {
    let read = stack(&[(
        "svc",
        "account required pam_faillock.so\nauth required pam_unix.so\n",
    )]);
    assert!(!stack_counts_failures(&read, "svc"));
}

#[test]
fn attempts_a_commented_line_does_not_count() {
    let read = stack(&[(
        "svc",
        "# auth required pam_faillock.so\nauth required pam_unix.so\n",
    )]);
    assert!(!stack_counts_failures(&read, "svc"));
}

#[test]
fn attempts_a_missing_file_or_an_include_loop_is_not_counted() {
    let read = stack(&[("a", "auth include b\n"), ("b", "auth include a\n")]);
    assert!(!stack_counts_failures(&read, "a"), "a loop ends");
    assert!(!stack_counts_failures(&read, "nope"));
}

#[test]
fn the_first_file_for_a_service_is_the_one_read() {
    // /etc/pam.d is searched before /usr/lib/pam.d: the directory keeps the
    // first copy added.
    let read = stack(&[
        ("svc", "auth required pam_unix.so\n"),
        ("svc", "auth required pam_faillock.so\n"),
    ]);
    assert!(!stack_counts_failures(&read, "svc"));
}

#[test]
fn a_bracketed_control_is_one_field() {
    let read = stack(&[(
        "svc",
        "auth [success=1 default=ignore new_authtok_reqd=ok] pam_faillock.so\n",
    )]);
    assert!(stack_counts_failures(&read, "svc"));
    let read = stack(&[("svc", "auth [success=1 default=ignore\n")]);
    assert!(!stack_counts_failures(&read, "svc"), "an unclosed bracket has no module");
}

#[test]
fn a_service_that_only_includes_another_names_what_it_names() {
    let read = stack(&[
        ("svc", "auth include system-auth\n"),
        ("system-auth", SYSTEM_AUTH),
    ]);
    assert_eq!(
        names(&read, "svc", "pam_faillock"),
        names(&read, "system-auth", "pam_faillock")
    );
    assert!(names(&read, "svc", "pam_faillock"));
    assert!(!names(&read, "svc", "pam_fprintd"));
}

#[test]
fn pam_etc_shadows_the_vendor_directory() {
    let etc = stack(&[("polkit-1", "auth required pam_unix.so\n")]);
    let vendor = stack(&[
        ("polkit-1", "auth sufficient pam_fprintd.so\n"),
        ("system-auth", SYSTEM_AUTH),
    ]);
    let dir = PamDir::layered(etc, vendor);
    assert!(!names(&dir, "polkit-1", "pam_fprintd"));
    assert!(names(&dir, "system-auth", "pam_faillock"));
    assert!(!names(&dir, "sudo", "pam_unix"));
}
