use sudo_pop::sudo_args::{command_start, has_conflicting_flag};
use sudo_pop::wrapper::{plain_command, route, Route};

fn args(parts: &[&str]) -> Vec<Vec<u8>> {
    parts.iter().map(|p| p.as_bytes().to_vec()).collect()
}

#[test]
fn plain_command_has_no_conflict() {
    assert!(!has_conflicting_flag(&args(&["pacman", "-Syu"])));
}

#[test]
fn detects_short_flags() {
    assert!(has_conflicting_flag(&args(&["-n", "true"])));
    assert!(has_conflicting_flag(&args(&["-S", "true"])));
    assert!(has_conflicting_flag(&args(&["-A", "true"])));
}

#[test]
fn detects_bundled_flags() {
    assert!(has_conflicting_flag(&args(&["-kn", "true"])));
    assert!(has_conflicting_flag(&args(&["-nk", "true"])));
}

#[test]
fn detects_long_flags() {
    assert!(has_conflicting_flag(&args(&["--non-interactive"])));
    assert!(has_conflicting_flag(&args(&["--stdin", "true"])));
    assert!(has_conflicting_flag(&args(&["--askpass", "true"])));
}

#[test]
fn skips_option_values() {
    assert!(!has_conflicting_flag(&args(&["-u", "-n", "true"])));
    assert!(!has_conflicting_flag(&args(&["--user", "-S", "true"])));
    assert!(!has_conflicting_flag(&args(&["--user=-A", "true"])));
    assert!(!has_conflicting_flag(&args(&["-un", "true"])));
}

#[test]
fn finds_flag_after_a_valued_option() {
    assert!(has_conflicting_flag(&args(&["-u", "root", "-n", "true"])));
}

#[test]
fn stops_at_command_and_double_dash() {
    assert!(!has_conflicting_flag(&args(&["grep", "-n", "pattern"])));
    assert!(!has_conflicting_flag(&args(&["--", "-n"])));
}

#[test]
fn passthrough_options_are_not_conflicts() {
    for a in [
        &["-k"][..],
        &["-v"][..],
        &["-l"][..],
        &["-e", "/etc/hosts"][..],
    ] {
        assert!(!has_conflicting_flag(&args(a)), "{a:?}");
    }
}

#[test]
fn the_command_starts_after_the_options() {
    assert_eq!(command_start(&args(&["-A", "pacman", "-Syu"])), Some(1));
    assert_eq!(command_start(&args(&["-u", "root", "id"])), Some(2));
    assert_eq!(command_start(&args(&["--", "ls"])), Some(1));
    assert_eq!(command_start(&args(&["-A", "-v"])), None);
}

#[test]
fn a_bare_command_goes_to_run0() {
    assert!(plain_command(&args(&["pacman", "-Syu"])));
    assert!(plain_command(&args(&["ls"])));
}

#[test]
fn sudo_options_keep_it_on_sudo() {
    assert!(!plain_command(&args(&["-E", "make"])));
    assert!(!plain_command(&args(&["-u", "root", "id"])));
    assert!(!plain_command(&args(&["--", "ls"])));
    assert!(!plain_command(&args(&["-v"])));
}

#[test]
fn environment_assignments_keep_it_on_sudo() {
    assert!(!plain_command(&args(&["FOO=1", "make"])));
    assert!(!plain_command(&args(&["PATH=/x:/y", "sh", "-c", "true"])));
}

#[test]
fn an_argument_that_merely_contains_equals_is_not_an_assignment() {
    assert!(plain_command(&args(&["find", "-name=x"])));
    assert!(plain_command(&args(&["=weird"])));
}

#[test]
fn the_fork_in_the_road() {
    assert_eq!(route(&args(&[]), true, true), Route::Sudo, "sudo prints its own usage");
    assert_eq!(route(&args(&["-n", "true"]), true, true), Route::Sudo);
    assert_eq!(route(&args(&["pacman", "-Syu"]), true, true), Route::Run0);
    assert_eq!(
        route(&args(&["pacman", "-Syu"]), false, true),
        Route::Askpass,
        "with run0 routing off, our window over sudo"
    );
    assert_eq!(route(&args(&["-E", "make"]), true, true), Route::Askpass);
    assert_eq!(route(&args(&["-E", "make"]), true, false), Route::Sudo, "no display, no popup");
    assert_eq!(route(&args(&["FOO=1", "make"]), true, true), Route::Askpass);
}
