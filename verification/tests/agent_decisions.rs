use std::time::Duration;

use sudo_pop::agent::{
    bus_timeout_value, is_ok_exit, is_polkitd, sec_terms, seat_is_taken, subject_pid,
    CancelledSet, TimeUnit, MAX_REMEMBERED,
};
use sudo_pop::prompt::{EXIT_CANCELLED, EXIT_FAILED, EXIT_SUCCESS};

/// What a timeout adds up to, the way sd-bus adds it: each term's number in
/// its unit, in whole microseconds; zero is no timeout at all.
fn parse_sec(text: &str) -> Option<Duration> {
    let terms = sec_terms(text)?;
    let mut total = Duration::ZERO;
    for term in &terms {
        let number: f64 = term.number.parse().ok()?;
        let usec_per_unit = term.unit.nanos() as f64 / 1000.0;
        total += Duration::from_micros((number * usec_per_unit) as u64);
    }
    (total > Duration::ZERO).then_some(total)
}

fn bus_timeout_in(environ: &[u8]) -> Option<Duration> {
    let value = bus_timeout_value(environ)?;
    parse_sec(std::str::from_utf8(&value).ok()?)
}

#[test]
fn only_the_polkitd_owner_passes_the_sender_check() {
    assert!(is_polkitd(Some(":1.12"), Some(":1.12")));
    assert!(
        !is_polkitd(Some(":1.99"), Some(":1.12")),
        "a different name is not polkit"
    );
    assert!(!is_polkitd(None, Some(":1.12")), "no sender is not polkit");
    assert!(!is_polkitd(Some(":1.12"), None), "an unreadable owner is nobody");
}

#[test]
fn success_and_cancel_end_without_an_error() {
    assert!(is_ok_exit(EXIT_SUCCESS));
    assert!(is_ok_exit(EXIT_CANCELLED));
    assert!(!is_ok_exit(EXIT_FAILED), "a real failure is a D-Bus error");
    assert!(!is_ok_exit(42), "an unexpected code is a D-Bus error");
}

#[test]
fn a_cancel_before_start_is_remembered_then_consumed_once() {
    let mut set = CancelledSet::new();
    set.remember("c1");
    assert!(set.take("c1"), "the queued request sees the cancel");
    assert!(!set.take("c1"), "and it is consumed, not sticky");
    assert!(!set.take("never"), "an unknown cookie was not cancelled");
}

#[test]
fn the_cancelled_set_stays_bounded() {
    let mut set = CancelledSet::new();
    for i in 0..300 {
        set.remember(&format!("c{i}"));
    }
    let len = set.len();
    assert!(len <= 257, "the set must not grow without bound, was {len}");
    assert!(len <= MAX_REMEMBERED + 1);
}

#[test]
fn a_repeated_cancel_is_remembered_once() {
    let mut set = CancelledSet::new();
    set.remember("c1");
    set.remember("c1");
    assert_eq!(set.len(), 1);
}

#[test]
fn the_subject_pid_is_read_from_polkits_detail() {
    assert_eq!(subject_pid(Some("4242")), 4242);
    assert_eq!(subject_pid(Some("not a pid")), 0);
    assert_eq!(subject_pid(Some("99999999999")), 0, "past u32 is no pid");
    assert_eq!(subject_pid(None), 0);
}

#[test]
fn systemd_time_syntax_is_read_the_way_sd_bus_reads_it() {
    assert_eq!(
        parse_sec("5"),
        Some(Duration::from_secs(5)),
        "bare = seconds"
    );
    assert_eq!(parse_sec("5s"), Some(Duration::from_secs(5)));
    assert_eq!(parse_sec("500ms"), Some(Duration::from_millis(500)));
    assert_eq!(parse_sec("1.5s"), Some(Duration::from_millis(1500)));
    assert_eq!(parse_sec("1min"), Some(Duration::from_secs(60)));
    assert_eq!(parse_sec("2h"), Some(Duration::from_secs(7200)));
    assert_eq!(parse_sec(" 1min 30s "), Some(Duration::from_secs(90)));
    assert_eq!(
        parse_sec("5 s"),
        Some(Duration::from_secs(5)),
        "systemd allows a space before the unit"
    );
    assert_eq!(parse_sec("1 min 30 s"), Some(Duration::from_secs(90)));
    assert_eq!(parse_sec("5000000000ns"), Some(Duration::from_secs(5)));
    assert_eq!(parse_sec("0"), None, "sd-bus treats 0 as unset");
    assert_eq!(parse_sec("0.0004ms"), None, "rounds to nothing, so unset");
    assert_eq!(parse_sec("infinity"), None, "no clock cannot shorten ours");
    assert_eq!(parse_sec(""), None);
    assert_eq!(parse_sec("abc"), None);
    assert_eq!(parse_sec("-5"), None, "systemd rejects a sign");
    assert_eq!(parse_sec("5S"), None, "units are case-sensitive");
    assert_eq!(
        parse_sec("5 apples"),
        None,
        "an unknown unit is not a guess"
    );
    assert_eq!(parse_sec("5s5"), None, "a number needs a unit after it");
}

#[test]
fn the_terms_of_a_timeout_are_its_numbers_and_units() {
    let terms = sec_terms(" 1.5min 30 s").unwrap();
    assert_eq!(terms.len(), 2);
    assert_eq!(terms[0].number, "1.5");
    assert_eq!(terms[0].unit, TimeUnit::Minute);
    assert_eq!(terms[1].number, "30");
    assert_eq!(terms[1].unit, TimeUnit::Second);
    assert!(sec_terms("1.2.3s").is_none(), "one decimal point at most");
    assert!(sec_terms(".s").is_none(), "a number has a digit");
    assert_eq!(sec_terms("5µs").unwrap()[0].unit, TimeUnit::Micro);
    assert_eq!(TimeUnit::Day.nanos(), 86_400_000_000_000);
}

#[test]
fn the_first_entry_in_the_block_wins_and_others_are_ignored() {
    let block = b"HOME=/home/x\0SYSTEMD_BUS_TIMEOUT=7\0SYSTEMD_BUS_TIMEOUT=9\0";
    assert_eq!(bus_timeout_value(block), Some(b"7".to_vec()));
    assert_eq!(bus_timeout_in(block), Some(Duration::from_secs(7)));
    assert_eq!(bus_timeout_in(b"HOME=/home/x\0PATH=/bin\0"), None);
    assert_eq!(
        bus_timeout_in(b"SYSTEMD_BUS_TIMEOUT_X=3\0"),
        None,
        "a longer name is a different variable"
    );
    assert_eq!(bus_timeout_in(b""), None);
}

#[test]
fn only_a_taken_seat_ends_the_agent_successfully() {
    assert!(seat_is_taken(
        "An authentication agent already exists for the given subject"
    ));
    for other in [
        "The name org.freedesktop.PolicyKit1 was not provided by any .service files",
        "Connection timed out",
        "Message recipient disconnected from message bus without replying",
        "",
    ] {
        assert!(!seat_is_taken(other), "{other:?} may be worth a restart");
    }
}
