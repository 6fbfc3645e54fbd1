use sudo_pop::agent::{on_begin, BeginStep};
use sudo_pop::{choose_uid, stamp, unix_user_uids};

#[test]
fn only_unix_user_uids_are_collected() {
    let ids = vec![
        ("unix-group".to_owned(), Some(0)),
        ("unix-user".to_owned(), Some(1000)),
        ("unix-user".to_owned(), None),
        ("unix-user".to_owned(), Some(0)),
    ];
    assert_eq!(unix_user_uids(&ids), vec![1000, 0]);
}

#[test]
fn the_current_user_is_preferred_when_offered() {
    assert_eq!(choose_uid(&[1000, 0], 1000), Some(1000));
    assert_eq!(choose_uid(&[0, 1000], 1000), Some(1000));
}

#[test]
fn otherwise_the_first_identity_is_taken() {
    assert_eq!(choose_uid(&[0, 42], 1000), Some(0));
}

#[test]
fn no_identities_means_none() {
    assert_eq!(choose_uid(&[], 1000), None);
}

#[test]
fn the_stamp_is_korean_wall_clock_time() {
    assert_eq!(stamp(0), "09:00:00");
    assert_eq!(stamp(86_399), "08:59:59");
    assert_eq!(stamp(3_600 * 20 + 61), "05:01:01");
}

#[test]
fn a_begin_from_anyone_but_polkitd_is_refused_first() {
    assert_eq!(on_begin(Some(":1.9"), Some(":1.3"), &[1000], 1000), BeginStep::Refuse);
    assert_eq!(on_begin(None, Some(":1.3"), &[1000], 1000), BeginStep::Refuse);
    assert_eq!(on_begin(Some(":1.3"), None, &[1000], 1000), BeginStep::Refuse);
    assert_eq!(on_begin(Some(":1.9"), Some(":1.3"), &[], 1000), BeginStep::Refuse);
    assert_eq!(on_begin(Some(":1.3"), Some(":1.3"), &[], 1000), BeginStep::NoIdentity);
    assert_eq!(on_begin(Some(":1.3"), Some(":1.3"), &[0, 1000], 1000), BeginStep::Ask { uid: 1000 });
    assert_eq!(on_begin(Some(":1.3"), Some(":1.3"), &[0, 1001], 1000), BeginStep::Ask { uid: 0 });
}
