use sudo_pop::secret::{Secret, CAPACITY, MAX_CHARS};

#[test]
fn wipe_clears_the_buffer() {
    let mut secret = Secret::new();
    secret.buffer_mut().push_str("hunter2");
    assert!(!secret.is_empty());

    secret.wipe();
    assert!(secret.is_empty());
}

#[test]
fn the_buffer_never_reallocates_within_the_input_limit() {
    let mut secret = Secret::new();
    let start = secret.buffer_mut().as_ptr();

    // Worst case the widget allows: MAX_CHARS four-byte characters.
    let longest: String = std::iter::repeat_n('🔐', MAX_CHARS).collect();
    assert!(
        longest.len() <= CAPACITY,
        "capacity too small for the limit"
    );
    secret.buffer_mut().push_str(&longest);

    assert_eq!(
        start,
        secret.buffer_mut().as_ptr(),
        "buffer moved; the mlocked pages no longer hold the password"
    );
}

#[test]
fn a_wiped_buffer_keeps_its_locked_allocation() {
    let mut secret = Secret::new();
    let start = secret.buffer_mut().as_ptr();
    secret.buffer_mut().push_str("hunter2");
    secret.wipe();
    assert_eq!(start, secret.buffer_mut().as_ptr());
}

#[test]
fn the_bytes_are_the_utf8_of_what_was_typed() {
    let mut secret = Secret::default();
    secret.buffer_mut().push_str("pä");
    assert_eq!(secret.as_bytes(), "pä".as_bytes());
}
