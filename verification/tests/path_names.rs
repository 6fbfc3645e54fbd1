use sudo_pop::paths::basename;

#[test]
fn the_mode_comes_from_the_last_path_component() {
    assert_eq!(basename(b"/usr/local/bin/askpass"), b"askpass".to_vec());
    assert_eq!(basename(b"askpass"), b"askpass".to_vec());
    assert_eq!(basename(b"/usr/bin/sudo-pop/"), b"sudo-pop".to_vec());
}
