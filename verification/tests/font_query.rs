use sudo_pop::font::{
    charset_query, fc_answer, foreign_chars, primary_fits, FaceFiles, MAX_FONT_BYTES,
    MAX_QUERY_CHARS,
};

#[test]
fn ascii_asks_fontconfig_nothing() {
    assert!(foreign_chars("sudo pacman -Syu").is_empty());
    assert!(foreign_chars("vim /etc/fstab").is_empty());
}

#[test]
fn hangul_is_what_gets_asked_about() {
    assert_eq!(foreign_chars("vim 계획서.md"), vec!['계', '획', '서']);
}

#[test]
fn a_repeated_syllable_is_asked_about_once() {
    assert_eq!(foreign_chars("한한한글"), vec!['한', '글']);
}

#[test]
fn a_long_korean_path_stops_at_the_cap() {
    let text: String = ('\u{AC00}'..).take(MAX_QUERY_CHARS + 10).collect();
    assert_eq!(foreign_chars(&text).len(), MAX_QUERY_CHARS);
}

#[test]
fn mixed_scripts_all_go_into_one_query() {
    assert_eq!(foreign_chars("한あ中"), vec!['한', 'あ', '中']);
}

#[test]
fn the_query_is_fontconfigs_charset_form() {
    assert_eq!(charset_query(&['계', '획']), ":charset=ACC4 D68D");
    assert_eq!(charset_query(&['한']), ":charset=D55C");
    assert_eq!(charset_query(&['é']), ":charset=00E9", "padded to four digits");
    assert_eq!(charset_query(&['\u{1F510}']), ":charset=1F510", "wider when it must be");
    assert_eq!(charset_query(&[]), ":charset=");
}

#[test]
fn fontconfigs_answer_is_family_and_file() {
    let out = b"JetBrainsMono Nerd Font,JetBrainsMono NF\n/usr/share/fonts/x.ttf";
    assert_eq!(
        fc_answer(out),
        Some((
            "JetBrainsMono Nerd Font".to_owned(),
            "/usr/share/fonts/x.ttf".to_owned()
        ))
    );
    assert_eq!(fc_answer(b"Family\n"), None, "no file line");
    assert_eq!(fc_answer(b"\n/x.ttf"), None, "no family");
    assert_eq!(fc_answer(b""), None);
}

#[test]
fn a_face_already_in_the_chain_is_not_loaded_again() {
    let mut files = FaceFiles::new();
    assert!(!files.holds("/usr/share/fonts/primary.ttf"));
    files.add("/usr/share/fonts/primary.ttf");
    assert!(files.holds("/usr/share/fonts/primary.ttf"));
    assert!(!files.holds("/usr/share/fonts/other.ttf"));
}

#[test]
fn an_oversized_primary_face_is_skipped() {
    assert!(primary_fits(2_500_000));
    assert!(primary_fits(MAX_FONT_BYTES));
    assert!(!primary_fits(MAX_FONT_BYTES + 1));
}

#[test]
fn another_spelling_of_a_loaded_face_is_the_same_file() {
    let mut files = FaceFiles::new();
    files.add("/usr/share/fonts/noto/NotoSansCJK.ttc");
    assert!(files.holds("/usr/share/fonts//noto/NotoSansCJK.ttc"));
    assert!(files.holds("/usr/share/fonts/./noto/NotoSansCJK.ttc"));
    assert!(files.holds("/usr/share/fonts/noto/NotoSansCJK.ttc/"));
    assert!(!files.holds("usr/share/fonts/noto/NotoSansCJK.ttc"));
    assert!(!files.holds("/usr/share/fonts/noto/../noto/NotoSansCJK.ttc"));
    files.add("./local.ttf");
    assert!(files.holds(".//local.ttf"));
    assert!(!files.holds("local.ttf"));
}
