use sudo_pop::theme::{
    color, colors, parse, parse_hex, parse_sections, pick, polkit_overlay, Polkit, Rgba,
};

const SAMPLE: &str = r##"
mode = "dark"

accent = "#7aa2f7"
background = "#1a1b26"
foreground = "#a9b1d6"
# a comment
lighter_background = "#24283b"
bright_foreground = "#c0caf5"
red = "#f7768e"
"##;

const SHELL_SAMPLE: &str = r##"
[hyprland]
active-border = "#7aa2f7"

[polkit]
# the system polkit palette
background       = "#1a1b26"
background-alpha = 1.0
text             = "#a9b1d6"
text-error       = "#f7768e"
border           = "hyprland.active-border"
accent           = "#7aa2f7"
"##;

fn rgb(r: u8, g: u8, b: u8) -> Rgba {
    Rgba { r, g, b, a: 255 }
}

#[test]
fn reads_semantic_keys() {
    let keys = parse(SAMPLE);
    assert_eq!(keys.get("mode").as_deref(), Some("dark"));
    assert_eq!(keys.get("accent").as_deref(), Some("#7aa2f7"));
    assert_eq!(keys.len(), 7);
}

#[test]
fn parses_both_hex_lengths() {
    assert_eq!(parse_hex("#1a1b26"), Some(rgb(26, 27, 38)));
    assert_eq!(
        parse_hex("#1a1b2680"),
        Some(Rgba {
            r: 26,
            g: 27,
            b: 38,
            a: 128
        })
    );
    assert_eq!(parse_hex("#FFFFFF"), Some(rgb(255, 255, 255)));
}

#[test]
fn rejects_malformed_colors() {
    for bad in ["1a1b26", "#xyzxyz", "#1a1b2", "#", "", "#1a1b26f", "#1a1b2é"] {
        assert_eq!(parse_hex(bad), None, "{bad:?}");
    }
}

#[test]
fn falls_back_along_the_key_list() {
    let keys = parse(SAMPLE);
    assert_eq!(
        pick(&keys, &["selection", "lighter_background"]),
        parse_hex("#24283b")
    );
    assert_eq!(pick(&keys, &["nope", "still_nope"]), None);
    assert_eq!(color(&keys, "red"), parse_hex("#f7768e"));
}

#[test]
fn light_mode_is_honoured() {
    let keys = parse("mode = \"light\"\nbackground = \"#ffffff\"\n");
    assert_eq!(keys.get("mode").as_deref(), Some("light"));
    assert!(!colors(&keys, None).unwrap().dark);
}

#[test]
fn a_later_line_wins_and_empty_values_are_skipped() {
    let keys = parse("a = \"1\"\na = \"2\"\nb = \"\"\n= \"x\"\nno equals here\n");
    assert_eq!(keys.get("a").as_deref(), Some("2"));
    assert_eq!(keys.get("b"), None);
    assert_eq!(keys.get("").as_deref(), Some("x"));
    assert_eq!(keys.len(), 2);
}

#[test]
fn sections_are_grouped_by_header() {
    let s = parse_sections(SHELL_SAMPLE);
    let hyprland = s.section(&['h', 'y', 'p', 'r', 'l', 'a', 'n', 'd']).unwrap();
    assert_eq!(hyprland.get("active-border").as_deref(), Some("#7aa2f7"));
    let polkit: Vec<char> = "polkit".chars().collect();
    let polkit = s.section(&polkit).unwrap();
    assert_eq!(polkit.get("text-error").as_deref(), Some("#f7768e"));
    // comments and blank lines do not become keys
    assert_eq!(polkit.get("#"), None);
}

#[test]
fn the_polkit_overlay_maps_colors() {
    let p = polkit_overlay(&parse_sections(SHELL_SAMPLE)).unwrap();
    assert_eq!(p.background, parse_hex("#1a1b26"));
    assert_eq!(p.text, parse_hex("#a9b1d6"));
    assert_eq!(p.text_error, parse_hex("#f7768e"), "the failure color comes from the theme");
    assert_eq!(p.accent, parse_hex("#7aa2f7"));
}

#[test]
fn a_border_reference_resolves_to_another_section() {
    let text = "[hyprland]\nactive-border = \"#010203\"\n[polkit]\nborder = \"hyprland.active-border\"\n";
    let p = polkit_overlay(&parse_sections(text)).unwrap();
    assert_eq!(p.accent, parse_hex("#010203"));
}

#[test]
fn no_polkit_section_means_no_overlay() {
    assert!(polkit_overlay(&parse_sections("[bar]\ntext = \"#fff\"\n")).is_none());
    assert!(
        polkit_overlay(&parse_sections("[polkit]\n")).is_none(),
        "a header with no pairs is no section"
    );
}

#[test]
fn a_reference_loop_resolves_to_nothing() {
    let text = "[a]\nx = \"b.y\"\n[b]\ny = \"a.x\"\n[polkit]\ntext = \"a.x\"\n";
    let p = polkit_overlay(&parse_sections(text)).unwrap();
    assert_eq!(p.text, None);
}

#[test]
fn the_shells_palette_wins_over_colors_toml() {
    let keys = parse(SAMPLE);
    let plain = colors(&keys, None).unwrap();
    assert!(plain.dark);
    assert_eq!(plain.background, rgb(0x1a, 0x1b, 0x26));
    assert_eq!(plain.surface, rgb(0x24, 0x28, 0x3b));
    assert_eq!(plain.warning, parse_hex("#f7768e"));
    let overlay = Polkit {
        background: parse_hex("#000000"),
        text: None,
        text_error: parse_hex("#ff0000"),
        accent: None,
    };
    let themed = colors(&keys, Some(overlay)).unwrap();
    assert_eq!(themed.background, rgb(0, 0, 0));
    assert_eq!(themed.warning, parse_hex("#ff0000"));
    assert_eq!(themed.text, plain.text, "an absent overlay slot keeps the palette's");
    assert!(colors(&parse("accent = \"#fff000\"\n"), None).is_none(), "no background, no theme");
}
