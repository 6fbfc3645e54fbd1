use sudo_pop::init::{
    add_block, polkit_plugin_enabled, remove_block, switch_hint, unit_body, Removal,
};

#[test]
fn add_block_is_idempotent() {
    let once = add_block("existing line\n", "#b", "#e", "body").unwrap();
    assert!(add_block(&once, "#b", "#e", "body").is_none());
    assert_eq!(once.matches("#b").count(), 1);
    assert!(once.starts_with("existing line\n"));
    assert_eq!(once, "existing line\n\n#b\nbody\n#e\n");
}

#[test]
fn add_block_handles_missing_trailing_newline() {
    let out = add_block("no newline", "#b", "#e", "body").unwrap();
    assert!(out.starts_with("no newline\n"), "{out:?}");
    assert_eq!(add_block("", "#b", "#e", "body").unwrap(), "\n#b\nbody\n#e\n");
}

#[test]
fn remove_block_restores_surroundings() {
    let added = add_block("before\n", "#b", "#e", "body").unwrap();
    let text = format!("{added}after\n");
    let Removal::Removed(out) = remove_block(&text, "#b", "#e") else {
        panic!("the block is there");
    };
    assert!(!out.contains("#b"), "{out:?}");
    assert!(!out.contains("body"), "{out:?}");
    assert!(out.contains("before"), "{out:?}");
    assert!(out.contains("after"), "{out:?}");
    assert_eq!(out, "before\nafter\n");
}

#[test]
fn remove_block_on_absent_marker_is_noop() {
    assert!(matches!(remove_block("untouched\n", "#b", "#e"), Removal::Absent));
}

#[test]
fn unterminated_block_is_refused() {
    assert!(matches!(
        remove_block("#b\nbody\nrest of config\n", "#b", "#e"),
        Removal::Unterminated
    ));
}

#[test]
fn the_unit_runs_the_agent_with_the_session() {
    let unit = unit_body("/usr/bin/sudo-pop");
    assert!(unit.contains("ExecStart=/usr/bin/sudo-pop --agent\n"));
    assert!(unit.starts_with("[Unit]\n"));
    assert!(unit.ends_with("WantedBy=graphical-session.target\n"));
}

#[test]
fn the_switch_hint_names_the_way_out() {
    assert_eq!(
        switch_hint("omarchy.polkit (the Omarchy shell's own agent)"),
        "omarchy plugin disable omarchy.polkit"
    );
    assert_eq!(
        switch_hint("hyprpolkitagent"),
        "systemctl --user disable --now hyprpolkitagent.service"
    );
}

#[test]
fn the_plugin_list_is_read_for_the_polkit_entry_only() {
    let on = br#"[{"id": "omarchy.polkit", "enabled": true}, {"id": "x", "enabled": false}]"#;
    assert!(polkit_plugin_enabled(on));
    let off = br#"[{"id": "omarchy.polkit", "enabled": false}, {"id": "x", "enabled": true}]"#;
    assert!(!polkit_plugin_enabled(off), "another plugin's flag is not ours");
    assert!(polkit_plugin_enabled(br#"{"id":"omarchy.polkit","enabled":true}"#));
    assert!(!polkit_plugin_enabled(b"[]"));
}
