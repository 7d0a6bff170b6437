use cliphop::hotkey::{
    combo_from_event_flags, combo_from_key_text, display_combo, format_combo, parse_combo, KeyCode,
    Modifiers, FLAG_COMMAND, FLAG_CONTROL, FLAG_OPTION, FLAG_SHIFT,
};

fn mods(meta: bool, control: bool, alt: bool, shift: bool) -> Modifiers {
    Modifiers { meta, control, alt, shift }
}

#[test]
fn parse_default_combo() {
    let (m, code) = parse_combo("alt+v").unwrap();
    assert_eq!(m, Some(mods(false, false, true, false)));
    assert_eq!(code, KeyCode::KeyV);
}

#[test]
fn parse_multi_modifier() {
    let (m, code) = parse_combo("ctrl+shift+f1").unwrap();
    assert_eq!(m, Some(mods(false, true, false, true)));
    assert_eq!(code, KeyCode::F1);
}

#[test]
fn parse_meta_combo() {
    let (m, code) = parse_combo("meta+k").unwrap();
    assert_eq!(m, Some(mods(true, false, false, false)));
    assert_eq!(code, KeyCode::KeyK);
}

#[test]
fn parse_unknown_modifier_returns_err() {
    assert!(parse_combo("super+v").is_err());
}

#[test]
fn parse_unknown_key_returns_err() {
    assert!(parse_combo("alt+pageup").is_err());
}

#[test]
fn format_round_trips() {
    let cases = ["alt+v", "meta+shift+p", "ctrl+alt+f1", "alt+space"];
    for &combo in &cases {
        let (m, code) = parse_combo(combo).unwrap();
        assert_eq!(format_combo(m, code), combo, "round-trip failed for {combo}");
    }
}

// ── Further cases ────────────────────────────────────────────────────

#[test]
fn parse_errors_name_the_culprit() {
    assert_eq!(parse_combo("super+v").unwrap_err(), "unknown modifier: super");
    assert_eq!(parse_combo("alt+pageup").unwrap_err(), "unknown key: pageup");
    // The key is checked before the modifiers.
    assert_eq!(parse_combo("super+pageup").unwrap_err(), "unknown key: pageup");
    assert_eq!(parse_combo("").unwrap_err(), "unknown key: ");
}

#[test]
fn parse_without_modifiers_and_with_repeats() {
    assert_eq!(parse_combo("v").unwrap(), (None, KeyCode::KeyV));
    assert_eq!(
        parse_combo("shift+alt+shift+f12").unwrap(),
        (Some(mods(false, false, true, true)), KeyCode::F12)
    );
    assert_eq!(parse_combo("tab").unwrap(), (None, KeyCode::Tab));
    assert_eq!(parse_combo("ctrl+comma").unwrap(), (Some(mods(false, true, false, false)), KeyCode::Comma));
    assert_eq!(parse_combo("ctrl+0").unwrap(), (Some(mods(false, true, false, false)), KeyCode::Digit0));
}

#[test]
fn format_orders_modifiers_canonically() {
    assert_eq!(format_combo(Some(mods(true, true, true, true)), KeyCode::KeyA), "meta+ctrl+alt+shift+a");
    assert_eq!(format_combo(None, KeyCode::F10), "f10");
    assert_eq!(format_combo(Some(mods(false, false, false, false)), KeyCode::Space), "space");
    assert_eq!(format_combo(None, KeyCode::Other), "unknown");
    let (m, c) = parse_combo("shift+ctrl+z").unwrap();
    assert_eq!(format_combo(m, c), "ctrl+shift+z");
}

#[test]
fn display_uses_symbols() {
    assert_eq!(display_combo("alt+v"), "\u{2325}V");
    assert_eq!(display_combo("meta+ctrl+alt+shift+f1"), "\u{2318}\u{2303}\u{2325}\u{21e7}F1");
    assert_eq!(display_combo("ctrl+space"), "\u{2303}SPACE");
    assert_eq!(display_combo("not a combo"), "not a combo");
}

#[test]
fn combo_from_event_requires_a_modifier() {
    assert_eq!(combo_from_event_flags(FLAG_OPTION, "v"), Ok("alt+v".to_string()));
    assert_eq!(
        combo_from_event_flags(FLAG_COMMAND | FLAG_SHIFT | 0x100, "K"),
        Ok("meta+shift+k".to_string())
    );
    assert_eq!(combo_from_event_flags(FLAG_CONTROL, " 5 "), Ok("ctrl+5".to_string()));
    assert_eq!(
        combo_from_event_flags(0, "v"),
        Err("combo must include at least one modifier key".to_string())
    );
    assert_eq!(combo_from_event_flags(FLAG_OPTION, "\u{e9}"), Err("unknown key: \u{e9}".to_string()));
}

#[test]
fn combo_from_key_text_uses_text_as_given() {
    assert_eq!(combo_from_key_text(FLAG_OPTION, "V"), Err("unknown key: V".to_string()));
    assert_eq!(combo_from_key_text(FLAG_OPTION, "space"), Ok("alt+space".to_string()));
}

#[test]
fn recorder_maps_space_tab_comma_and_function_keys() {
    assert_eq!(combo_from_event_flags(FLAG_OPTION, " "), Ok("alt+space".to_string()));
    assert_eq!(combo_from_event_flags(FLAG_OPTION, "\t"), Ok("alt+tab".to_string()));
    assert_eq!(combo_from_event_flags(FLAG_OPTION, ","), Ok("alt+comma".to_string()));
    assert_eq!(combo_from_event_flags(FLAG_OPTION, "\u{F704}"), Ok("alt+f1".to_string()));
    assert_eq!(
        combo_from_event_flags(FLAG_CONTROL | FLAG_SHIFT, "\u{F70F}"),
        Ok("ctrl+shift+f12".to_string())
    );
    assert_eq!(combo_from_event_flags(FLAG_COMMAND, "\u{F70D}"), Ok("meta+f10".to_string()));
    assert_eq!(
        combo_from_event_flags(0, " "),
        Err("combo must include at least one modifier key".to_string())
    );
    assert_eq!(combo_from_event_flags(FLAG_OPTION, "\u{F710}"), Err("unknown key: \u{F710}".to_string()));
}

#[test]
fn any_modifier_order_formats_canonically() {
    for combo in ["shift+alt+v", "alt+shift+v", "shift+alt+shift+v"] {
        let (m, c) = parse_combo(combo).unwrap();
        assert_eq!(format_combo(m, c), "alt+shift+v");
    }
    let (m, c) = parse_combo("shift+meta+ctrl+f1").unwrap();
    assert_eq!(format_combo(m, c), "meta+ctrl+shift+f1");
}
