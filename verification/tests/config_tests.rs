use cliphop::config::{
    history_limit_from_field, load, parse, render, Config, DEFAULT_MAX_HISTORY, MAX_MAX_HISTORY,
    MIN_MAX_HISTORY,
};

#[test]
fn default_values() {
    let cfg = Config::default();
    assert_eq!(cfg.max_history, DEFAULT_MAX_HISTORY);
    assert!(!cfg.verbose_logging);
}

#[test]
fn missing_file_returns_defaults() {
    let cfg = load(None);
    assert_eq!(cfg.max_history, DEFAULT_MAX_HISTORY);
    assert!(!cfg.verbose_logging);
}

#[test]
fn parse_valid_config() {
    let cfg = load(Some("verbose_logging=true\nmax_history=25\n"));
    assert!(cfg.verbose_logging);
    assert_eq!(cfg.max_history, 25);
}

#[test]
fn max_history_clamped_high() {
    let cfg = parse("max_history=999\n");
    assert_eq!(cfg.max_history, MAX_MAX_HISTORY);
}

#[test]
fn max_history_clamped_zero() {
    let cfg = parse("max_history=0\n");
    assert_eq!(cfg.max_history, MIN_MAX_HISTORY);
}

#[test]
fn unknown_keys_ignored() {
    let cfg = parse("unknown_key=foo\nmax_history=7\n");
    assert_eq!(cfg.max_history, 7);
    assert!(!cfg.verbose_logging);
}

#[test]
fn bad_value_falls_back_to_default() {
    let cfg = parse("max_history=notanumber\nverbose_logging=notabool\n");
    assert_eq!(cfg.max_history, DEFAULT_MAX_HISTORY);
    assert!(!cfg.verbose_logging);
}

#[test]
fn round_trip() {
    let cfg = load(Some("verbose_logging=true\nmax_history=42\n"));
    assert!(cfg.verbose_logging);
    assert_eq!(cfg.max_history, 42);
}

#[test]
fn default_hotkey_is_alt_v() {
    let cfg = Config::default();
    assert_eq!(cfg.hotkey, "alt+v");
}

#[test]
fn parse_hotkey_field() {
    let cfg = parse("hotkey=ctrl+shift+v\n");
    assert_eq!(cfg.hotkey, "ctrl+shift+v");
}

#[test]
fn save_and_load_hotkey() {
    let contents = "verbose_logging=false\nmax_history=10\nhotkey=meta+k\n";
    let loaded = load(Some(contents));
    assert_eq!(loaded.hotkey, "meta+k");
}

// ── Further cases ────────────────────────────────────────────────────

#[test]
fn render_writes_the_three_keys() {
    let cfg = Config { verbose_logging: true, max_history: 42, hotkey: "alt+v".to_string() };
    assert_eq!(render(&cfg), "verbose_logging=true\nmax_history=42\nhotkey=alt+v\n");
}

#[test]
fn render_then_parse_gives_the_settings_back() {
    let cfg = Config { verbose_logging: true, max_history: 33, hotkey: "ctrl+shift+f1".to_string() };
    let back = parse(&render(&cfg));
    assert!(back.verbose_logging);
    assert_eq!(back.max_history, 33);
    assert_eq!(back.hotkey, "ctrl+shift+f1");
}

#[test]
fn render_then_parse_clamps_and_trims() {
    let cfg = Config { verbose_logging: false, max_history: 0, hotkey: "  meta+k \t".to_string() };
    let back = parse(&render(&cfg));
    assert!(!back.verbose_logging);
    assert_eq!(back.max_history, 1);
    assert_eq!(back.hotkey, "meta+k");
}

#[test]
fn whitespace_around_keys_and_values_is_ignored() {
    let cfg = parse("  max_history =  +12  \r\n verbose_logging\t= true\r\n");
    assert_eq!(cfg.max_history, 12);
    assert!(cfg.verbose_logging);
}

#[test]
fn lines_without_equals_are_skipped_and_later_lines_win() {
    let cfg = parse("garbage\nmax_history=5\nmax_history=6");
    assert_eq!(cfg.max_history, 6);
}

#[test]
fn value_split_at_first_equals() {
    let cfg = parse("hotkey=a=b\n");
    assert_eq!(cfg.hotkey, "a=b");
}

#[test]
fn overflowing_number_is_ignored() {
    let cfg = parse("max_history=99999999999999999999999999\n");
    assert_eq!(cfg.max_history, DEFAULT_MAX_HISTORY);
    let cfg = parse("max_history=-3\n");
    assert_eq!(cfg.max_history, DEFAULT_MAX_HISTORY);
}

#[test]
fn settings_field_is_clamped() {
    assert_eq!(history_limit_from_field(-5), 1);
    assert_eq!(history_limit_from_field(0), 1);
    assert_eq!(history_limit_from_field(20), 20);
    assert_eq!(history_limit_from_field(51), 50);
}
