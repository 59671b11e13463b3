use tuipo::config::{
    Config, EnvOverrides, FileEntry, FileValue, UnderlineMode, DEFAULT_HOVER_MS, DEFAULT_PAUSE_MS,
};

#[test]
fn defaults_are_minimal() {
    let c = Config::default();
    assert!(c.paint, "paint defaults to on");
    assert!(!c.tab_fix, "tab_fix defaults to off");
    assert!(!c.picker, "picker defaults to off");
    assert!(!c.status_row, "status_row defaults to off");
    assert!(!c.grammar, "grammar defaults to off");
    assert_eq!(c.pause_ms, DEFAULT_PAUSE_MS);
    assert_eq!(c.hover_ms, DEFAULT_HOVER_MS);
    assert!(c.dict_path.is_none());
    assert_eq!(c.underline, UnderlineMode::Auto);
}

#[test]
fn grammar_env_override_takes_precedence_over_file() {
    // Even if the config file says grammar = false, TUIPO_GRAMMAR=1
    // turns it on. Matches the env-wins-over-file precedence used by
    // every other setting.
    let c = Config {
        grammar: false,
        ..Config::default()
    };
    let env = EnvOverrides { grammar: Some("1".into()), ..EnvOverrides::default() };
    let on = c.grammar_enabled(&env);
    assert!(on, "env should force grammar on");
}

#[test]
fn picker_implies_tab_fix() {
    // Picker only opens via Tab, so enabling it must light up the
    // Tab-intercept path regardless of `tab_fix`.
    let c = Config {
        picker: true,
        ..Config::default()
    };
    assert!(c.tab_fix_enabled(&EnvOverrides::default()), "picker on implies tab_fix on");
}

#[test]
fn toml_roundtrip_preserves_fields() {
    // The config TUI writes back via `to_toml_string`; we then read
    // back via the same parser used at startup. The roundtrip must
    // be value-preserving or settings would silently drift.
    let original = Config {
        paint: false,
        underline: UnderlineMode::Fancy,
        tab_fix: true,
        picker: true,
        status_row: true,
        grammar: true,
        pause_ms: 200,
        hover_ms: 400,
        dict_path: Some("~/custom/dict.txt".into()),
    };
    let serialized = original.to_toml_string();
    let parsed = Config::from_toml(&serialized).expect("roundtrip parse");
    assert_eq!(parsed.paint, original.paint);
    assert_eq!(parsed.underline, original.underline);
    assert_eq!(parsed.tab_fix, original.tab_fix);
    assert_eq!(parsed.picker, original.picker);
    assert_eq!(parsed.status_row, original.status_row);
    assert_eq!(parsed.grammar, original.grammar);
    assert_eq!(parsed.pause_ms, original.pause_ms);
    assert_eq!(parsed.hover_ms, original.hover_ms);
    assert_eq!(parsed.dict_path, original.dict_path);
}

#[test]
fn toml_omits_dict_path_when_none() {
    let c = Config {
        dict_path: None,
        ..Config::default()
    };
    let s = c.to_toml_string();
    assert!(
        !s.contains("dict_path"),
        "dict_path should be absent when None: {s}"
    );
    // Roundtrip still works.
    let parsed = Config::from_toml(&s).expect("parse");
    assert!(parsed.dict_path.is_none());
}

#[test]
fn toml_escapes_quotes_and_backslashes_in_dict_path() {
    let c = Config {
        dict_path: Some(r#"with "quote" and \backslash"#.into()),
        ..Config::default()
    };
    let s = c.to_toml_string();
    let parsed = Config::from_toml(&s).expect("parse escaped path");
    assert_eq!(parsed.dict_path.as_deref(), c.dict_path.as_deref());
}

#[test]
fn parses_full_config() {
    let toml_src = r#"
            paint = false
            underline = "fancy"
            tab_fix = true
            picker = true
            status_row = true
            grammar = true
            pause_ms = 250
            hover_ms = 400
            dict_path = "/tmp/words.txt"
        "#;
    let c = Config::from_toml(toml_src).expect("parse");
    assert!(!c.paint);
    assert_eq!(c.underline, UnderlineMode::Fancy);
    assert!(c.tab_fix);
    assert!(c.picker);
    assert!(c.status_row);
    assert!(c.grammar);
    assert_eq!(c.pause_ms, 250);
    assert_eq!(c.hover_ms, 400);
    assert_eq!(c.dict_path.as_deref(), Some("/tmp/words.txt"));
}

#[test]
fn partial_config_uses_defaults_for_missing() {
    let c = Config::from_toml("picker = true").expect("parse");
    assert!(c.picker, "explicit field honored");
    assert!(c.paint, "missing field falls back to default");
    assert_eq!(c.pause_ms, DEFAULT_PAUSE_MS);
}

#[test]
fn unknown_field_is_an_error() {
    // Unknown keys are rejected to keep typos from silently no-op'ing —
    // a user who writes `picker_enabled = true` should see the
    // parse fail rather than wonder why nothing changed.
    let res = Config::from_toml("picker_enabled = true");
    assert!(res.is_none(), "unknown field should be rejected: {res:?}");
}

#[test]
fn values_of_the_wrong_kind_are_rejected() {
    for text in [
        "paint = 1",
        "paint = \"true\"",
        "underline = true",
        "underline = \"curly\"",
        "pause_ms = -1",
        "pause_ms = 1.5",
        "hover_ms = \"250\"",
        "dict_path = 3",
        "grammar = []",
        "picker = true\npicker = true",
        "paint =",
    ] {
        assert!(Config::from_toml(text).is_none(), "{text}");
    }
    let c = Config::from_toml("").expect("all settings are optional");
    assert_eq!(c.to_toml_string(), Config::default().to_toml_string());
}

#[test]
fn settings_are_read_back_up_to_the_limits_of_toml() {
    let paths = ["", "\t", "caf\u{e9} \u{1f980}", "\\\\\"", "a=b # c", "\u{85}\u{feff}"];
    for path in paths {
        let c = Config {
            pause_ms: i64::MAX as u64,
            hover_ms: 0,
            dict_path: Some(path.into()),
            ..Config::default()
        };
        let text = c.to_toml_string();
        let read = Config::from_toml(&text).expect("read back");
        assert_eq!(read.to_toml_string(), text);
        assert_eq!(read.dict_path.as_deref(), Some(path));
    }
    let c = Config { pause_ms: u64::MAX, ..Config::default() };
    assert!(Config::from_toml(&c.to_toml_string()).is_none(), "no such integer in TOML");
}

#[test]
fn entries_make_settings() {
    let entry = |key: &str, value: FileValue| FileEntry { key: key.into(), value };
    let c = Config::from_entries(&vec![
        entry("hover_ms", FileValue::Number(7)),
        entry("underline", FileValue::Text("plain".into())),
    ])
    .unwrap();
    assert_eq!(c.hover_ms, 7);
    assert_eq!(c.underline, UnderlineMode::Plain);
    assert_eq!(c.pause_ms, DEFAULT_PAUSE_MS);
    assert!(Config::from_entries(&vec![entry("paint", FileValue::Other)]).is_none());
    assert!(Config::from_entries(&vec![entry("pause_ms", FileValue::Number(-1))]).is_none());
}
