use flowmux::ghostty::parse;

#[test]
fn parses_typical_ghostty_config() {
    let raw = "\
        # Comment line\n\
        font-family = JetBrains Mono\n\
        font-size = 13\n\
        theme = catppuccin-mocha\n\
        background = #1e1e2e   # inline comment\n\
        keybind = ctrl+s>r=reload_config\n\
    ";
    let cfg = parse(raw);
    assert_eq!(cfg.font_family.as_deref(), Some("JetBrains Mono"));
    let font_size: Option<f32> = cfg.font_size.as_deref().and_then(|v| v.parse().ok());
    assert_eq!(font_size, Some(13.0));
    assert_eq!(cfg.theme.as_deref(), Some("catppuccin-mocha"));
    assert_eq!(cfg.background.as_deref(), Some("#1e1e2e"));
    assert!(cfg.extras.contains_key("keybind"));
}

#[test]
fn later_lines_win_and_odd_lines_are_skipped() {
    let raw = "theme = a\r\n  # theme = b\nno equals here\n\ntheme=c\nforeground = #fff#x\ncursor-color = #abc\t# note\nx = 1\nx = 2 # two\n";
    let cfg = parse(raw);
    assert_eq!(cfg.theme.as_deref(), Some("c"));
    assert_eq!(cfg.foreground.as_deref(), Some("#fff#x"));
    assert_eq!(cfg.cursor_color.as_deref(), Some("#abc"));
    assert!(cfg.extras.contains_key("x"));
    assert!(!cfg.extras.contains_key("no equals here"));
    assert_eq!(cfg.extras.pairs(), &vec![("x".to_string(), "2".to_string())]);
    assert!(cfg.font_family.is_none());
    assert!(cfg.background.is_none());
}

#[test]
fn empty_text_gives_the_default() {
    let cfg = parse("");
    assert!(cfg.font_family.is_none());
    assert!(cfg.font_size.is_none());
    assert!(cfg.extras.pairs().is_empty());
    let unparsable = parse("font-size = big");
    let size: Option<f32> = unparsable.font_size.as_deref().and_then(|v| v.parse().ok());
    assert_eq!(size, None);
}

#[test]
fn extra_keys_come_out_in_key_order() {
    let cfg = parse("zeta = 1\nalpha = 2\nmid = 3\nalpha = 4\nAlpha = 5\n");
    let keys: Vec<&str> = cfg.extras.pairs().iter().map(|p| p.0.as_str()).collect();
    assert_eq!(keys, vec!["Alpha", "alpha", "mid", "zeta"]);
    assert_eq!(cfg.extras.pairs()[1].1, "4");
    let copy = cfg.extras.clone();
    assert_eq!(copy.pairs(), cfg.extras.pairs());
}
