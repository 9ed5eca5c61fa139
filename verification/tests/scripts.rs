use flowmux::scripts::{
    attr_of, click_by_ref, fill_by_ref, js_string, press_key, scroll_by_ref, select_option_by_ref,
    text_of, type_keys, value_of, SNAPSHOT_JS,
};

/// Quick sanity check: every script should be a self-invoking
/// IIFE and have balanced parens / braces. The controller
/// expects a single expression that returns a string.
fn assert_balanced(js: &str) {
    let mut paren = 0i32;
    let mut brace = 0i32;
    let mut bracket = 0i32;
    let mut in_str = None::<char>;
    let mut prev = '\0';
    for c in js.chars() {
        if let Some(q) = in_str {
            if c == q && prev != '\\' {
                in_str = None;
            }
        } else {
            match c {
                '"' | '\'' | '`' => in_str = Some(c),
                '(' => paren += 1,
                ')' => paren -= 1,
                '{' => brace += 1,
                '}' => brace -= 1,
                '[' => bracket += 1,
                ']' => bracket -= 1,
                _ => {}
            }
        }
        prev = c;
    }
    assert_eq!(paren, 0, "unbalanced parens in:\n{js}");
    assert_eq!(brace, 0, "unbalanced braces in:\n{js}");
    assert_eq!(bracket, 0, "unbalanced brackets in:\n{js}");
}

#[test]
fn snapshot_js_is_balanced_iife() {
    assert!(SNAPSHOT_JS.trim_start().starts_with("(function()"));
    assert_balanced(SNAPSHOT_JS);
}

#[test]
fn click_by_ref_embeds_ref() {
    let s = click_by_ref("e7");
    assert!(s.contains(r#"data-flowmux-ref="e7""#));
    assert!(s.contains("el.click()"));
    assert_balanced(&s);
}

#[test]
fn fill_by_ref_dispatches_input_and_change() {
    let s = fill_by_ref("e1", "user@example.com");
    assert!(s.contains("'input'"));
    assert!(s.contains("'change'"));
    assert!(s.contains("user@example.com"));
    assert_balanced(&s);
}

#[test]
fn fill_by_ref_escapes_quote_in_value() {
    let s = fill_by_ref("e1", r#"O'Reilly"#);
    // The unescaped value would break out of the string literal
    // around `el.value = "..."`. After escaping the literal `'`
    // stays unchanged but the surrounding `"..."` is balanced.
    assert!(s.contains("O'Reilly"));
    assert_balanced(&s);
}

#[test]
fn fill_by_ref_escapes_double_quote_in_value() {
    let s = fill_by_ref("e1", r#"say "hi""#);
    assert!(s.contains(r#"\"hi\""#));
    assert_balanced(&s);
}

#[test]
fn select_option_by_ref_balanced() {
    assert_balanced(&select_option_by_ref("e1", "USD"));
}

#[test]
fn scroll_by_ref_inlines_coords() {
    let s = scroll_by_ref("e1", 10, -5);
    assert!(s.contains("scrollBy(10, -5)"));
    assert_balanced(&s);
}

#[test]
fn read_helpers_balanced() {
    assert_balanced(&text_of("e1"));
    assert_balanced(&value_of("e1"));
    assert_balanced(&attr_of("e1", "href"));
}

#[test]
fn type_keys_escapes_newline() {
    let s = type_keys("a\nb");
    assert!(s.contains(r"\n"));
    assert_balanced(&s);
}

#[test]
fn press_key_inlines_name() {
    let s = press_key("Enter");
    assert!(s.contains("\"Enter\""));
    assert_balanced(&s);
}

#[test]
fn js_string_escapes_known_specials() {
    assert_eq!(js_string(r#"a\b"#), "a\\\\b");
    assert_eq!(js_string("a\nb"), "a\\nb");
    assert_eq!(js_string("a\tb"), "a\\tb");
    assert_eq!(js_string("a\rb"), "a\\rb");
    assert_eq!(js_string("\"hi\""), "\\\"hi\\\"");
}

#[test]
fn js_string_passes_safe_ascii_through() {
    assert_eq!(js_string("hello world"), "hello world");
    assert_eq!(js_string("a-b_c.d"), "a-b_c.d");
}

#[test]
fn js_string_escapes_low_control_chars() {
    let s = js_string("\u{0001}");
    assert_eq!(s, "\\u0001");
}

#[test]
fn js_string_escapes_line_separators() {
    // U+2028 / U+2029 break JS string literals if not escaped.
    assert_eq!(js_string("\u{2028}"), "\\u2028");
    assert_eq!(js_string("\u{2029}"), "\\u2029");
}


#[test]
fn scroll_by_ref_writes_extreme_coordinates() {
    let s = scroll_by_ref("e2", i32::MIN, i32::MAX);
    assert!(s.contains("scrollBy(-2147483648, 2147483647)"));
    assert!(s.contains(r#"data-flowmux-ref="e2""#));
}

#[test]
fn js_string_escapes_every_control_character_as_unicode() {
    assert_eq!(js_string("\u{001f}x\u{0000}"), "\\u001fx\\u0000");
    assert_eq!(js_string("\u{000b}"), "\\u000b");
    assert_eq!(js_string("é\u{7f}"), "é\u{7f}");
}
