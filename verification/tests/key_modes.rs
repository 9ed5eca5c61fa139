use flowmux::key_modes::{parse_decimal_u32, TerminalInputModes, KITTY_SHIFT_ENTER, LEGACY_INSERT_NEWLINE};
#[test]
fn default_cursor_keys_stay_in_normal_mode() {
    let modes = TerminalInputModes::default();

    assert_eq!(modes.rewrite_input(b"\x1b[A").as_slice(), b"\x1b[A");
    assert_eq!(modes.rewrite_input(b"\x1b[B").as_slice(), b"\x1b[B");
    assert!(!modes.application_cursor());
    assert!(!modes.kitty_keyboard_enabled());
}

#[test]
fn default_shift_enter_is_legacy_esc_cr() {
    let modes = TerminalInputModes::default();
    assert_eq!(modes.shift_enter_bytes(), LEGACY_INSERT_NEWLINE);
}

#[test]
fn smkx_application_cursor_mode_rewrites_tig_arrow_keys() {
    let mut modes = TerminalInputModes::default();
    modes.observe_output(b"\x1b[?1h\x1b=");

    assert!(modes.application_cursor());
    assert_eq!(modes.rewrite_input(b"\x1b[A").as_slice(), b"\x1bOA");
    assert_eq!(modes.rewrite_input(b"\x1b[B").as_slice(), b"\x1bOB");
    assert_eq!(modes.rewrite_input(b"\x1b[C").as_slice(), b"\x1bOC");
    assert_eq!(modes.rewrite_input(b"\x1b[D").as_slice(), b"\x1bOD");
}

#[test]
fn rmkx_restores_normal_cursor_mode() {
    let mut modes = TerminalInputModes::default();
    modes.observe_output(b"\x1b[?1h\x1b=");
    modes.observe_output(b"\x1b[?1l\x1b>");

    assert!(!modes.application_cursor());
    assert_eq!(modes.rewrite_input(b"\x1b[A").as_slice(), b"\x1b[A");
    assert_eq!(modes.rewrite_input(b"\x1b[B").as_slice(), b"\x1b[B");
}

#[test]
fn decckm_tracking_survives_split_output_chunks() {
    let mut modes = TerminalInputModes::default();
    modes.observe_output(b"\x1b[?");
    modes.observe_output(b"1h");

    assert!(modes.application_cursor());
    assert_eq!(modes.rewrite_input(b"\x1b[A").as_slice(), b"\x1bOA");
}

#[test]
fn non_cursor_input_is_preserved_in_application_cursor_mode() {
    let mut modes = TerminalInputModes::default();
    modes.observe_output(b"\x1b[?1h");

    assert_eq!(modes.rewrite_input(b"abc\r\x1b").as_slice(), b"abc\r\x1b");
    assert_eq!(modes.rewrite_input(b"\x1b[3~").as_slice(), b"\x1b[3~");
    assert_eq!(modes.rewrite_input(b"\x1bOP").as_slice(), b"\x1bOP");
}

#[test]
fn private_csi_list_updates_when_decckm_is_present() {
    let mut modes = TerminalInputModes::default();
    modes.observe_output(b"\x1b[?7;1h");

    assert!(modes.application_cursor());
}

// ---- Kitty keyboard progressive enhancement tests ----

#[test]
fn kitty_push_enables_disambiguate() {
    let mut modes = TerminalInputModes::default();
    // CSI > 1 u — push, set flag 1 (disambiguate)
    modes.observe_output(b"\x1b[>1u");

    assert!(modes.kitty_keyboard_enabled());
    assert_eq!(modes.shift_enter_bytes(), KITTY_SHIFT_ENTER);
}

#[test]
fn kitty_push_stacks_and_pop_restores() {
    let mut modes = TerminalInputModes::default();
    // Push flag 1 → disambiguate on
    modes.observe_output(b"\x1b[>1u");
    assert!(modes.kitty_keyboard_enabled());

    // Push flag 3 (disambiguate + report event types) → still on
    modes.observe_output(b"\x1b[>3u");
    assert!(modes.kitty_keyboard_enabled());

    // Pop: CSI < u — restore flag 1 → still on
    modes.observe_output(b"\x1b[<u");
    assert!(modes.kitty_keyboard_enabled());

    // Pop again — restore default (0) → disambiguate off
    modes.observe_output(b"\x1b[<u");
    assert!(!modes.kitty_keyboard_enabled());
    assert_eq!(modes.shift_enter_bytes(), LEGACY_INSERT_NEWLINE);
}

#[test]
fn kitty_set_with_mode() {
    let mut modes = TerminalInputModes::default();
    // CSI = 1 ; 1 u — set flags=1 with mode=1 (progressive enhancement)
    modes.observe_output(b"\x1b[=1;1u");
    assert!(modes.kitty_keyboard_enabled());
}

#[test]
fn kitty_set_zero_disables() {
    let mut modes = TerminalInputModes::default();
    modes.observe_output(b"\x1b[>1u");
    assert!(modes.kitty_keyboard_enabled());

    // CSI = 0 ; 0 u — reset to defaults
    modes.observe_output(b"\x1b[=0;0u");
    assert!(!modes.kitty_keyboard_enabled());
}

#[test]
fn kitty_pop_with_count_and_flags() {
    let mut modes = TerminalInputModes::default();
    // Push three levels: 1, 2, 4
    modes.observe_output(b"\x1b[>1u");
    modes.observe_output(b"\x1b[>2u");
    modes.observe_output(b"\x1b[>4u");
    // Flag 4 does NOT include bit 0, so disambiguate is off
    assert!(!modes.kitty_keyboard_enabled());

    // CSI < 2 ; 1 u — pop 2 entries, then set flags=1
    modes.observe_output(b"\x1b[<2;1u");
    // After popping 2, we're at flags=1 → disambiguate on
    assert!(modes.kitty_keyboard_enabled());
    assert_eq!(modes.shift_enter_bytes(), KITTY_SHIFT_ENTER);
}

#[test]
fn kitty_pop_empty_stack_is_noop() {
    let mut modes = TerminalInputModes::default();
    // Pop on empty stack: should not panic, flags stay 0
    modes.observe_output(b"\x1b[<u");
    assert!(!modes.kitty_keyboard_enabled());
}

#[test]
fn kitty_push_pop_split_chunks() {
    let mut modes = TerminalInputModes::default();
    // Chunk the push across multiple observe_output calls
    modes.observe_output(b"\x1b[>");
    modes.observe_output(b"1");
    modes.observe_output(b"u");

    assert!(modes.kitty_keyboard_enabled());

    // Chunk the pop
    modes.observe_output(b"\x1b[<");
    modes.observe_output(b"u");

    assert!(!modes.kitty_keyboard_enabled());
}

#[test]
fn kitty_multiple_shift_enter_in_one_input() {
    let mut modes = TerminalInputModes::default();
    modes.observe_output(b"\x1b[>1u");

    // Two ESC CR sequences in one buffer
    let input = b"\x1b\r\x1b\r";
    let rewritten = modes.rewrite_input(input);
    // Each ESC CR (2 bytes) → KITTY_SHIFT_ENTER (7 bytes)
    assert_eq!(rewritten.as_slice().len(), 14);
    assert_eq!(&rewritten.as_slice()[0..7], KITTY_SHIFT_ENTER);
    assert_eq!(&rewritten.as_slice()[7..14], KITTY_SHIFT_ENTER);
}

#[test]
fn kitty_multiple_shift_enter_with_text_between() {
    let mut modes = TerminalInputModes::default();
    modes.observe_output(b"\x1b[>1u");

    let input = b"a\x1b\rb\x1b\rc";
    let rewritten = modes.rewrite_input(input);
    let out = rewritten.as_slice();
    // Expected: a + KITTY_SHIFT_ENTER + b + KITTY_SHIFT_ENTER + c
    assert_eq!(out.len(), 1 + 7 + 1 + 7 + 1);
    assert_eq!(out[0], b'a');
    assert_eq!(&out[1..8], KITTY_SHIFT_ENTER);
    assert_eq!(out[8], b'b');
    assert_eq!(&out[9..16], KITTY_SHIFT_ENTER);
    assert_eq!(out[16], b'c');
}

#[test]
fn kitty_and_decckm_can_both_be_active() {
    let mut modes = TerminalInputModes::default();
    modes.observe_output(b"\x1b[?1h"); // enable DECCKM
    modes.observe_output(b"\x1b[>1u"); // enable Kitty disambiguate

    assert!(modes.application_cursor());
    assert!(modes.kitty_keyboard_enabled());
    assert_eq!(modes.shift_enter_bytes(), KITTY_SHIFT_ENTER);

    // Cursor keys still rewritten for DECCKM
    assert_eq!(modes.rewrite_input(b"\x1b[A").as_slice(), b"\x1bOA");
}

#[test]
fn kitty_shift_enter_rewrite() {
    let mut modes = TerminalInputModes::default();
    modes.observe_output(b"\x1b[>1u");

    // Shift+Enter (ESC CR) rewritten to Kitty CSI-u
    assert_eq!(modes.rewrite_input(b"\x1b\r").as_slice(), KITTY_SHIFT_ENTER);
}

#[test]
fn kitty_other_input_unchanged() {
    let mut modes = TerminalInputModes::default();
    modes.observe_output(b"\x1b[>1u");

    // Plain Enter unchanged
    assert_eq!(modes.rewrite_input(b"\r").as_slice(), b"\r");
    // Ctrl+C unchanged
    assert_eq!(modes.rewrite_input(b"\x03").as_slice(), b"\x03");
    // Normal arrow keys unchanged (no DECCKM active)
    assert_eq!(modes.rewrite_input(b"\x1b[A").as_slice(), b"\x1b[A");
}

#[test]
fn kitty_shift_enter_in_mixed_chunk() {
    let mut modes = TerminalInputModes::default();
    modes.observe_output(b"\x1b[>1u");

    // ESC CR preceded/followed by plain text
    let input = b"hello\x1b\rworld";
    let rewritten = modes.rewrite_input(input);
    assert!(rewritten.as_slice().len() > input.len());
    assert!(
        rewritten
            .as_slice()
            .windows(KITTY_SHIFT_ENTER.len())
            .any(|w| w == KITTY_SHIFT_ENTER),
        "KITTY_SHIFT_ENTER not found in rewritten output"
    );
    assert!(rewritten.as_slice().starts_with(b"hello"));
    assert!(rewritten.as_slice().ends_with(b"world"));
}

#[test]
fn kitty_disambiguate_off_no_rewrite() {
    let mut modes = TerminalInputModes::default();
    // Flag 2 (report event types) but not flag 1 (disambiguate)
    modes.observe_output(b"\x1b[>2u");

    assert!(!modes.kitty_keyboard_enabled());
    // ESC CR not rewritten
    assert_eq!(modes.rewrite_input(b"\x1b\r").as_slice(), b"\x1b\r");
    assert_eq!(modes.shift_enter_bytes(), LEGACY_INSERT_NEWLINE);
}

#[test]
fn kitty_shift_enter_bytes_constant_is_correct() {
    assert_eq!(&KITTY_SHIFT_ENTER, b"\x1b[13;2u");
    assert_eq!(&LEGACY_INSERT_NEWLINE, b"\x1b\r");
}

#[test]
fn unrelated_csi_does_not_affect_kitty_keyboard() {
    let mut modes = TerminalInputModes::default();
    modes.observe_output(b"\x1b[?25l");
    modes.observe_output(b"\x1b[?25h");
    modes.observe_output(b"\x1b[0m");

    assert!(!modes.kitty_keyboard_enabled());
    assert_eq!(modes.shift_enter_bytes(), LEGACY_INSERT_NEWLINE);
}

#[test]
fn parse_decimal_u32_valid() {
    assert_eq!(parse_decimal_u32(b"0"), Some(0));
    assert_eq!(parse_decimal_u32(b"1"), Some(1));
    assert_eq!(parse_decimal_u32(b"27127"), Some(27127));
    assert_eq!(parse_decimal_u32(b"4294967295"), Some(u32::MAX));
}

#[test]
fn parse_decimal_u32_invalid() {
    assert_eq!(parse_decimal_u32(b""), None);
    assert_eq!(parse_decimal_u32(b"-1"), None);
    assert_eq!(parse_decimal_u32(b"1a"), None);
    // Overflow (> u32::MAX)
    assert_eq!(parse_decimal_u32(b"4294967296"), None);
}

#[test]
fn kitty_pop_with_count_only() {
    let mut modes = TerminalInputModes::default();
    // Push 1, 3, 7 — only 1 and 3 have disambiguate bit
    modes.observe_output(b"\x1b[>1u");
    modes.observe_output(b"\x1b[>3u");
    modes.observe_output(b"\x1b[>7u");
    // Flag 7 has bit 0 set → disambiguate on
    assert!(modes.kitty_keyboard_enabled());

    // CSI < 2 u — pop 2 entries, restoring flags=1
    modes.observe_output(b"\x1b[<2u");
    assert!(modes.kitty_keyboard_enabled());
}

#[test]
fn kitty_set_without_mode() {
    let mut modes = TerminalInputModes::default();
    // CSI = 1 u — set flags=1, no explicit mode
    modes.observe_output(b"\x1b[=1u");
    assert!(modes.kitty_keyboard_enabled());
}
