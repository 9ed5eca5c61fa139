use flowmux::keys::{encode_key, KeyPress, NamedKey};

#[test]
fn named_keys_send_fixed_sequences() {
    assert_eq!(encode_key(KeyPress::Named(NamedKey::Return), false, false), Some(b"\r".to_vec()));
    assert_eq!(encode_key(KeyPress::Named(NamedKey::KpEnter), true, true), Some(b"\r".to_vec()));
    assert_eq!(encode_key(KeyPress::Named(NamedKey::BackSpace), false, false), Some(vec![0x7f]));
    assert_eq!(encode_key(KeyPress::Named(NamedKey::Up), false, false), Some(b"\x1b[A".to_vec()));
    assert_eq!(encode_key(KeyPress::Named(NamedKey::Left), false, false), Some(b"\x1b[D".to_vec()));
    assert_eq!(encode_key(KeyPress::Named(NamedKey::Home), false, false), Some(b"\x1b[H".to_vec()));
    assert_eq!(encode_key(KeyPress::Named(NamedKey::End), false, false), Some(b"\x1b[F".to_vec()));
    assert_eq!(encode_key(KeyPress::Named(NamedKey::PageUp), false, false), Some(b"\x1b[5~".to_vec()));
    assert_eq!(encode_key(KeyPress::Named(NamedKey::PageDown), false, false), Some(b"\x1b[6~".to_vec()));
    assert_eq!(encode_key(KeyPress::Named(NamedKey::Delete), false, false), Some(b"\x1b[3~".to_vec()));
    assert_eq!(encode_key(KeyPress::Named(NamedKey::Insert), false, false), Some(b"\x1b[2~".to_vec()));
    assert_eq!(encode_key(KeyPress::Named(NamedKey::Tab), false, false), Some(b"\t".to_vec()));
    assert_eq!(encode_key(KeyPress::Named(NamedKey::Escape), false, false), Some(vec![0x1b]));
}

#[test]
fn ctrl_letters_send_control_bytes() {
    assert_eq!(encode_key(KeyPress::Char('c'), true, false), Some(vec![3]));
    assert_eq!(encode_key(KeyPress::Char('C'), true, false), Some(vec![3]));
    assert_eq!(encode_key(KeyPress::Char('a'), true, true), Some(vec![1]));
    assert_eq!(encode_key(KeyPress::Char('z'), true, false), Some(vec![26]));
    assert_eq!(encode_key(KeyPress::Char(' '), true, false), Some(vec![0]));
    assert_eq!(encode_key(KeyPress::Char('['), true, false), Some(vec![0x1b]));
    assert_eq!(encode_key(KeyPress::Char('\\'), true, false), Some(vec![0x1c]));
    assert_eq!(encode_key(KeyPress::Char(']'), true, false), Some(vec![0x1d]));
    assert_eq!(encode_key(KeyPress::Char('1'), true, false), None);
}

#[test]
fn alt_prefixes_escape_to_utf8() {
    assert_eq!(encode_key(KeyPress::Char('x'), false, true), Some(vec![0x1b, b'x']));
    assert_eq!(encode_key(KeyPress::Char('é'), false, true), Some(vec![0x1b, 0xc3, 0xa9]));
    assert_eq!(encode_key(KeyPress::Char('한'), true, true), Some(vec![0x1b, 0xed, 0x95, 0x9c]));
}

#[test]
fn plain_text_is_left_to_the_input_method() {
    assert_eq!(encode_key(KeyPress::Char('a'), false, false), None);
    assert_eq!(encode_key(KeyPress::Char('한'), false, false), None);
    assert_eq!(encode_key(KeyPress::Unmapped, true, true), None);
    assert_eq!(encode_key(KeyPress::Char('\u{1}'), false, false), Some(vec![1]));
}
