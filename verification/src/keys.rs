//! Key presses turned into the bytes a terminal expects.
//!
//! The toolkit's key value is reduced to a [`KeyPress`] by the caller: one
//! of the named keys below, else the character the key types, else
//! nothing.
use vstd::prelude::*;
use vstd::string::StrSliceExecFns;
use vstd::utf8::encode_utf8;
use crate::text::push;

verus! {

/// Keys with a fixed terminal encoding.
#[derive(Debug, Clone, Copy, PartialEq, Eq, Structural)]
pub enum NamedKey {
    Return,
    KpEnter,
    BackSpace,
    Tab,
    Escape,
    Up,
    Down,
    Right,
    Left,
    Home,
    End,
    PageUp,
    PageDown,
    Delete,
    Insert,
}

/// A key press as the terminal sees it.
#[derive(Debug, Clone, Copy, PartialEq, Eq, Structural)]
pub enum KeyPress {
    Named(NamedKey),
    /// A key that types this character.
    Char(char),
    /// A key with neither a fixed encoding nor a character.
    Unmapped,
}

/// The fixed encoding of a named key (xterm-style cursor and editing keys).
pub open spec fn named_bytes(k: NamedKey) -> Seq<u8> {
    match k {
        NamedKey::Return | NamedKey::KpEnter => seq![0x0du8],
        NamedKey::BackSpace => seq![0x7fu8],
        NamedKey::Tab => seq![0x09u8],
        NamedKey::Escape => seq![0x1bu8],
        NamedKey::Up => seq![0x1bu8, 0x5b, 0x41],
        NamedKey::Down => seq![0x1bu8, 0x5b, 0x42],
        NamedKey::Right => seq![0x1bu8, 0x5b, 0x43],
        NamedKey::Left => seq![0x1bu8, 0x5b, 0x44],
        NamedKey::Home => seq![0x1bu8, 0x5b, 0x48],
        NamedKey::End => seq![0x1bu8, 0x5b, 0x46],
        NamedKey::PageUp => seq![0x1bu8, 0x5b, 0x35, 0x7e],
        NamedKey::PageDown => seq![0x1bu8, 0x5b, 0x36, 0x7e],
        NamedKey::Delete => seq![0x1bu8, 0x5b, 0x33, 0x7e],
        NamedKey::Insert => seq![0x1bu8, 0x5b, 0x32, 0x7e],
    }
}

/// ASCII lower-case letters mapped to upper case; everything else kept.
pub open spec fn ascii_upper(c: char) -> char {
    if 'a' <= c && c <= 'z' {
        ((c as u32) - 32) as char
    } else {
        c
    }
}

/// The control byte Ctrl with `c` sends: Ctrl-A … Ctrl-Z (either case) are
/// 1 … 26; Ctrl-Space is NUL, Ctrl-`[` ESC, Ctrl-`\` FS, Ctrl-`]` GS.
pub open spec fn ctrl_byte(c: char) -> Option<u8> {
    let u = ascii_upper(c) as u32;
    if 0x41 <= u && u <= 0x5a {
        Some((u - 0x40) as u8)
    } else if c == ' ' {
        Some(0u8)
    } else if c == '[' {
        Some(0x1bu8)
    } else if c == '\\' {
        Some(0x1cu8)
    } else if c == ']' {
        Some(0x1du8)
    } else {
        None
    }
}

/// The bytes a key press sends, if the terminal handles it here rather than
/// the input method: named keys always; Ctrl combinations with a control
/// byte; Alt with a character as ESC and the character's UTF-8; a control
/// character typed alone as itself. Plain printable text is `None`, left to
/// the input method (dead keys, CJK composition).
pub open spec fn key_bytes(key: KeyPress, ctrl: bool, alt: bool) -> Option<Seq<u8>> {
    match key {
        KeyPress::Named(k) => Some(named_bytes(k)),
        KeyPress::Unmapped => None,
        KeyPress::Char(c) => if ctrl && ctrl_byte(c) is Some {
            Some(seq![ctrl_byte(c)->0])
        } else if alt {
            Some(seq![0x1bu8] + encode_utf8(seq![c]))
        } else if (c as u32) < 0x20 {
            Some(encode_utf8(seq![c]))
        } else {
            None
        },
    }
}

fn named_key_bytes(k: NamedKey) -> (r: Vec<u8>)
    ensures
        r@ == named_bytes(k),
{
    let r = match k {
        NamedKey::Return | NamedKey::KpEnter => vec![0x0du8],
        NamedKey::BackSpace => vec![0x7fu8],
        NamedKey::Tab => vec![0x09u8],
        NamedKey::Escape => vec![0x1bu8],
        NamedKey::Up => vec![0x1bu8, 0x5b, 0x41],
        NamedKey::Down => vec![0x1bu8, 0x5b, 0x42],
        NamedKey::Right => vec![0x1bu8, 0x5b, 0x43],
        NamedKey::Left => vec![0x1bu8, 0x5b, 0x44],
        NamedKey::Home => vec![0x1bu8, 0x5b, 0x48],
        NamedKey::End => vec![0x1bu8, 0x5b, 0x46],
        NamedKey::PageUp => vec![0x1bu8, 0x5b, 0x35, 0x7e],
        NamedKey::PageDown => vec![0x1bu8, 0x5b, 0x36, 0x7e],
        NamedKey::Delete => vec![0x1bu8, 0x5b, 0x33, 0x7e],
        NamedKey::Insert => vec![0x1bu8, 0x5b, 0x32, 0x7e],
    };
    assert(r@ =~= named_bytes(k));
    r
}

/// The UTF-8 encoding of `c`.
fn utf8_of(c: char) -> (r: Vec<u8>)
    ensures
        r@ == encode_utf8(seq![c]),
{
    let mut s = String::new();
    push(&mut s, c);
    assert(s@ =~= seq![c]);
    s.as_str().as_bytes_vec()
}

fn ctrl_byte_of(c: char) -> (r: Option<u8>)
    ensures
        r == ctrl_byte(c),
{
    let u: u32 = if 'a' <= c && c <= 'z' {
        (c as u32) - 32
    } else {
        c as u32
    };
    if 0x41 <= u && u <= 0x5a {
        Some((u - 0x40) as u8)
    } else if c == ' ' {
        Some(0u8)
    } else if c == '[' {
        Some(0x1bu8)
    } else if c == '\\' {
        Some(0x1cu8)
    } else if c == ']' {
        Some(0x1du8)
    } else {
        None
    }
}

/// Encodes a key press, with the state of Ctrl and Alt, into terminal bytes.
pub fn encode_key(key: KeyPress, ctrl: bool, alt: bool) -> (r: Option<Vec<u8>>)
    ensures
        match r {
            Some(bytes) => key_bytes(key, ctrl, alt) == Some(bytes@),
            None => key_bytes(key, ctrl, alt) is None,
        },
{
    match key {
        KeyPress::Named(k) => Some(named_key_bytes(k)),
        KeyPress::Unmapped => None,
        KeyPress::Char(c) => {
            if ctrl {
                if let Some(b) = ctrl_byte_of(c) {
                    let v = vec![b];
                    assert(v@ =~= seq![b]);
                    return Some(v);
                }
            }
            if alt {
                let mut out = vec![0x1bu8];
                let enc = utf8_of(c);
                let mut i: usize = 0;
                while i < enc.len()
                    invariant
                        i <= enc@.len(),
                        out@ == seq![0x1bu8] + enc@.take(i as int),
                    decreases enc@.len() - i,
                {
                    out.push(enc[i]);
                    i = i + 1;
                    assert(out@ =~= seq![0x1bu8] + enc@.take(i as int));
                }
                assert(enc@.take(enc@.len() as int) =~= enc@);
                return Some(out);
            }
            if (c as u32) < 0x20 {
                return Some(utf8_of(c));
            }
            None
        },
    }
}

// ------------------------------------------------------------------
// Laws
// ------------------------------------------------------------------

/// Ctrl with a letter sends one byte from 1 to 26, the same for either case.
pub proof fn lemma_ctrl_letters_ignore_case(c: char, alt: bool)
    requires
        'a' <= c && c <= 'z',
    ensures
        key_bytes(KeyPress::Char(c), true, alt) == key_bytes(KeyPress::Char(ascii_upper(c)), true, alt),
        key_bytes(KeyPress::Char(c), true, alt) == Some(seq![((c as u32) - 0x60) as u8]),
        1 <= (c as u32) - 0x60 <= 26,
{
}

/// Without modifiers, printable text is left to the input method.
pub proof fn lemma_plain_text_goes_to_input_method(c: char)
    requires
        (c as u32) >= 0x20,
    ensures
        key_bytes(KeyPress::Char(c), false, false) is None,
{
}

/// Alt sends the character ESC-prefixed, unless Ctrl gives it a control byte.
pub proof fn lemma_alt_prefixes_escape(c: char, ctrl: bool)
    requires
        !(ctrl && ctrl_byte(c) is Some),
    ensures
        key_bytes(KeyPress::Char(c), ctrl, true) == Some(seq![0x1bu8] + encode_utf8(seq![c])),
{
}

/// Named keys ignore the modifiers.
pub proof fn lemma_named_keys_ignore_modifiers(k: NamedKey, ctrl: bool, alt: bool)
    ensures
        key_bytes(KeyPress::Named(k), ctrl, alt) == key_bytes(KeyPress::Named(k), false, false),
        key_bytes(KeyPress::Named(k), ctrl, alt) is Some,
{
}


/// Each named key sends its xterm sequence, whatever the modifiers: Return
/// and keypad Enter CR, BackSpace DEL, Tab HT, Escape ESC; the arrows
/// `ESC [ A` (up), `B` (down), `C` (right), `D` (left); Home `ESC [ H`, End
/// `ESC [ F`; Page Up/Down, Delete and Insert `ESC [ 5 ~`, `ESC [ 6 ~`,
/// `ESC [ 3 ~`, `ESC [ 2 ~`.
pub proof fn lemma_named_key_sequences(ctrl: bool, alt: bool)
    ensures
        key_bytes(KeyPress::Named(NamedKey::Return), ctrl, alt) == Some(seq![0x0du8]),
        key_bytes(KeyPress::Named(NamedKey::KpEnter), ctrl, alt) == Some(seq![0x0du8]),
        key_bytes(KeyPress::Named(NamedKey::BackSpace), ctrl, alt) == Some(seq![0x7fu8]),
        key_bytes(KeyPress::Named(NamedKey::Tab), ctrl, alt) == Some(seq![0x09u8]),
        key_bytes(KeyPress::Named(NamedKey::Escape), ctrl, alt) == Some(seq![0x1bu8]),
        key_bytes(KeyPress::Named(NamedKey::Up), ctrl, alt) == Some(seq![0x1bu8, 0x5bu8, 0x41u8]),
        key_bytes(KeyPress::Named(NamedKey::Down), ctrl, alt) == Some(seq![0x1bu8, 0x5bu8, 0x42u8]),
        key_bytes(KeyPress::Named(NamedKey::Right), ctrl, alt) == Some(seq![0x1bu8, 0x5bu8, 0x43u8]),
        key_bytes(KeyPress::Named(NamedKey::Left), ctrl, alt) == Some(seq![0x1bu8, 0x5bu8, 0x44u8]),
        key_bytes(KeyPress::Named(NamedKey::Home), ctrl, alt) == Some(seq![0x1bu8, 0x5bu8, 0x48u8]),
        key_bytes(KeyPress::Named(NamedKey::End), ctrl, alt) == Some(seq![0x1bu8, 0x5bu8, 0x46u8]),
        key_bytes(KeyPress::Named(NamedKey::PageUp), ctrl, alt) == Some(
            seq![0x1bu8, 0x5bu8, 0x35u8, 0x7eu8],
        ),
        key_bytes(KeyPress::Named(NamedKey::PageDown), ctrl, alt) == Some(
            seq![0x1bu8, 0x5bu8, 0x36u8, 0x7eu8],
        ),
        key_bytes(KeyPress::Named(NamedKey::Delete), ctrl, alt) == Some(
            seq![0x1bu8, 0x5bu8, 0x33u8, 0x7eu8],
        ),
        key_bytes(KeyPress::Named(NamedKey::Insert), ctrl, alt) == Some(
            seq![0x1bu8, 0x5bu8, 0x32u8, 0x7eu8],
        ),
{
}

/// Two different named keys send different sequences, but for Return and
/// keypad Enter, which both send CR.
pub proof fn lemma_named_keys_distinct(a: NamedKey, b: NamedKey)
    requires
        a != b,
        !((a == NamedKey::Return || a == NamedKey::KpEnter) && (b == NamedKey::Return || b
            == NamedKey::KpEnter)),
    ensures
        named_bytes(a) != named_bytes(b),
{
    let x = named_bytes(a);
    let y = named_bytes(b);
    if x == y {
        assert(x.len() == y.len());
        if x.len() >= 3 {
            assert(x[2] == y[2]);
        }
        if x.len() == 1 {
            assert(x[0] == y[0]);
        }
    }
}

} // verus!
