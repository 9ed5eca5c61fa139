//! JavaScript snippets injected into the page to take snapshots and act on
//! elements by ref. Each builder returns a single self-invoking expression
//! that evaluates to `"ok"` on success or `"error: <reason>"` on a soft
//! failure (e.g. ref not in DOM); the snapshot evaluates to a JSON string.
use vstd::prelude::*;
use crate::text::{push, push_str};

verus! {

/// Walk the document for everything an agent might act on and emit a flat
/// JSON snapshot, stamping each visible element with `data-flowmux-ref="eN"`.
pub const SNAPSHOT_JS: &'static str = "\n(function() {\n  const out = [];\n  let counter = 0;\n  function visible(el) {\n    const r = el.getBoundingClientRect();\n    if (r.width < 4 || r.height < 4) return false;\n    const cs = window.getComputedStyle(el);\n    if (cs.visibility === 'hidden' || cs.display === 'none') return false;\n    if (Number(cs.opacity) === 0) return false;\n    return true;\n  }\n  function name(el) {\n    return (\n      el.getAttribute('aria-label') ||\n      el.getAttribute('alt') ||\n      el.getAttribute('title') ||\n      el.getAttribute('placeholder') ||\n      (el.innerText || '').trim().slice(0, 120)\n    );\n  }\n  document.querySelectorAll(\n    'a,button,input,textarea,select,[role],h1,h2,h3,label,summary'\n  ).forEach((el) => {\n    if (!visible(el)) return;\n    const r = el.getBoundingClientRect();\n    counter += 1;\n    const ref = 'e' + counter;\n    el.setAttribute('data-flowmux-ref', ref);\n    out.push({\n      ref,\n      tag: el.tagName.toLowerCase(),\n      role: el.getAttribute('role') || el.tagName.toLowerCase(),\n      name: name(el),\n      bbox: [Math.round(r.left), Math.round(r.top), Math.round(r.width), Math.round(r.height)],\n    });\n  });\n  return JSON.stringify({ url: location.href, title: document.title, nodes: out });\n})()\n";

// ------------------------------------------------------------------
// JS string escaping
// ------------------------------------------------------------------

/// The lowercase hexadecimal digit for `d < 16`.
pub open spec fn hex_digit(d: nat) -> char {
    if d < 10 {
        (0x30 + d) as char
    } else {
        (0x61 + d - 10) as char
    }
}

/// Four lowercase hexadecimal digits of `n < 0x10000`.
pub open spec fn hex4(n: nat) -> Seq<char> {
    seq![hex_digit((n / 4096) % 16), hex_digit((n / 256) % 16), hex_digit((n / 16) % 16), hex_digit(n % 16)]
}

/// How one character is written inside a double-quoted JS string literal.
pub open spec fn js_escape_char(c: char) -> Seq<char> {
    if c == '\\' {
        seq!['\\', '\\']
    } else if c == '"' {
        seq!['\\', '"']
    } else if c == '\n' {
        seq!['\\', 'n']
    } else if c == '\r' {
        seq!['\\', 'r']
    } else if c == '\t' {
        seq!['\\', 't']
    } else if c == '\u{2028}' {
        seq!['\\', 'u', '2', '0', '2', '8']
    } else if c == '\u{2029}' {
        seq!['\\', 'u', '2', '0', '2', '9']
    } else if (c as u32) < 0x20 {
        seq!['\\', 'u'] + hex4(c as u32 as nat)
    } else {
        seq![c]
    }
}

/// `s` escaped character by character for a double-quoted JS string literal.
pub open spec fn js_escape(s: Seq<char>) -> Seq<char>
    decreases s.len(),
{
    if s.len() == 0 {
        Seq::empty()
    } else {
        js_escape_char(s[0]) + js_escape(s.skip(1))
    }
}

proof fn lemma_js_escape_push(s: Seq<char>, c: char)
    ensures
        js_escape(s.push(c)) == js_escape(s) + js_escape_char(c),
    decreases s.len(),
{
    if s.len() == 0 {
        assert(s.push(c).skip(1) =~= Seq::<char>::empty());
        assert(js_escape(Seq::<char>::empty()) == Seq::<char>::empty());
        assert(s.push(c)[0] == c);
        assert(js_escape_char(c) + Seq::<char>::empty() =~= js_escape_char(c));
        assert(js_escape(s.push(c)) =~= js_escape_char(c));
        assert(js_escape(s) + js_escape_char(c) =~= js_escape_char(c));
    } else {
        lemma_js_escape_push(s.skip(1), c);
        assert(s.push(c).skip(1) =~= s.skip(1).push(c));
        assert(s.push(c)[0] == s[0]);
        assert(js_escape(s.push(c)) =~= js_escape(s) + js_escape_char(c));
    }
}

fn hex_digit_char(d: u32) -> (c: char)
    requires
        d < 16,
    ensures
        c == hex_digit(d as nat),
{
    match d {
        0 => '0',
        1 => '1',
        2 => '2',
        3 => '3',
        4 => '4',
        5 => '5',
        6 => '6',
        7 => '7',
        8 => '8',
        9 => '9',
        10 => 'a',
        11 => 'b',
        12 => 'c',
        13 => 'd',
        14 => 'e',
        _ => 'f',
    }
}

fn push_escaped(out: &mut String, c: char)
    ensures
        final(out)@ == old(out)@ + js_escape_char(c),
{
    let ghost o = out@;
    if c == '\\' {
        push_str(out, "\\\\");
        proof { reveal_strlit("\\\\"); }
    } else if c == '"' {
        push_str(out, "\\\"");
        proof { reveal_strlit("\\\""); }
    } else if c == '\n' {
        push_str(out, "\\n");
        proof { reveal_strlit("\\n"); }
    } else if c == '\r' {
        push_str(out, "\\r");
        proof { reveal_strlit("\\r"); }
    } else if c == '\t' {
        push_str(out, "\\t");
        proof { reveal_strlit("\\t"); }
    } else if c == '\u{2028}' {
        push_str(out, "\\u2028");
        proof { reveal_strlit("\\u2028"); }
    } else if c == '\u{2029}' {
        push_str(out, "\\u2029");
        proof { reveal_strlit("\\u2029"); }
    } else if (c as u32) < 0x20 {
        let n = c as u32;
        push(out, '\\');
        push(out, 'u');
        push(out, hex_digit_char((n / 4096) % 16));
        push(out, hex_digit_char((n / 256) % 16));
        push(out, hex_digit_char((n / 16) % 16));
        push(out, hex_digit_char(n % 16));
    } else {
        push(out, c);
    }
    assert(out@ =~= o + js_escape_char(c));
}

/// Conservative JS string escaper: backslash, double quote, `\n`, `\r`, `\t`,
/// U+2028/U+2029 and the other control characters below U+0020 (as `\uXXXX`)
/// are escaped; everything else is kept.
pub fn js_string(s: &str) -> (r: String)
    ensures
        r@ == js_escape(s@),
{
    let mut out = String::new();
    for c in it: s.chars()
        invariant
            it.seq() == s@,
            out@ == js_escape(it.seq().take(it.index() as int)),
    {
        let ghost prefix = it.seq().take(it.index() as int);
        push_escaped(&mut out, c);
        proof {
            lemma_js_escape_push(prefix, c);
            assert(it.seq().take(it.index() + 1) =~= prefix.push(c));
        }
    }
    assert(s@.take(s@.len() as int) =~= s@);
    out
}

// ------------------------------------------------------------------
// Decimal numbers
// ------------------------------------------------------------------

/// The decimal digits of `n`, most significant first, without leading zeros.
pub open spec fn decimal_digits(n: nat) -> Seq<char>
    decreases n,
{
    if n < 10 {
        seq![(0x30 + n) as char]
    } else {
        decimal_digits(n / 10).push((0x30 + n % 10) as char)
    }
}

/// `x` written in decimal, with a leading `-` when negative.
pub open spec fn decimal_i32(x: i32) -> Seq<char> {
    if x < 0 {
        seq!['-'] + decimal_digits((-x) as nat)
    } else {
        decimal_digits(x as nat)
    }
}

fn digit_char(d: u64) -> (c: char)
    requires
        d < 10,
    ensures
        c == (0x30 + d) as char,
{
    match d {
        0 => '0',
        1 => '1',
        2 => '2',
        3 => '3',
        4 => '4',
        5 => '5',
        6 => '6',
        7 => '7',
        8 => '8',
        _ => '9',
    }
}

pub(crate) fn push_decimal(out: &mut String, n: u64)
    ensures
        final(out)@ == old(out)@ + decimal_digits(n as nat),
    decreases n,
{
    let ghost o = out@;
    if n >= 10 {
        push_decimal(out, n / 10);
    }
    push(out, digit_char(n % 10));
    proof {
        if n < 10 {
            assert(out@ =~= o + decimal_digits(n as nat));
        } else {
            assert(out@ =~= o + decimal_digits(n as nat));
        }
    }
}

/// Appends `x` in decimal.
fn push_decimal_i32(out: &mut String, x: i32)
    ensures
        final(out)@ == old(out)@ + decimal_i32(x),
{
    let ghost o = out@;
    if x < 0 {
        push(out, '-');
        let m: u64 = if x == i32::MIN {
            2147483648
        } else {
            (-x) as u64
        };
        push_decimal(out, m);
        assert(out@ =~= o + decimal_i32(x));
    } else {
        push_decimal(out, x as u64);
    }
}

// ------------------------------------------------------------------
// Builders
// ------------------------------------------------------------------

pub open spec fn spec_click_by_ref(r: Seq<char>) -> Seq<char> {
    "(function() {\n            const el = document.querySelector('[data-flowmux-ref=\""@
        + js_escape(r)
        + "\"]');\n            if (!el) return \"error: ref not found\";\n            el.click();\n            return \"ok\";\n        })()"@
}

/// Click the element previously stamped with `data-flowmux-ref=<r>`.
/// Evaluates to `"ok"`, or `"error: ref not found"`.
pub fn click_by_ref(r: &str) -> (s: String)
    ensures
        s@ == spec_click_by_ref(r@),
{
    let e_r = js_string(r);
    let mut s = String::new();
    push_str(&mut s, "(function() {\n            const el = document.querySelector('[data-flowmux-ref=\"");
    push_str(&mut s, e_r.as_str());
    push_str(&mut s, "\"]');\n            if (!el) return \"error: ref not found\";\n            el.click();\n            return \"ok\";\n        })()");
    s
}

pub open spec fn spec_fill_by_ref(r: Seq<char>, value: Seq<char>) -> Seq<char> {
    "(function() {\n            const el = document.querySelector('[data-flowmux-ref=\""@
        + js_escape(r)
        + "\"]');\n            if (!el) return \"error: ref not found\";\n            const setter = Object.getOwnPropertyDescriptor(el.__proto__, 'value');\n            if (setter && setter.set) {\n                setter.set.call(el, \""@
        + js_escape(value)
        + "\");\n            } else {\n                el.value = \""@
        + js_escape(value)
        + "\";\n            }\n            el.dispatchEvent(new Event('input', { bubbles: true }));\n            el.dispatchEvent(new Event('change', { bubbles: true }));\n            return \"ok\";\n        })()"@
}

/// Set `value` on an input/textarea and dispatch the standard `input` and
/// `change` events so framework listeners fire.
pub fn fill_by_ref(r: &str, value: &str) -> (s: String)
    ensures
        s@ == spec_fill_by_ref(r@, value@),
{
    let e_r = js_string(r);
    let e_v = js_string(value);
    let mut s = String::new();
    push_str(&mut s, "(function() {\n            const el = document.querySelector('[data-flowmux-ref=\"");
    push_str(&mut s, e_r.as_str());
    push_str(&mut s, "\"]');\n            if (!el) return \"error: ref not found\";\n            const setter = Object.getOwnPropertyDescriptor(el.__proto__, 'value');\n            if (setter && setter.set) {\n                setter.set.call(el, \"");
    push_str(&mut s, e_v.as_str());
    push_str(&mut s, "\");\n            } else {\n                el.value = \"");
    push_str(&mut s, e_v.as_str());
    push_str(&mut s, "\";\n            }\n            el.dispatchEvent(new Event('input', { bubbles: true }));\n            el.dispatchEvent(new Event('change', { bubbles: true }));\n            return \"ok\";\n        })()");
    s
}

pub open spec fn spec_select_option_by_ref(r: Seq<char>, value: Seq<char>) -> Seq<char> {
    "(function() {\n            const el = document.querySelector('[data-flowmux-ref=\""@
        + js_escape(r)
        + "\"]');\n            if (!el) return \"error: ref not found\";\n            "@
        + "const want = \""@
        + js_escape(value)
        + "\";"@
        + "\n            for (const opt of el.options) {\n                if ("@
        + "opt.value === want || opt.textContent.trim() === want"@
        + ") {\n                    opt.selected = true;\n                    el.dispatchEvent(new Event('change', { bubbles: true }));\n                    return \"ok\";\n                }\n            }\n            return \"error: option not found\";\n        })()"@
}

/// `<select>` value picker: selects the `<option>` whose value, or failing
/// that visible text, equals `value`.
pub fn select_option_by_ref(r: &str, value: &str) -> (s: String)
    ensures
        s@ == spec_select_option_by_ref(r@, value@),
{
    let e_r = js_string(r);
    let e_v = js_string(value);
    let mut s = String::new();
    push_str(&mut s, "(function() {\n            const el = document.querySelector('[data-flowmux-ref=\"");
    push_str(&mut s, e_r.as_str());
    push_str(&mut s, "\"]');\n            if (!el) return \"error: ref not found\";\n            ");
    push_str(&mut s, "const want = \"");
    push_str(&mut s, e_v.as_str());
    push_str(&mut s, "\";");
    push_str(&mut s, "\n            for (const opt of el.options) {\n                if (");
    push_str(&mut s, "opt.value === want || opt.textContent.trim() === want");
    push_str(&mut s, ") {\n                    opt.selected = true;\n                    el.dispatchEvent(new Event('change', { bubbles: true }));\n                    return \"ok\";\n                }\n            }\n            return \"error: option not found\";\n        })()");
    s
}

pub open spec fn spec_scroll_by_ref(r: Seq<char>, x: i32, y: i32) -> Seq<char> {
    "(function() {\n            const el = document.querySelector('[data-flowmux-ref=\""@
        + js_escape(r)
        + "\"]');\n            if (!el) return \"error: ref not found\";\n            el.scrollIntoView({ block: \"center\", inline: \"nearest\" });\n            window.scrollBy("@
        + decimal_i32(x)
        + ", "@
        + decimal_i32(y)
        + ");\n            return \"ok\";\n        })()"@
}

/// Scroll the element matched by ref into view, then scroll the window by
/// `(x, y)`.
pub fn scroll_by_ref(r: &str, x: i32, y: i32) -> (s: String)
    ensures
        s@ == spec_scroll_by_ref(r@, x, y),
{
    let e_r = js_string(r);
    let mut s = String::new();
    push_str(&mut s, "(function() {\n            const el = document.querySelector('[data-flowmux-ref=\"");
    push_str(&mut s, e_r.as_str());
    push_str(&mut s, "\"]');\n            if (!el) return \"error: ref not found\";\n            el.scrollIntoView({ block: \"center\", inline: \"nearest\" });\n            window.scrollBy(");
    push_decimal_i32(&mut s, x);
    push_str(&mut s, ", ");
    push_decimal_i32(&mut s, y);
    push_str(&mut s, ");\n            return \"ok\";\n        })()");
    s
}

pub open spec fn spec_text_of(r: Seq<char>) -> Seq<char> {
    "(function() {\n            const el = document.querySelector('[data-flowmux-ref=\""@
        + js_escape(r)
        + "\"]');\n            if (!el) return \"error: ref not found\";\n            return (el.innerText || \"\").toString();\n        })()"@
}

/// Read the element's `innerText`.
pub fn text_of(r: &str) -> (s: String)
    ensures
        s@ == spec_text_of(r@),
{
    let e_r = js_string(r);
    let mut s = String::new();
    push_str(&mut s, "(function() {\n            const el = document.querySelector('[data-flowmux-ref=\"");
    push_str(&mut s, e_r.as_str());
    push_str(&mut s, "\"]');\n            if (!el) return \"error: ref not found\";\n            return (el.innerText || \"\").toString();\n        })()");
    s
}

pub open spec fn spec_value_of(r: Seq<char>) -> Seq<char> {
    "(function() {\n            const el = document.querySelector('[data-flowmux-ref=\""@
        + js_escape(r)
        + "\"]');\n            if (!el) return \"error: ref not found\";\n            return (el.value || \"\").toString();\n        })()"@
}

/// Read an input/textarea/select's `value`.
pub fn value_of(r: &str) -> (s: String)
    ensures
        s@ == spec_value_of(r@),
{
    let e_r = js_string(r);
    let mut s = String::new();
    push_str(&mut s, "(function() {\n            const el = document.querySelector('[data-flowmux-ref=\"");
    push_str(&mut s, e_r.as_str());
    push_str(&mut s, "\"]');\n            if (!el) return \"error: ref not found\";\n            return (el.value || \"\").toString();\n        })()");
    s
}

pub open spec fn spec_attr_of(r: Seq<char>, name: Seq<char>) -> Seq<char> {
    "(function() {\n            const el = document.querySelector('[data-flowmux-ref=\""@
        + js_escape(r)
        + "\"]');\n            if (!el) return \"error: ref not found\";\n            return (el.getAttribute(\""@
        + js_escape(name)
        + "\") || \"\").toString();\n        })()"@
}

/// Read an attribute; the empty string when the element exists but the
/// attribute does not.
pub fn attr_of(r: &str, name: &str) -> (s: String)
    ensures
        s@ == spec_attr_of(r@, name@),
{
    let e_n = js_string(name);
    let e_r = js_string(r);
    let mut s = String::new();
    push_str(&mut s, "(function() {\n            const el = document.querySelector('[data-flowmux-ref=\"");
    push_str(&mut s, e_r.as_str());
    push_str(&mut s, "\"]');\n            if (!el) return \"error: ref not found\";\n            return (el.getAttribute(\"");
    push_str(&mut s, e_n.as_str());
    push_str(&mut s, "\") || \"\").toString();\n        })()");
    s
}

pub open spec fn spec_type_keys(text: Seq<char>) -> Seq<char> {
    "(function() {\n            const el = document.activeElement;\n            if (!el) return \"error: no focus\";\n            const text = \""@
        + js_escape(text)
        + "\";\n            for (const ch of text) {\n                el.dispatchEvent(new KeyboardEvent('keydown', { key: ch, bubbles: true }));\n                if (el.tagName === 'INPUT' || el.tagName === 'TEXTAREA') {\n                    el.value += ch;\n                    el.dispatchEvent(new Event('input', { bubbles: true }));\n                }\n                el.dispatchEvent(new KeyboardEvent('keyup', { key: ch, bubbles: true }));\n            }\n            if (el.tagName === 'INPUT' || el.tagName === 'TEXTAREA') {\n                el.dispatchEvent(new Event('change', { bubbles: true }));\n            }\n            return \"ok\";\n        })()"@
}

/// Send each character of `text` as `keydown`, `input` and `keyup` events to
/// the active element.
pub fn type_keys(text: &str) -> (s: String)
    ensures
        s@ == spec_type_keys(text@),
{
    let e_t = js_string(text);
    let mut s = String::new();
    push_str(&mut s, "(function() {\n            const el = document.activeElement;\n            if (!el) return \"error: no focus\";\n            const text = \"");
    push_str(&mut s, e_t.as_str());
    push_str(&mut s, "\";\n            for (const ch of text) {\n                el.dispatchEvent(new KeyboardEvent('keydown', { key: ch, bubbles: true }));\n                if (el.tagName === 'INPUT' || el.tagName === 'TEXTAREA') {\n                    el.value += ch;\n                    el.dispatchEvent(new Event('input', { bubbles: true }));\n                }\n                el.dispatchEvent(new KeyboardEvent('keyup', { key: ch, bubbles: true }));\n            }\n            if (el.tagName === 'INPUT' || el.tagName === 'TEXTAREA') {\n                el.dispatchEvent(new Event('change', { bubbles: true }));\n            }\n            return \"ok\";\n        })()");
    s
}

pub open spec fn spec_press_key(key: Seq<char>) -> Seq<char> {
    "(function() {\n            const el = document.activeElement || document.body;\n            const k = \""@
        + js_escape(key)
        + "\";\n            el.dispatchEvent(new KeyboardEvent('keydown', { key: k, bubbles: true }));\n            el.dispatchEvent(new KeyboardEvent('keyup', { key: k, bubbles: true }));\n            return \"ok\";\n        })()"@
}

/// Send a single named key (`Enter`, `Tab`, …) as `keydown` and `keyup`
/// events to the active element.
pub fn press_key(key: &str) -> (s: String)
    ensures
        s@ == spec_press_key(key@),
{
    let e_k = js_string(key);
    let mut s = String::new();
    push_str(&mut s, "(function() {\n            const el = document.activeElement || document.body;\n            const k = \"");
    push_str(&mut s, e_k.as_str());
    push_str(&mut s, "\";\n            el.dispatchEvent(new KeyboardEvent('keydown', { key: k, bubbles: true }));\n            el.dispatchEvent(new KeyboardEvent('keyup', { key: k, bubbles: true }));\n            return \"ok\";\n        })()");
    s
}


// ------------------------------------------------------------------
// Laws
// ------------------------------------------------------------------

pub open spec fn is_js_line_break(c: char) -> bool {
    c == '\n' || c == '\r' || c == '\u{2028}' || c == '\u{2029}'
}

/// Text that stays inside a double-quoted JS string literal: every backslash
/// escapes the character after it, and there is no bare `"`, no line break
/// and no other control character.
pub open spec fn stays_in_js_string(t: Seq<char>) -> bool
    decreases t.len(),
{
    if t.len() == 0 {
        true
    } else if t[0] == '\\' {
        t.len() >= 2 && !is_js_line_break(t[1]) && (t[1] as u32) >= 0x20 && stays_in_js_string(t.skip(2))
    } else {
        t[0] != '"' && !is_js_line_break(t[0]) && (t[0] as u32) >= 0x20 && stays_in_js_string(t.skip(1))
    }
}

proof fn lemma_stays_concat(a: Seq<char>, b: Seq<char>)
    requires
        stays_in_js_string(a),
        stays_in_js_string(b),
    ensures
        stays_in_js_string(a + b),
    decreases a.len(),
{
    if a.len() == 0 {
        assert(a + b =~= b);
    } else if a[0] == '\\' {
        lemma_stays_concat(a.skip(2), b);
        assert((a + b).skip(2) =~= a.skip(2) + b);
        assert((a + b)[0] == a[0] && (a + b)[1] == a[1]);
    } else {
        lemma_stays_concat(a.skip(1), b);
        assert((a + b).skip(1) =~= a.skip(1) + b);
        assert((a + b)[0] == a[0]);
    }
}

proof fn lemma_plain_stays(t: Seq<char>)
    requires
        forall|i: int| 0 <= i < t.len() ==> js_plain(#[trigger] t[i]) && !is_js_line_break(t[i]),
    ensures
        stays_in_js_string(t),
    decreases t.len(),
{
    if t.len() > 0 {
        let u = t.skip(1);
        assert forall|i: int| 0 <= i < u.len() implies js_plain(#[trigger] u[i]) && !is_js_line_break(u[i]) by {
            assert(u[i] == t[i + 1]);
        }
        assert(js_plain(t[0]) && !is_js_line_break(t[0]));
        lemma_plain_stays(u);
    }
}

proof fn lemma_escape_char_stays(c: char)
    ensures
        stays_in_js_string(js_escape_char(c)),
{
    let e = js_escape_char(c);
    if c == '\\' || c == '"' || c == '\n' || c == '\r' || c == '\t' || c == '\u{2028}' || c
        == '\u{2029}' || (c as u32) < 0x20 {
        assert(e[0] == '\\');
        let rest = e.skip(2);
        assert forall|i: int| 0 <= i < rest.len() implies js_plain(#[trigger] rest[i])
            && !is_js_line_break(rest[i]) by {
            assert(rest[i] == e[i + 2]);
            if (c as u32) < 0x20 && !(c == '\n' || c == '\r' || c == '\t') {
                let n = c as u32 as nat;
                assert(rest =~= hex4(n));
            }
        }
        lemma_plain_stays(rest);
        assert(!is_js_line_break(e[1]) && (e[1] as u32) >= 0x20);
    } else {
        assert(e =~= seq![c]);
        assert(js_plain(c) && !is_js_line_break(c));
        lemma_plain_stays(e);
    }
}

/// Escaped text can be embedded between double quotes in JavaScript: it
/// cannot end the literal early or break the line, whatever `s` holds.
pub proof fn lemma_js_escape_stays_in_string(s: Seq<char>)
    ensures
        stays_in_js_string(js_escape(s)),
    decreases s.len(),
{
    if s.len() > 0 {
        lemma_escape_char_stays(s[0]);
        lemma_js_escape_stays_in_string(s.skip(1));
        lemma_stays_concat(js_escape_char(s[0]), js_escape(s.skip(1)));
    }
}

/// Characters that need no escape.
pub open spec fn js_plain(c: char) -> bool {
    c != '\\' && c != '"' && c != '\u{2028}' && c != '\u{2029}' && (c as u32) >= 0x20
}

/// Text made only of characters that need no escape is passed through.
pub proof fn lemma_js_escape_plain(s: Seq<char>)
    requires
        forall|i: int| 0 <= i < s.len() ==> js_plain(#[trigger] s[i]),
    ensures
        js_escape(s) == s,
    decreases s.len(),
{
    if s.len() > 0 {
        let t = s.skip(1);
        assert forall|i: int| 0 <= i < t.len() implies js_plain(#[trigger] t[i]) by {
            assert(t[i] == s[i + 1]);
        }
        lemma_js_escape_plain(t);
        assert(js_plain(s[0]));
        assert(seq![s[0]] + t =~= s);
    }
}


/// The select-option script binds `want` to the wanted text, as an escaped
/// string literal, and selects the first option whose value, or whose
/// trimmed visible text, equals it.
pub proof fn lemma_select_option_matches_value_or_text(r: Seq<char>, value: Seq<char>)
    ensures
        crate::platform::occurs_in(
            "opt.value === want || opt.textContent.trim() === want"@,
            spec_select_option_by_ref(r, value),
        ),
        crate::platform::occurs_in(
            "const want = \""@ + js_escape(value) + "\";"@,
            spec_select_option_by_ref(r, value),
        ),
{
    let a = "(function() {\n            const el = document.querySelector('[data-flowmux-ref=\""@ + js_escape(r) + "\"]');\n            if (!el) return \"error: ref not found\";\n            "@;
    let w = "const want = \""@ + js_escape(value) + "\";"@;
    let b = "\n            for (const opt of el.options) {\n                if ("@;
    let c = "opt.value === want || opt.textContent.trim() === want"@;
    let d = ") {\n                    opt.selected = true;\n                    el.dispatchEvent(new Event('change', { bubbles: true }));\n                    return \"ok\";\n                }\n            }\n            return \"error: option not found\";\n        })()"@;
    let s = spec_select_option_by_ref(r, value);
    assert(s =~= a + w + b + c + d);
    let i = (a + w + b).len() as int;
    assert(s.subrange(i, i + c.len()) =~= c);
    let j = a.len() as int;
    assert(s.subrange(j, j + w.len()) =~= w);
}

} // verus!
