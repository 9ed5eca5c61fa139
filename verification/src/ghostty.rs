//! Reading `~/.config/ghostty/config`: `key = value` lines with `#`
//! comments. The keys flowmux uses (font, theme, colours) get fields of
//! their own; every other key is kept as raw text in `extras`. Reading the
//! file is the caller's part.
use vstd::prelude::*;
use crate::platform::{trim, trim_end, trimmed, trimmed_end};
use crate::text::{chars_of, str_eq, string_of, to_string};
use crate::tmux_compat::{first_index, lemma_first_index};
use crate::text::opt_view;

verus! {

// ------------------------------------------------------------------
// Extra keys
// ------------------------------------------------------------------

/// The key and value strings of each pair.
pub open spec fn pairs_view(v: Seq<(String, String)>) -> Seq<(Seq<char>, Seq<char>)> {
    v.map_values(|p: (String, String)| (p.0@, p.1@))
}

/// The map a list of `(key, value)` pairs stands for: a later pair of a key
/// overrides an earlier one.
pub open spec fn map_of(s: Seq<(Seq<char>, Seq<char>)>) -> Map<Seq<char>, Seq<char>>
    decreases s.len(),
{
    if s.len() == 0 {
        Map::empty()
    } else {
        map_of(s.drop_last()).insert(s.last().0, s.last().1)
    }
}

proof fn lemma_map_of_dom(s: Seq<(Seq<char>, Seq<char>)>, k: Seq<char>)
    ensures
        map_of(s).dom().contains(k) <==> exists|i: int| 0 <= i < s.len() && (#[trigger] s[i]).0 == k,
    decreases s.len(),
{
    if s.len() > 0 {
        let d = s.drop_last();
        lemma_map_of_dom(d, k);
        if exists|i: int| 0 <= i < d.len() && (#[trigger] d[i]).0 == k {
            let i = choose|i: int| 0 <= i < d.len() && (#[trigger] d[i]).0 == k;
            assert(s[i] == d[i]);
        }
        if exists|i: int| 0 <= i < s.len() && (#[trigger] s[i]).0 == k {
            let i = choose|i: int| 0 <= i < s.len() && (#[trigger] s[i]).0 == k;
            if i < d.len() {
                assert(d[i] == s[i]);
            }
        }
    }
}

/// `a` sorts before `b`: code point by code point, a proper prefix first
/// (the order of `String`'s `Ord`, UTF-8 keeping code point order).
pub open spec fn key_lt(a: Seq<char>, b: Seq<char>) -> bool
    decreases a.len(),
{
    if a.len() == 0 {
        b.len() > 0
    } else if b.len() == 0 {
        false
    } else if a[0] != b[0] {
        (a[0] as u32) < (b[0] as u32)
    } else {
        key_lt(a.drop_first(), b.drop_first())
    }
}

/// Keys in strictly ascending order.
pub open spec fn sorted_keys(s: Seq<(Seq<char>, Seq<char>)>) -> bool {
    forall|i: int, j: int| 0 <= i < j < s.len() ==> key_lt(#[trigger] s[i].0, #[trigger] s[j].0)
}

proof fn lemma_key_lt_irreflexive(a: Seq<char>)
    ensures
        !key_lt(a, a),
    decreases a.len(),
{
    if a.len() > 0 {
        lemma_key_lt_irreflexive(a.drop_first());
    }
}

proof fn lemma_key_lt_total(a: Seq<char>, b: Seq<char>)
    ensures
        a == b || key_lt(a, b) || key_lt(b, a),
    decreases a.len(),
{
    if a.len() > 0 && b.len() > 0 && a[0] == b[0] {
        lemma_key_lt_total(a.drop_first(), b.drop_first());
        if a.drop_first() == b.drop_first() {
            assert(a =~= seq![a[0]] + a.drop_first());
            assert(b =~= seq![b[0]] + b.drop_first());
        }
    } else if a.len() == 0 && b.len() == 0 {
        assert(a =~= b);
    } else if a.len() > 0 && b.len() > 0 {
        vstd::utf8::char_u32_cast(a[0], a[0] as u32);
        vstd::utf8::char_u32_cast(b[0], b[0] as u32);
        assert((a[0] as u32) != (b[0] as u32));
    }
}

proof fn lemma_key_lt_trans(a: Seq<char>, b: Seq<char>, c: Seq<char>)
    requires
        key_lt(a, b),
        key_lt(b, c),
    ensures
        key_lt(a, c),
    decreases a.len(),
{
    if a.len() > 0 && b.len() > 0 && c.len() > 0 && a[0] == b[0] && b[0] == c[0] {
        lemma_key_lt_trans(a.drop_first(), b.drop_first(), c.drop_first());
    }
}

proof fn lemma_key_lt_skip(a: Seq<char>, b: Seq<char>, i: int)
    requires
        0 <= i <= a.len(),
        i <= b.len(),
        a.take(i) == b.take(i),
    ensures
        key_lt(a, b) == key_lt(a.skip(i), b.skip(i)),
    decreases i,
{
    if i > 0 {
        assert(a[0] == a.take(i)[0] && b[0] == b.take(i)[0]);
        assert(a.drop_first().take(i - 1) =~= a.take(i).drop_first());
        assert(b.drop_first().take(i - 1) =~= b.take(i).drop_first());
        lemma_key_lt_skip(a.drop_first(), b.drop_first(), i - 1);
        assert(a.drop_first().skip(i - 1) =~= a.skip(i));
        assert(b.drop_first().skip(i - 1) =~= b.skip(i));
    } else {
        assert(a.skip(0) =~= a);
        assert(b.skip(0) =~= b);
    }
}

/// Whether `a` sorts before `b`.
fn key_less(a: &str, b: &str) -> (r: bool)
    ensures
        r == key_lt(a@, b@),
{
    let x = chars_of(a);
    let y = chars_of(b);
    let mut i: usize = 0;
    while i < x.len() && i < y.len() && x[i] == y[i]
        invariant
            i <= x@.len(),
            i <= y@.len(),
            x@.take(i as int) == y@.take(i as int),
        decreases x@.len() - i,
    {
        assert(x@.take(i + 1) =~= x@.take(i as int).push(x@[i as int]));
        assert(y@.take(i + 1) =~= y@.take(i as int).push(y@[i as int]));
        i = i + 1;
    }
    proof {
        lemma_key_lt_skip(x@, y@, i as int);
        let xs = x@.skip(i as int);
        let ys = y@.skip(i as int);
        if i < x@.len() {
            assert(xs[0] == x@[i as int]);
        }
        if i < y@.len() {
            assert(ys[0] == y@[i as int]);
        }
    }
    if i == x.len() {
        i < y.len()
    } else if i == y.len() {
        false
    } else {
        (x[i] as u32) < (y[i] as u32)
    }
}

/// In a list of pairs with keys in ascending order, a key has a value
/// exactly when some pair holds it, and the value is that pair's.
proof fn lemma_map_of_sorted(s: Seq<(Seq<char>, Seq<char>)>, j: int)
    requires
        sorted_keys(s),
        0 <= j < s.len(),
    ensures
        map_of(s).dom().contains(s[j].0),
        map_of(s)[s[j].0] == s[j].1,
    decreases s.len(),
{
    let d = s.drop_last();
    if j < s.len() - 1 {
        assert(sorted_keys(d)) by {
            assert forall|a: int, b: int| 0 <= a < b < d.len() implies key_lt(#[trigger] d[a].0, #[trigger] d[b].0) by {
                assert(d[a] == s[a] && d[b] == s[b]);
            }
        }
        assert(d[j] == s[j]);
        lemma_map_of_sorted(d, j);
        assert(key_lt(s[j].0, s[s.len() - 1].0));
        lemma_key_lt_irreflexive(s[j].0);
    }
}

/// Keys of the configuration that have no field of their own, with their
/// last value, kept in ascending key order.
#[derive(Debug)]
pub struct Extras {
    entries: Vec<(String, String)>,
}

impl View for Extras {
    type V = Map<Seq<char>, Seq<char>>;

    closed spec fn view(&self) -> Map<Seq<char>, Seq<char>> {
        map_of(pairs_view(self.entries@))
    }
}

impl Clone for Extras {
    fn clone(&self) -> (r: Self)
        ensures
            r@ == self@,
    {
        proof {
            use_type_invariant(self);
        }
        let mut entries: Vec<(String, String)> = Vec::new();
        copy_pairs(&mut entries, &self.entries, 0, self.entries.len());
        proof {
            assert(pairs_view(entries@) =~= pairs_view(self.entries@));
        }
        Extras { entries }
    }
}

impl Extras {
    #[verifier::type_invariant]
    spec fn keys_ascend(self) -> bool {
        sorted_keys(pairs_view(self.entries@))
    }

    pub fn new() -> (r: Self)
        ensures
            r@ == Map::<Seq<char>, Seq<char>>::empty(),
    {
        Extras { entries: Vec::new() }
    }

    /// Sets `key` to `value`, replacing an earlier value.
    pub fn insert(&mut self, key: String, value: String)
        ensures
            final(self)@ == old(self)@.insert(key@, value@),
    {
        proof {
            use_type_invariant(&*self);
        }
        let ghost all = pairs_view(self.entries@);
        let ghost k = key@;
        let n = self.entries.len();
        // The first pair whose key does not sort before `key`.
        let mut p: usize = 0;
        while p < n && key_less(self.entries[p].0.as_str(), key.as_str())
            invariant
                p <= n,
                n == self.entries@.len(),
                all == pairs_view(self.entries@),
                k == key@,
                forall|t: int| 0 <= t < p ==> key_lt(#[trigger] all[t].0, k),
            decreases n - p,
        {
            assert(all[p as int].0 == self.entries@[p as int].0@);
            p = p + 1;
        }
        let same = p < n && str_eq(self.entries[p].0.as_str(), key.as_str());
        let q: usize = if same {
            p + 1
        } else {
            p
        };
        let mut next: Vec<(String, String)> = Vec::new();
        copy_pairs(&mut next, &self.entries, 0, p);
        let ghost before = next@;
        next.push((key, value));
        proof {
            assert(pairs_view(next@) =~= pairs_view(before).push((k, value@)));
        }
        copy_pairs(&mut next, &self.entries, q, n);
        let ghost nv = pairs_view(next@);
        proof {
            assert(all.subrange(0, p as int) =~= all.take(p as int));
            assert(nv =~= all.take(p as int) + seq![(k, value@)] + all.skip(q as int));
            assert forall|j: int| q <= j < n implies key_lt(k, #[trigger] all[j].0) by {
                if p < n {
                    lemma_key_lt_total(all[p as int].0, k);
                    if j > p {
                        assert(key_lt(all[p as int].0, all[j].0));
                        if !same {
                            lemma_key_lt_trans(k, all[p as int].0, all[j].0);
                        }
                    }
                }
            }
            assert(sorted_keys(nv)) by {
                assert forall|a: int, b: int| 0 <= a < b < nv.len() implies key_lt(#[trigger] nv[a].0, #[trigger] nv[b].0) by {
                    if b < p {
                        assert(nv[a] == all[a] && nv[b] == all[b]);
                    } else if b == p {
                        assert(nv[a] == all[a]);
                    } else if a < p {
                        assert(nv[a] == all[a]);
                        assert(nv[b] == all[b - p - 1 + q]);
                        assert(key_lt(k, all[b - p - 1 + q].0));
                        lemma_key_lt_trans(all[a].0, k, all[b - p - 1 + q].0);
                    } else if a == p {
                        assert(nv[b] == all[b - p - 1 + q]);
                    } else {
                        assert(nv[a] == all[a - p - 1 + q] && nv[b] == all[b - p - 1 + q]);
                    }
                }
            }
            let m = map_of(all).insert(k, value@);
            assert forall|x: Seq<char>| #[trigger] map_of(nv).dom().contains(x) == m.dom().contains(x) by {
                lemma_map_of_dom(nv, x);
                lemma_map_of_dom(all, x);
                if map_of(nv).dom().contains(x) && x != k {
                    let j = choose|j: int| 0 <= j < nv.len() && (#[trigger] nv[j]).0 == x;
                    if j < p {
                        assert(all[j].0 == x);
                    } else {
                        assert(j != p);
                        assert(all[j - p - 1 + q].0 == x);
                    }
                }
                if m.dom().contains(x) && x != k {
                    let j = choose|j: int| 0 <= j < all.len() && (#[trigger] all[j]).0 == x;
                    if j < p {
                        assert(nv[j].0 == x);
                    } else if j >= q {
                        assert(nv[j - q + p + 1].0 == x);
                    } else {
                        assert(all[p as int].0 == k);
                    }
                }
                if x == k {
                    assert(nv[p as int].0 == k);
                }
            }
            assert forall|x: Seq<char>| #[trigger] m.dom().contains(x) implies map_of(nv)[x] == m[x] by {
                if x == k {
                    lemma_map_of_sorted(nv, p as int);
                } else {
                    lemma_map_of_dom(all, x);
                    let j = choose|j: int| 0 <= j < all.len() && (#[trigger] all[j]).0 == x;
                    lemma_map_of_sorted(all, j);
                    if j < p {
                        assert(nv[j] == all[j]);
                        lemma_map_of_sorted(nv, j);
                    } else if j >= q {
                        assert(nv[j - q + p + 1] == all[j]);
                        lemma_map_of_sorted(nv, j - q + p + 1);
                    } else {
                        assert(all[p as int].0 == k);
                    }
                }
            }
            assert(map_of(nv) =~= m);
        }
        self.entries = next;
    }

    /// Whether `key` has a value.
    pub fn contains_key(&self, key: &str) -> (r: bool)
        ensures
            r == self@.dom().contains(key@),
    {
        let ghost all = pairs_view(self.entries@);
        proof {
            lemma_map_of_dom(all, key@);
        }
        let mut i: usize = 0;
        while i < self.entries.len()
            invariant
                i <= self.entries@.len(),
                all == pairs_view(self.entries@),
                forall|j: int| 0 <= j < i ==> (#[trigger] all[j]).0 != key@,
            decreases self.entries@.len() - i,
        {
            if str_eq(self.entries[i].0.as_str(), key) {
                assert(all[i as int].0 == key@);
                proof {
                    lemma_map_of_dom(all, key@);
                }
                return true;
            }
            i = i + 1;
        }
        false
    }

    /// The pairs held, in ascending key order (each key once).
    pub fn pairs(&self) -> (r: &Vec<(String, String)>)
        ensures
            map_of(pairs_view(r@)) == self@,
            sorted_keys(pairs_view(r@)),
    {
        proof {
            use_type_invariant(self);
        }
        &self.entries
    }
}

/// Appends copies of `v[a..b]` to `out`.
fn copy_pairs(out: &mut Vec<(String, String)>, v: &Vec<(String, String)>, a: usize, b: usize)
    requires
        a <= b <= v@.len(),
    ensures
        pairs_view(final(out)@) == pairs_view(old(out)@) + pairs_view(v@).subrange(a as int, b as int),
{
    let ghost start = pairs_view(out@);
    let mut i: usize = a;
    while i < b
        invariant
            a <= i <= b <= v@.len(),
            pairs_view(out@) == start + pairs_view(v@).subrange(a as int, i as int),
        decreases b - i,
    {
        let ghost pre = out@;
        out.push((to_string(v[i].0.as_str()), to_string(v[i].1.as_str())));
        assert(pairs_view(out@) =~= pairs_view(pre).push(pairs_view(v@)[i as int]));
        assert(pairs_view(v@).subrange(a as int, i + 1) =~= pairs_view(v@).subrange(a as int, i as int).push(
            pairs_view(v@)[i as int],
        ));
        i = i + 1;
    }
}

// ------------------------------------------------------------------
// The configuration
// ------------------------------------------------------------------

/// The configuration subset flowmux reads.
#[derive(Debug, Clone)]
pub struct GhosttyConfig {
    pub font_family: Option<String>,
    /// `font-size` as written; the caller reads the number from it, and a
    /// value that is no number gives no size.
    pub font_size: Option<String>,
    pub theme: Option<String>,
    pub background: Option<String>,
    pub foreground: Option<String>,
    pub cursor_color: Option<String>,
    pub extras: Extras,
}

pub struct GhosttyView {
    pub font_family: Option<Seq<char>>,
    pub font_size: Option<Seq<char>>,
    pub theme: Option<Seq<char>>,
    pub background: Option<Seq<char>>,
    pub foreground: Option<Seq<char>>,
    pub cursor_color: Option<Seq<char>>,
    pub extras: Map<Seq<char>, Seq<char>>,
}

impl View for GhosttyConfig {
    type V = GhosttyView;

    open spec fn view(&self) -> GhosttyView {
        GhosttyView {
            font_family: opt_view(self.font_family),
            font_size: opt_view(self.font_size),
            theme: opt_view(self.theme),
            background: opt_view(self.background),
            foreground: opt_view(self.foreground),
            cursor_color: opt_view(self.cursor_color),
            extras: self.extras@,
        }
    }
}

/// The configuration of an empty file.
pub open spec fn empty_config() -> GhosttyView {
    GhosttyView {
        font_family: None,
        font_size: None,
        theme: None,
        background: None,
        foreground: None,
        cursor_color: None,
        extras: Map::empty(),
    }
}

impl Default for GhosttyConfig {
    fn default() -> (r: Self)
        ensures
            r@ == empty_config(),
    {
        GhosttyConfig {
            font_family: None,
            font_size: None,
            theme: None,
            background: None,
            foreground: None,
            cursor_color: None,
            extras: Extras::new(),
        }
    }
}

/// Reading the file failed; the I/O error's message.
#[derive(Debug, Clone)]
pub enum LoadError {
    Io(String),
}

/// ASCII white space as `u8::is_ascii_whitespace` has it.
pub open spec fn is_ascii_ws(c: char) -> bool {
    c == ' ' || c == '\t' || c == '\n' || c == '\u{c}' || c == '\r'
}

/// The first inline comment at or after `i`: a `#` that follows white
/// space. A `#` that starts the value (`#1e1e2e`) is no comment.
pub open spec fn comment_from(v: Seq<char>, i: int) -> Option<int>
    decreases v.len() - i,
{
    if i < 0 || i >= v.len() {
        None
    } else if i > 0 && v[i] == '#' && is_ascii_ws(v[i - 1]) {
        Some(i)
    } else {
        comment_from(v, i + 1)
    }
}

/// `v` without an inline trailing comment and the white space before it.
pub open spec fn without_inline_comment(v: Seq<char>) -> Seq<char> {
    match comment_from(v, 0) {
        Some(j) => trim_end(v.take(j)),
        None => v,
    }
}

/// `cfg` with `key` set to `value`.
pub open spec fn set_key(cfg: GhosttyView, key: Seq<char>, value: Seq<char>) -> GhosttyView {
    if key == "font-family"@ {
        GhosttyView { font_family: Some(value), ..cfg }
    } else if key == "font-size"@ {
        GhosttyView { font_size: Some(value), ..cfg }
    } else if key == "theme"@ {
        GhosttyView { theme: Some(value), ..cfg }
    } else if key == "background"@ {
        GhosttyView { background: Some(value), ..cfg }
    } else if key == "foreground"@ {
        GhosttyView { foreground: Some(value), ..cfg }
    } else if key == "cursor-color"@ {
        GhosttyView { cursor_color: Some(value), ..cfg }
    } else {
        GhosttyView { extras: cfg.extras.insert(key, value), ..cfg }
    }
}

/// One line read into `cfg`. Blank lines and lines starting with `#`
/// (after trimming) are comments; a line without `=` is skipped; otherwise
/// the key is what precedes the first `=`, trimmed, and the value what
/// follows, trimmed and without an inline comment.
pub open spec fn apply_line(cfg: GhosttyView, raw: Seq<char>) -> GhosttyView {
    let line = trim(raw);
    let j = first_index(line, '=') as int;
    if line.len() == 0 || line[0] == '#' || j >= line.len() {
        cfg
    } else {
        set_key(cfg, trim(line.take(j)), without_inline_comment(trim(line.skip(j + 1))))
    }
}

/// `s` cut at each newline; the last piece is what follows the last one.
pub open spec fn split_lines(s: Seq<char>) -> Seq<Seq<char>>
    decreases s.len(),
{
    if s.len() == 0 {
        seq![Seq::empty()]
    } else if s.last() == '\n' {
        split_lines(s.drop_last()).push(Seq::empty())
    } else {
        let p = split_lines(s.drop_last());
        p.update(p.len() - 1, p.last().push(s.last()))
    }
}

/// The lines read in order into an empty configuration.
pub open spec fn config_of(lines: Seq<Seq<char>>) -> GhosttyView
    decreases lines.len(),
{
    if lines.len() == 0 {
        empty_config()
    } else {
        apply_line(config_of(lines.drop_last()), lines.last())
    }
}

/// The configuration a file's text gives. A carriage return before a
/// newline is white space and goes with the trimming.
pub open spec fn parsed(text: Seq<char>) -> GhosttyView {
    config_of(split_lines(text))
}

proof fn lemma_split_lines_len(s: Seq<char>)
    ensures
        split_lines(s).len() >= 1,
    decreases s.len(),
{
    if s.len() > 0 {
        lemma_split_lines_len(s.drop_last());
    }
}

fn is_ascii_ws_char(c: char) -> (r: bool)
    ensures
        r == is_ascii_ws(c),
{
    c == ' ' || c == '\t' || c == '\n' || c == '\u{c}' || c == '\r'
}

/// `v` without an inline trailing comment.
fn strip_inline_comment(v: &Vec<char>) -> (r: Vec<char>)
    ensures
        r@ == without_inline_comment(v@),
{
    let mut i: usize = 0;
    while i < v.len()
        invariant
            i <= v@.len(),
            comment_from(v@, i as int) == comment_from(v@, 0),
        decreases v@.len() - i,
    {
        if i > 0 && v[i] == '#' && is_ascii_ws_char(v[i - 1]) {
            let mut prefix: Vec<char> = Vec::new();
            let mut k: usize = 0;
            while k < i
                invariant
                    k <= i < v@.len(),
                    prefix@ == v@.take(k as int),
                decreases i - k,
            {
                prefix.push(v[k]);
                k = k + 1;
                assert(prefix@ =~= v@.take(k as int));
            }
            return trimmed_end(&prefix);
        }
        i = i + 1;
    }
    let mut out: Vec<char> = Vec::new();
    let mut k: usize = 0;
    while k < v.len()
        invariant
            k <= v@.len(),
            out@ == v@.take(k as int),
        decreases v@.len() - k,
    {
        out.push(v[k]);
        k = k + 1;
        assert(out@ =~= v@.take(k as int));
    }
    assert(v@.take(v@.len() as int) =~= v@);
    out
}

/// The characters of `v` from `a` up to `b`.
fn slice_chars(v: &Vec<char>, a: usize, b: usize) -> (r: Vec<char>)
    requires
        a <= b <= v@.len(),
    ensures
        r@ == v@.subrange(a as int, b as int),
{
    let mut out: Vec<char> = Vec::new();
    let mut k: usize = a;
    while k < b
        invariant
            a <= k <= b <= v@.len(),
            out@ == v@.subrange(a as int, k as int),
        decreases b - k,
    {
        out.push(v[k]);
        k = k + 1;
        assert(out@ =~= v@.subrange(a as int, k as int));
    }
    out
}

impl GhosttyConfig {
    /// Sets `key` to `value`.
    fn set(&mut self, key: String, value: String)
        ensures
            final(self)@ == set_key(old(self)@, key@, value@),
    {
        if str_eq(key.as_str(), "font-family") {
            self.font_family = Some(value);
        } else if str_eq(key.as_str(), "font-size") {
            self.font_size = Some(value);
        } else if str_eq(key.as_str(), "theme") {
            self.theme = Some(value);
        } else if str_eq(key.as_str(), "background") {
            self.background = Some(value);
        } else if str_eq(key.as_str(), "foreground") {
            self.foreground = Some(value);
        } else if str_eq(key.as_str(), "cursor-color") {
            self.cursor_color = Some(value);
        } else {
            self.extras.insert(key, value);
        }
    }

    /// Reads one line.
    fn read_line(&mut self, raw: &Vec<char>)
        ensures
            final(self)@ == apply_line(old(self)@, raw@),
    {
        let line = trimmed(raw);
        if line.len() == 0 || line[0] == '#' {
            return;
        }
        let mut j: usize = 0;
        while j < line.len() && line[j] != '='
            invariant
                j <= line@.len(),
                forall|t: int| 0 <= t < j ==> line@[t] != '=',
            decreases line@.len() - j,
        {
            j = j + 1;
        }
        proof {
            lemma_first_index(line@, '=', j as int);
        }
        if j == line.len() {
            return;
        }
        let key = trimmed(&slice_chars(&line, 0, j));
        let value = strip_inline_comment(&trimmed(&slice_chars(&line, j + 1, line.len())));
        proof {
            assert(line@.subrange(0, j as int) =~= line@.take(j as int));
            assert(line@.subrange(j + 1, line@.len() as int) =~= line@.skip(j + 1));
        }
        self.set(string_of(&key), string_of(&value));
    }
}

/// Reads the configuration from a file's text.
pub fn parse(text: &str) -> (cfg: GhosttyConfig)
    ensures
        cfg@ == parsed(text@),
{
    let chars = chars_of(text);
    let mut cfg = GhosttyConfig::default();
    let mut line: Vec<char> = Vec::new();
    let mut i: usize = 0;
    proof {
        assert(chars@.take(0) =~= Seq::<char>::empty());
        assert(split_lines(Seq::<char>::empty()).drop_last() =~= Seq::<Seq<char>>::empty());
    }
    while i < chars.len()
        invariant
            i <= chars@.len(),
            cfg@ == config_of(split_lines(chars@.take(i as int)).drop_last()),
            line@ == split_lines(chars@.take(i as int)).last(),
        decreases chars@.len() - i,
    {
        let ghost t = chars@.take(i as int);
        let ghost t1 = chars@.take(i + 1);
        assert(t1.drop_last() =~= t);
        assert(t1.last() == chars@[i as int]);
        proof {
            lemma_split_lines_len(t);
        }
        let c = chars[i];
        if c == '\n' {
            cfg.read_line(&line);
            line = Vec::new();
            proof {
                let p = split_lines(t);
                assert(split_lines(t1) == p.push(Seq::<char>::empty()));
                assert(split_lines(t1).drop_last() =~= p);
                assert(p == p.drop_last().push(p.last()));
                assert(line@ =~= split_lines(t1).last());
            }
        } else {
            line.push(c);
            proof {
                let p = split_lines(t);
                let q = split_lines(t1);
                assert(q == p.update(p.len() - 1, p.last().push(c)));
                assert(q.drop_last() =~= p.drop_last());
                assert(line@ =~= q.last());
            }
        }
        i = i + 1;
    }
    proof {
        assert(chars@.take(chars@.len() as int) =~= chars@);
        let p = split_lines(chars@);
        lemma_split_lines_len(chars@);
        assert(p == p.drop_last().push(p.last()));
    }
    cfg.read_line(&line);
    cfg
}

// ------------------------------------------------------------------
// Laws
// ------------------------------------------------------------------

/// A later value of a key replaces an earlier one.
pub proof fn lemma_later_value_wins(cfg: GhosttyView, key: Seq<char>, v1: Seq<char>, v2: Seq<char>)
    ensures
        set_key(set_key(cfg, key, v1), key, v2) == set_key(cfg, key, v2),
{
    if !(key == "font-family"@ || key == "font-size"@ || key == "theme"@ || key == "background"@
        || key == "foreground"@ || key == "cursor-color"@) {
        assert(cfg.extras.insert(key, v1).insert(key, v2) =~= cfg.extras.insert(key, v2));
    }
}

/// Blank lines and comment lines change nothing.
pub proof fn lemma_comment_lines_are_ignored(cfg: GhosttyView, raw: Seq<char>)
    requires
        trim(raw).len() == 0 || trim(raw)[0] == '#',
    ensures
        apply_line(cfg, raw) == cfg,
{
}

/// A value with no white space before a `#` (such as a hex colour) is kept
/// whole.
pub proof fn lemma_hash_values_are_kept(v: Seq<char>)
    requires
        forall|i: int| 0 < i < v.len() && v[i] == '#' ==> !is_ascii_ws(#[trigger] v[i - 1]),
    ensures
        without_inline_comment(v) == v,
{
    assert forall|i: int| 0 <= i <= v.len() implies #[trigger] comment_from(v, i) is None by {
        lemma_no_comment_from(v, i);
    }
}

proof fn lemma_no_comment_from(v: Seq<char>, i: int)
    requires
        0 <= i <= v.len(),
        forall|k: int| 0 < k < v.len() && v[k] == '#' ==> !is_ascii_ws(#[trigger] v[k - 1]),
    ensures
        comment_from(v, i) is None,
    decreases v.len() - i,
{
    if i < v.len() {
        lemma_no_comment_from(v, i + 1);
    }
}

/// A line without `=` changes nothing.
pub proof fn lemma_lines_without_equals_are_ignored(cfg: GhosttyView, raw: Seq<char>)
    requires
        forall|i: int| 0 <= i < trim(raw).len() ==> trim(raw)[i] != '=',
    ensures
        apply_line(cfg, raw) == cfg,
{
    let line = trim(raw);
    lemma_first_index(line, '=', line.len() as int);
}


proof fn lemma_split_lines_no_newline(text: Seq<char>)
    requires
        forall|i: int| 0 <= i < text.len() ==> text[i] != '\n',
    ensures
        split_lines(text) == seq![text],
    decreases text.len(),
{
    if text.len() > 0 {
        let d = text.drop_last();
        assert forall|i: int| 0 <= i < d.len() implies d[i] != '\n' by {
            assert(d[i] == text[i]);
        }
        lemma_split_lines_no_newline(d);
        assert(d.push(text.last()) =~= text);
        assert(seq![d].update(0, d.push(text.last())) =~= seq![text]);
    } else {
        assert(text =~= Seq::<char>::empty());
    }
}

proof fn lemma_split_lines_append(text: Seq<char>, line: Seq<char>)
    requires
        forall|i: int| 0 <= i < line.len() ==> line[i] != '\n',
    ensures
        split_lines(text + seq!['\n'] + line) == split_lines(text).push(line),
    decreases line.len(),
{
    let s = text + seq!['\n'] + line;
    if line.len() == 0 {
        assert(s =~= text.push('\n'));
        assert(s.drop_last() =~= text);
        assert(line =~= Seq::<char>::empty());
    } else {
        let d = line.drop_last();
        assert forall|i: int| 0 <= i < d.len() implies d[i] != '\n' by {
            assert(d[i] == line[i]);
        }
        lemma_split_lines_append(text, d);
        assert(s.drop_last() =~= text + seq!['\n'] + d);
        assert(s.last() == line.last());
        let p = split_lines(text).push(d);
        assert(p.update(p.len() - 1, p.last().push(line.last())) =~= split_lines(text).push(line)) by {
            assert(d.push(line.last()) =~= line);
        }
    }
}

/// Every line is read, the last one too when no newline follows it: text
/// with no newline is read as one line.
pub proof fn lemma_last_line_is_read(text: Seq<char>)
    requires
        forall|i: int| 0 <= i < text.len() ==> text[i] != '\n',
    ensures
        parsed(text) == apply_line(empty_config(), text),
{
    lemma_split_lines_no_newline(text);
    let ls = seq![text];
    assert(ls.drop_last() =~= Seq::<Seq<char>>::empty());
    assert(config_of(ls.drop_last()) == empty_config());
    assert(ls.last() == text);
    assert(config_of(ls) == apply_line(config_of(ls.drop_last()), ls.last()));
}

/// Lines are read in order: a line after a newline is read into the
/// configuration the text before it gives.
pub proof fn lemma_lines_read_in_order(text: Seq<char>, line: Seq<char>)
    requires
        forall|i: int| 0 <= i < line.len() ==> line[i] != '\n',
    ensures
        parsed(text + seq!['\n'] + line) == apply_line(parsed(text), line),
{
    lemma_split_lines_append(text, line);
    assert(split_lines(text).push(line).drop_last() =~= split_lines(text));
}

} // verus!
