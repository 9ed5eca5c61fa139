//! Terminal input mode tracking: the terminal application's output selects
//! cursor-key and keyboard-protocol modes, and user input is rewritten to
//! match them.
use vstd::prelude::*;

verus! {

/// Kitty CSI-u Shift+Enter: `ESC [ 1 3 ; 2 u`.
pub const KITTY_SHIFT_ENTER: [u8; 7] = [0x1b, 0x5b, 0x31, 0x33, 0x3b, 0x32, 0x75];

/// Legacy Shift+Enter: `ESC CR`.
pub const LEGACY_INSERT_NEWLINE: [u8; 2] = [0x1b, 0x0d];

/// Longest escape sequence kept while scanning output; longer ones are dropped.
pub const MAX_ESCAPE_LEN: usize = 32;

pub open spec fn kitty_shift_enter() -> Seq<u8> {
    seq![0x1bu8, 0x5bu8, 0x31u8, 0x33u8, 0x3bu8, 0x32u8, 0x75u8]
}

pub open spec fn legacy_insert_newline() -> Seq<u8> {
    seq![0x1bu8, 0x0du8]
}

// ------------------------------------------------------------------
// Decimal parameters
// ------------------------------------------------------------------

pub open spec fn is_digit(b: u8) -> bool {
    0x30 <= b <= 0x39
}

pub open spec fn all_digits(s: Seq<u8>) -> bool {
    forall|i: int| 0 <= i < s.len() ==> is_digit(#[trigger] s[i])
}

/// The number written in decimal by the digits `s` (most significant first).
pub open spec fn decimal_value(s: Seq<u8>) -> nat
    decreases s.len(),
{
    if s.len() == 0 {
        0
    } else {
        decimal_value(s.drop_last()) * 10 + (s.last() - 0x30) as nat
    }
}

/// A parameter parses when it is a non-empty run of digits whose value fits a `u32`.
pub open spec fn spec_parse_decimal_u32(s: Seq<u8>) -> Option<u32> {
    if s.len() > 0 && all_digits(s) && decimal_value(s) <= u32::MAX {
        Some(decimal_value(s) as u32)
    } else {
        None
    }
}

proof fn lemma_decimal_prefix_le(s: Seq<u8>, i: int)
    requires
        all_digits(s),
        0 <= i <= s.len(),
    ensures
        decimal_value(s.take(i)) <= decimal_value(s),
    decreases s.len(),
{
    if i < s.len() {
        let d = s.drop_last();
        assert(all_digits(d)) by {
            assert forall|k: int| 0 <= k < d.len() implies is_digit(#[trigger] d[k]) by {
                assert(d[k] == s[k]);
            }
        }
        lemma_decimal_prefix_le(d, i);
        assert(d.take(i) =~= s.take(i));
    } else {
        assert(s.take(i) =~= s);
    }
}

/// Parse a decimal `u32` from bytes: `None` on empty input, a non-digit byte,
/// or overflow.
pub fn parse_decimal_u32(bytes: &[u8]) -> (r: Option<u32>)
    ensures
        r == spec_parse_decimal_u32(bytes@),
{
    if bytes.len() == 0 {
        return None;
    }
    let mut n: u32 = 0;
    let mut i: usize = 0;
    while i < bytes.len()
        invariant
            0 < bytes@.len(),
            i <= bytes@.len(),
            all_digits(bytes@.take(i as int)),
            n as nat == decimal_value(bytes@.take(i as int)),
        decreases bytes@.len() - i,
    {
        let b = bytes[i];
        if !(0x30 <= b && b <= 0x39) {
            assert(!all_digits(bytes@)) by {
                assert(!is_digit(bytes@[i as int]));
            }
            return None;
        }
        let ghost pre = bytes@.take(i as int);
        let ghost post = bytes@.take(i + 1);
        assert(post.drop_last() =~= pre);
        assert(all_digits(post)) by {
            assert forall|k: int| 0 <= k < post.len() implies is_digit(#[trigger] post[k]) by {
                if k < i {
                    assert(post[k] == pre[k]);
                }
            }
        }
        let d: u32 = (b - 0x30) as u32;
        match n.checked_mul(10) {
            None => {
                proof {
                    if all_digits(bytes@) {
                        lemma_decimal_prefix_le(bytes@, i + 1);
                    }
                }
                return None;
            },
            Some(m) => match m.checked_add(d) {
                None => {
                    proof {
                        if all_digits(bytes@) {
                            lemma_decimal_prefix_le(bytes@, i + 1);
                        }
                    }
                    return None;
                },
                Some(v) => {
                    n = v;
                },
            },
        }
        i = i + 1;
    }
    assert(bytes@.take(bytes@.len() as int) =~= bytes@);
    Some(n)
}

// ------------------------------------------------------------------
// `;`-separated parameter fields
// ------------------------------------------------------------------

/// Index of the first `;` in `p`, or its length when there is none.
pub open spec fn semi_index(p: Seq<u8>) -> nat
    decreases p.len(),
{
    if p.len() == 0 {
        0
    } else if p[0] == 0x3b {
        0
    } else {
        1 + semi_index(p.drop_first())
    }
}

/// The `;`-separated fields of `p`, as slice splitting yields them: an input
/// without `;` is one field, and an empty input is one empty field.
pub open spec fn fields(p: Seq<u8>) -> Seq<Seq<u8>>
    decreases p.len(),
{
    if semi_index(p) >= p.len() {
        seq![p]
    } else {
        seq![p.take(semi_index(p) as int)] + fields(p.skip(semi_index(p) as int + 1))
    }
}

proof fn lemma_semi_index(s: Seq<u8>, j: int)
    requires
        0 <= j <= s.len(),
        forall|t: int| 0 <= t < j ==> s[t] != 0x3b,
        j == s.len() || s[j] == 0x3b,
    ensures
        semi_index(s) == j,
    decreases j,
{
    if j > 0 {
        let d = s.drop_first();
        assert forall|t: int| 0 <= t < j - 1 implies d[t] != 0x3b by {
            assert(d[t] == s[t + 1]);
        }
        if j - 1 < d.len() {
            assert(d[j - 1] == s[j]);
        }
        lemma_semi_index(d, j - 1);
    }
}

proof fn lemma_semi_index_bound(s: Seq<u8>)
    ensures
        semi_index(s) <= s.len(),
        semi_index(s) < s.len() ==> s[semi_index(s) as int] == 0x3b,
        forall|t: int| 0 <= t < semi_index(s) ==> s[t] != 0x3b,
    decreases s.len(),
{
    if s.len() > 0 && s[0] != 0x3b {
        let d = s.drop_first();
        lemma_semi_index_bound(d);
        assert forall|t: int| 0 <= t < semi_index(s) implies s[t] != 0x3b by {
            if t > 0 {
                assert(s[t] == d[t - 1]);
            }
        }
    }
}

/// Index of the first `;` at or after `start`, or the length of `p`.
fn find_semi(p: &[u8], start: usize) -> (j: usize)
    requires
        start <= p@.len(),
    ensures
        start <= j <= p@.len(),
        j - start == semi_index(p@.skip(start as int)),
{
    let mut j = start;
    while j < p.len() && p[j] != 0x3b
        invariant
            start <= j <= p@.len(),
            forall|t: int| start <= t < j ==> p@[t] != 0x3b,
        decreases p@.len() - j,
    {
        j = j + 1;
    }
    proof {
        let s = p@.skip(start as int);
        assert forall|t: int| 0 <= t < j - start implies s[t] != 0x3b by {
            assert(s[t] == p@[t + start]);
        }
        if j < p@.len() {
            assert(s[j - start] == p@[j as int]);
        }
        lemma_semi_index(s, j - start);
    }
    j
}

fn copy_range(p: &[u8], a: usize, b: usize) -> (r: Vec<u8>)
    requires
        a <= b <= p@.len(),
    ensures
        r@ == p@.subrange(a as int, b as int),
{
    let mut r: Vec<u8> = Vec::new();
    let mut i = a;
    while i < b
        invariant
            a <= i <= b,
            b <= p@.len(),
            r@ == p@.subrange(a as int, i as int),
        decreases b - i,
    {
        r.push(p[i]);
        i = i + 1;
        assert(r@ =~= p@.subrange(a as int, i as int));
    }
    r
}

proof fn lemma_fields_unfold(p: Seq<u8>)
    ensures
        fields(p).len() >= 1,
        fields(p)[0] == p.take(semi_index(p) as int),
        semi_index(p) < p.len() ==> fields(p) == seq![p.take(semi_index(p) as int)] + fields(
            p.skip(semi_index(p) as int + 1),
        ),
        semi_index(p) >= p.len() ==> fields(p) == seq![p],
{
    lemma_semi_index_bound(p);
    if semi_index(p) >= p.len() {
        assert(p.take(semi_index(p) as int) =~= p);
    }
}

/// Whether some `;`-separated field of `p[start..]` is exactly `1`.
fn has_field_one(p: &[u8], start: usize) -> (r: bool)
    requires
        start <= p@.len(),
    ensures
        r == fields(p@.skip(start as int)).contains(seq![0x31u8]),
    decreases p@.len() - start,
{
    let end = find_semi(p, start);
    let ghost s = p@.skip(start as int);
    proof {
        lemma_fields_unfold(s);
        assert(s.take(semi_index(s) as int) =~= p@.subrange(start as int, end as int));
    }
    let this_one = end - start == 1 && p[start] == 0x31;
    proof {
        let f0 = p@.subrange(start as int, end as int);
        if this_one {
            assert(f0 =~= seq![0x31u8]);
        } else {
            assert(f0 != seq![0x31u8]) by {
                if f0.len() == 1 {
                    assert(f0[0] == p@[start as int]);
                }
            }
        }
    }
    if this_one {
        assert(fields(s)[0] == seq![0x31u8]);
        return true;
    }
    if end >= p.len() {
        proof {
            assert(fields(s) == seq![s]);
            assert(s =~= p@.subrange(start as int, end as int));
            assert forall|k: int| 0 <= k < fields(s).len() implies fields(s)[k] != seq![0x31u8] by {}
        }
        return false;
    }
    let rest = has_field_one(p, end + 1);
    proof {
        assert(s.skip(semi_index(s) as int + 1) =~= p@.skip(end + 1));
        let head = seq![p@.subrange(start as int, end as int)];
        let tail = fields(p@.skip(end + 1));
        assert(fields(s) == head + tail);
        if rest {
            let k = choose|k: int| 0 <= k < tail.len() && tail[k] == seq![0x31u8];
            assert(fields(s)[k + 1] == tail[k]);
        } else {
            assert forall|k: int| 0 <= k < fields(s).len() implies fields(s)[k] != seq![0x31u8] by {
                if k > 0 {
                    assert(fields(s)[k] == tail[k - 1]);
                }
            }
        }
    }
    rest
}

// ------------------------------------------------------------------
// Mode state
// ------------------------------------------------------------------

/// What the tracked modes are: the cursor-key mode, the Kitty keyboard flags,
/// the stack of saved flags, and the unfinished escape sequence seen so far.
pub struct InputModesView {
    pub application_cursor: bool,
    pub kitty_flags: u32,
    pub flag_stack: Seq<u32>,
    pub escape: Seq<u8>,
}

pub open spec fn kitty_enabled(flags: u32) -> bool {
    flags & 1 != 0
}

/// Pop up to `count` saved entries, each restoring the flags it held.
pub open spec fn pop_restoring(flags: u32, stack: Seq<u32>, count: nat) -> (u32, Seq<u32>) {
    let k = if count < stack.len() { count } else { stack.len() };
    if k == 0 {
        (flags, stack)
    } else {
        (stack[stack.len() - k], stack.take(stack.len() - k))
    }
}

/// Pop up to `count` saved entries, discarding them.
pub open spec fn pop_discarding(stack: Seq<u32>, count: nat) -> Seq<u32> {
    let k = if count < stack.len() { count } else { stack.len() };
    stack.take(stack.len() - k)
}

/// Kitty progressive enhancement (`CSI > flags u` push, `CSI = flags ; mode u`
/// set, `CSI < u` pop, `CSI < count u`, `CSI < count ; flags u`): the new flags
/// and saved-flags stack.
pub open spec fn spec_apply_kitty(flags: u32, stack: Seq<u32>, params: Seq<u8>) -> (u32, Seq<u32>) {
    if params.len() > 0 && params[0] == 0x3e {
        match spec_parse_decimal_u32(params.skip(1)) {
            Some(f) => (f, stack.push(flags)),
            None => (flags, stack),
        }
    } else if params.len() > 0 && params[0] == 0x3d {
        match spec_parse_decimal_u32(fields(params.skip(1))[0]) {
            Some(f) => (f, stack),
            None => (flags, stack),
        }
    } else if params.len() > 0 && params[0] == 0x3c {
        let pp = params.skip(1);
        if pp.len() == 0 {
            if stack.len() > 0 {
                (stack.last(), stack.drop_last())
            } else {
                (flags, stack)
            }
        } else {
            let fs = fields(pp);
            if fs.len() == 1 && fs[0].len() > 0 {
                match spec_parse_decimal_u32(fs[0]) {
                    Some(c) => pop_restoring(flags, stack, c as nat),
                    None => (flags, stack),
                }
            } else {
                let count: nat = match spec_parse_decimal_u32(fs[0]) {
                    Some(c) => c as nat,
                    None => 1,
                };
                let st = pop_discarding(stack, count);
                let set = if fs.len() > 1 {
                    spec_parse_decimal_u32(fs[1])
                } else {
                    None
                };
                match set {
                    Some(f) => (f, st),
                    None => if st.len() > 0 {
                        (st.last(), st)
                    } else {
                        (flags, st)
                    },
                }
            }
        }
    } else {
        (flags, stack)
    }
}

/// DEC private mode set/reset (`CSI ? ... h` / `CSI ? ... l`): the new
/// cursor-key mode. Only parameter `1` (DECCKM) matters.
pub open spec fn spec_apply_hl(app: bool, params: Seq<u8>, final_byte: u8) -> bool {
    if params.len() > 0 && params[0] == 0x3f && fields(params.skip(1)).contains(seq![0x31u8]) {
        final_byte == 0x68
    } else {
        app
    }
}

/// The modes after a complete CSI sequence `e` (ESC, `[`, parameters, final byte).
pub open spec fn spec_apply_csi(st: InputModesView, e: Seq<u8>) -> InputModesView {
    let fin = e.last();
    let params = e.subrange(2, e.len() - 1);
    if fin == 0x68 || fin == 0x6c {
        InputModesView { application_cursor: spec_apply_hl(st.application_cursor, params, fin), ..st }
    } else if fin == 0x75 {
        let r = spec_apply_kitty(st.kitty_flags, st.flag_stack, params);
        InputModesView { kitty_flags: r.0, flag_stack: r.1, ..st }
    } else {
        st
    }
}

pub open spec fn is_csi_start(e: Seq<u8>) -> bool {
    e.len() >= 2 && e[0] == 0x1b && e[1] == 0x5b
}

/// One byte of terminal output.
pub open spec fn spec_observe_byte(st: InputModesView, b: u8) -> InputModesView {
    if st.escape.len() == 0 {
        if b == 0x1b {
            InputModesView { escape: seq![b], ..st }
        } else {
            st
        }
    } else {
        let e = st.escape.push(b);
        if e.len() > MAX_ESCAPE_LEN {
            InputModesView { escape: Seq::empty(), ..st }
        } else if e == seq![0x1bu8, 0x3du8] || e == seq![0x1bu8, 0x3eu8] {
            InputModesView { escape: Seq::empty(), ..st }
        } else if e.len() > 2 && is_csi_start(e) && 0x40 <= b <= 0x7e {
            InputModesView { escape: Seq::empty(), ..spec_apply_csi(st, e) }
        } else if !is_csi_start(e) && e.len() >= 2 {
            InputModesView { escape: Seq::empty(), ..st }
        } else {
            InputModesView { escape: e, ..st }
        }
    }
}

/// A run of terminal output, byte by byte.
pub open spec fn spec_observe(st: InputModesView, bytes: Seq<u8>) -> InputModesView
    decreases bytes.len(),
{
    if bytes.len() == 0 {
        st
    } else {
        spec_observe(spec_observe_byte(st, bytes[0]), bytes.drop_first())
    }
}

/// The kept escape prefix is empty, or starts with ESC, is no longer than the
/// cap, and past its first byte is a CSI (`ESC [`) prefix.
pub open spec fn escape_wf(e: Seq<u8>) -> bool {
    e.len() == 0 || (e[0] == 0x1b && e.len() <= MAX_ESCAPE_LEN && (e.len() == 1 || e[1] == 0x5b))
}

pub open spec fn is_cursor_final(b: u8) -> bool {
    b == 0x41 || b == 0x42 || b == 0x43 || b == 0x44 || b == 0x48 || b == 0x46
}

/// Input rewriting, left to right: with Kitty disambiguation on, `ESC CR`
/// becomes the CSI-u Shift+Enter; with application cursor mode on, `ESC [ X`
/// for a cursor key `X` becomes `ESC O X`; every other byte is kept.
pub open spec fn spec_rewrite(s: Seq<u8>, app: bool, kitty: bool) -> Seq<u8>
    decreases s.len(),
{
    if s.len() == 0 {
        Seq::empty()
    } else if kitty && s.len() >= 2 && s[0] == 0x1b && s[1] == 0x0d {
        kitty_shift_enter() + spec_rewrite(s.skip(2), app, kitty)
    } else if app && s.len() >= 3 && s[0] == 0x1b && s[1] == 0x5b && is_cursor_final(s[2]) {
        seq![0x1bu8, 0x4fu8, s[2]] + spec_rewrite(s.skip(3), app, kitty)
    } else {
        seq![s[0]] + spec_rewrite(s.skip(1), app, kitty)
    }
}

#[derive(Debug, Clone)]
pub struct TerminalInputModes {
    application_cursor: bool,
    /// Current Kitty keyboard protocol flags.
    kitty_flags: u32,
    /// Stack for push/pop progressive enhancement.
    flag_stack: Vec<u32>,
    output_escape: Vec<u8>,
}

impl View for TerminalInputModes {
    type V = InputModesView;

    closed spec fn view(&self) -> InputModesView {
        InputModesView {
            application_cursor: self.application_cursor,
            kitty_flags: self.kitty_flags,
            flag_stack: self.flag_stack@,
            escape: self.output_escape@,
        }
    }
}

impl Default for TerminalInputModes {
    fn default() -> (r: Self)
        ensures
            r@ == (InputModesView {
                application_cursor: false,
                kitty_flags: 0,
                flag_stack: Seq::empty(),
                escape: Seq::empty(),
            }),
    {
        TerminalInputModes::new()
    }
}

impl TerminalInputModes {
    /// Normal cursor keys, no Kitty flags, nothing saved, no pending escape.
    pub fn new() -> (r: Self)
        ensures
            r@ == (InputModesView {
                application_cursor: false,
                kitty_flags: 0,
                flag_stack: Seq::empty(),
                escape: Seq::empty(),
            }),
    {
        TerminalInputModes {
            application_cursor: false,
            kitty_flags: 0,
            flag_stack: Vec::new(),
            output_escape: Vec::new(),
        }
    }

    pub fn application_cursor(&self) -> (r: bool)
        ensures
            r == self@.application_cursor,
    {
        self.application_cursor
    }

    /// Whether the Kitty keyboard protocol disambiguate flag (bit 0) is set.
    pub fn kitty_keyboard_enabled(&self) -> (r: bool)
        ensures
            r == kitty_enabled(self@.kitty_flags),
    {
        self.kitty_flags & 1 != 0
    }

    /// Observe bytes emitted by the terminal application and update the input
    /// modes those bytes select.
    pub fn observe_output(&mut self, bytes: &[u8])
        ensures
            final(self)@ == spec_observe(old(self)@, bytes@),
    {
        let mut i: usize = 0;
        assert(bytes@.skip(0) =~= bytes@);
        while i < bytes.len()
            invariant
                i <= bytes@.len(),
                spec_observe(self@, bytes@.skip(i as int)) == spec_observe(old(self)@, bytes@),
            decreases bytes@.len() - i,
        {
            let ghost before = self@;
            self.observe_byte(bytes[i]);
            assert(bytes@.skip(i as int).drop_first() =~= bytes@.skip(i + 1));
            i = i + 1;
        }
        assert(bytes@.skip(i as int) =~= Seq::<u8>::empty());
    }

    /// One byte of terminal output.
    pub fn observe_byte(&mut self, byte: u8)
        ensures
            final(self)@ == spec_observe_byte(old(self)@, byte),
    {
        if self.output_escape.len() == 0 {
            if byte == 0x1b {
                self.output_escape.push(byte);
                assert(self.output_escape@ =~= seq![byte]);
            }
            return;
        }
        self.output_escape.push(byte);
        let n = self.output_escape.len();
        if n > MAX_ESCAPE_LEN {
            self.output_escape.clear();
            return;
        }
        let e0 = self.output_escape[0];
        let is_short_mode = n == 2 && e0 == 0x1b && (byte == 0x3d || byte == 0x3e);
        proof {
            let e = self.output_escape@;
            if n == 2 && e0 == 0x1b && byte == 0x3d {
                assert(e =~= seq![0x1bu8, 0x3du8]);
            }
            if n == 2 && e0 == 0x1b && byte == 0x3e {
                assert(e =~= seq![0x1bu8, 0x3eu8]);
            }
            if !is_short_mode {
                assert(e != seq![0x1bu8, 0x3du8]) by {
                    if e.len() == 2 {
                        assert(e[1] == byte);
                    }
                }
                assert(e != seq![0x1bu8, 0x3eu8]) by {
                    if e.len() == 2 {
                        assert(e[1] == byte);
                    }
                }
            }
        }
        if is_short_mode {
            self.output_escape.clear();
            return;
        }
        let csi = n >= 2 && e0 == 0x1b && self.output_escape[1] == 0x5b;
        if n > 2 && csi && 0x40 <= byte && byte <= 0x7e {
            self.apply_csi();
            self.output_escape.clear();
        } else if !csi && n >= 2 {
            self.output_escape.clear();
        }
    }

    fn apply_csi(&mut self)
        requires
            old(self)@.escape.len() > 2,
        ensures
            final(self)@ == spec_apply_csi(old(self)@, old(self)@.escape),
    {
        let n = self.output_escape.len();
        let fin = self.output_escape[n - 1];
        let params = copy_range(self.output_escape.as_slice(), 2, n - 1);
        if fin == 0x68 || fin == 0x6c {
            self.apply_csi_hl(&params, fin);
        } else if fin == 0x75 {
            self.apply_csi_kitty(&params);
        }
    }

    /// DECSET/DECRST-style sequences ending in `h` or `l`.
    fn apply_csi_hl(&mut self, params: &[u8], final_byte: u8)
        ensures
            final(self)@ == (InputModesView {
                application_cursor: spec_apply_hl(old(self)@.application_cursor, params@, final_byte),
                ..old(self)@
            }),
    {
        if params.len() > 0 && params[0] == 0x3f {
            if has_field_one(params, 1) {
                self.application_cursor = final_byte == 0x68;
            }
        }
    }

    /// Kitty keyboard progressive enhancement sequences ending in `u`.
    fn apply_csi_kitty(&mut self, params: &[u8])
        ensures
            final(self)@ == (InputModesView {
                kitty_flags: spec_apply_kitty(old(self)@.kitty_flags, old(self)@.flag_stack, params@).0,
                flag_stack: spec_apply_kitty(old(self)@.kitty_flags, old(self)@.flag_stack, params@).1,
                ..old(self)@
            }),
    {
        let n = params.len();
        if n > 0 && params[0] == 0x3e {
            let rest = copy_range(params, 1, n);
            assert(rest@ =~= params@.skip(1));
            match parse_decimal_u32(&rest) {
                Some(f) => {
                    self.flag_stack.push(self.kitty_flags);
                    self.kitty_flags = f;
                },
                None => {},
            }
            return;
        }
        if n > 0 && params[0] == 0x3d {
            let end = find_semi(params, 1);
            let first = copy_range(params, 1, end);
            proof {
                let s = params@.skip(1);
                lemma_fields_unfold(s);
                assert(s.take(semi_index(s) as int) =~= first@);
            }
            match parse_decimal_u32(&first) {
                Some(f) => {
                    self.kitty_flags = f;
                },
                None => {},
            }
            return;
        }
        if n > 0 && params[0] == 0x3c {
            let ghost pp = params@.skip(1);
            if n == 1 {
                assert(pp.len() == 0);
                match self.flag_stack.pop() {
                    Some(prev) => {
                        self.kitty_flags = prev;
                    },
                    None => {},
                }
                return;
            }
            let end = find_semi(params, 1);
            let first = copy_range(params, 1, end);
            proof {
                lemma_fields_unfold(pp);
                assert(pp.take(semi_index(pp) as int) =~= first@);
            }
            let parsed_first = parse_decimal_u32(&first);
            if end >= n && first.len() > 0 {
                // `CSI < count u`: pop `count` times, each restoring the flags.
                assert(fields(pp) == seq![pp]);
                match parsed_first {
                    Some(count) => {
                        self.pop_restoring(count);
                    },
                    None => {},
                }
                return;
            }
            // `CSI < count ; flags u`: pop `count` (discarding), then set flags.
            proof {
                if end >= n {
                    assert(first@.len() == 0);
                    assert(fields(pp) == seq![pp]);
                }
            }
            let count: u32 = match parsed_first {
                Some(c) => c,
                None => 1,
            };
            self.pop_discarding(count);
            let mut set: Option<u32> = None;
            if end < n {
                let end2 = find_semi(params, end + 1);
                let second = copy_range(params, end + 1, end2);
                proof {
                    let rest = pp.skip(semi_index(pp) as int + 1);
                    assert(rest =~= params@.skip(end + 1));
                    lemma_fields_unfold(rest);
                    assert(fields(pp)[1] == fields(rest)[0]);
                    assert(rest.take(semi_index(rest) as int) =~= second@);
                }
                set = parse_decimal_u32(&second);
            }
            match set {
                Some(f) => {
                    self.kitty_flags = f;
                },
                None => {
                    let len = self.flag_stack.len();
                    if len > 0 {
                        self.kitty_flags = self.flag_stack[len - 1];
                    }
                },
            }
        }
    }

    fn pop_restoring(&mut self, count: u32)
        ensures
            final(self)@ == (InputModesView {
                kitty_flags: pop_restoring(old(self)@.kitty_flags, old(self)@.flag_stack, count as nat).0,
                flag_stack: pop_restoring(old(self)@.kitty_flags, old(self)@.flag_stack, count as nat).1,
                ..old(self)@
            }),
    {
        let ghost s0 = self.flag_stack@;
        let ghost f0 = self.kitty_flags;
        let mut i: u32 = 0;
        while i < count && self.flag_stack.len() > 0
            invariant
                i <= count,
                i <= s0.len(),
                self.flag_stack@ == s0.take(s0.len() - i),
                self.kitty_flags == (if i == 0 { f0 } else { s0[s0.len() - i] }),
                self.application_cursor == old(self).application_cursor,
                self.output_escape@ == old(self).output_escape@,
            decreases count - i,
        {
            let prev = self.flag_stack.pop().unwrap();
            self.kitty_flags = prev;
            i = i + 1;
            assert(self.flag_stack@ =~= s0.take(s0.len() - i));
        }
        assert(s0.take(s0.len() as int) =~= s0);
    }

    fn pop_discarding(&mut self, count: u32)
        ensures
            final(self)@ == (InputModesView {
                flag_stack: pop_discarding(old(self)@.flag_stack, count as nat),
                ..old(self)@
            }),
    {
        let ghost s0 = self.flag_stack@;
        let mut i: u32 = 0;
        while i < count && self.flag_stack.len() > 0
            invariant
                i <= count,
                i <= s0.len(),
                self.flag_stack@ == s0.take(s0.len() - i),
                self.kitty_flags == old(self).kitty_flags,
                self.application_cursor == old(self).application_cursor,
                self.output_escape@ == old(self).output_escape@,
            decreases count - i,
        {
            let _ = self.flag_stack.pop();
            i = i + 1;
            assert(self.flag_stack@ =~= s0.take(s0.len() - i));
        }
        assert(s0.take(s0.len() as int) =~= s0);
    }

    /// Rewrite input bytes to match the foreground application's modes.
    pub fn rewrite_input(&self, bytes: &[u8]) -> (out: Vec<u8>)
        ensures
            out@ == spec_rewrite(
                bytes@,
                self@.application_cursor,
                kitty_enabled(self@.kitty_flags),
            ),
    {
        let kitty = self.kitty_keyboard_enabled();
        let app = self.application_cursor;
        let mut out: Vec<u8> = Vec::new();
        let mut i: usize = 0;
        assert(bytes@.skip(0) =~= bytes@);
        assert(out@ + spec_rewrite(bytes@, app, kitty) =~= spec_rewrite(bytes@, app, kitty));
        while i < bytes.len()
            invariant
                i <= bytes@.len(),
                spec_rewrite(bytes@, app, kitty) == out@ + spec_rewrite(bytes@.skip(i as int), app, kitty),
            decreases bytes@.len() - i,
        {
            let ghost s = bytes@.skip(i as int);
            let ghost out0 = out@;
            if kitty && bytes.len() - i > 1 && bytes[i] == 0x1b && bytes[i + 1] == 0x0d {
                out.push(0x1b);
                out.push(0x5b);
                out.push(0x31);
                out.push(0x33);
                out.push(0x3b);
                out.push(0x32);
                out.push(0x75);
                proof {
                    assert(s[0] == bytes@[i as int] && s[1] == bytes@[i + 1]);
                    assert(s.skip(2) =~= bytes@.skip(i + 2));
                    assert(out@ =~= out0 + kitty_shift_enter());
                }
                i = i + 2;
            } else if let Some(f) = (if app && bytes.len() - i > 2 && bytes[i] == 0x1b && bytes[i + 1]
                == 0x5b {
                app_cursor_final(bytes[i + 2])
            } else {
                None
            }) {
                out.push(0x1b);
                out.push(0x4f);
                out.push(f);
                proof {
                    assert(s[0] == bytes@[i as int] && s[1] == bytes@[i + 1] && s[2] == bytes@[i
                        + 2]);
                    assert(s.skip(3) =~= bytes@.skip(i + 3));
                    assert(out@ =~= out0 + seq![0x1bu8, 0x4fu8, s[2]]);
                    if kitty && s.len() >= 2 && s[0] == 0x1b {
                        assert(s[1] != 0x0d);
                    }
                }
                i = i + 3;
            } else {
                out.push(bytes[i]);
                proof {
                    assert(s[0] == bytes@[i as int]);
                    if s.len() >= 2 {
                        assert(s[1] == bytes@[i + 1]);
                    }
                    if s.len() >= 3 {
                        assert(s[2] == bytes@[i + 2]);
                    }
                    assert(s.skip(1) =~= bytes@.skip(i + 1));
                    assert(out@ =~= out0 + seq![s[0]]);
                }
                i = i + 1;
            }
        }
        assert(bytes@.skip(i as int) =~= Seq::<u8>::empty());
        assert(out@ + Seq::<u8>::empty() =~= out@);
        out
    }

    /// The Shift+Enter bytes for the current mode: Kitty CSI-u when the
    /// disambiguate flag is set, legacy `ESC CR` otherwise.
    pub fn shift_enter_bytes(&self) -> (r: Vec<u8>)
        ensures
            r@ == (if kitty_enabled(self@.kitty_flags) {
                kitty_shift_enter()
            } else {
                legacy_insert_newline()
            }),
    {
        if self.kitty_keyboard_enabled() {
            let r = vec![0x1bu8, 0x5bu8, 0x31u8, 0x33u8, 0x3bu8, 0x32u8, 0x75u8];
            assert(r@ =~= kitty_shift_enter());
            r
        } else {
            let r = vec![0x1bu8, 0x0du8];
            assert(r@ =~= legacy_insert_newline());
            r
        }
    }
}

/// The application-cursor final byte for a cursor key final byte.
fn app_cursor_final(final_byte: u8) -> (r: Option<u8>)
    ensures
        r == (if is_cursor_final(final_byte) {
            Some(final_byte)
        } else {
            None
        }),
{
    if final_byte == 0x41 || final_byte == 0x42 || final_byte == 0x43 || final_byte == 0x44
        || final_byte == 0x48 || final_byte == 0x46 {
        Some(final_byte)
    } else {
        None
    }
}


// ------------------------------------------------------------------
// Laws
// ------------------------------------------------------------------

/// Output may arrive in chunks: observing `a` then `b` gives the same modes
/// as observing `a + b` at once.
pub proof fn lemma_observe_chunks(st: InputModesView, a: Seq<u8>, b: Seq<u8>)
    ensures
        spec_observe(st, a + b) == spec_observe(spec_observe(st, a), b),
    decreases a.len(),
{
    if a.len() > 0 {
        assert((a + b).drop_first() =~= a.drop_first() + b);
        assert((a + b)[0] == a[0]);
        lemma_observe_chunks(spec_observe_byte(st, a[0]), a.drop_first(), b);
    } else {
        assert(a + b =~= b);
    }
}

/// The kept escape prefix stays well formed under every output byte.
pub proof fn lemma_observe_byte_keeps_escape_wf(st: InputModesView, b: u8)
    requires
        escape_wf(st.escape),
    ensures
        escape_wf(spec_observe_byte(st, b).escape),
{
    if st.escape.len() > 0 {
        let e = st.escape.push(b);
        assert(e[0] == st.escape[0]);
    }
}

/// The kept escape prefix stays well formed under every run of output.
pub proof fn lemma_observe_keeps_escape_wf(st: InputModesView, bytes: Seq<u8>)
    requires
        escape_wf(st.escape),
    ensures
        escape_wf(spec_observe(st, bytes).escape),
    decreases bytes.len(),
{
    if bytes.len() > 0 {
        lemma_observe_byte_keeps_escape_wf(st, bytes[0]);
        lemma_observe_keeps_escape_wf(spec_observe_byte(st, bytes[0]), bytes.drop_first());
    }
}

/// With neither application cursor mode nor Kitty disambiguation, input is
/// passed through unchanged.
pub proof fn lemma_rewrite_identity_without_modes(s: Seq<u8>)
    ensures
        spec_rewrite(s, false, false) == s,
    decreases s.len(),
{
    if s.len() > 0 {
        lemma_rewrite_identity_without_modes(s.skip(1));
        assert(seq![s[0]] + s.skip(1) =~= s);
    }
}

/// Input that holds no ESC byte is never rewritten, whatever the modes.
pub proof fn lemma_rewrite_identity_without_escape(s: Seq<u8>, app: bool, kitty: bool)
    requires
        forall|i: int| 0 <= i < s.len() ==> s[i] != 0x1b,
    ensures
        spec_rewrite(s, app, kitty) == s,
    decreases s.len(),
{
    if s.len() > 0 {
        let t = s.skip(1);
        assert forall|i: int| 0 <= i < t.len() implies t[i] != 0x1b by {
            assert(t[i] == s[i + 1]);
        }
        lemma_rewrite_identity_without_escape(t, app, kitty);
        assert(seq![s[0]] + t =~= s);
    }
}

/// `ESC [ ? 1 h` turns application cursor mode on and `ESC [ ? 1 l` turns it
/// off, from any state with no pending escape, leaving the Kitty state alone.
pub proof fn lemma_decckm_set_reset(st: InputModesView)
    requires
        st.escape.len() == 0,
    ensures
        spec_observe(st, seq![0x1bu8, 0x5bu8, 0x3fu8, 0x31u8, 0x68u8]) == (InputModesView {
            application_cursor: true,
            ..st
        }),
        spec_observe(st, seq![0x1bu8, 0x5bu8, 0x3fu8, 0x31u8, 0x6cu8]) == (InputModesView {
            application_cursor: false,
            ..st
        }),
{
    let one = seq![0x31u8];
    assert(fields(one) == seq![one]) by {
        reveal_with_fuel(semi_index, 2);
    }
    assert(fields(one).contains(one)) by {
        assert(fields(one)[0] == one);
    }
    let e_h = seq![0x1bu8, 0x5bu8, 0x3fu8, 0x31u8, 0x68u8];
    let e_l = seq![0x1bu8, 0x5bu8, 0x3fu8, 0x31u8, 0x6cu8];
    assert(e_h.subrange(2, 4).skip(1) =~= one);
    assert(e_l.subrange(2, 4).skip(1) =~= one);
    let s1 = spec_observe_byte(st, 0x1b);
    let s2 = spec_observe_byte(s1, 0x5b);
    let s3 = spec_observe_byte(s2, 0x3f);
    let s4 = spec_observe_byte(s3, 0x31);
    assert(s1.escape =~= seq![0x1bu8]);
    assert(s2.escape =~= seq![0x1bu8, 0x5bu8]);
    assert(s3.escape =~= seq![0x1bu8, 0x5bu8, 0x3fu8]);
    assert(s4.escape =~= seq![0x1bu8, 0x5bu8, 0x3fu8, 0x31u8]);
    assert(s4.escape.push(0x68) =~= e_h);
    assert(s4.escape.push(0x6c) =~= e_l);
    assert(st.escape =~= Seq::<u8>::empty());
    assert(e_h.last() == 0x68 && e_l.last() == 0x6c);
    assert(e_h.subrange(2, 4)[0] == 0x3f && e_l.subrange(2, 4)[0] == 0x3f);
    assert(is_csi_start(e_h) && is_csi_start(e_l));
    assert(e_h.len() == 5 && e_l.len() == 5);
    assert(e_h != seq![0x1bu8, 0x3du8] && e_h != seq![0x1bu8, 0x3eu8]);
    assert(e_l != seq![0x1bu8, 0x3du8] && e_l != seq![0x1bu8, 0x3eu8]);
    assert(s4.application_cursor == st.application_cursor && s4.kitty_flags == st.kitty_flags
        && s4.flag_stack == st.flag_stack);
    assert(spec_observe_byte(s4, 0x68) == (InputModesView { application_cursor: true, ..st }));
    assert(spec_observe_byte(s4, 0x6c) == (InputModesView { application_cursor: false, ..st }));
    reveal_with_fuel(spec_observe, 6);
    assert(e_h.drop_first().drop_first().drop_first().drop_first().drop_first() =~= Seq::<u8>::empty());
    assert(spec_observe(st, e_h) == spec_observe_byte(s4, 0x68)) by {
        assert(e_h.drop_first() =~= seq![0x5bu8, 0x3fu8, 0x31u8, 0x68u8]);
        assert(e_h.drop_first().drop_first() =~= seq![0x3fu8, 0x31u8, 0x68u8]);
        assert(e_h.drop_first().drop_first().drop_first() =~= seq![0x31u8, 0x68u8]);
        assert(e_h.drop_first().drop_first().drop_first().drop_first() =~= seq![0x68u8]);
    }
    assert(spec_observe(st, e_l) == spec_observe_byte(s4, 0x6c)) by {
        assert(e_l.drop_first() =~= seq![0x5bu8, 0x3fu8, 0x31u8, 0x6cu8]);
        assert(e_l.drop_first().drop_first() =~= seq![0x3fu8, 0x31u8, 0x6cu8]);
        assert(e_l.drop_first().drop_first().drop_first() =~= seq![0x31u8, 0x6cu8]);
        assert(e_l.drop_first().drop_first().drop_first().drop_first() =~= seq![0x6cu8]);
        assert(e_l.drop_first().drop_first().drop_first().drop_first().drop_first() =~= Seq::<u8>::empty());
    }
}


/// Bytes that may sit inside a CSI sequence before its final byte.
pub open spec fn csi_body(b: Seq<u8>) -> bool {
    forall|i: int| 0 <= i < b.len() ==> #[trigger] b[i] < 0x40
}

/// Inside a CSI sequence, parameter bytes are only collected.
proof fn lemma_observe_csi_body(st: InputModesView, body: Seq<u8>)
    requires
        is_csi_start(st.escape),
        st.escape.len() + body.len() <= MAX_ESCAPE_LEN,
        csi_body(body),
    ensures
        spec_observe(st, body) == (InputModesView { escape: st.escape + body, ..st }),
    decreases body.len(),
{
    if body.len() == 0 {
        assert(st.escape + body =~= st.escape);
    } else {
        let b = body[0];
        let e = st.escape.push(b);
        assert(e[0] == 0x1b && e[1] == 0x5b);
        assert(e != seq![0x1bu8, 0x3du8] && e != seq![0x1bu8, 0x3eu8]) by {
            if e.len() == 2 {
                assert(e[1] == 0x5b);
            }
        }
        let next = spec_observe_byte(st, b);
        assert(next == (InputModesView { escape: e, ..st }));
        let rest = body.drop_first();
        assert(csi_body(rest)) by {
            assert forall|i: int| 0 <= i < rest.len() implies #[trigger] rest[i] < 0x40 by {
                assert(rest[i] == body[i + 1]);
            }
        }
        lemma_observe_csi_body(next, rest);
        assert(e + rest =~= st.escape + body);
    }
}

/// `ESC [ > flags u`: the Kitty push sequence for the decimal digits `d`.
pub open spec fn kitty_push_seq(d: Seq<u8>) -> Seq<u8> {
    seq![0x1bu8, 0x5bu8] + (seq![0x3eu8] + d) + seq![0x75u8]
}

/// `ESC [ < u`: the Kitty pop sequence.
pub open spec fn kitty_pop_seq() -> Seq<u8> {
    seq![0x1bu8, 0x5bu8, 0x3cu8, 0x75u8]
}

proof fn lemma_observe_csi_open(st: InputModesView)
    requires
        st.escape.len() == 0,
    ensures
        spec_observe(st, seq![0x1bu8, 0x5bu8]) == (InputModesView {
            escape: seq![0x1bu8, 0x5bu8],
            ..st
        }),
{
    let s1 = spec_observe_byte(st, 0x1b);
    assert(s1.escape =~= seq![0x1bu8]);
    let e = s1.escape.push(0x5b);
    assert(e =~= seq![0x1bu8, 0x5bu8]);
    assert(e != seq![0x1bu8, 0x3du8] && e != seq![0x1bu8, 0x3eu8]) by {
        assert(e[1] == 0x5b);
    }
    reveal_with_fuel(spec_observe, 3);
    assert(seq![0x1bu8, 0x5bu8].drop_first() =~= seq![0x5bu8]);
    assert(seq![0x5bu8].drop_first() =~= Seq::<u8>::empty());
}

proof fn lemma_observe_one(st: InputModesView, b: u8)
    ensures
        spec_observe(st, seq![b]) == spec_observe_byte(st, b),
{
    reveal_with_fuel(spec_observe, 2);
    assert(seq![b].drop_first() =~= Seq::<u8>::empty());
}

/// Kitty progressive enhancement is a stack: from any state with no pending
/// escape, `ESC [ > flags u` sets the flags and saves the old ones, and a
/// following `ESC [ < u` restores exactly the state before the push.
pub proof fn lemma_kitty_push_then_pop(st: InputModesView, d: Seq<u8>)
    requires
        st.escape.len() == 0,
        0 < d.len() <= 28,
        all_digits(d),
        decimal_value(d) <= u32::MAX,
    ensures
        spec_observe(st, kitty_push_seq(d)) == (InputModesView {
            kitty_flags: decimal_value(d) as u32,
            flag_stack: st.flag_stack.push(st.kitty_flags),
            ..st
        }),
        spec_observe(spec_observe(st, kitty_push_seq(d)), kitty_pop_seq()) == st,
{
    let open = seq![0x1bu8, 0x5bu8];
    let body = seq![0x3eu8] + d;
    let fin = seq![0x75u8];
    assert(csi_body(body)) by {
        assert forall|i: int| 0 <= i < body.len() implies #[trigger] body[i] < 0x40 by {
            if i > 0 {
                assert(body[i] == d[i - 1]);
                assert(is_digit(d[i - 1]));
            }
        }
    }
    lemma_observe_chunks(st, open + body, fin);
    lemma_observe_chunks(st, open, body);
    assert(kitty_push_seq(d) == (open + body) + fin);
    lemma_observe_csi_open(st);
    let s2 = spec_observe(st, open);
    lemma_observe_csi_body(s2, body);
    let s3 = spec_observe(s2, body);
    let e = s3.escape.push(0x75);
    assert(e =~= open + body + fin);
    assert(e[0] == 0x1b && e[1] == 0x5b && e.last() == 0x75);
    assert(e != seq![0x1bu8, 0x3du8] && e != seq![0x1bu8, 0x3eu8]) by {
        assert(e.len() > 2);
    }
    let params = e.subrange(2, e.len() - 1);
    assert(params =~= body);
    assert(params.skip(1) =~= d);
    lemma_observe_one(s3, 0x75);
    let pushed = spec_observe(st, kitty_push_seq(d));
    assert(st.escape =~= Seq::<u8>::empty());
    assert(pushed == (InputModesView {
        kitty_flags: decimal_value(d) as u32,
        flag_stack: st.flag_stack.push(st.kitty_flags),
        ..st
    }));
    // The pop.
    let pop = kitty_pop_seq();
    assert(pop =~= open + seq![0x3cu8] + fin);
    lemma_observe_chunks(pushed, open + seq![0x3cu8], fin);
    lemma_observe_chunks(pushed, open, seq![0x3cu8]);
    lemma_observe_csi_open(pushed);
    let p2 = spec_observe(pushed, open);
    assert(csi_body(seq![0x3cu8]));
    lemma_observe_csi_body(p2, seq![0x3cu8]);
    let p3 = spec_observe(p2, seq![0x3cu8]);
    let e2 = p3.escape.push(0x75);
    assert(e2 =~= pop);
    assert(e2 != seq![0x1bu8, 0x3du8] && e2 != seq![0x1bu8, 0x3eu8]) by {
        assert(e2.len() > 2);
    }
    let params2 = e2.subrange(2, e2.len() - 1);
    assert(params2 =~= seq![0x3cu8]);
    assert(params2.skip(1) =~= Seq::<u8>::empty());
    lemma_observe_one(p3, 0x75);
    assert(st.flag_stack.push(st.kitty_flags).drop_last() =~= st.flag_stack);
}

/// `ESC [ ? params final`: a DEC private mode set (`h`) or reset (`l`).
pub open spec fn private_mode_seq(params: Seq<u8>, final_byte: u8) -> Seq<u8> {
    seq![0x1bu8, 0x5bu8] + (seq![0x3fu8] + params) + seq![final_byte]
}

/// A DEC private mode set or reset with any `;`-separated parameter list
/// (digits and `;`, or any other parameter bytes): from a state with no
/// pending escape, application cursor mode follows the final byte when one
/// field of the list is `1` (DECCKM) and is kept otherwise; the Kitty state
/// never changes.
pub proof fn lemma_private_mode_list(st: InputModesView, params: Seq<u8>, final_byte: u8)
    requires
        st.escape.len() == 0,
        params.len() <= 28,
        csi_body(params),
        final_byte == 0x68 || final_byte == 0x6c,
    ensures
        spec_observe(st, private_mode_seq(params, final_byte)) == (InputModesView {
            application_cursor: if fields(params).contains(seq![0x31u8]) {
                final_byte == 0x68
            } else {
                st.application_cursor
            },
            ..st
        }),
{
    let open = seq![0x1bu8, 0x5bu8];
    let body = seq![0x3fu8] + params;
    let fin = seq![final_byte];
    assert(csi_body(body)) by {
        assert forall|i: int| 0 <= i < body.len() implies #[trigger] body[i] < 0x40 by {
            if i > 0 {
                assert(body[i] == params[i - 1]);
            }
        }
    }
    lemma_observe_chunks(st, open + body, fin);
    lemma_observe_chunks(st, open, body);
    assert(private_mode_seq(params, final_byte) == (open + body) + fin);
    lemma_observe_csi_open(st);
    let s2 = spec_observe(st, open);
    lemma_observe_csi_body(s2, body);
    let s3 = spec_observe(s2, body);
    let e = s3.escape.push(final_byte);
    assert(e =~= open + body + fin);
    assert(e[0] == 0x1b && e[1] == 0x5b && e.last() == final_byte);
    assert(e != seq![0x1bu8, 0x3du8] && e != seq![0x1bu8, 0x3eu8]) by {
        assert(e.len() > 2);
    }
    let ps = e.subrange(2, e.len() - 1);
    assert(ps =~= body);
    assert(ps.skip(1) =~= params);
    lemma_observe_one(s3, final_byte);
    assert(st.escape =~= Seq::<u8>::empty());
}


/// In application cursor mode each cursor key — up `A`, down `B`, right
/// `C`, left `D`, Home `H`, End `F` — typed as `ESC [ X` is sent as
/// `ESC O X`, and what follows is rewritten on its own.
pub proof fn lemma_app_cursor_keys_use_ss3(x: u8, rest: Seq<u8>, kitty: bool)
    requires
        x == 0x41 || x == 0x42 || x == 0x43 || x == 0x44 || x == 0x48 || x == 0x46,
    ensures
        spec_rewrite(seq![0x1bu8, 0x5bu8, x] + rest, true, kitty) == seq![0x1bu8, 0x4fu8, x]
            + spec_rewrite(rest, true, kitty),
{
    let s = seq![0x1bu8, 0x5bu8, x] + rest;
    assert(s[0] == 0x1b && s[1] == 0x5b && s[2] == x);
    assert(s.skip(3) =~= rest);
}

/// A CSI sequence whose final byte is no cursor key (`ESC [ 2 ~` Insert,
/// `ESC [ 1 ; 5 C`'s parameters, …) passes unchanged even in application
/// cursor mode: its `ESC` and `[` are kept as they are.
pub proof fn lemma_other_csi_kept(y: u8, rest: Seq<u8>, kitty: bool)
    requires
        !(y == 0x41 || y == 0x42 || y == 0x43 || y == 0x44 || y == 0x48 || y == 0x46),
    ensures
        spec_rewrite(seq![0x1bu8, 0x5bu8, y] + rest, true, kitty) == seq![0x1bu8, 0x5bu8]
            + spec_rewrite(seq![y] + rest, true, kitty),
{
    let s = seq![0x1bu8, 0x5bu8, y] + rest;
    assert(s[0] == 0x1b && s[1] == 0x5b && s[2] == y);
    let t = s.skip(1);
    assert(t =~= seq![0x5bu8, y] + rest);
    assert(t[0] == 0x5b);
    assert(t.skip(1) =~= seq![y] + rest);
    assert(spec_rewrite(t, true, kitty) == seq![0x5bu8] + spec_rewrite(t.skip(1), true, kitty));
    assert(spec_rewrite(s, true, kitty) == seq![0x1bu8] + spec_rewrite(s.skip(1), true, kitty));
    assert(seq![0x1bu8] + (seq![0x5bu8] + spec_rewrite(seq![y] + rest, true, kitty)) =~= seq![
        0x1bu8,
        0x5bu8,
    ] + spec_rewrite(seq![y] + rest, true, kitty));
}

} // verus!
