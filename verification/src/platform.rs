//! Decisions behind the runtime environment probes: which flag values turn
//! a flag on, and which kernel releases are WSL's. Reading the environment
//! and `/proc` is the caller's part.
use vstd::prelude::*;
use crate::text::chars_of;

verus! {

/// Unicode `White_Space`, the set `str::trim` removes.
pub open spec fn is_white_space(c: char) -> bool {
    ('\u{9}' <= c && c <= '\u{d}') || c == ' ' || c == '\u{85}' || c == '\u{a0}' || c
        == '\u{1680}' || ('\u{2000}' <= c && c <= '\u{200a}') || c == '\u{2028}' || c == '\u{2029}'
        || c == '\u{202f}' || c == '\u{205f}' || c == '\u{3000}'
}

/// `s` without leading white space.
pub open spec fn trim_start(s: Seq<char>) -> Seq<char>
    decreases s.len(),
{
    if s.len() > 0 && is_white_space(s[0]) {
        trim_start(s.drop_first())
    } else {
        s
    }
}

/// `s` without trailing white space.
pub open spec fn trim_end(s: Seq<char>) -> Seq<char>
    decreases s.len(),
{
    if s.len() > 0 && is_white_space(s.last()) {
        trim_end(s.drop_last())
    } else {
        s
    }
}

/// `s` without leading and trailing white space.
pub open spec fn trim(s: Seq<char>) -> Seq<char> {
    trim_end(trim_start(s))
}

/// ASCII upper-case letters mapped to lower case; everything else kept.
pub open spec fn ascii_lower(c: char) -> char {
    if 'A' <= c && c <= 'Z' {
        ((c as u32) + 32) as char
    } else {
        c
    }
}

pub open spec fn lower(s: Seq<char>) -> Seq<char> {
    s.map_values(|c: char| ascii_lower(c))
}

/// A flag value that enables a flag: `1`, or `true`, `yes`, `on` in any
/// ASCII case, surrounding white space ignored.
pub open spec fn flag_enabled(value: Seq<char>) -> bool {
    let t = trim(value);
    t == "1"@ || lower(t) == "true"@ || lower(t) == "yes"@ || lower(t) == "on"@
}

/// Whether `needle` occurs in `s` as a contiguous run.
pub open spec fn occurs_in(needle: Seq<char>, s: Seq<char>) -> bool {
    exists|i: int| 0 <= i && i + needle.len() <= s.len() && #[trigger] s.subrange(i, i + needle.len()) == needle
}

fn lower_char(c: char) -> (r: char)
    ensures
        r == ascii_lower(c),
{
    if 'A' <= c && c <= 'Z' {
        ((c as u8) + 32) as char
    } else {
        c
    }
}

proof fn lemma_trim_start_skip(s: Seq<char>, i: int)
    requires
        0 <= i <= s.len(),
        forall|k: int| 0 <= k < i ==> is_white_space(#[trigger] s[k]),
    ensures
        trim_start(s) == trim_start(s.skip(i)),
    decreases i,
{
    if i > 0 {
        assert(s.drop_first().skip(i - 1) =~= s.skip(i));
        lemma_trim_start_skip(s.drop_first(), i - 1);
    } else {
        assert(s.skip(0) =~= s);
    }
}

proof fn lemma_trim_end_take(s: Seq<char>, j: int)
    requires
        0 <= j <= s.len(),
        forall|k: int| j <= k < s.len() ==> is_white_space(#[trigger] s[k]),
    ensures
        trim_end(s) == trim_end(s.take(j)),
    decreases s.len() - j,
{
    if j < s.len() {
        assert(s.drop_last().take(j) =~= s.take(j));
        lemma_trim_end_take(s.drop_last(), j);
    } else {
        assert(s.take(j) =~= s);
    }
}

/// The trimmed characters of `v`.
pub(crate) fn trimmed(v: &Vec<char>) -> (r: Vec<char>)
    ensures
        r@ == trim(v@),
{
    let n = v.len();
    let mut i: usize = 0;
    while i < n && (v[i] == '\u{9}' || v[i] == '\u{a}' || v[i] == '\u{b}' || v[i] == '\u{c}' || v[i]
        == '\u{d}' || v[i] == ' ' || v[i] == '\u{85}' || v[i] == '\u{a0}' || v[i] == '\u{1680}' || (
    '\u{2000}' <= v[i] && v[i] <= '\u{200a}') || v[i] == '\u{2028}' || v[i] == '\u{2029}' || v[i]
        == '\u{202f}' || v[i] == '\u{205f}' || v[i] == '\u{3000}')
        invariant
            n == v@.len(),
            i <= n,
            forall|k: int| 0 <= k < i ==> is_white_space(#[trigger] v@[k]),
        decreases n - i,
    {
        i = i + 1;
    }
    let ghost rest = v@.skip(i as int);
    proof {
        lemma_trim_start_skip(v@, i as int);
        assert(i < n ==> !is_white_space(rest[0]));
        assert(trim_start(rest) == rest);
    }
    let mut j: usize = n;
    while j > i && (v[j - 1] == '\u{9}' || v[j - 1] == '\u{a}' || v[j - 1] == '\u{b}' || v[j - 1]
        == '\u{c}' || v[j - 1] == '\u{d}' || v[j - 1] == ' ' || v[j - 1] == '\u{85}' || v[j - 1]
        == '\u{a0}' || v[j - 1] == '\u{1680}' || ('\u{2000}' <= v[j - 1] && v[j - 1] <= '\u{200a}')
        || v[j - 1] == '\u{2028}' || v[j - 1] == '\u{2029}' || v[j - 1] == '\u{202f}' || v[j - 1]
        == '\u{205f}' || v[j - 1] == '\u{3000}')
        invariant
            n == v@.len(),
            i <= j <= n,
            forall|k: int| j <= k < n ==> is_white_space(#[trigger] v@[k]),
        decreases j - i,
    {
        j = j - 1;
    }
    let mut out: Vec<char> = Vec::new();
    let mut k: usize = i;
    while k < j
        invariant
            i <= k <= j <= n,
            n == v@.len(),
            out@ == v@.subrange(i as int, k as int),
        decreases j - k,
    {
        out.push(v[k]);
        k = k + 1;
        assert(out@ =~= v@.subrange(i as int, k as int));
    }
    proof {
        let m = (j - i) as int;
        assert(out@ =~= rest.take(m));
        assert forall|q: int| m <= q < rest.len() implies is_white_space(#[trigger] rest[q]) by {
            assert(rest[q] == v@[q + i]);
        }
        lemma_trim_end_take(rest, m);
        let t = rest.take(m);
        assert(m > 0 ==> t.last() == v@[j - 1]);
        assert(trim_end(t) == t);
    }
    out
}

/// The characters of `v` without trailing white space.
pub(crate) fn trimmed_end(v: &Vec<char>) -> (r: Vec<char>)
    ensures
        r@ == trim_end(v@),
{
    let n = v.len();
    let mut j: usize = n;
    while j > 0 && (v[j - 1] == '\u{9}' || v[j - 1] == '\u{a}' || v[j - 1] == '\u{b}' || v[j - 1]
        == '\u{c}' || v[j - 1] == '\u{d}' || v[j - 1] == ' ' || v[j - 1] == '\u{85}' || v[j - 1]
        == '\u{a0}' || v[j - 1] == '\u{1680}' || ('\u{2000}' <= v[j - 1] && v[j - 1] <= '\u{200a}')
        || v[j - 1] == '\u{2028}' || v[j - 1] == '\u{2029}' || v[j - 1] == '\u{202f}' || v[j - 1]
        == '\u{205f}' || v[j - 1] == '\u{3000}')
        invariant
            n == v@.len(),
            j <= n,
            forall|k: int| j <= k < n ==> is_white_space(#[trigger] v@[k]),
        decreases j,
    {
        j = j - 1;
    }
    let mut out: Vec<char> = Vec::new();
    let mut k: usize = 0;
    while k < j
        invariant
            k <= j <= n,
            n == v@.len(),
            out@ == v@.take(k as int),
        decreases j - k,
    {
        out.push(v[k]);
        k = k + 1;
        assert(out@ =~= v@.take(k as int));
    }
    proof {
        lemma_trim_end_take(v@, j as int);
        let t = v@.take(j as int);
        assert(j > 0 ==> t.last() == v@[j - 1]);
        assert(trim_end(t) == t);
    }
    out
}

/// Whether `t` equals `word` ignoring ASCII case, `word` being lower case.
fn eq_ignore_ascii_case(t: &Vec<char>, word: &str) -> (r: bool)
    requires
        lower(word@) == word@,
    ensures
        r == (lower(t@) == word@),
{
    let w = chars_of(word);
    if t.len() != w.len() {
        return false;
    }
    let mut i: usize = 0;
    while i < t.len()
        invariant
            t@.len() == w@.len(),
            i <= t@.len(),
            w@ == word@,
            forall|k: int| 0 <= k < i ==> ascii_lower(#[trigger] t@[k]) == w@[k],
        decreases t@.len() - i,
    {
        if lower_char(t[i]) != w[i] {
            assert(lower(t@)[i as int] != word@[i as int]);
            return false;
        }
        i = i + 1;
    }
    assert(lower(t@) =~= word@);
    true
}

/// Whether an environment flag's value enables the flag.
pub fn env_flag_value_enabled(value: &str) -> (r: bool)
    ensures
        r == flag_enabled(value@),
{
    proof {
        reveal_strlit("1");
        reveal_strlit("true");
        reveal_strlit("yes");
        reveal_strlit("on");
        assert(lower("true"@) =~= "true"@);
        assert(lower("yes"@) =~= "yes"@);
        assert(lower("on"@) =~= "on"@);
    }
    let t = trimmed(&chars_of(value));
    let one = t.len() == 1 && t[0] == '1';
    proof {
        if t@ == "1"@ {
            assert(t@[0] == '1');
        }
        if one {
            assert(t@ =~= "1"@);
        }
    }
    one || eq_ignore_ascii_case(&t, "true") || eq_ignore_ascii_case(&t, "yes")
        || eq_ignore_ascii_case(&t, "on")
}

/// Whether a kernel release string (`/proc/sys/kernel/osrelease`) is a WSL
/// kernel's: it names `microsoft` in any ASCII case.
pub fn linux_release_indicates_wsl(release: &str) -> (r: bool)
    ensures
        r == occurs_in("microsoft"@, lower(release@)),
{
    proof {
        reveal_strlit("microsoft");
    }
    let v = chars_of(release);
    let needle = chars_of("microsoft");
    let ghost low = lower(v@);
    let n = v.len();
    if n < 9 {
        assert forall|p: int| 0 <= p && p + "microsoft"@.len() <= low.len() implies #[trigger] low.subrange(
            p,
            p + "microsoft"@.len(),
        ) != "microsoft"@ by {}
        return false;
    }
    let mut i: usize = 0;
    while i <= n - 9
        invariant
            n == v@.len(),
            n >= 9,
            i <= n - 8,
            v@ == release@,
            low == lower(v@),
            low.len() == n,
            needle@ == "microsoft"@,
            needle@.len() == 9,
            forall|p: int| 0 <= p < i ==> #[trigger] low.subrange(p, p + 9) != "microsoft"@,
        decreases n - 8 - i,
    {
        let mut k: usize = 0;
        let mut same = true;
        while k < 9
            invariant
                k <= 9,
                i + 9 <= n,
                n == v@.len(),
                low == lower(v@),
                low.len() == n,
                needle@ == "microsoft"@,
                needle@.len() == 9,
                same == (forall|q: int| 0 <= q < k ==> low[i + q] == needle@[q]),
            decreases 9 - k,
        {
            let c = lower_char(v[i + k]);
            assert(low[i + k] == c);
            same = same && c == needle[k];
            k = k + 1;
        }
        if same {
            assert(low.subrange(i as int, i + 9) =~= "microsoft"@);
            assert(low.subrange(i as int, i + "microsoft"@.len()) == "microsoft"@);
            return true;
        }
        proof {
            let q = choose|q: int| 0 <= q < 9 && low[i + q] != needle@[q];
            assert(low.subrange(i as int, i + 9)[q] != "microsoft"@[q]);
        }
        i = i + 1;
    }
    assert forall|p: int| 0 <= p && p + "microsoft"@.len() <= low.len() implies #[trigger] low.subrange(
        p,
        p + "microsoft"@.len(),
    ) != "microsoft"@ by {
        assert(p < i);
    }
    false
}

// ------------------------------------------------------------------
// Laws
// ------------------------------------------------------------------

/// Surrounding white space never changes whether a value enables a flag.
pub proof fn lemma_flag_ignores_surrounding_space(value: Seq<char>, pre: Seq<char>, post: Seq<char>)
    requires
        forall|k: int| 0 <= k < pre.len() ==> is_white_space(#[trigger] pre[k]),
        forall|k: int| 0 <= k < post.len() ==> is_white_space(#[trigger] post[k]),
    ensures
        flag_enabled(pre + value + post) == flag_enabled(value),
{
    let s = pre + value + post;
    assert forall|k: int| 0 <= k < pre.len() implies is_white_space(#[trigger] s[k]) by {
        assert(s[k] == pre[k]);
    }
    lemma_trim_start_skip(s, pre.len() as int);
    assert(s.skip(pre.len() as int) =~= value + post);
    lemma_trim_start_append(value, post);
}

/// Trailing white space never changes the trimmed text.
proof fn lemma_trim_start_append(value: Seq<char>, post: Seq<char>)
    requires
        forall|k: int| 0 <= k < post.len() ==> is_white_space(#[trigger] post[k]),
    ensures
        trim(value + post) == trim(value),
    decreases value.len(),
{
    let s = value + post;
    if value.len() == 0 {
        assert(s =~= post);
        lemma_trim_start_skip(post, post.len() as int);
        assert(post.skip(post.len() as int) =~= Seq::<char>::empty());
        assert(trim_start(Seq::<char>::empty()) == Seq::<char>::empty());
        lemma_trim_end_take(post, 0);
        assert(value =~= Seq::<char>::empty());
    } else if is_white_space(value[0]) {
        assert(s.drop_first() =~= value.drop_first() + post);
        lemma_trim_start_append(value.drop_first(), post);
    } else {
        let w = value + post;
        assert forall|k: int| value.len() <= k < w.len() implies is_white_space(#[trigger] w[k]) by {
            assert(w[k] == post[k - value.len()]);
        }
        lemma_trim_end_take(w, value.len() as int);
        assert(w.take(value.len() as int) =~= value);
    }
}

/// Case never matters to the WSL probe.
pub proof fn lemma_wsl_probe_ignores_case(release: Seq<char>)
    ensures
        occurs_in("microsoft"@, lower(release)) == occurs_in("microsoft"@, lower(lower(release))),
{
    assert(lower(lower(release)) =~= lower(release));
}

} // verus!
