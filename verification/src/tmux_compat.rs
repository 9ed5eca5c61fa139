//! tmux CLI compatibility layer: the pure argv → command parser for the
//! subset of tmux an agent-team lead drives, plus the small shared
//! vocabulary (session-key mapping, `#{...}` format expansion).
//!
//! A tmux *session* (plus its server socket name) maps to one workspace and
//! every tmux *pane* is a pane; pane ids are opaque strings echoed back in
//! `-t`.
use vstd::prelude::*;
use crate::text::{chars_of, clone_opt, opt_view, push, push_str, str_eq, string_of_range, to_string};

verus! {

/// Version string reported for `tmux -V`.
pub const SHIM_VERSION_LINE: &'static str = "tmux 3.4 (flowmux tmux-compat shim)";

/// A pane target: a pane id handed out earlier, or a `session[:window]` name.
#[derive(Debug, Clone, PartialEq, Eq)]
pub enum Target {
    /// `-t <id>` — a pane id previously returned by this layer.
    Pane(String),
    /// `-t <session>` or `-t <session>:<window>`.
    Session { session: String, window: Option<String> },
}

/// One parsed tmux invocation.
#[derive(Debug, Clone, PartialEq, Eq)]
pub struct TmuxInvocation {
    /// `-L <name>` server socket name, when given.
    pub socket_name: Option<String>,
    pub command: TmuxCommand,
}

/// The tmux subcommands the teammate backend issues.
#[derive(Debug, Clone, PartialEq, Eq)]
#[allow(inconsistent_fields)]
pub enum TmuxCommand {
    Version,
    HasSession { target: Target },
    NewSession { name: String, window_name: Option<String>, print: bool, format: Option<String> },
    ListWindows { target: Target, format: Option<String> },
    NewWindow { target: Target, window_name: Option<String>, print: bool, format: Option<String> },
    ListPanes { target: Target, format: Option<String> },
    SplitWindow { target: Target, horizontal: bool, print: bool, format: Option<String> },
    SetOption { target: Option<Target>, name: String },
    SelectPane { target: Target, title: Option<String> },
    RespawnPane { target: Target, command: String },
    KillPane { target: Target },
    SelectLayout { target: Target },
    DisplayMessage { format: Option<String> },
    Attach { target: Option<Target> },
    KillServer,
}

/// Parse error carrying the message the shim prints to stderr.
#[derive(Debug, Clone, PartialEq, Eq)]
pub struct ParseError(pub String);

/// The wire result the daemon returns to the shim: a process exit
/// (status / stdout / stderr).
#[derive(Debug, Clone, PartialEq, Eq)]
pub struct TmuxCompatOutput {
    pub code: i32,
    pub stdout: String,
    pub stderr: String,
}

// ------------------------------------------------------------------
// Abstract model
// ------------------------------------------------------------------

pub enum SpecTarget {
    Pane(Seq<char>),
    Session { session: Seq<char>, window: Option<Seq<char>> },
}

#[allow(inconsistent_fields)]
pub enum SpecCommand {
    Version,
    HasSession { target: SpecTarget },
    NewSession { name: Seq<char>, window_name: Option<Seq<char>>, print: bool, format: Option<Seq<char>> },
    ListWindows { target: SpecTarget, format: Option<Seq<char>> },
    NewWindow { target: SpecTarget, window_name: Option<Seq<char>>, print: bool, format: Option<Seq<char>> },
    ListPanes { target: SpecTarget, format: Option<Seq<char>> },
    SplitWindow { target: SpecTarget, horizontal: bool, print: bool, format: Option<Seq<char>> },
    SetOption { target: Option<SpecTarget>, name: Seq<char> },
    SelectPane { target: SpecTarget, title: Option<Seq<char>> },
    RespawnPane { target: SpecTarget, command: Seq<char> },
    KillPane { target: SpecTarget },
    SelectLayout { target: SpecTarget },
    DisplayMessage { format: Option<Seq<char>> },
    Attach { target: Option<SpecTarget> },
    KillServer,
}

pub struct SpecInvocation {
    pub socket_name: Option<Seq<char>>,
    pub command: SpecCommand,
}

impl View for Target {
    type V = SpecTarget;

    open spec fn view(&self) -> SpecTarget {
        match self {
            Target::Pane(p) => SpecTarget::Pane(p@),
            Target::Session { session, window } => SpecTarget::Session {
                session: session@,
                window: opt_view(*window),
            },
        }
    }
}

pub open spec fn opt_target_view(t: Option<Target>) -> Option<SpecTarget> {
    match t {
        Some(t) => Some(t@),
        None => None,
    }
}

impl View for TmuxCommand {
    type V = SpecCommand;

    open spec fn view(&self) -> SpecCommand {
        match self {
            TmuxCommand::Version => SpecCommand::Version,
            TmuxCommand::HasSession { target } => SpecCommand::HasSession { target: target@ },
            TmuxCommand::NewSession { name, window_name, print, format } => SpecCommand::NewSession {
                name: name@,
                window_name: opt_view(*window_name),
                print: *print,
                format: opt_view(*format),
            },
            TmuxCommand::ListWindows { target, format } => SpecCommand::ListWindows {
                target: target@,
                format: opt_view(*format),
            },
            TmuxCommand::NewWindow { target, window_name, print, format } => SpecCommand::NewWindow {
                target: target@,
                window_name: opt_view(*window_name),
                print: *print,
                format: opt_view(*format),
            },
            TmuxCommand::ListPanes { target, format } => SpecCommand::ListPanes {
                target: target@,
                format: opt_view(*format),
            },
            TmuxCommand::SplitWindow { target, horizontal, print, format } => SpecCommand::SplitWindow {
                target: target@,
                horizontal: *horizontal,
                print: *print,
                format: opt_view(*format),
            },
            TmuxCommand::SetOption { target, name } => SpecCommand::SetOption {
                target: opt_target_view(*target),
                name: name@,
            },
            TmuxCommand::SelectPane { target, title } => SpecCommand::SelectPane {
                target: target@,
                title: opt_view(*title),
            },
            TmuxCommand::RespawnPane { target, command } => SpecCommand::RespawnPane {
                target: target@,
                command: command@,
            },
            TmuxCommand::KillPane { target } => SpecCommand::KillPane { target: target@ },
            TmuxCommand::SelectLayout { target } => SpecCommand::SelectLayout { target: target@ },
            TmuxCommand::DisplayMessage { format } => SpecCommand::DisplayMessage {
                format: opt_view(*format),
            },
            TmuxCommand::Attach { target } => SpecCommand::Attach { target: opt_target_view(*target) },
            TmuxCommand::KillServer => SpecCommand::KillServer,
        }
    }
}

impl View for TmuxInvocation {
    type V = SpecInvocation;

    open spec fn view(&self) -> SpecInvocation {
        SpecInvocation { socket_name: opt_view(self.socket_name), command: self.command@ }
    }
}

/// The words of an argument vector.
pub open spec fn words(args: Seq<String>) -> Seq<Seq<char>> {
    args.map_values(|s: String| s@)
}

// ------------------------------------------------------------------
// Targets
// ------------------------------------------------------------------

pub open spec fn is_hex_or_dash(c: char) -> bool {
    (0x30 <= c as u32 <= 0x39) || (0x61 <= c as u32 <= 0x66) || (0x41 <= c as u32 <= 0x46) || c
        == '-'
}

/// A pane id in the shape we hand out: 36 hexadecimal digits and dashes.
pub open spec fn looks_like_uuid(raw: Seq<char>) -> bool {
    raw.len() == 36 && forall|i: int| 0 <= i < raw.len() ==> is_hex_or_dash(#[trigger] raw[i])
}

/// How many times `c` repeats at the start of `s`.
pub open spec fn leading_count(s: Seq<char>, c: char) -> nat
    decreases s.len(),
{
    if s.len() > 0 && s[0] == c {
        1 + leading_count(s.drop_first(), c)
    } else {
        0
    }
}

/// Index of the first `c` in `s`, or its length when there is none.
pub open spec fn first_index(s: Seq<char>, c: char) -> nat
    decreases s.len(),
{
    if s.len() == 0 {
        0
    } else if s[0] == c {
        0
    } else {
        1 + first_index(s.drop_first(), c)
    }
}

/// A `-t` argument: pane ids (our 36-character ids, or tmux-style `%N`) with
/// leading `%` removed; anything else is `session[:window]`, split at the
/// first `:`, with an empty window meaning none.
pub open spec fn spec_target(raw: Seq<char>) -> SpecTarget {
    if looks_like_uuid(raw) || (raw.len() > 0 && raw[0] == '%') {
        SpecTarget::Pane(raw.skip(leading_count(raw, '%') as int))
    } else if first_index(raw, ':') < raw.len() {
        let k = first_index(raw, ':') as int;
        SpecTarget::Session {
            session: raw.take(k),
            window: if raw.skip(k + 1).len() == 0 {
                None
            } else {
                Some(raw.skip(k + 1))
            },
        }
    } else {
        SpecTarget::Session { session: raw, window: None }
    }
}

pub(crate) proof fn lemma_first_index(s: Seq<char>, c: char, j: int)
    requires
        0 <= j <= s.len(),
        forall|t: int| 0 <= t < j ==> s[t] != c,
        j == s.len() || s[j] == c,
    ensures
        first_index(s, c) == j,
    decreases j,
{
    if j > 0 {
        let d = s.drop_first();
        assert forall|t: int| 0 <= t < j - 1 implies d[t] != c by {
            assert(d[t] == s[t + 1]);
        }
        if j - 1 < d.len() {
            assert(d[j - 1] == s[j]);
        }
        lemma_first_index(d, c, j - 1);
    }
}

proof fn lemma_leading_count(s: Seq<char>, c: char, j: int)
    requires
        0 <= j <= s.len(),
        forall|t: int| 0 <= t < j ==> s[t] == c,
        j == s.len() || s[j] != c,
    ensures
        leading_count(s, c) == j,
    decreases j,
{
    if j > 0 {
        let d = s.drop_first();
        assert forall|t: int| 0 <= t < j - 1 implies d[t] == c by {
            assert(d[t] == s[t + 1]);
        }
        if j - 1 < d.len() {
            assert(d[j - 1] == s[j]);
        }
        lemma_leading_count(d, c, j - 1);
    }
}

impl Target {
    /// Parse a `-t` argument. The 36-character check counts characters; a
    /// string of ASCII hex digits and dashes has as many bytes as characters.
    pub fn parse(raw: &str) -> (t: Target)
        ensures
            t@ == spec_target(raw@),
    {
        let v = chars_of(raw);
        let n = v.len();
        let mut uuid = n == 36;
        if uuid {
            let mut i: usize = 0;
            while i < n
                invariant
                    n == v@.len(),
                    i <= n,
                    uuid == forall|k: int| 0 <= k < i ==> is_hex_or_dash(#[trigger] v@[k]),
                decreases n - i,
            {
                let c = v[i] as u32;
                let ok = (0x30 <= c && c <= 0x39) || (0x61 <= c && c <= 0x66) || (0x41 <= c && c
                    <= 0x46) || v[i] == '-';
                assert(ok == is_hex_or_dash(v@[i as int]));
                if !ok {
                    uuid = false;
                }
                i = i + 1;
            }
        }
        if uuid || (n > 0 && v[0] == '%') {
            let mut k: usize = 0;
            while k < n && v[k] == '%'
                invariant
                    n == v@.len(),
                    k <= n,
                    forall|t: int| 0 <= t < k ==> v@[t] == '%',
                decreases n - k,
            {
                k = k + 1;
            }
            proof {
                lemma_leading_count(v@, '%', k as int);
            }
            let p = string_of_range(&v, k, n);
            assert(p@ =~= v@.skip(k as int));
            return Target::Pane(p);
        }
        let mut j: usize = 0;
        while j < n && v[j] != ':'
            invariant
                n == v@.len(),
                j <= n,
                forall|t: int| 0 <= t < j ==> v@[t] != ':',
            decreases n - j,
        {
            j = j + 1;
        }
        proof {
            lemma_first_index(v@, ':', j as int);
        }
        if j < n {
            let session = string_of_range(&v, 0, j);
            assert(session@ =~= v@.take(j as int));
            let window = if j + 1 < n {
                let w = string_of_range(&v, j + 1, n);
                assert(w@ =~= v@.skip(j + 1));
                Some(w)
            } else {
                None
            };
            Target::Session { session, window }
        } else {
            let session = string_of_range(&v, 0, n);
            assert(session@ =~= v@);
            Target::Session { session, window: None }
        }
    }
}

// ------------------------------------------------------------------
// Vocabulary helpers
// ------------------------------------------------------------------

/// The workspace name a (socket, session) pair maps to: the socket name
/// when given, the session name otherwise.
pub fn session_workspace_name(socket_name: Option<&str>, session: &str) -> (r: String)
    ensures
        r@ == (match socket_name {
            Some(sock) => sock@,
            None => session@,
        }),
{
    match socket_name {
        Some(sock) => to_string(sock),
        None => to_string(session),
    }
}

/// The value of a `#{name}` format token: the pane id, window name or
/// session name, and the empty string for any other name.
pub open spec fn token_value(
    name: Seq<char>,
    pane_id: Seq<char>,
    window_name: Seq<char>,
    session_name: Seq<char>,
) -> Seq<char> {
    if name == "pane_id"@ {
        pane_id
    } else if name == "window_name"@ {
        window_name
    } else if name == "session_name"@ {
        session_name
    } else {
        Seq::empty()
    }
}

/// Whether `s` starts a complete `#{...}` token.
pub open spec fn starts_token(s: Seq<char>) -> bool {
    s.len() >= 2 && s[0] == '#' && s[1] == '{' && first_index(s.skip(2), '}') < s.len() - 2
}

/// Format expansion, left to right: each complete `#{name}` token is
/// replaced by its value; all other characters are kept.
pub open spec fn spec_expand_format(
    format: Seq<char>,
    pane_id: Seq<char>,
    window_name: Seq<char>,
    session_name: Seq<char>,
) -> Seq<char>
    decreases format.len(),
{
    if format.len() == 0 {
        Seq::empty()
    } else if starts_token(format) {
        let k = first_index(format.skip(2), '}') as int;
        token_value(format.subrange(2, 2 + k), pane_id, window_name, session_name)
            + spec_expand_format(format.skip(3 + k), pane_id, window_name, session_name)
    } else {
        seq![format[0]] + spec_expand_format(format.skip(1), pane_id, window_name, session_name)
    }
}

/// Expand the `#{...}` tokens a teammate backend uses (`pane_id`,
/// `window_name`, `session_name`); unknown tokens expand to the empty string,
/// as tmux does for unset ones.
pub fn expand_format(format: &str, pane_id: &str, window_name: &str, session_name: &str) -> (r:
    String)
    ensures
        r@ == spec_expand_format(format@, pane_id@, window_name@, session_name@),
{
    let v = chars_of(format);
    let n = v.len();
    let mut out = String::new();
    let mut i: usize = 0;
    let ghost full = spec_expand_format(format@, pane_id@, window_name@, session_name@);
    assert(v@.skip(0) =~= v@);
    assert(out@ + full =~= full);
    while i < n
        invariant
            i <= n,
            n == v@.len(),
            v@ == format@,
            full == spec_expand_format(format@, pane_id@, window_name@, session_name@),
            full == out@ + spec_expand_format(v@.skip(i as int), pane_id@, window_name@, session_name@),
        decreases n - i,
    {
        let ghost t = v@.skip(i as int);
        let ghost out0 = out@;
        let mut close: usize = n;
        if n - i >= 2 && v[i] == '#' && v[i + 1] == '{' {
            let mut j = i + 2;
            while j < n && v[j] != '}'
                invariant
                    i + 2 <= j <= n,
                    n == v@.len(),
                    forall|q: int| i + 2 <= q < j ==> v@[q] != '}',
                decreases n - j,
            {
                j = j + 1;
            }
            proof {
                let u = t.skip(2);
                assert forall|q: int| 0 <= q < j - i - 2 implies u[q] != '}' by {
                    assert(u[q] == v@[q + i + 2]);
                }
                if j < n {
                    assert(u[j - i - 2] == v@[j as int]);
                }
                lemma_first_index(u, '}', j - i - 2);
            }
            close = j;
        }
        assert(t.len() > 0 && t[0] == v@[i as int]);
        if close < n {
            let name = string_of_range(&v, i + 2, close);
            proof {
                assert(t[1] == v@[i + 1]);
                assert(name@ =~= t.subrange(2, 2 + (close - i - 2)));
                assert(t.skip(3 + (close - i - 2)) =~= v@.skip(close + 1));
            }
            if str_eq(name.as_str(), "pane_id") {
                push_str(&mut out, pane_id);
            } else if str_eq(name.as_str(), "window_name") {
                push_str(&mut out, window_name);
            } else if str_eq(name.as_str(), "session_name") {
                push_str(&mut out, session_name);
            }
            proof {
                let val = token_value(name@, pane_id@, window_name@, session_name@);
                assert(out@ =~= out0 + val);
                assert(out0 + (val + spec_expand_format(v@.skip(close + 1), pane_id@, window_name@, session_name@))
                    =~= out@ + spec_expand_format(v@.skip(close + 1), pane_id@, window_name@, session_name@));
            }
            i = close + 1;
        } else {
            proof {
                if t.len() >= 2 && t[0] == '#' && t[1] == '{' {
                    assert(t[1] == v@[i + 1]);
                }
                assert(!starts_token(t));
                assert(t.skip(1) =~= v@.skip(i + 1));
            }
            push(&mut out, v[i]);
            proof {
                assert(out0 + (seq![t[0]] + spec_expand_format(t.skip(1), pane_id@, window_name@, session_name@))
                    =~= out@ + spec_expand_format(v@.skip(i + 1), pane_id@, window_name@, session_name@));
            }
            i = i + 1;
        }
    }
    assert(v@.skip(i as int) =~= Seq::<char>::empty());
    assert(out@ + Seq::<char>::empty() =~= out@);
    out
}

// ------------------------------------------------------------------
// Argument parsing: model
// ------------------------------------------------------------------

pub open spec fn no_subcommand_msg() -> Seq<char> {
    "tmux-compat: no subcommand (interactive tmux is not emulated)"@
}

pub open spec fn missing_msg(flag: Seq<char>, cmd: Seq<char>) -> Seq<char> {
    "tmux-compat: "@ + cmd + ": missing value for "@ + flag
}

pub open spec fn unsupported_flag_msg(flag: Seq<char>) -> Seq<char> {
    "tmux-compat: unsupported global flag "@ + flag
}

pub open spec fn unsupported_sub_msg(sub: Seq<char>) -> Seq<char> {
    "tmux-compat: unsupported tmux subcommand '"@ + sub + "'"@
}

pub open spec fn requires_target_msg(cmd: Seq<char>) -> Seq<char> {
    "tmux-compat: "@ + cmd + " requires -t"@
}

/// The words joined with single spaces.
pub open spec fn join_words(ws: Seq<Seq<char>>) -> Seq<char>
    decreases ws.len(),
{
    if ws.len() == 0 {
        Seq::empty()
    } else if ws.len() == 1 {
        ws[0]
    } else {
        join_words(ws.drop_last()) + seq![' '] + ws.last()
    }
}

/// The words from `j` on, joined as the trailing shell command.
pub open spec fn trailing(a: Seq<Seq<char>>, j: nat) -> Option<Seq<char>> {
    if j >= a.len() {
        None
    } else {
        Some(join_words(a.subrange(j as int, a.len() as int)))
    }
}

/// The server socket name derived from a `-S` socket path: its file stem,
/// or the path itself when it has none.
pub open spec fn socket_name_from_path(path: Seq<char>) -> Seq<char> {
    match path_file_stem(path) {
        Some(stem) => stem,
        None => path,
    }
}

/// Global flags before the subcommand: the position after the subcommand
/// word, the subcommand, and the socket name.
pub open spec fn spec_globals(a: Seq<Seq<char>>, i: nat, sock: Option<Seq<char>>) -> Result<
    (nat, Seq<char>, Option<Seq<char>>),
    Seq<char>,
>
    decreases a.len() - i,
{
    if i >= a.len() {
        Err(no_subcommand_msg())
    } else {
        let w = a[i as int];
        if w == "-V"@ {
            Ok((i + 1, w, sock))
        } else if w == "-L"@ {
            if i + 1 >= a.len() {
                Err(missing_msg("-L"@, "tmux"@))
            } else {
                spec_globals(a, i + 2, Some(a[i as int + 1]))
            }
        } else if w == "-S"@ {
            if i + 1 >= a.len() {
                Err(missing_msg("-S"@, "tmux"@))
            } else {
                spec_globals(a, i + 2, Some(socket_name_from_path(a[i as int + 1])))
            }
        } else if w == "-f"@ {
            if i + 1 >= a.len() {
                Err(no_subcommand_msg())
            } else {
                spec_globals(a, i + 2, sock)
            }
        } else if !(w.len() > 0 && w[0] == '-') {
            Ok((i + 1, w, sock))
        } else {
            Err(unsupported_flag_msg(w))
        }
    }
}

/// `-t` among ignored words (`has-session`, `kill-pane`).
pub open spec fn spec_target_only(a: Seq<Seq<char>>, i: nat, cmd: Seq<char>, t: Option<SpecTarget>) -> Result<
    SpecTarget,
    Seq<char>,
>
    decreases a.len() - i,
{
    if i >= a.len() {
        match t {
            Some(t) => Ok(t),
            None => Err(requires_target_msg(cmd)),
        }
    } else if a[i as int] == "-t"@ {
        if i + 1 >= a.len() {
            Err(missing_msg("-t"@, cmd))
        } else {
            spec_target_only(a, i + 2, cmd, Some(spec_target(a[i as int + 1])))
        }
    } else {
        spec_target_only(a, i + 1, cmd, t)
    }
}

/// `-t` and `-F` among ignored words (`list-windows`, `list-panes`).
pub open spec fn spec_target_format(
    a: Seq<Seq<char>>,
    i: nat,
    cmd: Seq<char>,
    t: Option<SpecTarget>,
    f: Option<Seq<char>>,
) -> Result<(Option<SpecTarget>, Option<Seq<char>>), Seq<char>>
    decreases a.len() - i,
{
    if i >= a.len() {
        Ok((t, f))
    } else if a[i as int] == "-t"@ {
        if i + 1 >= a.len() {
            Err(missing_msg("-t"@, cmd))
        } else {
            spec_target_format(a, i + 2, cmd, Some(spec_target(a[i as int + 1])), f)
        }
    } else if a[i as int] == "-F"@ {
        if i + 1 >= a.len() {
            Err(missing_msg("-F"@, cmd))
        } else {
            spec_target_format(a, i + 2, cmd, t, Some(a[i as int + 1]))
        }
    } else {
        spec_target_format(a, i + 1, cmd, t, f)
    }
}

pub open spec fn finish_new_session(
    name: Option<Seq<char>>,
    window: Option<Seq<char>>,
    print: bool,
    format: Option<Seq<char>>,
) -> Result<SpecCommand, Seq<char>> {
    match name {
        Some(n) => Ok(SpecCommand::NewSession { name: n, window_name: window, print, format }),
        None => Err("tmux-compat: new-session requires -s"@),
    }
}

/// `new-session`: `-d`/`-A` ignored, `-s`, `-n`, `-c` (skipped), `-P`, `-F`;
/// the first other word starts the placeholder command.
pub open spec fn spec_new_session(
    a: Seq<Seq<char>>,
    i: nat,
    sub: Seq<char>,
    name: Option<Seq<char>>,
    window: Option<Seq<char>>,
    print: bool,
    format: Option<Seq<char>>,
) -> Result<SpecCommand, Seq<char>>
    decreases a.len() - i,
{
    if i >= a.len() {
        finish_new_session(name, window, print, format)
    } else {
        let w = a[i as int];
        if w == "-d"@ || w == "-A"@ {
            spec_new_session(a, i + 1, sub, name, window, print, format)
        } else if w == "-s"@ {
            if i + 1 >= a.len() {
                Err(missing_msg("-s"@, sub))
            } else {
                spec_new_session(a, i + 2, sub, Some(a[i as int + 1]), window, print, format)
            }
        } else if w == "-n"@ {
            if i + 1 >= a.len() {
                Err(missing_msg("-n"@, sub))
            } else {
                spec_new_session(a, i + 2, sub, name, Some(a[i as int + 1]), print, format)
            }
        } else if w == "-c"@ {
            if i + 1 >= a.len() {
                finish_new_session(name, window, print, format)
            } else {
                spec_new_session(a, i + 2, sub, name, window, print, format)
            }
        } else if w == "-P"@ {
            spec_new_session(a, i + 1, sub, name, window, true, format)
        } else if w == "-F"@ {
            if i + 1 >= a.len() {
                Err(missing_msg("-F"@, sub))
            } else {
                spec_new_session(a, i + 2, sub, name, window, print, Some(a[i as int + 1]))
            }
        } else {
            finish_new_session(name, window, print, format)
        }
    }
}

pub open spec fn finish_new_window(
    target: Option<SpecTarget>,
    window: Option<Seq<char>>,
    print: bool,
    format: Option<Seq<char>>,
) -> Result<SpecCommand, Seq<char>> {
    match target {
        Some(t) => Ok(SpecCommand::NewWindow { target: t, window_name: window, print, format }),
        None => Err("tmux-compat: new-window requires -t"@),
    }
}

/// `new-window`: `-d` ignored, `-t`, `-n`, `-P`, `-F`; the first other word
/// starts the placeholder command.
pub open spec fn spec_new_window(
    a: Seq<Seq<char>>,
    i: nat,
    sub: Seq<char>,
    target: Option<SpecTarget>,
    window: Option<Seq<char>>,
    print: bool,
    format: Option<Seq<char>>,
) -> Result<SpecCommand, Seq<char>>
    decreases a.len() - i,
{
    if i >= a.len() {
        finish_new_window(target, window, print, format)
    } else {
        let w = a[i as int];
        if w == "-d"@ {
            spec_new_window(a, i + 1, sub, target, window, print, format)
        } else if w == "-t"@ {
            if i + 1 >= a.len() {
                Err(missing_msg("-t"@, sub))
            } else {
                spec_new_window(a, i + 2, sub, Some(spec_target(a[i as int + 1])), window, print, format)
            }
        } else if w == "-n"@ {
            if i + 1 >= a.len() {
                Err(missing_msg("-n"@, sub))
            } else {
                spec_new_window(a, i + 2, sub, target, Some(a[i as int + 1]), print, format)
            }
        } else if w == "-P"@ {
            spec_new_window(a, i + 1, sub, target, window, true, format)
        } else if w == "-F"@ {
            if i + 1 >= a.len() {
                Err(missing_msg("-F"@, sub))
            } else {
                spec_new_window(a, i + 2, sub, target, window, print, Some(a[i as int + 1]))
            }
        } else {
            finish_new_window(target, window, print, format)
        }
    }
}

pub open spec fn finish_split_window(
    target: Option<SpecTarget>,
    horizontal: bool,
    print: bool,
    format: Option<Seq<char>>,
) -> Result<SpecCommand, Seq<char>> {
    match target {
        Some(t) => Ok(SpecCommand::SplitWindow { target: t, horizontal, print, format }),
        None => Err("tmux-compat: split-window requires -t"@),
    }
}

/// `split-window`: `-d` ignored, `-h`/`-v` (last wins), `-l`/`-p` size
/// (skipped), `-t`, `-P`, `-F`; the first other word starts the command.
pub open spec fn spec_split_window(
    a: Seq<Seq<char>>,
    i: nat,
    sub: Seq<char>,
    target: Option<SpecTarget>,
    horizontal: bool,
    print: bool,
    format: Option<Seq<char>>,
) -> Result<SpecCommand, Seq<char>>
    decreases a.len() - i,
{
    if i >= a.len() {
        finish_split_window(target, horizontal, print, format)
    } else {
        let w = a[i as int];
        if w == "-d"@ {
            spec_split_window(a, i + 1, sub, target, horizontal, print, format)
        } else if w == "-h"@ {
            spec_split_window(a, i + 1, sub, target, true, print, format)
        } else if w == "-v"@ {
            spec_split_window(a, i + 1, sub, target, false, print, format)
        } else if w == "-l"@ || w == "-p"@ {
            if i + 1 >= a.len() {
                finish_split_window(target, horizontal, print, format)
            } else {
                spec_split_window(a, i + 2, sub, target, horizontal, print, format)
            }
        } else if w == "-t"@ {
            if i + 1 >= a.len() {
                Err(missing_msg("-t"@, sub))
            } else {
                spec_split_window(a, i + 2, sub, Some(spec_target(a[i as int + 1])), horizontal, print, format)
            }
        } else if w == "-P"@ {
            spec_split_window(a, i + 1, sub, target, horizontal, true, format)
        } else if w == "-F"@ {
            if i + 1 >= a.len() {
                Err(missing_msg("-F"@, sub))
            } else {
                spec_split_window(a, i + 2, sub, target, horizontal, print, Some(a[i as int + 1]))
            }
        } else {
            finish_split_window(target, horizontal, print, format)
        }
    }
}

pub open spec fn finish_set_option(target: Option<SpecTarget>, name: Option<Seq<char>>) -> Result<
    SpecCommand,
    Seq<char>,
> {
    match name {
        Some(n) => Ok(SpecCommand::SetOption { target, name: n }),
        None => Err("tmux-compat: set-option requires a name"@),
    }
}

/// `set-option`: scope flags `-p`/`-w`/`-g`/`-q` ignored, `-t`; the first
/// other word is the option name and the rest its value.
pub open spec fn spec_set_option(a: Seq<Seq<char>>, i: nat, sub: Seq<char>, target: Option<SpecTarget>) -> Result<
    SpecCommand,
    Seq<char>,
>
    decreases a.len() - i,
{
    if i >= a.len() {
        finish_set_option(target, None)
    } else {
        let w = a[i as int];
        if w == "-p"@ || w == "-w"@ || w == "-g"@ || w == "-q"@ {
            spec_set_option(a, i + 1, sub, target)
        } else if w == "-t"@ {
            if i + 1 >= a.len() {
                Err(missing_msg("-t"@, sub))
            } else {
                spec_set_option(a, i + 2, sub, Some(spec_target(a[i as int + 1])))
            }
        } else {
            finish_set_option(target, Some(w))
        }
    }
}

/// `select-pane`: `-t`, `-T` title; other words ignored.
pub open spec fn spec_select_pane(
    a: Seq<Seq<char>>,
    i: nat,
    sub: Seq<char>,
    target: Option<SpecTarget>,
    title: Option<Seq<char>>,
) -> Result<SpecCommand, Seq<char>>
    decreases a.len() - i,
{
    if i >= a.len() {
        match target {
            Some(t) => Ok(SpecCommand::SelectPane { target: t, title }),
            None => Err("tmux-compat: select-pane requires -t"@),
        }
    } else {
        let w = a[i as int];
        if w == "-t"@ {
            if i + 1 >= a.len() {
                Err(missing_msg("-t"@, sub))
            } else {
                spec_select_pane(a, i + 2, sub, Some(spec_target(a[i as int + 1])), title)
            }
        } else if w == "-T"@ {
            if i + 1 >= a.len() {
                Err(missing_msg("-T"@, sub))
            } else {
                spec_select_pane(a, i + 2, sub, target, Some(a[i as int + 1]))
            }
        } else {
            spec_select_pane(a, i + 1, sub, target, title)
        }
    }
}

pub open spec fn finish_respawn(target: Option<SpecTarget>, command: Option<Seq<char>>) -> Result<
    SpecCommand,
    Seq<char>,
> {
    match target {
        None => Err("tmux-compat: respawn-pane requires -t"@),
        Some(t) => match command {
            Some(c) => Ok(SpecCommand::RespawnPane { target: t, command: c }),
            None => Err("tmux-compat: respawn-pane requires a command"@),
        },
    }
}

/// `respawn-pane`: `-k` ignored, `-t`; the command is everything after `--`,
/// or the first other word with the rest.
pub open spec fn spec_respawn(a: Seq<Seq<char>>, i: nat, sub: Seq<char>, target: Option<SpecTarget>) -> Result<
    SpecCommand,
    Seq<char>,
>
    decreases a.len() - i,
{
    if i >= a.len() {
        finish_respawn(target, None)
    } else {
        let w = a[i as int];
        if w == "-k"@ {
            spec_respawn(a, i + 1, sub, target)
        } else if w == "-t"@ {
            if i + 1 >= a.len() {
                Err(missing_msg("-t"@, sub))
            } else {
                spec_respawn(a, i + 2, sub, Some(spec_target(a[i as int + 1])))
            }
        } else if w == "--"@ {
            finish_respawn(target, trailing(a, i + 1))
        } else {
            finish_respawn(target, Some(join_words(a.subrange(i as int, a.len() as int))))
        }
    }
}

/// `select-layout`: `-t`; other words (the layout name) ignored.
pub open spec fn spec_select_layout(a: Seq<Seq<char>>, i: nat, sub: Seq<char>, target: Option<SpecTarget>) -> Result<
    SpecCommand,
    Seq<char>,
>
    decreases a.len() - i,
{
    if i >= a.len() {
        match target {
            Some(t) => Ok(SpecCommand::SelectLayout { target: t }),
            None => Err("tmux-compat: select-layout requires -t"@),
        }
    } else if a[i as int] == "-t"@ {
        if i + 1 >= a.len() {
            Err(missing_msg("-t"@, sub))
        } else {
            spec_select_layout(a, i + 2, sub, Some(spec_target(a[i as int + 1])))
        }
    } else {
        spec_select_layout(a, i + 1, sub, target)
    }
}

/// `display-message`: `-p` ignored, `-t` and its value skipped; the first
/// other word is the format.
pub open spec fn spec_display(a: Seq<Seq<char>>, i: nat) -> Option<Seq<char>>
    decreases a.len() - i,
{
    if i >= a.len() {
        None
    } else {
        let w = a[i as int];
        if w == "-p"@ {
            spec_display(a, i + 1)
        } else if w == "-t"@ {
            if i + 1 >= a.len() {
                None
            } else {
                spec_display(a, i + 2)
            }
        } else {
            Some(w)
        }
    }
}

/// `attach`: `-t`; other words ignored.
pub open spec fn spec_attach(a: Seq<Seq<char>>, i: nat, sub: Seq<char>, target: Option<SpecTarget>) -> Result<
    Option<SpecTarget>,
    Seq<char>,
>
    decreases a.len() - i,
{
    if i >= a.len() {
        Ok(target)
    } else if a[i as int] == "-t"@ {
        if i + 1 >= a.len() {
            Err(missing_msg("-t"@, sub))
        } else {
            spec_attach(a, i + 2, sub, Some(spec_target(a[i as int + 1])))
        }
    } else {
        spec_attach(a, i + 1, sub, target)
    }
}

/// The subcommand `sub` with its arguments from position `p`.
pub open spec fn spec_command(a: Seq<Seq<char>>, p: nat, sub: Seq<char>) -> Result<SpecCommand, Seq<char>> {
    if sub == "-V"@ {
        Ok(SpecCommand::Version)
    } else if sub == "has-session"@ {
        match spec_target_only(a, p, "has-session"@, None) {
            Ok(t) => Ok(SpecCommand::HasSession { target: t }),
            Err(e) => Err(e),
        }
    } else if sub == "new-session"@ || sub == "new"@ {
        spec_new_session(a, p, sub, None, None, false, None)
    } else if sub == "list-windows"@ || sub == "lsw"@ {
        match spec_target_format(a, p, sub, None, None) {
            Ok((Some(t), f)) => Ok(SpecCommand::ListWindows { target: t, format: f }),
            Ok((None, _)) => Err("tmux-compat: list-windows requires -t"@),
            Err(e) => Err(e),
        }
    } else if sub == "new-window"@ || sub == "neww"@ {
        spec_new_window(a, p, sub, None, None, false, None)
    } else if sub == "list-panes"@ || sub == "lsp"@ {
        match spec_target_format(a, p, sub, None, None) {
            Ok((Some(t), f)) => Ok(SpecCommand::ListPanes { target: t, format: f }),
            Ok((None, _)) => Err("tmux-compat: list-panes requires -t"@),
            Err(e) => Err(e),
        }
    } else if sub == "split-window"@ || sub == "splitw"@ {
        spec_split_window(a, p, sub, None, false, false, None)
    } else if sub == "set-option"@ || sub == "set"@ {
        spec_set_option(a, p, sub, None)
    } else if sub == "select-pane"@ || sub == "selectp"@ {
        spec_select_pane(a, p, sub, None, None)
    } else if sub == "respawn-pane"@ || sub == "respawnp"@ {
        spec_respawn(a, p, sub, None)
    } else if sub == "kill-pane"@ || sub == "killp"@ {
        match spec_target_only(a, p, "kill-pane"@, None) {
            Ok(t) => Ok(SpecCommand::KillPane { target: t }),
            Err(e) => Err(e),
        }
    } else if sub == "select-layout"@ || sub == "selectl"@ {
        spec_select_layout(a, p, sub, None)
    } else if sub == "display-message"@ || sub == "display"@ {
        Ok(SpecCommand::DisplayMessage { format: spec_display(a, p) })
    } else if sub == "attach"@ || sub == "attach-session"@ || sub == "a"@ || sub == "at"@ {
        match spec_attach(a, p, sub, None) {
            Ok(t) => Ok(SpecCommand::Attach { target: t }),
            Err(e) => Err(e),
        }
    } else if sub == "kill-server"@ {
        Ok(SpecCommand::KillServer)
    } else {
        Err(unsupported_sub_msg(sub))
    }
}

/// A full tmux argument vector (without the leading `tmux`).
pub open spec fn spec_parse(a: Seq<Seq<char>>) -> Result<SpecInvocation, Seq<char>> {
    match spec_globals(a, 0, None) {
        Err(e) => Err(e),
        Ok((p, sub, sock)) => match spec_command(a, p, sub) {
            Err(e) => Err(e),
            Ok(c) => Ok(SpecInvocation { socket_name: sock, command: c }),
        },
    }
}

pub open spec fn parse_result_view<T: View>(r: Result<T, ParseError>) -> Result<T::V, Seq<char>> {
    match r {
        Ok(v) => Ok(v@),
        Err(e) => Err(e.0@),
    }
}


// ------------------------------------------------------------------
// Argument parsing
// ------------------------------------------------------------------

/// The characters after the last `/` of `p` (all of it when it has none).
pub open spec fn last_segment(p: Seq<char>) -> Seq<char>
    decreases p.len(),
{
    if p.len() == 0 || p.last() == '/' {
        Seq::empty()
    } else {
        last_segment(p.drop_last()).push(p.last())
    }
}

/// The file name of a path as `std::path::Path::file_name` finds it on Unix:
/// the last component, trailing `/` and `.` components skipped; `None`
/// when there is none (an empty path, the root, `.`) or it is `..`.
pub open spec fn path_file_name(p: Seq<char>) -> Option<Seq<char>>
    decreases p.len(),
{
    if p.len() == 0 {
        None
    } else if p.last() == '/' {
        path_file_name(p.drop_last())
    } else {
        let seg = last_segment(p);
        if seg == seq!['.'] {
            path_file_name(p.drop_last())
        } else if seg == seq!['.', '.'] {
            None
        } else {
            Some(seg)
        }
    }
}

/// Index of the last `.` of `s`, `-1` when it has none.
pub open spec fn last_dot(s: Seq<char>) -> int
    decreases s.len(),
{
    if s.len() == 0 {
        -1
    } else if s.last() == '.' {
        s.len() - 1
    } else {
        last_dot(s.drop_last())
    }
}

/// A file name's stem: the part before its last `.`; the whole name when
/// it has no `.`, or its only `.` is the first character.
pub open spec fn name_stem(name: Seq<char>) -> Seq<char> {
    if last_dot(name) <= 0 {
        name
    } else {
        name.take(last_dot(name))
    }
}

/// The file stem of a path as `std::path::Path::file_stem` computes it on
/// Unix: the stem of the file name, `None` when there is no file name.
pub open spec fn path_file_stem(path: Seq<char>) -> Option<Seq<char>> {
    match path_file_name(path) {
        Some(name) => Some(name_stem(name)),
        None => None,
    }
}

proof fn lemma_last_segment_of(prefix: Seq<char>, name: Seq<char>)
    requires
        prefix.len() == 0 || prefix.last() == '/',
        forall|i: int| 0 <= i < name.len() ==> name[i] != '/',
    ensures
        last_segment(prefix + name) == name,
    decreases name.len(),
{
    if name.len() > 0 {
        let d = name.drop_last();
        assert((prefix + name).drop_last() =~= prefix + d);
        assert((prefix + name).last() == name.last());
        lemma_last_segment_of(prefix, d);
        assert(d.push(name.last()) =~= name);
    } else {
        assert(prefix + name =~= prefix);
    }
}

/// A path ending in `/name`, where `name` holds no `/` and is neither `.`
/// nor `..`, has `name` as its file name, and the file stem of `name`.
pub proof fn lemma_file_name_is_last_segment(dir: Seq<char>, name: Seq<char>)
    requires
        name.len() > 0,
        forall|i: int| 0 <= i < name.len() ==> name[i] != '/',
        name != seq!['.'],
        name != seq!['.', '.'],
    ensures
        path_file_name(dir + seq!['/'] + name) == Some(name),
        path_file_stem(dir + seq!['/'] + name) == Some(name_stem(name)),
{
    let p = dir + seq!['/'] + name;
    assert(p =~= (dir + seq!['/']) + name);
    lemma_last_segment_of(dir + seq!['/'], name);
    assert(p.last() == name.last());
}

/// `std::path::Path::file_stem` on `path`, the stem converted to a `String`
/// (lossless, as it is a slice of a valid string). Claimed: the result is
/// `path_file_stem(path)`, std's documented rule on Unix.
#[verifier::external_body]
fn file_stem_of(path: &str) -> (r: Option<String>)
    ensures
        opt_view(r) == path_file_stem(path@),
{
    match std::path::Path::new(path).file_stem() {
        Some(stem) => Some(stem.to_string_lossy().into_owned()),
        None => None,
    }
}

/// The socket name for a `-S` socket path, given the path's file stem: the
/// stem, or the path itself when it has none.
pub fn socket_name_from_stem(path: &str, stem: Option<String>) -> (r: String)
    ensures
        r@ == (match opt_view(stem) {
            Some(s) => s,
            None => path@,
        }),
{
    match stem {
        Some(s) => s,
        None => to_string(path),
    }
}

/// The parse error for a flag given without its value.
pub fn missing(flag: &str, cmd: &str) -> (e: ParseError)
    ensures
        e.0@ == missing_msg(flag@, cmd@),
{
    let mut m = to_string("tmux-compat: ");
    push_str(&mut m, cmd);
    push_str(&mut m, ": missing value for ");
    push_str(&mut m, flag);
    ParseError(m)
}

fn error_of(msg: &str) -> (e: ParseError)
    ensures
        e.0@ == msg@,
{
    ParseError(to_string(msg))
}

fn word_is(args: &[String], i: usize, lit: &str) -> (r: bool)
    requires
        i < args@.len(),
    ensures
        r == (words(args@)[i as int] == lit@),
{
    assert(words(args@)[i as int] == args@[i as int]@);
    str_eq(args[i].as_str(), lit)
}

fn word_at(args: &[String], i: usize) -> (r: String)
    requires
        i < args@.len(),
    ensures
        r@ == words(args@)[i as int],
{
    assert(words(args@)[i as int] == args@[i as int]@);
    to_string(args[i].as_str())
}

fn target_at(args: &[String], i: usize) -> (t: Target)
    requires
        i < args@.len(),
    ensures
        t@ == spec_target(words(args@)[i as int]),
{
    assert(words(args@)[i as int] == args@[i as int]@);
    Target::parse(args[i].as_str())
}

/// The words from `j` on joined with single spaces; `None` when there are none.
fn trailing_command(args: &[String], j: usize) -> (r: Option<String>)
    requires
        j <= args@.len(),
    ensures
        opt_view(r) == trailing(words(args@), j as nat),
{
    let n = args.len();
    if j >= n {
        return None;
    }
    let ghost a = words(args@);
    let mut s = word_at(args, j);
    let mut k = j + 1;
    assert(a.subrange(j as int, k as int) =~= seq![a[j as int]]);
    while k < n
        invariant
            j < k <= n,
            n == args@.len(),
            a == words(args@),
            s@ == join_words(a.subrange(j as int, k as int)),
        decreases n - k,
    {
        push(&mut s, ' ');
        let w = word_at(args, k);
        push_str(&mut s, w.as_str());
        proof {
            let ws = a.subrange(j as int, k + 1);
            assert(ws.drop_last() =~= a.subrange(j as int, k as int));
            assert(ws.last() == a[k as int]);
            assert(s@ =~= join_words(ws.drop_last()) + seq![' '] + ws.last());
        }
        k = k + 1;
    }
    Some(s)
}

fn parse_target_only(args: &[String], start: usize, cmd: &str) -> (r: Result<Target, ParseError>)
    requires
        start <= args@.len(),
    ensures
        parse_result_view(r) == spec_target_only(words(args@), start as nat, cmd@, None),
{
    let ghost a = words(args@);
    let n = args.len();
    let mut i = start;
    let mut target: Option<Target> = None;
    while i < n
        invariant
            i <= n,
            n == args@.len(),
            a == words(args@),
            spec_target_only(a, i as nat, cmd@, opt_target_view(target)) == spec_target_only(
                a,
                start as nat,
                cmd@,
                None,
            ),
        decreases n - i,
    {
        if word_is(args, i, "-t") {
            if n - i < 2 {
                return Err(missing("-t", cmd));
            }
            target = Some(target_at(args, i + 1));
            i = i + 2;
        } else {
            i = i + 1;
        }
    }
    match target {
        Some(t) => Ok(t),
        None => {
            let mut m = to_string("tmux-compat: ");
            push_str(&mut m, cmd);
            push_str(&mut m, " requires -t");
            Err(ParseError(m))
        },
    }
}

fn parse_target_format(args: &[String], start: usize, cmd: &str) -> (r: Result<
    (Option<Target>, Option<String>),
    ParseError,
>)
    requires
        start <= args@.len(),
    ensures
        match r {
            Ok((t, f)) => spec_target_format(words(args@), start as nat, cmd@, None, None) == Ok::<
                (Option<SpecTarget>, Option<Seq<char>>),
                Seq<char>,
            >((opt_target_view(t), opt_view(f))),
            Err(e) => spec_target_format(words(args@), start as nat, cmd@, None, None) == Err::<
                (Option<SpecTarget>, Option<Seq<char>>),
                Seq<char>,
            >(e.0@),
        },
{
    let ghost a = words(args@);
    let n = args.len();
    let mut i = start;
    let mut target: Option<Target> = None;
    let mut format: Option<String> = None;
    while i < n
        invariant
            i <= n,
            n == args@.len(),
            a == words(args@),
            spec_target_format(a, i as nat, cmd@, opt_target_view(target), opt_view(format))
                == spec_target_format(a, start as nat, cmd@, None, None),
        decreases n - i,
    {
        if word_is(args, i, "-t") {
            if n - i < 2 {
                return Err(missing("-t", cmd));
            }
            target = Some(target_at(args, i + 1));
            i = i + 2;
        } else if word_is(args, i, "-F") {
            if n - i < 2 {
                return Err(missing("-F", cmd));
            }
            format = Some(word_at(args, i + 1));
            i = i + 2;
        } else {
            i = i + 1;
        }
    }
    Ok((target, format))
}

fn parse_new_session(args: &[String], start: usize, sub: &str) -> (r: Result<TmuxCommand, ParseError>)
    requires
        start <= args@.len(),
    ensures
        parse_result_view(r) == spec_new_session(words(args@), start as nat, sub@, None, None, false, None),
{
    let ghost a = words(args@);
    let n = args.len();
    let mut i = start;
    let mut name: Option<String> = None;
    let mut window: Option<String> = None;
    let mut print = false;
    let mut format: Option<String> = None;
    while i < n
        invariant
            i <= n,
            n == args@.len(),
            a == words(args@),
            spec_new_session(a, i as nat, sub@, opt_view(name), opt_view(window), print, opt_view(format))
                == spec_new_session(a, start as nat, sub@, None, None, false, None),
        decreases n - i,
    {
        if word_is(args, i, "-d") || word_is(args, i, "-A") {
            i = i + 1;
        } else if word_is(args, i, "-s") {
            if n - i < 2 {
                return Err(missing("-s", sub));
            }
            name = Some(word_at(args, i + 1));
            i = i + 2;
        } else if word_is(args, i, "-n") {
            if n - i < 2 {
                return Err(missing("-n", sub));
            }
            window = Some(word_at(args, i + 1));
            i = i + 2;
        } else if word_is(args, i, "-c") {
            if n - i < 2 {
                i = n;
            } else {
                i = i + 2;
            }
        } else if word_is(args, i, "-P") {
            print = true;
            i = i + 1;
        } else if word_is(args, i, "-F") {
            if n - i < 2 {
                return Err(missing("-F", sub));
            }
            format = Some(word_at(args, i + 1));
            i = i + 2;
        } else {
            // The placeholder command: the pane runs the user shell until
            // `respawn-pane` arrives.
            i = n;
        }
    }
    match name {
        Some(name) => Ok(TmuxCommand::NewSession { name, window_name: window, print, format }),
        None => Err(error_of("tmux-compat: new-session requires -s")),
    }
}

fn parse_new_window(args: &[String], start: usize, sub: &str) -> (r: Result<TmuxCommand, ParseError>)
    requires
        start <= args@.len(),
    ensures
        parse_result_view(r) == spec_new_window(words(args@), start as nat, sub@, None, None, false, None),
{
    let ghost a = words(args@);
    let n = args.len();
    let mut i = start;
    let mut target: Option<Target> = None;
    let mut window: Option<String> = None;
    let mut print = false;
    let mut format: Option<String> = None;
    while i < n
        invariant
            i <= n,
            n == args@.len(),
            a == words(args@),
            spec_new_window(a, i as nat, sub@, opt_target_view(target), opt_view(window), print, opt_view(format))
                == spec_new_window(a, start as nat, sub@, None, None, false, None),
        decreases n - i,
    {
        if word_is(args, i, "-d") {
            i = i + 1;
        } else if word_is(args, i, "-t") {
            if n - i < 2 {
                return Err(missing("-t", sub));
            }
            target = Some(target_at(args, i + 1));
            i = i + 2;
        } else if word_is(args, i, "-n") {
            if n - i < 2 {
                return Err(missing("-n", sub));
            }
            window = Some(word_at(args, i + 1));
            i = i + 2;
        } else if word_is(args, i, "-P") {
            print = true;
            i = i + 1;
        } else if word_is(args, i, "-F") {
            if n - i < 2 {
                return Err(missing("-F", sub));
            }
            format = Some(word_at(args, i + 1));
            i = i + 2;
        } else {
            i = n;
        }
    }
    match target {
        Some(target) => Ok(TmuxCommand::NewWindow { target, window_name: window, print, format }),
        None => Err(error_of("tmux-compat: new-window requires -t")),
    }
}

fn parse_split_window(args: &[String], start: usize, sub: &str) -> (r: Result<TmuxCommand, ParseError>)
    requires
        start <= args@.len(),
    ensures
        parse_result_view(r) == spec_split_window(words(args@), start as nat, sub@, None, false, false, None),
{
    let ghost a = words(args@);
    let n = args.len();
    let mut i = start;
    let mut target: Option<Target> = None;
    let mut horizontal = false;
    let mut print = false;
    let mut format: Option<String> = None;
    while i < n
        invariant
            i <= n,
            n == args@.len(),
            a == words(args@),
            spec_split_window(a, i as nat, sub@, opt_target_view(target), horizontal, print, opt_view(format))
                == spec_split_window(a, start as nat, sub@, None, false, false, None),
        decreases n - i,
    {
        if word_is(args, i, "-d") {
            i = i + 1;
        } else if word_is(args, i, "-h") {
            horizontal = true;
            i = i + 1;
        } else if word_is(args, i, "-v") {
            horizontal = false;
            i = i + 1;
        } else if word_is(args, i, "-l") || word_is(args, i, "-p") {
            // Size hint: panes split evenly.
            if n - i < 2 {
                i = n;
            } else {
                i = i + 2;
            }
        } else if word_is(args, i, "-t") {
            if n - i < 2 {
                return Err(missing("-t", sub));
            }
            target = Some(target_at(args, i + 1));
            i = i + 2;
        } else if word_is(args, i, "-P") {
            print = true;
            i = i + 1;
        } else if word_is(args, i, "-F") {
            if n - i < 2 {
                return Err(missing("-F", sub));
            }
            format = Some(word_at(args, i + 1));
            i = i + 2;
        } else {
            i = n;
        }
    }
    match target {
        Some(target) => Ok(TmuxCommand::SplitWindow { target, horizontal, print, format }),
        None => Err(error_of("tmux-compat: split-window requires -t")),
    }
}

fn parse_set_option(args: &[String], start: usize, sub: &str) -> (r: Result<TmuxCommand, ParseError>)
    requires
        start <= args@.len(),
    ensures
        parse_result_view(r) == spec_set_option(words(args@), start as nat, sub@, None),
{
    let ghost a = words(args@);
    let n = args.len();
    let mut i = start;
    let mut target: Option<Target> = None;
    let mut name: Option<String> = None;
    while i < n
        invariant
            i <= n,
            n == args@.len(),
            a == words(args@),
            name.is_none() ==> spec_set_option(a, i as nat, sub@, opt_target_view(target))
                == spec_set_option(a, start as nat, sub@, None),
            name.is_some() ==> i == n && finish_set_option(opt_target_view(target), opt_view(name))
                == spec_set_option(a, start as nat, sub@, None),
        decreases n - i,
    {
        if word_is(args, i, "-p") || word_is(args, i, "-w") || word_is(args, i, "-g") || word_is(
            args,
            i,
            "-q",
        ) {
            i = i + 1;
        } else if word_is(args, i, "-t") {
            if n - i < 2 {
                return Err(missing("-t", sub));
            }
            target = Some(target_at(args, i + 1));
            i = i + 2;
        } else {
            // The option name; the option value(s) follow.
            name = Some(word_at(args, i));
            i = n;
        }
    }
    match name {
        Some(name) => Ok(TmuxCommand::SetOption { target, name }),
        None => Err(error_of("tmux-compat: set-option requires a name")),
    }
}

fn parse_select_pane(args: &[String], start: usize, sub: &str) -> (r: Result<TmuxCommand, ParseError>)
    requires
        start <= args@.len(),
    ensures
        parse_result_view(r) == spec_select_pane(words(args@), start as nat, sub@, None, None),
{
    let ghost a = words(args@);
    let n = args.len();
    let mut i = start;
    let mut target: Option<Target> = None;
    let mut title: Option<String> = None;
    while i < n
        invariant
            i <= n,
            n == args@.len(),
            a == words(args@),
            spec_select_pane(a, i as nat, sub@, opt_target_view(target), opt_view(title))
                == spec_select_pane(a, start as nat, sub@, None, None),
        decreases n - i,
    {
        if word_is(args, i, "-t") {
            if n - i < 2 {
                return Err(missing("-t", sub));
            }
            target = Some(target_at(args, i + 1));
            i = i + 2;
        } else if word_is(args, i, "-T") {
            if n - i < 2 {
                return Err(missing("-T", sub));
            }
            title = Some(word_at(args, i + 1));
            i = i + 2;
        } else {
            i = i + 1;
        }
    }
    match target {
        Some(target) => Ok(TmuxCommand::SelectPane { target, title }),
        None => Err(error_of("tmux-compat: select-pane requires -t")),
    }
}

fn parse_respawn(args: &[String], start: usize, sub: &str) -> (r: Result<TmuxCommand, ParseError>)
    requires
        start <= args@.len(),
    ensures
        parse_result_view(r) == spec_respawn(words(args@), start as nat, sub@, None),
{
    let ghost a = words(args@);
    let n = args.len();
    let mut i = start;
    let mut target: Option<Target> = None;
    let mut command: Option<String> = None;
    let mut done = false;
    while i < n
        invariant
            i <= n,
            n == args@.len(),
            a == words(args@),
            !done ==> command.is_none(),
            !done ==> spec_respawn(a, i as nat, sub@, opt_target_view(target)) == spec_respawn(
                a,
                start as nat,
                sub@,
                None,
            ),
            done ==> i == n && finish_respawn(opt_target_view(target), opt_view(command))
                == spec_respawn(a, start as nat, sub@, None),
        decreases n - i,
    {
        if word_is(args, i, "-k") {
            i = i + 1;
        } else if word_is(args, i, "-t") {
            if n - i < 2 {
                return Err(missing("-t", sub));
            }
            target = Some(target_at(args, i + 1));
            i = i + 2;
        } else if word_is(args, i, "--") {
            command = trailing_command(args, i + 1);
            done = true;
            i = n;
        } else {
            command = trailing_command(args, i);
            done = true;
            i = n;
        }
    }
    proof {
        if !done {
            assert(spec_respawn(a, i as nat, sub@, opt_target_view(target)) == finish_respawn(
                opt_target_view(target),
                None,
            ));
        }
    }
    match target {
        None => Err(error_of("tmux-compat: respawn-pane requires -t")),
        Some(target) => match command {
            Some(command) => Ok(TmuxCommand::RespawnPane { target, command }),
            None => Err(error_of("tmux-compat: respawn-pane requires a command")),
        },
    }
}

fn parse_select_layout(args: &[String], start: usize, sub: &str) -> (r: Result<TmuxCommand, ParseError>)
    requires
        start <= args@.len(),
    ensures
        parse_result_view(r) == spec_select_layout(words(args@), start as nat, sub@, None),
{
    let ghost a = words(args@);
    let n = args.len();
    let mut i = start;
    let mut target: Option<Target> = None;
    while i < n
        invariant
            i <= n,
            n == args@.len(),
            a == words(args@),
            spec_select_layout(a, i as nat, sub@, opt_target_view(target)) == spec_select_layout(
                a,
                start as nat,
                sub@,
                None,
            ),
        decreases n - i,
    {
        if word_is(args, i, "-t") {
            if n - i < 2 {
                return Err(missing("-t", sub));
            }
            target = Some(target_at(args, i + 1));
            i = i + 2;
        } else {
            // The layout name: acknowledged only.
            i = i + 1;
        }
    }
    match target {
        Some(target) => Ok(TmuxCommand::SelectLayout { target }),
        None => Err(error_of("tmux-compat: select-layout requires -t")),
    }
}

fn parse_display(args: &[String], start: usize) -> (r: Option<String>)
    requires
        start <= args@.len(),
    ensures
        opt_view(r) == spec_display(words(args@), start as nat),
{
    let ghost a = words(args@);
    let n = args.len();
    let mut i = start;
    while i < n
        invariant
            i <= n,
            n == args@.len(),
            a == words(args@),
            spec_display(a, i as nat) == spec_display(a, start as nat),
        decreases n - i,
    {
        if word_is(args, i, "-p") {
            i = i + 1;
        } else if word_is(args, i, "-t") {
            if n - i < 2 {
                return None;
            }
            i = i + 2;
        } else {
            return Some(word_at(args, i));
        }
    }
    None
}

fn parse_attach(args: &[String], start: usize, sub: &str) -> (r: Result<Option<Target>, ParseError>)
    requires
        start <= args@.len(),
    ensures
        match r {
            Ok(t) => spec_attach(words(args@), start as nat, sub@, None) == Ok::<
                Option<SpecTarget>,
                Seq<char>,
            >(opt_target_view(t)),
            Err(e) => spec_attach(words(args@), start as nat, sub@, None) == Err::<
                Option<SpecTarget>,
                Seq<char>,
            >(e.0@),
        },
{
    let ghost a = words(args@);
    let n = args.len();
    let mut i = start;
    let mut target: Option<Target> = None;
    while i < n
        invariant
            i <= n,
            n == args@.len(),
            a == words(args@),
            spec_attach(a, i as nat, sub@, opt_target_view(target)) == spec_attach(
                a,
                start as nat,
                sub@,
                None,
            ),
        decreases n - i,
    {
        if word_is(args, i, "-t") {
            if n - i < 2 {
                return Err(missing("-t", sub));
            }
            target = Some(target_at(args, i + 1));
            i = i + 2;
        } else {
            i = i + 1;
        }
    }
    Ok(target)
}


/// The global flags before the subcommand: the position after the
/// subcommand word, the subcommand, and the socket name.
fn parse_globals(args: &[String]) -> (r: Result<(usize, String, Option<String>), ParseError>)
    ensures
        match r {
            Ok((p, sub, sock)) => spec_globals(words(args@), 0, None) == Ok::<
                (nat, Seq<char>, Option<Seq<char>>),
                Seq<char>,
            >((p as nat, sub@, opt_view(sock))) && p <= args@.len(),
            Err(e) => spec_globals(words(args@), 0, None) == Err::<
                (nat, Seq<char>, Option<Seq<char>>),
                Seq<char>,
            >(e.0@),
        },
{
    let ghost a = words(args@);
    let n = args.len();
    let mut i: usize = 0;
    let mut sock: Option<String> = None;
    while i < n
        invariant
            i <= n,
            n == args@.len(),
            a == words(args@),
            spec_globals(a, i as nat, opt_view(sock)) == spec_globals(a, 0, None),
        decreases n - i,
    {
        if word_is(args, i, "-V") {
            return Ok((i + 1, word_at(args, i), sock));
        } else if word_is(args, i, "-L") {
            if n - i < 2 {
                return Err(missing("-L", "tmux"));
            }
            sock = Some(word_at(args, i + 1));
            i = i + 2;
        } else if word_is(args, i, "-S") {
            if n - i < 2 {
                return Err(missing("-S", "tmux"));
            }
            // A socket path: its file stem names the server, so that
            // `-S /tmp/x/agent-swarm-1.sock` still groups with `-L`.
            let path = word_at(args, i + 1);
            let stem = file_stem_of(path.as_str());
            sock = Some(socket_name_from_stem(path.as_str(), stem));
            i = i + 2;
        } else if word_is(args, i, "-f") {
            // A config file: irrelevant here.
            if n - i < 2 {
                return Err(error_of("tmux-compat: no subcommand (interactive tmux is not emulated)"));
            }
            i = i + 2;
        } else {
            let w = word_at(args, i);
            if !crate::text::starts_with_char(w.as_str(), '-') {
                return Ok((i + 1, w, sock));
            }
            let mut m = to_string("tmux-compat: unsupported global flag ");
            push_str(&mut m, w.as_str());
            return Err(ParseError(m));
        }
    }
    Err(error_of("tmux-compat: no subcommand (interactive tmux is not emulated)"))
}

fn parse_command(args: &[String], p: usize, sub: &str) -> (r: Result<TmuxCommand, ParseError>)
    requires
        p <= args@.len(),
    ensures
        parse_result_view(r) == spec_command(words(args@), p as nat, sub@),
{
    if str_eq(sub, "-V") {
        Ok(TmuxCommand::Version)
    } else if str_eq(sub, "has-session") {
        match parse_target_only(args, p, "has-session") {
            Ok(target) => Ok(TmuxCommand::HasSession { target }),
            Err(e) => Err(e),
        }
    } else if str_eq(sub, "new-session") || str_eq(sub, "new") {
        parse_new_session(args, p, sub)
    } else if str_eq(sub, "list-windows") || str_eq(sub, "lsw") {
        match parse_target_format(args, p, sub) {
            Ok((Some(target), format)) => Ok(TmuxCommand::ListWindows { target, format }),
            Ok((None, _)) => Err(error_of("tmux-compat: list-windows requires -t")),
            Err(e) => Err(e),
        }
    } else if str_eq(sub, "new-window") || str_eq(sub, "neww") {
        parse_new_window(args, p, sub)
    } else if str_eq(sub, "list-panes") || str_eq(sub, "lsp") {
        match parse_target_format(args, p, sub) {
            Ok((Some(target), format)) => Ok(TmuxCommand::ListPanes { target, format }),
            Ok((None, _)) => Err(error_of("tmux-compat: list-panes requires -t")),
            Err(e) => Err(e),
        }
    } else if str_eq(sub, "split-window") || str_eq(sub, "splitw") {
        parse_split_window(args, p, sub)
    } else if str_eq(sub, "set-option") || str_eq(sub, "set") {
        parse_set_option(args, p, sub)
    } else if str_eq(sub, "select-pane") || str_eq(sub, "selectp") {
        parse_select_pane(args, p, sub)
    } else if str_eq(sub, "respawn-pane") || str_eq(sub, "respawnp") {
        parse_respawn(args, p, sub)
    } else if str_eq(sub, "kill-pane") || str_eq(sub, "killp") {
        match parse_target_only(args, p, "kill-pane") {
            Ok(target) => Ok(TmuxCommand::KillPane { target }),
            Err(e) => Err(e),
        }
    } else if str_eq(sub, "select-layout") || str_eq(sub, "selectl") {
        parse_select_layout(args, p, sub)
    } else if str_eq(sub, "display-message") || str_eq(sub, "display") {
        Ok(TmuxCommand::DisplayMessage { format: parse_display(args, p) })
    } else if str_eq(sub, "attach") || str_eq(sub, "attach-session") || str_eq(sub, "a") || str_eq(
        sub,
        "at",
    ) {
        match parse_attach(args, p, sub) {
            Ok(target) => Ok(TmuxCommand::Attach { target }),
            Err(e) => Err(e),
        }
    } else if str_eq(sub, "kill-server") {
        Ok(TmuxCommand::KillServer)
    } else {
        let mut m = to_string("tmux-compat: unsupported tmux subcommand '");
        push_str(&mut m, sub);
        push_str(&mut m, "'");
        Err(ParseError(m))
    }
}

/// Parse a full tmux argument vector (without the leading `tmux`).
pub fn parse(args: &[String]) -> (r: Result<TmuxInvocation, ParseError>)
    ensures
        parse_result_view(r) == spec_parse(words(args@)),
{
    match parse_globals(args) {
        Err(e) => Err(e),
        Ok((p, sub, socket_name)) => match parse_command(args, p, sub.as_str()) {
            Err(e) => Err(e),
            Ok(command) => Ok(TmuxInvocation { socket_name, command }),
        },
    }
}

impl TmuxCompatOutput {
    /// Exit status 0 with no output.
    pub fn ok() -> (r: Self)
        ensures
            r.code == 0,
            r.stdout@ == Seq::<char>::empty(),
            r.stderr@ == Seq::<char>::empty(),
    {
        TmuxCompatOutput { code: 0, stdout: String::new(), stderr: String::new() }
    }

    /// Exit status 0 printing `stdout`.
    pub fn out(stdout: &str) -> (r: Self)
        ensures
            r.code == 0,
            r.stdout@ == stdout@,
            r.stderr@ == Seq::<char>::empty(),
    {
        TmuxCompatOutput { code: 0, stdout: to_string(stdout), stderr: String::new() }
    }

    /// Exit status `code` printing `stderr`.
    pub fn fail(code: i32, stderr: &str) -> (r: Self)
        ensures
            r.code == code,
            r.stdout@ == Seq::<char>::empty(),
            r.stderr@ == stderr@,
    {
        TmuxCompatOutput { code, stdout: String::new(), stderr: to_string(stderr) }
    }
}


// ------------------------------------------------------------------
// Laws
// ------------------------------------------------------------------

/// A format without `#` expands to itself.
pub proof fn lemma_expand_format_plain_text(
    format: Seq<char>,
    pane_id: Seq<char>,
    window_name: Seq<char>,
    session_name: Seq<char>,
)
    requires
        forall|i: int| 0 <= i < format.len() ==> format[i] != '#',
    ensures
        spec_expand_format(format, pane_id, window_name, session_name) == format,
    decreases format.len(),
{
    if format.len() > 0 {
        let t = format.skip(1);
        assert forall|i: int| 0 <= i < t.len() implies t[i] != '#' by {
            assert(t[i] == format[i + 1]);
        }
        lemma_expand_format_plain_text(t, pane_id, window_name, session_name);
        assert(seq![format[0]] + t =~= format);
    }
}

/// Pane ids handed out by this layer (36 hex digits and dashes) come back as
/// the same pane target.
pub proof fn lemma_pane_id_target_roundtrip(id: Seq<char>)
    requires
        looks_like_uuid(id),
    ensures
        spec_target(id) == SpecTarget::Pane(id),
{
    assert(is_hex_or_dash(id[0]));
    assert(leading_count(id, '%') == 0);
    assert(id.skip(0) =~= id);
}

/// `session:window` splits back into its parts when the session name holds
/// no `:` and does not start with `%`, and the window name is not empty.
pub proof fn lemma_session_window_target(session: Seq<char>, window: Seq<char>)
    requires
        forall|i: int| 0 <= i < session.len() ==> session[i] != ':',
        !(session.len() > 0 && session[0] == '%'),
        window.len() > 0,
    ensures
        spec_target(session + seq![':'] + window) == (SpecTarget::Session {
            session: session,
            window: Some(window),
        }),
{
    let raw = session + seq![':'] + window;
    assert(!is_hex_or_dash(raw[session.len() as int]));
    assert(!looks_like_uuid(raw));
    assert forall|t: int| 0 <= t < session.len() implies raw[t] != ':' by {
        assert(raw[t] == session[t]);
    }
    assert(raw[session.len() as int] == ':');
    lemma_first_index(raw, ':', session.len() as int);
    assert(raw.take(session.len() as int) =~= session);
    assert(raw.skip(session.len() as int + 1) =~= window);
    if session.len() == 0 {
        assert(raw[0] == ':');
    } else {
        assert(raw[0] == session[0]);
    }
}


/// After `--`, a respawned pane's command is every remaining word, joined
/// by single spaces, whatever the words are.
pub proof fn lemma_respawn_takes_rest_after_dashes(a: Seq<Seq<char>>, i: nat, sub: Seq<char>, t: SpecTarget)
    requires
        i + 1 < a.len(),
        a[i as int] == "--"@,
    ensures
        spec_respawn(a, i, sub, Some(t)) == Ok::<SpecCommand, Seq<char>>(
            SpecCommand::RespawnPane { target: t, command: join_words(a.subrange((i + 1) as int, a.len() as int)) },
        ),
{
    reveal_strlit("--");
    reveal_strlit("-k");
    reveal_strlit("-t");
    assert("--"@[1] != "-k"@[1] && "--"@[1] != "-t"@[1]);
    assert(a[i as int] != "-k"@ && a[i as int] != "-t"@);
    assert(trailing(a, i + 1) == Some(join_words(a.subrange((i + 1) as int, a.len() as int))));
}

/// `respawn-pane -k -t T -- W1 … Wn` respawns the pane `T` names with the
/// command `W1 … Wn`: all the words after `--`, joined by single spaces.
pub proof fn lemma_respawn_command_line(t: Seq<char>, rest: Seq<Seq<char>>)
    requires
        rest.len() > 0,
    ensures
        spec_parse(seq!["respawn-pane"@, "-k"@, "-t"@, t, "--"@] + rest) == Ok::<SpecInvocation, Seq<char>>(
            SpecInvocation {
                socket_name: None,
                command: SpecCommand::RespawnPane { target: spec_target(t), command: join_words(rest) },
            },
        ),
{
    reveal_strlit("respawn-pane");
    reveal_strlit("-V");
    reveal_strlit("-L");
    reveal_strlit("-S");
    reveal_strlit("-f");
    reveal_strlit("has-session");
    reveal_strlit("new-session");
    reveal_strlit("new");
    reveal_strlit("list-windows");
    reveal_strlit("lsw");
    reveal_strlit("new-window");
    reveal_strlit("neww");
    reveal_strlit("list-panes");
    reveal_strlit("lsp");
    reveal_strlit("split-window");
    reveal_strlit("splitw");
    reveal_strlit("set-option");
    reveal_strlit("set");
    reveal_strlit("select-pane");
    reveal_strlit("selectp");
    reveal_strlit("-k");
    reveal_strlit("-t");
    reveal_strlit("--");
    let a = seq!["respawn-pane"@, "-k"@, "-t"@, t, "--"@] + rest;
    assert(a[0] == "respawn-pane"@ && a[1] == "-k"@ && a[2] == "-t"@ && a[3] == t && a[4] == "--"@);
    assert(a.subrange(5, a.len() as int) =~= rest);
    assert(spec_globals(a, 0, None) == Ok::<(nat, Seq<char>, Option<Seq<char>>), Seq<char>>((1, "respawn-pane"@, None)));
    lemma_respawn_takes_rest_after_dashes(a, 4, "respawn-pane"@, spec_target(t));
    assert(spec_respawn(a, 2, "respawn-pane"@, None) == spec_respawn(a, 4, "respawn-pane"@, Some(spec_target(t))));
    assert(spec_respawn(a, 1, "respawn-pane"@, None) == spec_respawn(a, 2, "respawn-pane"@, None));
}

} // verus!
