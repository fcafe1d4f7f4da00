//! The daemon's own decisions: where its pid file lives, the messages it
//! answers with, and when a wait request is satisfied.

use vstd::prelude::*;

use crate::chars::{dec, debug_quoted, push_str, quoted, string_of, trim_end, trimmed_end, chars_of, join_range, join_with, views};
use crate::pattern::{is_match, regex_is_match, Pattern};
use crate::session::drop_blank_tail;

verus! {

/// What `std::path::Path::with_extension` gives for `path` and `ext`.
pub uninterp spec fn path_with_extension(path: Seq<char>, ext: Seq<char>) -> Seq<char>;

/// `Path::with_extension` on a path given as text; the contract claims only
/// that the result is `path_with_extension` of the arguments (the rules for
/// file names and existing extensions are not restated). std panics on an
/// extension that holds a path separator, so none is admitted.
#[verifier::external_body]
fn with_extension(path: &str, ext: &str) -> (r: String)
    requires
        !ext@.contains('/'),
    ensures
        r@ == path_with_extension(path@, ext@),
{
    std::path::Path::new(path).with_extension(ext).to_string_lossy().into_owned()
}

/// The daemon's pid file: its socket path with the extension `pid`.
pub fn pid_path(socket: &str) -> (r: String)
    ensures
        r@ == path_with_extension(socket@, "pid"@),
{
    proof {
        reveal_strlit("pid");
        assert(!"pid"@.contains('/')) by {
            assert forall|i: int| 0 <= i < 3 implies "pid"@[i] != '/' by {}
        }
    }
    with_extension(socket, "pid")
}

/// The answer for a request naming a session that does not exist.
pub fn session_not_found(name: &str) -> (r: String)
    ensures
        r@ == "Session "@ + debug_quoted(name@) + " not found"@,
{
    let mut m: Vec<char> = Vec::new();
    push_str(&mut m, "Session ");
    push_str(&mut m, quoted(name).as_str());
    push_str(&mut m, " not found");
    string_of(&m)
}

/// The answer for a wait whose text pattern the regex engine rejected.
pub fn invalid_wait_pattern(pattern: &str, reason: &str) -> (r: String)
    ensures
        r@ == "Invalid regex "@ + debug_quoted(pattern@) + ": "@ + reason@,
{
    let mut m: Vec<char> = Vec::new();
    push_str(&mut m, "Invalid regex ");
    push_str(&mut m, quoted(pattern).as_str());
    push_str(&mut m, ": ");
    push_str(&mut m, reason);
    string_of(&m)
}

/// The compiled text pattern of a wait, if it has one, or the answer for a
/// pattern the regex engine rejects (`Invalid regex`, the quoted pattern,
/// and the engine's reason).
pub fn wait_pattern(text_pattern: Option<&str>) -> (r: Result<Option<Pattern>, String>)
    ensures
        match text_pattern {
            None => r matches Ok(None),
            Some(p) => match r {
                Ok(Some(pat)) => crate::pattern::regex_compiles(p@) && pat.source() == p@,
                Ok(None) => false,
                Err(m) => !crate::pattern::regex_compiles(p@) && m@ == "Invalid regex "@ + debug_quoted(p@) + ": "@
                    + crate::pattern::regex_rejection(p@),
            },
        },
{
    match text_pattern {
        None => Ok(None),
        Some(p) => match crate::pattern::compile_pattern(p) {
            Ok(pat) => Ok(Some(pat)),
            Err(reason) => Err(invalid_wait_pattern(p, reason.as_str())),
        },
    }
}

/// The screen as plain text from its rows: each row without trailing white
/// space, empty rows at the bottom left out, rows joined by newlines.
pub open spec fn rows_text(rows: Seq<Seq<char>>) -> Seq<char> {
    join_with(drop_blank_tail(rows.map_values(|r: Seq<char>| trim_end(r))), "\n"@)
}

/// The screen's plain text from its text rows; see `rows_text`.
pub fn text_from_rows(rows: &[String]) -> (r: String)
    ensures
        r@ == rows_text(rows@.map_values(|s: String| s@)),
{
    let ghost rv = rows@.map_values(|s: String| s@);
    let ghost trimmed = rv.map_values(|r: Seq<char>| trim_end(r));
    let mut lines: Vec<Vec<char>> = Vec::new();
    let mut i: usize = 0;
    while i < rows.len()
        invariant
            i <= rows@.len(),
            rv == rows@.map_values(|s: String| s@),
            trimmed == rv.map_values(|r: Seq<char>| trim_end(r)),
            views(lines@) =~= trimmed.take(i as int),
        decreases rows@.len() - i,
    {
        let t = trimmed_end(&chars_of(rows[i].as_str()));
        assert(t@ == trimmed[i as int]);
        let ghost before = views(lines@);
        lines.push(t);
        assert(views(lines@) =~= before.push(trimmed[i as int]));
        assert(trimmed.take(i + 1) =~= trimmed.take(i as int).push(trimmed[i as int]));
        i = i + 1;
    }
    assert(trimmed.take(i as int) =~= trimmed);
    let ghost all = views(lines@);
    let mut n = lines.len();
    assert(all.take(n as int) =~= all);
    while n > 0 && lines[n - 1].len() == 0
        invariant
            n <= lines@.len(),
            all == views(lines@),
            drop_blank_tail(all.take(n as int)) == drop_blank_tail(all),
        decreases n,
    {
        assert(all.take(n as int).drop_last() =~= all.take(n - 1));
        n = n - 1;
    }
    assert(drop_blank_tail(all.take(n as int)) == all.take(n as int));
    assert(all.subrange(0, n as int) =~= all.take(n as int));
    string_of(&join_range(&lines, 0, n, "\n"))
}

/// How a wait stands after a look at the screen.
#[derive(Debug, Clone, Copy, PartialEq, Eq, Structural)]
pub enum WaitVerdict {
    /// The pattern showed up, or the screen stayed the same long enough.
    Satisfied,
    /// The deadline passed first.
    TimedOut,
    /// Look again later.
    Pending,
}

/// What a wait remembers between looks: the screen text last seen to
/// change and when (in nanoseconds on a monotonic clock).
#[derive(Debug)]
pub struct WaitState {
    pub last_content: Option<String>,
    pub stable_since: Option<u128>,
}

impl View for WaitState {
    type V = (Option<Seq<char>>, Option<u128>);

    open spec fn view(&self) -> (Option<Seq<char>>, Option<u128>) {
        (
            match self.last_content {
                Some(s) => Some(s@),
                None => None,
            },
            self.stable_since,
        )
    }
}

/// Time from `since` to `now`, zero if the clock reads earlier.
pub open spec fn elapsed(now: u128, since: u128) -> int {
    if now >= since {
        now - since
    } else {
        0
    }
}

/// One look at the screen during a wait, at time `now`: past the deadline
/// the wait times out; a match of the pattern (when there is one) satisfies
/// it; with a stability period, the screen satisfies it once it has shown
/// the same text for at least that long, and a changed screen restarts the
/// period. Returns the state after the look and the verdict.
pub open spec fn wait_look(
    state: (Option<Seq<char>>, Option<u128>),
    now: u128,
    deadline: u128,
    content: Seq<char>,
    matched: bool,
    stable: Option<u128>,
) -> ((Option<Seq<char>>, Option<u128>), WaitVerdict) {
    if now >= deadline {
        (state, WaitVerdict::TimedOut)
    } else if matched {
        (state, WaitVerdict::Satisfied)
    } else {
        match stable {
            Some(period) => if state.0 == Some(content) {
                match state.1 {
                    Some(since) => if elapsed(now, since) >= period {
                        (state, WaitVerdict::Satisfied)
                    } else {
                        (state, WaitVerdict::Pending)
                    },
                    None => (state, WaitVerdict::Pending),
                }
            } else {
                ((Some(content), Some(now)), WaitVerdict::Pending)
            },
            None => (state, WaitVerdict::Pending),
        }
    }
}

impl WaitState {
    /// Nothing seen yet.
    pub fn new() -> (s: Self)
        ensures
            s@ == (None::<Seq<char>>, None::<u128>),
    {
        WaitState { last_content: None, stable_since: None }
    }

    /// Takes one look at the screen text `content` at time `now`; see
    /// `wait_look` (`pattern` is the compiled text pattern, if any).
    pub fn look(
        &mut self,
        now: u128,
        deadline: u128,
        content: &str,
        pattern: Option<&Pattern>,
        stable: Option<u128>,
    ) -> (v: WaitVerdict)
        ensures
            (final(self)@, v) == wait_look(
                old(self)@,
                now,
                deadline,
                content@,
                match pattern {
                    Some(p) => regex_is_match(p.source(), content@),
                    None => false,
                },
                stable,
            ),
    {
        if now >= deadline {
            return WaitVerdict::TimedOut;
        }
        let matched = match pattern {
            Some(p) => is_match(p, content),
            None => false,
        };
        if matched {
            return WaitVerdict::Satisfied;
        }
        match stable {
            Some(period) => {
                let same = match &self.last_content {
                    Some(prev) => crate::version::text_is(prev.as_str(), content),
                    None => false,
                };
                if same {
                    match self.stable_since {
                        Some(since) => {
                            let elapsed: u128 = if now >= since { now - since } else { 0 };
                            if elapsed >= period {
                                WaitVerdict::Satisfied
                            } else {
                                WaitVerdict::Pending
                            }
                        },
                        None => WaitVerdict::Pending,
                    }
                } else {
                    self.last_content = Some(content.to_owned());
                    self.stable_since = Some(now);
                    WaitVerdict::Pending
                }
            },
            None => WaitVerdict::Pending,
        }
    }
}

/// The screen shows the text seen at the previous look, and has shown it
/// for at least the stability period.
pub open spec fn settled(
    state: (Option<Seq<char>>, Option<u128>),
    now: u128,
    content: Seq<char>,
    stable: Option<u128>,
) -> bool {
    &&& stable matches Some(p)
    &&& state.0 == Some(content)
    &&& state.1 matches Some(s)
    &&& elapsed(now, s) >= p
}

/// A wait ends only for a reason: past the deadline it times out whatever
/// the screen shows; before it, it is satisfied only by a match of its
/// pattern, or by a screen that shows the text already seen at the previous
/// look and has shown it for the whole stability period; and a wait with
/// neither a pattern match nor a stability period never succeeds.
pub proof fn law_wait_outcomes(
    state: (Option<Seq<char>>, Option<u128>),
    now: u128,
    deadline: u128,
    content: Seq<char>,
    matched: bool,
    stable: Option<u128>,
)
    ensures
        now >= deadline ==> wait_look(state, now, deadline, content, matched, stable).1 == WaitVerdict::TimedOut,
        now < deadline && wait_look(state, now, deadline, content, matched, stable).1 == WaitVerdict::Satisfied
            ==> matched || settled(state, now, content, stable),
        stable is None && !matched ==> wait_look(state, now, deadline, content, matched, stable).1
            != WaitVerdict::Satisfied,
{
}

} // verus!

verus! {

/// Seconds the daemon stays up without sessions when nothing else is said.
pub const DEFAULT_IDLE_TIMEOUT_SECS: u64 = 28800;

/// The idle timeout for the value of `TU_IDLE_TIMEOUT`: the number it spells
/// (as `u64`'s `FromStr` reads it), or eight hours when it is unset or not
/// such a number.
pub open spec fn idle_timeout(value: Option<Seq<char>>) -> nat {
    match value {
        Some(v) => match crate::decimal::unsigned_from_chars(v, u64::MAX as nat) {
            Some(n) => n,
            None => DEFAULT_IDLE_TIMEOUT_SECS as nat,
        },
        None => DEFAULT_IDLE_TIMEOUT_SECS as nat,
    }
}

/// The daemon's idle timeout in seconds; see `idle_timeout`.
pub fn idle_timeout_secs(value: Option<&str>) -> (r: u64)
    ensures
        r == idle_timeout(
            match value {
                Some(v) => Some(v@),
                None => None,
            },
        ),
{
    match value {
        Some(v) => match crate::decimal::parse_unsigned_chars(&chars_of(v), u64::MAX) {
            Some(n) => n,
            None => DEFAULT_IDLE_TIMEOUT_SECS,
        },
        None => DEFAULT_IDLE_TIMEOUT_SECS,
    }
}

} // verus!

verus! {

/// The answer for a request to start a session under a name in use.
pub fn session_exists(name: &str) -> (r: String)
    ensures
        r@ == "Session "@ + debug_quoted(name@) + " already exists"@,
{
    let mut m: Vec<char> = Vec::new();
    push_str(&mut m, "Session ");
    push_str(&mut m, quoted(name).as_str());
    push_str(&mut m, " already exists");
    string_of(&m)
}

/// `file` appended to the directory `dir` as `Path::join` does on Unix for
/// a relative `file`: with a `/` between them unless `dir` is empty or
/// already ends with one.
pub open spec fn joined(dir: Seq<char>, file: Seq<char>) -> Seq<char> {
    if dir.len() == 0 || dir.last() == '/' {
        dir + file
    } else {
        dir + "/"@ + file
    }
}

/// The daemon's socket: `tu.sock` in the runtime directory when there is
/// one, otherwise `/tmp/tu-{uid}.sock`.
pub open spec fn socket_path_of(runtime_dir: Option<Seq<char>>, uid: u32) -> Seq<char> {
    match runtime_dir {
        Some(d) => joined(d, "tu.sock"@),
        None => "/tmp/tu-"@ + dec(uid as nat) + ".sock"@,
    }
}

/// The daemon's socket path for the runtime directory (`XDG_RUNTIME_DIR`)
/// and user id; see `socket_path_of`.
pub fn socket_path_text(runtime_dir: Option<&str>, uid: u32) -> (r: String)
    ensures
        r@ == socket_path_of(
            match runtime_dir {
                Some(d) => Some(d@),
                None => None,
            },
            uid,
        ),
{
    let mut m: Vec<char> = Vec::new();
    match runtime_dir {
        Some(d) => {
            let dv = chars_of(d);
            push_str(&mut m, d);
            if dv.len() > 0 && dv[dv.len() - 1] != '/' {
                push_str(&mut m, "/");
            }
            push_str(&mut m, "tu.sock");
        },
        None => {
            push_str(&mut m, "/tmp/tu-");
            crate::chars::push_dec(&mut m, uid as u64);
            push_str(&mut m, ".sock");
        },
    }
    string_of(&m)
}

/// What `i32`'s `FromStr` reads from `s`: an optional sign, then at least one
/// decimal digit, within `i32`'s range.
pub open spec fn i32_from_chars(s: Seq<char>) -> Option<int> {
    let neg = s.len() > 0 && s[0] == '-';
    let d = if s.len() > 0 && (s[0] == '-' || s[0] == '+') { s.drop_first() } else { s };
    if d.len() > 0 && crate::decimal::all_digit_chars(d) {
        if neg {
            if crate::decimal::chars_value(d) <= 0x8000_0000 {
                Some(-crate::decimal::chars_value(d))
            } else {
                None
            }
        } else if crate::decimal::chars_value(d) <= 0x7FFF_FFFF {
            Some(crate::decimal::chars_value(d) as int)
        } else {
            None
        }
    } else {
        None
    }
}

/// The pid a pid file holds: its text without surrounding white space, read
/// as an `i32`; see `i32_from_chars`.
pub fn pid_from_text(text: &str) -> (r: Option<i32>)
    ensures
        r matches Some(p) ==> i32_from_chars(crate::chars::trim(text@)) == Some(p as int),
        r is None ==> i32_from_chars(crate::chars::trim(text@)) is None,
{
    let t = crate::chars::trimmed(&chars_of(text));
    let neg = t.len() > 0 && t[0] == '-';
    let signed = t.len() > 0 && (t[0] == '-' || t[0] == '+');
    let mut d: Vec<char> = Vec::new();
    let mut i: usize = if signed { 1 } else { 0 };
    let start = i;
    while i < t.len()
        invariant
            start <= i <= t@.len(),
            start == (if signed { 1usize } else { 0usize }),
            d@ == t@.subrange(start as int, i as int),
        decreases t@.len() - i,
    {
        d.push(t[i]);
        i = i + 1;
        assert(d@ =~= t@.subrange(start as int, i as int));
    }
    assert(d@ =~= (if signed { t@.drop_first() } else { t@ }));
    if d.len() == 0 || d[0] == '+' {
        assert(d@.len() > 0 ==> !crate::decimal::is_digit_char(d@[0]));
        return None;
    }
    if neg {
        match crate::decimal::parse_unsigned_chars(&d, 0x8000_0000) {
            Some(v) => {
                let x: i64 = -(v as i64);
                Some(x as i32)
            },
            None => None,
        }
    } else {
        match crate::decimal::parse_unsigned_chars(&d, 0x7FFF_FFFF) {
            Some(v) => Some(v as i32),
            None => None,
        }
    }
}

} // verus!

verus! {

/// Whether the idle daemon shuts down: it has no session and no request came
/// for the whole timeout (`idle_nanos` since the last one).
pub open spec fn idle_exit(session_count: nat, idle_nanos: nat, timeout_secs: nat) -> bool {
    session_count == 0 && idle_nanos >= timeout_secs * 1_000_000_000
}

/// Decides whether the idle daemon shuts down; see `idle_exit`.
pub fn should_exit_idle(session_count: usize, idle_nanos: u128, timeout_secs: u64) -> (r: bool)
    ensures
        r == idle_exit(session_count as nat, idle_nanos as nat, timeout_secs as nat),
{
    session_count == 0 && idle_nanos >= (timeout_secs as u128) * 1_000_000_000
}

} // verus!
