//! The human-readable reports the command-line client prints.

use vstd::prelude::*;

use crate::actions::{mode_name, push_mode_name};
use crate::chars::{dec, debug_quoted, join_with, push_dec, push_str, quoted, string_of};
use crate::mouse_cmd::{mods_text, mods_to_str};
use crate::protocol::{
    CursorPos, MouseButton, MouseEncoding, MouseEventKind, MouseLastEvent, MouseMode, ScrollDir, SessionInfo, TermSize,
};

verus! {

/// `n` in decimal, with a minus sign when negative.
pub open spec fn signed_dec(n: int) -> Seq<char> {
    if n < 0 {
        "-"@ + dec((-n) as nat)
    } else {
        dec(n as nat)
    }
}

fn push_signed(out: &mut Vec<char>, n: i32)
    ensures
        final(out)@ == old(out)@ + signed_dec(n as int),
{
    if n < 0 {
        push_str(out, "-");
        let m: i64 = -(n as i64);
        push_dec(out, m as u64);
    } else {
        push_dec(out, n as u64);
    }
}

/// `s` followed by spaces up to `w` characters, as `{:<w}` formats it.
pub open spec fn left_aligned(s: Seq<char>, w: nat) -> Seq<char> {
    if s.len() < w {
        s + Seq::new((w - s.len()) as nat, |i: int| ' ')
    } else {
        s
    }
}

fn push_left_aligned(out: &mut Vec<char>, s: &Vec<char>, w: usize)
    ensures
        final(out)@ == old(out)@ + left_aligned(s@, w as nat),
{
    let mut t = s.clone();
    out.append(&mut t);
    if s.len() < w {
        let mut k: usize = 0;
        let ghost base = out@;
        while k < w - s.len()
            invariant
                s@.len() < w,
                k <= w - s@.len(),
                base == old(out)@ + s@,
                out@ == base + Seq::new(k as nat, |i: int| ' '),
            decreases w - s@.len() - k,
        {
            out.push(' ');
            k = k + 1;
            assert(out@ =~= base + Seq::new(k as nat, |i: int| ' '));
        }
    }
    assert(final(out)@ =~= old(out)@ + left_aligned(s@, w as nat));
}

/// A session's state: `alive`, or `exited(code)` (-1 when unknown).
pub open spec fn status_word(alive: bool, exit_code: Option<i32>) -> Seq<char> {
    if alive {
        "alive"@
    } else {
        "exited("@ + signed_dec(
            match exit_code {
                Some(c) => c as int,
                None => -1,
            },
        ) + ")"@
    }
}

fn status_chars(alive: bool, exit_code: Option<i32>) -> (r: Vec<char>)
    ensures
        r@ == status_word(alive, exit_code),
{
    let mut out: Vec<char> = Vec::new();
    if alive {
        push_str(&mut out, "alive");
    } else {
        push_str(&mut out, "exited(");
        push_signed(
            &mut out,
            match exit_code {
                Some(c) => c,
                None => -1,
            },
        );
        push_str(&mut out, ")");
    }
    out
}

/// One row of the session table: name, pid and state in columns of 20, 10
/// and 10 characters, then the size.
pub open spec fn session_row(s: SessionInfo) -> Seq<char> {
    left_aligned(s.name@, 20) + " "@ + left_aligned(dec(s.pid as nat), 10) + " "@ + left_aligned(
        status_word(s.alive, s.exit_code),
        10,
    ) + " "@ + dec(s.size.cols as nat) + "x"@ + dec(s.size.rows as nat)
}

/// The session table's heading.
pub open spec fn session_heading() -> Seq<char> {
    left_aligned("NAME"@, 20) + " "@ + left_aligned("PID"@, 10) + " "@ + left_aligned("STATUS"@, 10) + " "@
        + left_aligned("SIZE"@, 10)
}

/// The lines `tu list` prints: a note when there is no session, otherwise a
/// heading and one row per session.
pub open spec fn session_list_text(sessions: Seq<SessionInfo>) -> Seq<Seq<char>> {
    if sessions.len() == 0 {
        seq!["No active sessions."@]
    } else {
        seq![session_heading()] + sessions.map_values(|s: SessionInfo| session_row(s))
    }
}

fn row_chars(s: &SessionInfo) -> (r: Vec<char>)
    ensures
        r@ == session_row(*s),
{
    let mut out: Vec<char> = Vec::new();
    push_left_aligned(&mut out, &crate::chars::chars_of(s.name.as_str()), 20);
    push_str(&mut out, " ");
    let mut pid: Vec<char> = Vec::new();
    push_dec(&mut pid, s.pid as u64);
    assert(pid@ =~= dec(s.pid as nat));
    push_left_aligned(&mut out, &pid, 10);
    push_str(&mut out, " ");
    push_left_aligned(&mut out, &status_chars(s.alive, s.exit_code), 10);
    push_str(&mut out, " ");
    push_dec(&mut out, s.size.cols as u64);
    push_str(&mut out, "x");
    push_dec(&mut out, s.size.rows as u64);
    assert(out@ =~= session_row(*s));
    out
}

/// The lines of the session table; see `session_list_text`.
pub fn session_list_lines(sessions: &[SessionInfo]) -> (lines: Vec<String>)
    ensures
        lines@.map_values(|l: String| l@) == session_list_text(sessions@),
{
    let mut lines: Vec<String> = Vec::new();
    if sessions.len() == 0 {
        lines.push("No active sessions.".to_owned());
        assert(lines@.map_values(|l: String| l@) =~= session_list_text(sessions@));
        return lines;
    }
    let mut head: Vec<char> = Vec::new();
    push_left_aligned(&mut head, &crate::chars::chars_of("NAME"), 20);
    push_str(&mut head, " ");
    push_left_aligned(&mut head, &crate::chars::chars_of("PID"), 10);
    push_str(&mut head, " ");
    push_left_aligned(&mut head, &crate::chars::chars_of("STATUS"), 10);
    push_str(&mut head, " ");
    push_left_aligned(&mut head, &crate::chars::chars_of("SIZE"), 10);
    assert(head@ =~= session_heading());
    lines.push(string_of(&head));
    let mut i: usize = 0;
    while i < sessions.len()
        invariant
            i <= sessions@.len(),
            lines@.map_values(|l: String| l@) =~= seq![session_heading()] + sessions@.take(i as int).map_values(
                |s: SessionInfo| session_row(s),
            ),
        decreases sessions@.len() - i,
    {
        let row = row_chars(&sessions[i]);
        let ghost before = lines@.map_values(|l: String| l@);
        lines.push(string_of(&row));
        assert(lines@.map_values(|l: String| l@) =~= before.push(session_row(sessions@[i as int])));
        assert(sessions@.take(i + 1) =~= sessions@.take(i as int).push(sessions@[i as int]));
        assert(sessions@.take(i + 1).map_values(|s: SessionInfo| session_row(s)) =~= sessions@.take(
            i as int,
        ).map_values(|s: SessionInfo| session_row(s)).push(session_row(sessions@[i as int])));
        i = i + 1;
    }
    assert(sessions@.take(i as int) =~= sessions@);
    lines
}

/// The lines `tu status` prints for a session.
pub open spec fn status_text(info: SessionInfo) -> Seq<Seq<char>> {
    seq![
        "Name:   "@ + info.name@,
        "PID:    "@ + dec(info.pid as nat),
        "Status: "@ + status_word(info.alive, info.exit_code),
        "Size:   "@ + dec(info.size.cols as nat) + "x"@ + dec(info.size.rows as nat),
    ]
}

/// The lines of a session's status report; see `status_text`.
pub fn status_lines(info: &SessionInfo) -> (lines: Vec<String>)
    ensures
        lines@.map_values(|l: String| l@) == status_text(*info),
{
    let mut a: Vec<char> = Vec::new();
    push_str(&mut a, "Name:   ");
    push_str(&mut a, info.name.as_str());
    let mut b: Vec<char> = Vec::new();
    push_str(&mut b, "PID:    ");
    push_dec(&mut b, info.pid as u64);
    let mut c: Vec<char> = Vec::new();
    push_str(&mut c, "Status: ");
    let mut st = status_chars(info.alive, info.exit_code);
    c.append(&mut st);
    let mut d: Vec<char> = Vec::new();
    push_str(&mut d, "Size:   ");
    push_dec(&mut d, info.size.cols as u64);
    push_str(&mut d, "x");
    push_dec(&mut d, info.size.rows as u64);
    let mut lines: Vec<String> = Vec::new();
    lines.push(string_of(&a));
    lines.push(string_of(&b));
    lines.push(string_of(&c));
    lines.push(string_of(&d));
    assert(lines@.map_values(|l: String| l@) =~= status_text(*info));
    lines
}

/// What `tu run` prints once the session started.
pub fn session_created_line(name: &str, pid: u32) -> (r: String)
    ensures
        r@ == "Session "@ + debug_quoted(name@) + " started (pid "@ + dec(pid as nat) + ")"@,
{
    let mut out: Vec<char> = Vec::new();
    push_str(&mut out, "Session ");
    push_str(&mut out, quoted(name).as_str());
    push_str(&mut out, " started (pid ");
    push_dec(&mut out, pid as u64);
    push_str(&mut out, ")");
    string_of(&out)
}

/// What `tu cursor` prints: `row,col`.
pub fn cursor_line(pos: CursorPos) -> (r: String)
    ensures
        r@ == dec(pos.row as nat) + ","@ + dec(pos.col as nat),
{
    let mut out: Vec<char> = Vec::new();
    push_dec(&mut out, pos.row as u64);
    push_str(&mut out, ",");
    push_dec(&mut out, pos.col as u64);
    string_of(&out)
}

} // verus!

verus! {

pub open spec fn encoding_name(e: MouseEncoding) -> Seq<char> {
    match e {
        MouseEncoding::Default => "Default"@,
        MouseEncoding::Utf8 => "Utf8"@,
        MouseEncoding::Sgr => "Sgr"@,
    }
}

pub open spec fn kind_name(k: MouseEventKind) -> Seq<char> {
    match k {
        MouseEventKind::Down => "Down"@,
        MouseEventKind::Up => "Up"@,
        MouseEventKind::Move => "Move"@,
        MouseEventKind::DragMove => "DragMove"@,
        MouseEventKind::Scroll => "Scroll"@,
    }
}

pub open spec fn button_word(b: MouseButton) -> Seq<char> {
    match b {
        MouseButton::Left => "left"@,
        MouseButton::Right => "right"@,
        MouseButton::Middle => "middle"@,
    }
}

pub open spec fn dir_word(d: ScrollDir) -> Seq<char> {
    match d {
        ScrollDir::Up => "up"@,
        ScrollDir::Down => "down"@,
        ScrollDir::Left => "left"@,
        ScrollDir::Right => "right"@,
    }
}

/// The last event's details after its position: the button, or else the
/// scroll direction, then the modifiers when any were held.
pub open spec fn event_details(ev: MouseLastEvent) -> Seq<char> {
    (match (ev.button, ev.scroll_dir) {
        (Some(b), _) => " button="@ + button_word(b),
        (None, Some(d)) => " dir="@ + dir_word(d),
        (None, None) => Seq::<char>::empty(),
    }) + (if mods_text(ev.mods).len() == 0 {
        Seq::<char>::empty()
    } else {
        " mods="@ + mods_text(ev.mods)
    })
}

/// The lines `tu mouse state` prints: the reporting mode and encoding (or
/// `disabled`), the synthetic cursor and the screen size, the held buttons,
/// and the last event with the time it was sent.
pub open spec fn mouse_state_text(
    mode: MouseMode,
    encoding: MouseEncoding,
    size: TermSize,
    cursor: Option<CursorPos>,
    held: Seq<MouseButton>,
    last: Option<MouseLastEvent>,
) -> Seq<Seq<char>> {
    seq![
        if mode == MouseMode::Off {
            "disabled"@
        } else {
            "mode="@ + mode_name(mode) + " encoding="@ + encoding_name(encoding)
        },
        "cursor="@ + (match cursor {
            Some(p) => "("@ + dec(p.col as nat) + ","@ + dec(p.row as nat) + ")"@,
            None => "none"@,
        }) + " screensize="@ + dec(size.cols as nat) + "x"@ + dec(size.rows as nat),
        "buttons_held="@ + (if held.len() == 0 {
            "none"@
        } else {
            join_with(held.map_values(|b: MouseButton| button_word(b)), ","@)
        }),
        match last {
            Some(ev) => "last_event="@ + kind_name(ev.kind) + " ("@ + dec(ev.col as nat) + ","@ + dec(ev.row as nat)
                + ")"@ + event_details(ev) + " at "@ + dec(ev.ts_unix as nat),
            None => "last_event=none"@,
        },
    ]
}

fn push_encoding_name(out: &mut Vec<char>, e: MouseEncoding)
    ensures
        final(out)@ == old(out)@ + encoding_name(e),
{
    match e {
        MouseEncoding::Default => push_str(out, "Default"),
        MouseEncoding::Utf8 => push_str(out, "Utf8"),
        MouseEncoding::Sgr => push_str(out, "Sgr"),
    }
}

fn push_kind_name(out: &mut Vec<char>, k: MouseEventKind)
    ensures
        final(out)@ == old(out)@ + kind_name(k),
{
    match k {
        MouseEventKind::Down => push_str(out, "Down"),
        MouseEventKind::Up => push_str(out, "Up"),
        MouseEventKind::Move => push_str(out, "Move"),
        MouseEventKind::DragMove => push_str(out, "DragMove"),
        MouseEventKind::Scroll => push_str(out, "Scroll"),
    }
}

fn push_button_word(out: &mut Vec<char>, b: MouseButton)
    ensures
        final(out)@ == old(out)@ + button_word(b),
{
    match b {
        MouseButton::Left => push_str(out, "left"),
        MouseButton::Right => push_str(out, "right"),
        MouseButton::Middle => push_str(out, "middle"),
    }
}

fn push_dir_word(out: &mut Vec<char>, d: ScrollDir)
    ensures
        final(out)@ == old(out)@ + dir_word(d),
{
    match d {
        ScrollDir::Up => push_str(out, "up"),
        ScrollDir::Down => push_str(out, "down"),
        ScrollDir::Left => push_str(out, "left"),
        ScrollDir::Right => push_str(out, "right"),
    }
}

fn held_chars(held: &[MouseButton]) -> (r: Vec<char>)
    ensures
        r@ == (if held@.len() == 0 {
            "none"@
        } else {
            join_with(held@.map_values(|b: MouseButton| button_word(b)), ","@)
        }),
{
    let mut out: Vec<char> = Vec::new();
    if held.len() == 0 {
        push_str(&mut out, "none");
        return out;
    }
    let ghost words = held@.map_values(|b: MouseButton| button_word(b));
    let mut i: usize = 0;
    while i < held.len()
        invariant
            i <= held@.len(),
            words == held@.map_values(|b: MouseButton| button_word(b)),
            out@ == join_with(words.take(i as int), ","@),
        decreases held@.len() - i,
    {
        let ghost prev = words.take(i as int);
        let ghost next = words.take(i + 1);
        assert(next.drop_last() =~= prev);
        if i > 0 {
            push_str(&mut out, ",");
        }
        push_button_word(&mut out, held[i]);
        proof {
            if i == 0 {
                assert(next.len() == 1);
                assert(out@ =~= next[0]);
            }
        }
        i = i + 1;
    }
    assert(words.take(i as int) =~= words);
    out
}

fn event_chars(ev: &MouseLastEvent) -> (r: Vec<char>)
    ensures
        r@ == "last_event="@ + kind_name(ev.kind) + " ("@ + dec(ev.col as nat) + ","@ + dec(ev.row as nat) + ")"@
            + event_details(*ev) + " at "@ + dec(ev.ts_unix as nat),
{
    let mut out: Vec<char> = Vec::new();
    push_str(&mut out, "last_event=");
    push_kind_name(&mut out, ev.kind);
    push_str(&mut out, " (");
    push_dec(&mut out, ev.col as u64);
    push_str(&mut out, ",");
    push_dec(&mut out, ev.row as u64);
    push_str(&mut out, ")");
    let ghost before = out@;
    match (ev.button, ev.scroll_dir) {
        (Some(b), _) => {
            push_str(&mut out, " button=");
            push_button_word(&mut out, b);
        },
        (None, Some(d)) => {
            push_str(&mut out, " dir=");
            push_dir_word(&mut out, d);
        },
        (None, None) => {},
    }
    let mods = mods_to_str(&ev.mods);
    if mods.as_str().unicode_len() > 0 {
        push_str(&mut out, " mods=");
        push_str(&mut out, mods.as_str());
    }
    assert(out@ =~= before + event_details(*ev));
    push_str(&mut out, " at ");
    push_dec(&mut out, ev.ts_unix);
    out
}

/// The lines of the mouse state report; see `mouse_state_text`.
pub fn mouse_state_lines(
    mode: MouseMode,
    encoding: MouseEncoding,
    size: TermSize,
    cursor: Option<CursorPos>,
    held: &[MouseButton],
    last: Option<MouseLastEvent>,
) -> (lines: Vec<String>)
    ensures
        lines@.map_values(|l: String| l@) == mouse_state_text(mode, encoding, size, cursor, held@, last),
{
    let mut a: Vec<char> = Vec::new();
    if mode == MouseMode::Off {
        push_str(&mut a, "disabled");
    } else {
        push_str(&mut a, "mode=");
        push_mode_name(&mut a, mode);
        push_str(&mut a, " encoding=");
        push_encoding_name(&mut a, encoding);
    }
    let mut b: Vec<char> = Vec::new();
    push_str(&mut b, "cursor=");
    match cursor {
        Some(p) => {
            push_str(&mut b, "(");
            push_dec(&mut b, p.col as u64);
            push_str(&mut b, ",");
            push_dec(&mut b, p.row as u64);
            push_str(&mut b, ")");
        },
        None => push_str(&mut b, "none"),
    }
    push_str(&mut b, " screensize=");
    push_dec(&mut b, size.cols as u64);
    push_str(&mut b, "x");
    push_dec(&mut b, size.rows as u64);
    let mut c: Vec<char> = Vec::new();
    push_str(&mut c, "buttons_held=");
    let mut h = held_chars(held);
    c.append(&mut h);
    let d = match last {
        Some(ev) => event_chars(&ev),
        None => {
            let mut n: Vec<char> = Vec::new();
            push_str(&mut n, "last_event=none");
            n
        },
    };
    let ghost want = mouse_state_text(mode, encoding, size, cursor, held@, last);
    assert(a@ =~= want[0]);
    assert(b@ =~= want[1]);
    assert(c@ =~= want[2]);
    assert(d@ =~= want[3]);
    let mut lines: Vec<String> = Vec::new();
    lines.push(string_of(&a));
    lines.push(string_of(&b));
    lines.push(string_of(&c));
    lines.push(string_of(&d));
    assert(lines@.map_values(|l: String| l@) =~= want);
    lines
}

} // verus!

verus! {

/// What `tu daemon status` prints: whether the daemon runs, with the pid its
/// pid file holds (trimmed) and, when the daemon answered, how many sessions
/// it has.
pub open spec fn daemon_status_text(pid_text: Option<Seq<char>>, sessions: Option<nat>) -> Seq<Seq<char>> {
    match pid_text {
        None => seq!["Daemon is not running."@],
        Some(p) => seq!["Daemon is running (pid "@ + crate::chars::trim(p) + ")."@] + match sessions {
            Some(n) => seq!["Active sessions: "@ + dec(n)],
            None => Seq::<Seq<char>>::empty(),
        },
    }
}

/// The lines of `tu daemon status`; `pid_text` is `None` when no daemon
/// runs; see `daemon_status_text`.
pub fn daemon_status_lines(pid_text: Option<&str>, sessions: Option<usize>) -> (lines: Vec<String>)
    ensures
        lines@.map_values(|l: String| l@) == daemon_status_text(
            match pid_text {
                Some(p) => Some(p@),
                None => None,
            },
            match sessions {
                Some(n) => Some(n as nat),
                None => None,
            },
        ),
{
    let mut lines: Vec<String> = Vec::new();
    match pid_text {
        None => {
            lines.push("Daemon is not running.".to_owned());
        },
        Some(p) => {
            let mut a: Vec<char> = Vec::new();
            push_str(&mut a, "Daemon is running (pid ");
            let mut t = crate::chars::trimmed(&crate::chars::chars_of(p));
            a.append(&mut t);
            push_str(&mut a, ").");
            lines.push(string_of(&a));
            if let Some(n) = sessions {
                let mut b: Vec<char> = Vec::new();
                push_str(&mut b, "Active sessions: ");
                push_dec(&mut b, n as u64);
                lines.push(string_of(&b));
            }
        },
    }
    let ghost want = daemon_status_text(
        match pid_text {
            Some(p) => Some(p@),
            None => None,
        },
        match sessions {
            Some(n) => Some(n as nat),
            None => None,
        },
    );
    assert(lines@.map_values(|l: String| l@) =~= want);
    lines
}

} // verus!
