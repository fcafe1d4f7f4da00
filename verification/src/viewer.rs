//! The live monitor's state between frames: which session is shown, what is
//! on the screen, and when to fetch again. The loop that fetches screens,
//! reads keys and writes to the terminal feeds its observations to these
//! transitions and performs what they return.

use vstd::prelude::*;

use crate::monitor::{
    clamp_index, frame_diff, frame_diff_text, frame_hits, frame_lines, frame_measurable, hit_views, key_action,
    key_outcome, render_frame, texts, Key, KeyOutcome, TabHit,
};
use crate::protocol::CursorPos;

verus! {

/// Milliseconds between two fetches of the shown screen (about 30 frames a
/// second).
pub const FETCH_INTERVAL_MS: u64 = 33;

/// The text of each string of an optional list.
pub open spec fn opt_texts(v: Option<Vec<String>>) -> Option<Seq<Seq<char>>> {
    match v {
        Some(x) => Some(texts(x@)),
        None => None,
    }
}

/// The monitor's state. Times are milliseconds on a clock of the caller's
/// choosing that never goes back.
pub struct Viewer {
    /// Index of the shown session in the session list.
    pub current: usize,
    /// The next frame wipes the screen first.
    pub needs_clear: bool,
    /// The frame on the screen, row by row.
    pub prev_frame: Option<Vec<String>>,
    /// The session's rows as last fetched.
    pub last_rows: Option<Vec<String>>,
    /// When the session's rows last changed.
    pub last_change_ms: u64,
    /// When the screen was last fetched; `None` when a fetch is due now.
    pub last_fetch_ms: Option<u64>,
    /// The terminal's size (columns, rows) the frame was laid out for.
    pub term_size: (u16, u16),
    /// Click regions of the tab bar on the screen.
    pub tab_hits: Vec<TabHit>,
}

/// `new` is `old` set up to redraw everything at once: no rows known, the
/// screen to be wiped, nothing on it to compare with, a fetch due.
pub open spec fn redraw_from_scratch(old: Viewer, new: Viewer) -> bool {
    &&& new.needs_clear
    &&& new.prev_frame is None
    &&& new.last_rows is None
    &&& new.last_change_ms == old.last_change_ms
    &&& new.last_fetch_ms is None
}

/// Whether a rows list shows something the screen did not: anything but the
/// same rows as last fetched.
pub open spec fn rows_changed(last: Option<Seq<Seq<char>>>, rows: Seq<Seq<char>>) -> bool {
    last != Some(rows)
}

/// `c` is a cursor position the frame can draw (its overlay two columns to
/// the right stays within `u16`) and the session list is within the tab
/// bar's reach.
pub open spec fn frame_drawable(session_count: nat, cursor: Option<CursorPos>, sess_cols: u16) -> bool {
    &&& session_count <= 65531
    &&& cursor matches Some(c) ==> (c.col < sess_cols ==> c.col + 2 <= u16::MAX)
}

/// Whole seconds from `since` to `now`, 0 when `now` is earlier.
pub open spec fn secs_between(since: u64, now: u64) -> nat {
    if now >= since {
        ((now - since) / 1000) as nat
    } else {
        0
    }
}

fn same_rows(a: &Vec<String>, b: &Vec<String>) -> (r: bool)
    ensures
        r == (texts(a@) == texts(b@)),
{
    if a.len() != b.len() {
        assert(texts(a@).len() != texts(b@).len());
        return false;
    }
    let mut i: usize = 0;
    while i < a.len()
        invariant
            a@.len() == b@.len(),
            i <= a@.len(),
            forall|j: int| 0 <= j < i ==> a@[j]@ == b@[j]@,
        decreases a@.len() - i,
    {
        if a[i] != b[i] {
            assert(texts(a@)[i as int] != texts(b@)[i as int]);
            return false;
        }
        i = i + 1;
    }
    assert(texts(a@) =~= texts(b@));
    true
}

impl Viewer {
    /// A monitor showing session `current` on a terminal of `term_size`,
    /// with everything still to draw.
    pub fn new(current: usize, term_size: (u16, u16), now_ms: u64) -> (v: Self)
        ensures
            v.current == current,
            v.needs_clear,
            v.prev_frame is None,
            v.last_rows is None,
            v.last_change_ms == now_ms,
            v.last_fetch_ms is None,
            v.term_size == term_size,
            v.tab_hits@.len() == 0,
    {
        Viewer {
            current,
            needs_clear: true,
            prev_frame: None,
            last_rows: None,
            last_change_ms: now_ms,
            last_fetch_ms: None,
            term_size,
            tab_hits: Vec::new(),
        }
    }

    /// Takes note of the terminal's size: a new size means a redraw from
    /// scratch.
    pub fn note_terminal_size(&mut self, size: (u16, u16))
        ensures
            size != old(self).term_size ==> redraw_from_scratch(*old(self), *final(self)) && final(self).term_size
                == size && final(self).current == old(self).current && final(self).tab_hits == old(self).tab_hits,
            size == old(self).term_size ==> *final(self) == *old(self),
    {
        if size.0 != self.term_size.0 || size.1 != self.term_size.1 {
            self.term_size = size;
            self.last_rows = None;
            self.needs_clear = true;
            self.prev_frame = None;
            self.last_fetch_ms = None;
        }
    }

    /// Whether the screen is to be fetched at `now_ms`.
    pub fn fetch_due(&self, now_ms: u64) -> (r: bool)
        ensures
            r == (match self.last_fetch_ms {
                None => true,
                Some(t) => now_ms >= t && now_ms - t >= FETCH_INTERVAL_MS,
            }),
    {
        match self.last_fetch_ms {
            None => true,
            Some(t) => now_ms >= t && now_ms - t >= FETCH_INTERVAL_MS,
        }
    }

    /// Records that a fetch starts at `now_ms`.
    pub fn start_fetch(&mut self, now_ms: u64)
        ensures
            final(self).last_fetch_ms == Some(now_ms),
            final(self).current == old(self).current,
            final(self).needs_clear == old(self).needs_clear,
            final(self).prev_frame == old(self).prev_frame,
            final(self).last_rows == old(self).last_rows,
            final(self).last_change_ms == old(self).last_change_ms,
            final(self).term_size == old(self).term_size,
            final(self).tab_hits == old(self).tab_hits,
    {
        self.last_fetch_ms = Some(now_ms);
    }

    /// There is no session to show: the waiting screen replaces the frame,
    /// so the next frame is drawn on a wiped screen.
    pub fn no_sessions(&mut self)
        ensures
            final(self).needs_clear,
            final(self).prev_frame is None,
            final(self).current == old(self).current,
            final(self).last_rows == old(self).last_rows,
            final(self).last_change_ms == old(self).last_change_ms,
            final(self).last_fetch_ms == old(self).last_fetch_ms,
            final(self).term_size == old(self).term_size,
            final(self).tab_hits == old(self).tab_hits,
    {
        self.needs_clear = true;
        self.prev_frame = None;
    }

    /// Keeps the shown index within a list of `len` sessions.
    pub fn keep_in_range(&mut self, len: usize)
        requires
            len > 0,
        ensures
            final(self).current == (if old(self).current >= len { len - 1 } else { old(self).current as int }),
            final(self).current < len,
            final(self).needs_clear == old(self).needs_clear,
            final(self).prev_frame == old(self).prev_frame,
            final(self).last_rows == old(self).last_rows,
            final(self).last_change_ms == old(self).last_change_ms,
            final(self).last_fetch_ms == old(self).last_fetch_ms,
            final(self).term_size == old(self).term_size,
            final(self).tab_hits == old(self).tab_hits,
    {
        self.current = clamp_index(self.current, len);
    }

    /// The shown session could not be read: redraw from scratch once it can.
    pub fn screen_failed(&mut self)
        ensures
            final(self).last_rows is None,
            final(self).needs_clear,
            final(self).prev_frame is None,
            final(self).current == old(self).current,
            final(self).last_change_ms == old(self).last_change_ms,
            final(self).last_fetch_ms == old(self).last_fetch_ms,
            final(self).term_size == old(self).term_size,
            final(self).tab_hits == old(self).tab_hits,
    {
        self.last_rows = None;
        self.needs_clear = true;
        self.prev_frame = None;
    }

    /// A fetched screen of the shown session (`sessions[current]`): notes
    /// whether its rows changed, and returns what to write to bring the
    /// terminal to the new frame, if the frame can be laid out.
    #[verifier::rlimit(40)]
    pub fn show_screen(
        &mut self,
        sessions: &[String],
        rows_ansi: Vec<String>,
        sess_rows: u16,
        sess_cols: u16,
        mouse_cursor: Option<CursorPos>,
        mouse_held: bool,
        now_ms: u64,
    ) -> (out: Option<String>)
        requires
            old(self).current < sessions@.len(),
        ensures
            ({
                let changed = rows_changed(opt_texts(old(self).last_rows), texts(rows_ansi@));
                let change_ms = if changed { now_ms } else { old(self).last_change_ms };
                let names = texts(sessions@);
                let active = old(self).current as int;
                let lines = frame_lines(
                    names,
                    active,
                    texts(rows_ansi@),
                    sess_rows,
                    sess_cols,
                    old(self).term_size.0,
                    old(self).term_size.1,
                    secs_between(change_ms, now_ms),
                    mouse_cursor,
                    mouse_held,
                );
                let drawn = frame_drawable(sessions@.len(), mouse_cursor, sess_cols) && frame_measurable(
                    names,
                    active,
                    sess_cols,
                    sess_rows,
                );
                &&& final(self).last_change_ms == change_ms
                &&& opt_texts(final(self).last_rows) == Some(texts(rows_ansi@))
                &&& final(self).current == old(self).current
                &&& final(self).last_fetch_ms == old(self).last_fetch_ms
                &&& final(self).term_size == old(self).term_size
                &&& drawn ==> {
                    &&& out matches Some(s)
                    &&& s@ == frame_diff_text(
                        old(self).needs_clear,
                        opt_texts(old(self).prev_frame),
                        lines,
                        names[active],
                    )
                    &&& !final(self).needs_clear
                    &&& opt_texts(final(self).prev_frame) == Some(lines)
                    &&& hit_views(final(self).tab_hits@) == frame_hits(names, active, old(self).term_size.0)
                }
                &&& !drawn ==> {
                    &&& out is None
                    &&& final(self).needs_clear == old(self).needs_clear
                    &&& final(self).prev_frame == old(self).prev_frame
                    &&& final(self).tab_hits == old(self).tab_hits
                }
            }),
    {
        let changed = match &self.last_rows {
            Some(last) => !same_rows(last, &rows_ansi),
            None => true,
        };
        if changed {
            self.last_change_ms = now_ms;
        }
        let secs: u64 = if now_ms >= self.last_change_ms { (now_ms - self.last_change_ms) / 1000 } else { 0 };
        let cursor_fits = match mouse_cursor {
            Some(c) => c.col >= sess_cols || c.col <= u16::MAX - 2,
            None => true,
        };
        let mut out: Option<String> = None;
        if sessions.len() <= 65531 && cursor_fits {
            let frame = render_frame(
                sessions,
                self.current,
                rows_ansi.as_slice(),
                sess_rows,
                sess_cols,
                self.term_size,
                secs,
                mouse_cursor,
                mouse_held,
            );
            if let Some(f) = frame {
                let text = match &self.prev_frame {
                    Some(p) => frame_diff(self.needs_clear, Some(p.as_slice()), f.lines.as_slice(), sessions[self.current].as_str()),
                    None => frame_diff(self.needs_clear, None, f.lines.as_slice(), sessions[self.current].as_str()),
                };
                self.needs_clear = false;
                self.tab_hits = f.tab_hits;
                self.prev_frame = Some(f.lines);
                out = Some(text);
            }
        }
        if changed {
            self.last_rows = Some(rows_ansi);
        }
        out
    }

    /// A key read from the terminal, with the session list as it stands
    /// (for the keys that move to another session): returns whether to leave
    /// the monitor; a switch shows the other session from scratch.
    pub fn handle_key(&mut self, key: Option<Key>, sessions: &[String]) -> (quit: bool)
        ensures
            ({
                let outcome = key_outcome(old(self).current as int, key, texts(sessions@), hit_views(old(self).tab_hits@));
                &&& quit == (outcome == KeyOutcome::Quit)
                &&& outcome matches KeyOutcome::Switch { index } ==> final(self).current == index
                    && redraw_from_scratch(*old(self), *final(self)) && final(self).term_size == old(self).term_size
                    && final(self).tab_hits == old(self).tab_hits
                &&& !(outcome is Switch) ==> *final(self) == *old(self)
            }),
    {
        match key_action(self.current, key, sessions, self.tab_hits.as_slice()) {
            KeyOutcome::Quit => true,
            KeyOutcome::Stay => false,
            KeyOutcome::Switch { index } => {
                self.current = index;
                self.last_rows = None;
                self.needs_clear = true;
                self.prev_frame = None;
                self.last_fetch_ms = None;
                false
            },
        }
    }
}

} // verus!
