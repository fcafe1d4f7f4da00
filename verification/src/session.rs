//! What a session keeps and reports besides its terminal: the synthetic
//! mouse state (where the cursor was left by the last emitted event, which
//! buttons are held, and the last event), and the plain-text screenshot and
//! scrollback views of its screen.

use vstd::prelude::*;

use crate::chars::{is_white, join_range, join_with, push_str, split_chars, split_on, string_of, trim_end, trimmed_end, views, chars_of};
use crate::clock::now_unix;
use crate::emu::Cell;
use crate::mouse::WireEvent;
use crate::protocol::{CursorPos, MouseButton, MouseEventKind, MouseLastEvent, TermSize};

verus! {

/// The library's record of a session's synthetic mouse.
#[derive(Debug, Clone)]
pub struct MouseTracker {
    pub cursor: Option<CursorPos>,
    /// Buttons pressed and not yet released, in the order first pressed.
    pub buttons_held: Vec<MouseButton>,
    pub last_event: Option<MouseLastEvent>,
}

impl Default for MouseTracker {
    /// No cursor, nothing held, no event yet.
    fn default() -> (t: Self)
        ensures
            t.cursor is None,
            t.buttons_held@.len() == 0,
            t.last_event is None,
    {
        MouseTracker { cursor: None, buttons_held: Vec::new(), last_event: None }
    }
}

/// Held buttons after pressing `b`: appended unless already held.
pub open spec fn press_held(held: Seq<MouseButton>, b: MouseButton) -> Seq<MouseButton> {
    if held.contains(b) {
        held
    } else {
        held.push(b)
    }
}

/// Held buttons after releasing `b`: every occurrence removed, order kept.
pub open spec fn release_held(held: Seq<MouseButton>, b: MouseButton) -> Seq<MouseButton>
    decreases held.len(),
{
    if held.len() == 0 {
        held
    } else if held.last() == b {
        release_held(held.drop_last(), b)
    } else {
        release_held(held.drop_last(), b).push(held.last())
    }
}

/// No button occurs twice.
pub open spec fn no_duplicates(held: Seq<MouseButton>) -> bool {
    forall|i: int, j: int| 0 <= i < j < held.len() ==> held[i] != held[j]
}

/// The cursor after an event: positional events move it, the wheel does not.
pub open spec fn event_cursor(cur: Option<CursorPos>, e: WireEvent) -> Option<CursorPos> {
    match e {
        WireEvent::Scroll { .. } => cur,
        _ => Some(CursorPos { row: crate::mouse::event_coords(e).1, col: crate::mouse::event_coords(e).0 }),
    }
}

/// The held buttons after an event.
pub open spec fn event_held(held: Seq<MouseButton>, e: WireEvent) -> Seq<MouseButton> {
    match e {
        WireEvent::Down { button, .. } => press_held(held, button),
        WireEvent::Up { button, .. } => release_held(held, button),
        _ => held,
    }
}

/// The record of event `e` written at time `ts`.
pub open spec fn event_record(e: WireEvent, ts: u64) -> MouseLastEvent {
    match e {
        WireEvent::Down { col, row, button, mods } => MouseLastEvent {
            kind: MouseEventKind::Down, col, row, button: Some(button), scroll_dir: None, mods, ts_unix: ts },
        WireEvent::Up { col, row, button, mods } => MouseLastEvent {
            kind: MouseEventKind::Up, col, row, button: Some(button), scroll_dir: None, mods, ts_unix: ts },
        WireEvent::Move { col, row, mods } => MouseLastEvent {
            kind: MouseEventKind::Move, col, row, button: None, scroll_dir: None, mods, ts_unix: ts },
        WireEvent::DragMove { col, row, button, mods } => MouseLastEvent {
            kind: MouseEventKind::DragMove, col, row, button: Some(button), scroll_dir: None, mods, ts_unix: ts },
        WireEvent::Scroll { col, row, dir, mods } => MouseLastEvent {
            kind: MouseEventKind::Scroll, col, row, button: None, scroll_dir: Some(dir), mods, ts_unix: ts },
    }
}

/// The cursor after a sequence of events.
pub open spec fn cursor_after(cur: Option<CursorPos>, es: Seq<WireEvent>) -> Option<CursorPos>
    decreases es.len(),
{
    if es.len() == 0 {
        cur
    } else {
        event_cursor(cursor_after(cur, es.drop_last()), es.last())
    }
}

/// The held buttons after a sequence of events.
pub open spec fn held_after(held: Seq<MouseButton>, es: Seq<WireEvent>) -> Seq<MouseButton>
    decreases es.len(),
{
    if es.len() == 0 {
        held
    } else {
        event_held(held_after(held, es.drop_last()), es.last())
    }
}

/// Whether a cursor lies inside a terminal of the given size.
pub open spec fn cursor_fits(cur: Option<CursorPos>, size: TermSize) -> bool {
    match cur {
        None => true,
        Some(p) => p.col < size.cols && p.row < size.rows,
    }
}

impl MouseTracker {
    /// Buttons are held at most once each.
    pub open spec fn wf(&self) -> bool {
        no_duplicates(self.buttons_held@)
    }

    /// Moves the synthetic cursor to `(col, row)`.
    pub fn record_position(&mut self, col: u16, row: u16)
        ensures
            final(self).cursor == Some(CursorPos { row, col }),
            final(self).buttons_held@ == old(self).buttons_held@,
            final(self).last_event == old(self).last_event,
    {
        self.cursor = Some(CursorPos { row, col });
    }

    /// Marks `button` held (once).
    pub fn press(&mut self, button: MouseButton)
        ensures
            final(self).buttons_held@ == press_held(old(self).buttons_held@, button),
            final(self).cursor == old(self).cursor,
            final(self).last_event == old(self).last_event,
    {
        let mut i: usize = 0;
        while i < self.buttons_held.len()
            invariant
                i <= self.buttons_held@.len(),
                self.buttons_held@ == old(self).buttons_held@,
                self.cursor == old(self).cursor,
                self.last_event == old(self).last_event,
                forall|j: int| 0 <= j < i ==> self.buttons_held@[j] != button,
            decreases self.buttons_held@.len() - i,
        {
            if self.buttons_held[i] == button {
                assert(self.buttons_held@.contains(button));
                return;
            }
            i = i + 1;
        }
        assert(!self.buttons_held@.contains(button));
        self.buttons_held.push(button);
    }

    /// Marks `button` released.
    pub fn release(&mut self, button: MouseButton)
        ensures
            final(self).buttons_held@ == release_held(old(self).buttons_held@, button),
            final(self).cursor == old(self).cursor,
            final(self).last_event == old(self).last_event,
    {
        let mut kept: Vec<MouseButton> = Vec::new();
        let mut i: usize = 0;
        let ghost held = self.buttons_held@;
        assert(held.take(0) =~= Seq::<MouseButton>::empty());
        while i < self.buttons_held.len()
            invariant
                i <= held.len(),
                self.buttons_held@ == held,
                held == old(self).buttons_held@,
                self.cursor == old(self).cursor,
                self.last_event == old(self).last_event,
                kept@ == release_held(held.take(i as int), button),
            decreases held.len() - i,
        {
            let b = self.buttons_held[i];
            assert(held.take(i + 1).drop_last() =~= held.take(i as int));
            assert(held.take(i + 1).last() == b);
            if b != button {
                kept.push(b);
            }
            i = i + 1;
        }
        assert(held.take(held.len() as int) =~= held);
        self.buttons_held = kept;
    }

    /// Forgets the cursor if it lies outside a terminal of size `size`.
    pub fn clamp_to_size(&mut self, size: &TermSize)
        ensures
            final(self).cursor == (if cursor_fits(old(self).cursor, *size) { old(self).cursor } else { None }),
            final(self).buttons_held@ == old(self).buttons_held@,
            final(self).last_event == old(self).last_event,
    {
        if let Some(pos) = self.cursor {
            if pos.col >= size.cols || pos.row >= size.rows {
                self.cursor = None;
            }
        }
    }
}

/// Records in `tracker` the events just written to the terminal: positional
/// events move the cursor, presses and releases update the held buttons, and
/// the last event is kept with the time it was recorded.
pub fn update_tracker(tracker: &mut MouseTracker, events: &[WireEvent])
    ensures
        final(tracker).cursor == cursor_after(old(tracker).cursor, events@),
        final(tracker).buttons_held@ == held_after(old(tracker).buttons_held@, events@),
        events@.len() == 0 ==> final(tracker).last_event == old(tracker).last_event,
        events@.len() > 0 ==> (final(tracker).last_event matches Some(le) && le == event_record(
            events@.last(),
            le.ts_unix,
        )),
{
    let mut i: usize = 0;
    let ghost c0 = tracker.cursor;
    let ghost h0 = tracker.buttons_held@;
    assert(events@.take(0) =~= Seq::<WireEvent>::empty());
    while i < events.len()
        invariant
            i <= events@.len(),
            c0 == old(tracker).cursor,
            h0 == old(tracker).buttons_held@,
            tracker.cursor == cursor_after(c0, events@.take(i as int)),
            tracker.buttons_held@ == held_after(h0, events@.take(i as int)),
            i == 0 ==> tracker.last_event == old(tracker).last_event,
            i > 0 ==> (tracker.last_event matches Some(le) && le == event_record(events@[i - 1], le.ts_unix)),
        decreases events@.len() - i,
    {
        let ev = events[i];
        assert(events@.take(i + 1).drop_last() =~= events@.take(i as int));
        assert(events@.take(i + 1).last() == ev);
        let ts = now_unix();
        match ev {
            WireEvent::Down { col, row, button, mods } => {
                tracker.record_position(col, row);
                tracker.press(button);
                tracker.last_event = Some(MouseLastEvent {
                    kind: MouseEventKind::Down, col, row, button: Some(button), scroll_dir: None, mods, ts_unix: ts });
            },
            WireEvent::Up { col, row, button, mods } => {
                tracker.record_position(col, row);
                tracker.release(button);
                tracker.last_event = Some(MouseLastEvent {
                    kind: MouseEventKind::Up, col, row, button: Some(button), scroll_dir: None, mods, ts_unix: ts });
            },
            WireEvent::Move { col, row, mods } => {
                tracker.record_position(col, row);
                tracker.last_event = Some(MouseLastEvent {
                    kind: MouseEventKind::Move, col, row, button: None, scroll_dir: None, mods, ts_unix: ts });
            },
            WireEvent::DragMove { col, row, button, mods } => {
                tracker.record_position(col, row);
                tracker.last_event = Some(MouseLastEvent {
                    kind: MouseEventKind::DragMove, col, row, button: Some(button), scroll_dir: None, mods, ts_unix: ts });
            },
            WireEvent::Scroll { col, row, dir, mods } => {
                tracker.last_event = Some(MouseLastEvent {
                    kind: MouseEventKind::Scroll, col, row, button: None, scroll_dir: Some(dir), mods, ts_unix: ts });
            },
        }
        i = i + 1;
    }
    assert(events@.take(events@.len() as int) =~= events@);
}

} // verus!

verus! {

/// Releasing a button removes exactly that button: it is no longer held and
/// every other button keeps its held status.
pub proof fn law_release_removes_only_that_button(held: Seq<MouseButton>, b: MouseButton)
    ensures
        !release_held(held, b).contains(b),
        forall|x: MouseButton| x != b ==> (release_held(held, b).contains(x) <==> held.contains(x)),
    decreases held.len(),
{
    if held.len() > 0 {
        law_release_removes_only_that_button(held.drop_last(), b);
        let prev = release_held(held.drop_last(), b);
        assert forall|x: MouseButton| x != b implies (release_held(held, b).contains(x) <==> held.contains(x)) by {
            if held.contains(x) {
                let k = choose|k: int| 0 <= k < held.len() && held[k] == x;
                if k < held.len() - 1 {
                    assert(held.drop_last()[k] == x);
                    assert(held.drop_last().contains(x));
                }
            }
            if held.drop_last().contains(x) {
                let k = choose|k: int| 0 <= k < held.drop_last().len() && held.drop_last()[k] == x;
                assert(held[k] == x);
            }
            if held.last() != b {
                assert(release_held(held, b) == prev.push(held.last()));
                if prev.push(held.last()).contains(x) {
                    let k = choose|k: int| 0 <= k < prev.len() + 1 && prev.push(held.last())[k] == x;
                    if k < prev.len() {
                        assert(prev[k] == x);
                    }
                }
                if prev.contains(x) {
                    let k = choose|k: int| 0 <= k < prev.len() && prev[k] == x;
                    assert(prev.push(held.last())[k] == x);
                }
                assert(prev.push(held.last())[prev.len() as int] == held.last());
            }
        }
        if held.last() != b {
            if prev.push(held.last()).contains(b) {
                let k = choose|k: int| 0 <= k < prev.len() + 1 && prev.push(held.last())[k] == b;
                if k < prev.len() {
                    assert(prev[k] == b);
                }
            }
        }
    }
}

/// Releasing keeps the held buttons free of duplicates.
pub proof fn law_release_keeps_no_duplicates(held: Seq<MouseButton>, b: MouseButton)
    requires
        no_duplicates(held),
    ensures
        no_duplicates(release_held(held, b)),
    decreases held.len(),
{
    if held.len() > 0 {
        assert(no_duplicates(held.drop_last())) by {
            assert forall|i: int, j: int| 0 <= i < j < held.drop_last().len() implies held.drop_last()[i]
                != held.drop_last()[j] by {
                assert(held[i] != held[j]);
            }
        }
        law_release_keeps_no_duplicates(held.drop_last(), b);
        if held.last() != b {
            let prev = release_held(held.drop_last(), b);
            law_release_removes_only_that_button(held.drop_last(), b);
            assert(!held.drop_last().contains(held.last())) by {
                if held.drop_last().contains(held.last()) {
                    let k = choose|k: int| 0 <= k < held.drop_last().len() && held.drop_last()[k] == held.last();
                    assert(held[k] == held[held.len() - 1]);
                }
            }
            assert(!prev.contains(held.last()));
            let s = prev.push(held.last());
            assert forall|i: int, j: int| 0 <= i < j < s.len() implies s[i] != s[j] by {
                if j == s.len() - 1 {
                    assert(prev.contains(s[i]) ==> s[i] != held.last());
                    assert(s[i] == prev[i]);
                    if s[i] == s[j] {
                        assert(prev.contains(held.last()));
                    }
                } else {
                    assert(s[i] == prev[i] && s[j] == prev[j]);
                }
            }
        }
    }
}

/// Pressing keeps the held buttons free of duplicates.
pub proof fn law_press_keeps_no_duplicates(held: Seq<MouseButton>, b: MouseButton)
    requires
        no_duplicates(held),
    ensures
        no_duplicates(press_held(held, b)),
{
    if !held.contains(b) {
        let s = held.push(b);
        assert forall|i: int, j: int| 0 <= i < j < s.len() implies s[i] != s[j] by {
            if j == s.len() - 1 {
                if s[i] == s[j] {
                    assert(held[i] == b);
                }
            } else {
                assert(s[i] == held[i] && s[j] == held[j]);
            }
        }
    }
}

/// Releasing a button that is not held changes nothing.
pub proof fn law_release_unheld_is_identity(held: Seq<MouseButton>, b: MouseButton)
    requires
        !held.contains(b),
    ensures
        release_held(held, b) == held,
    decreases held.len(),
{
    if held.len() > 0 {
        assert(!held.drop_last().contains(b)) by {
            if held.drop_last().contains(b) {
                let k = choose|k: int| 0 <= k < held.drop_last().len() && held.drop_last()[k] == b;
                assert(held[k] == b);
            }
        }
        law_release_unheld_is_identity(held.drop_last(), b);
        assert(held.last() != b) by {
            assert(held[held.len() - 1] == held.last());
        }
        assert(held.drop_last().push(held.last()) =~= held);
    }
}

/// A press followed by the release of the same button leaves the held
/// buttons as the release alone would; from a state where the button was not
/// held, exactly as before the press.
pub proof fn law_press_then_release(held: Seq<MouseButton>, b: MouseButton)
    ensures
        release_held(press_held(held, b), b) == release_held(held, b),
        !held.contains(b) ==> release_held(press_held(held, b), b) == held,
{
    if !held.contains(b) {
        assert(held.push(b).drop_last() =~= held);
        assert(held.push(b).last() == b);
        law_release_unheld_is_identity(held, b);
    }
}

/// A click (press and release of the same button at one cell) leaves the
/// button not held and the cursor on that cell.
pub proof fn law_click_leaves_button_released(
    held: Seq<MouseButton>,
    cur: Option<CursorPos>,
    col: u16,
    row: u16,
    button: MouseButton,
    mods: crate::protocol::MouseMods,
)
    ensures
        ({
            let es = seq![
                WireEvent::Down { col, row, button, mods },
                WireEvent::Up { col, row, button, mods },
            ];
            &&& !held_after(held, es).contains(button)
            &&& cursor_after(cur, es) == Some(CursorPos { row, col })
            &&& (!held.contains(button) ==> held_after(held, es) == held)
        }),
{
    let es = seq![WireEvent::Down { col, row, button, mods }, WireEvent::Up { col, row, button, mods }];
    assert(es.drop_last().drop_last() =~= Seq::<WireEvent>::empty());
    assert(es.drop_last() =~= seq![WireEvent::Down { col, row, button, mods }]);
    assert(held_after(held, es.drop_last().drop_last()) == held);
    assert(held_after(held, es.drop_last()) == press_held(held, button));
    assert(held_after(held, es) == release_held(press_held(held, button), button));
    assert(cursor_after(cur, es.drop_last()) == Some(CursorPos { row, col }));
    law_press_then_release(held, button);
    law_release_removes_only_that_button(press_held(held, button), button);
}

/// Wheel events never move the synthetic cursor.
pub proof fn law_scroll_keeps_cursor(cur: Option<CursorPos>, es: Seq<WireEvent>)
    requires
        forall|i: int| 0 <= i < es.len() ==> #[trigger] es[i] is Scroll,
    ensures
        cursor_after(cur, es) == cur,
    decreases es.len(),
{
    if es.len() > 0 {
        assert(es.last() == es[es.len() - 1]);
        assert forall|i: int| 0 <= i < es.drop_last().len() implies #[trigger] es.drop_last()[i] is Scroll by {
            assert(es.drop_last()[i] == es[i]);
        }
        law_scroll_keeps_cursor(cur, es.drop_last());
    }
}

/// Processing events in two batches is processing them in one.
pub proof fn law_tracker_batches_compose(
    cur: Option<CursorPos>,
    held: Seq<MouseButton>,
    a: Seq<WireEvent>,
    b: Seq<WireEvent>,
)
    ensures
        cursor_after(cur, a + b) == cursor_after(cursor_after(cur, a), b),
        held_after(held, a + b) == held_after(held_after(held, a), b),
    decreases b.len(),
{
    if b.len() == 0 {
        assert(a + b =~= a);
    } else {
        assert((a + b).drop_last() =~= a + b.drop_last());
        assert((a + b).last() == b.last());
        law_tracker_batches_compose(cur, held, a, b.drop_last());
    }
}

/// After clamping, the cursor lies inside the terminal; a cursor that already
/// did is kept.
pub proof fn law_clamp_fits(cur: Option<CursorPos>, size: TermSize)
    ensures
        cursor_fits(if cursor_fits(cur, size) { cur } else { None }, size),
{
}

} // verus!

verus! {

/// One character per column for the first `n` cells, a space for an empty
/// cell.
pub open spec fn row_plain(cells: Seq<Cell>, n: nat) -> Seq<char>
    decreases n,
{
    if n == 0 {
        Seq::empty()
    } else {
        row_plain(cells, (n - 1) as nat) + (if cells[n - 1].text().len() == 0 {
            " "@
        } else {
            cells[n - 1].text()
        })
    }
}

/// `lines` without its trailing empty lines.
pub open spec fn drop_blank_tail(lines: Seq<Seq<char>>) -> Seq<Seq<char>>
    decreases lines.len(),
{
    if lines.len() > 0 && lines.last().len() == 0 {
        drop_blank_tail(lines.drop_last())
    } else {
        lines
    }
}

/// Row `r` of the screen as plain text without trailing white space.
pub open spec fn screen_line(grid: Seq<Vec<Cell>>, r: int) -> Seq<char> {
    trim_end(row_plain(grid[r]@, grid[r]@.len()))
}

/// The screen as plain text: each row without trailing white space, empty
/// rows at the bottom left out, rows joined by newlines.
pub open spec fn screen_text(grid: Seq<Vec<Cell>>) -> Seq<char> {
    join_with(drop_blank_tail(Seq::new(grid.len(), |r: int| screen_line(grid, r))), "\n"@)
}

/// The screen's contents as plain text; see `screen_text`.
pub fn screenshot_text(grid: &Vec<Vec<Cell>>) -> (r: String)
    ensures
        r@ == screen_text(grid@),
{
    let mut lines: Vec<Vec<char>> = Vec::new();
    let mut row: usize = 0;
    while row < grid.len()
        invariant
            row <= grid@.len(),
            views(lines@) =~= Seq::new(row as nat, |r: int| screen_line(grid@, r)),
        decreases grid@.len() - row,
    {
        let cells = &grid[row];
        let mut line: Vec<char> = Vec::new();
        let mut c: usize = 0;
        while c < cells.len()
            invariant
                c <= cells@.len(),
                line@ == row_plain(cells@, c as nat),
            decreases cells@.len() - c,
        {
            let t = cells[c].contents();
            if t.unicode_len() == 0 {
                push_str(&mut line, " ");
            } else {
                push_str(&mut line, t);
            }
            c = c + 1;
        }
        let trimmed = trimmed_end(&line);
        assert(trimmed@ == screen_line(grid@, row as int));
        let ghost before = views(lines@);
        lines.push(trimmed);
        assert(views(lines@) =~= before.push(screen_line(grid@, row as int)));
        row = row + 1;
    }
    let ghost all = views(lines@);
    let mut n = lines.len();
    assert(all.take(n as int) =~= all);
    while n > 0 && lines[n - 1].len() == 0
        invariant
            n <= lines@.len(),
            all == views(lines@),
            drop_blank_tail(all.take(n as int)) == drop_blank_tail(all),
        decreases n,
    {
        assert(all.take(n as int).drop_last() =~= all.take(n - 1));
        n = n - 1;
    }
    assert(drop_blank_tail(all.take(n as int)) == all.take(n as int));
    assert(all.subrange(0, n as int) =~= all.take(n as int));
    let joined = join_range(&lines, 0, n, "\n");
    string_of(&joined)
}

proof fn lemma_drop_blank_tail_last(lines: Seq<Seq<char>>)
    ensures
        drop_blank_tail(lines).len() > 0 ==> drop_blank_tail(lines).last().len() > 0,
        forall|i: int| 0 <= i < drop_blank_tail(lines).len() ==> #[trigger] drop_blank_tail(lines)[i] == lines[i],
        drop_blank_tail(lines).len() <= lines.len(),
    decreases lines.len(),
{
    if lines.len() > 0 && lines.last().len() == 0 {
        lemma_drop_blank_tail_last(lines.drop_last());
    }
}

proof fn lemma_trim_end_last(s: Seq<char>)
    ensures
        trim_end(s).len() > 0 ==> !is_white(trim_end(s).last()),
    decreases s.len(),
{
    if s.len() > 0 && is_white(s.last()) {
        lemma_trim_end_last(s.drop_last());
    }
}

proof fn lemma_join_last(parts: Seq<Seq<char>>, sep: Seq<char>)
    requires
        parts.len() > 0,
        parts.last().len() > 0,
    ensures
        join_with(parts, sep).len() > 0,
        join_with(parts, sep).last() == parts.last().last(),
{
}

/// A screenshot's text never ends in white space: trailing blanks of each
/// row and empty rows at the bottom are gone.
pub proof fn law_screen_text_has_no_trailing_space(grid: Seq<Vec<Cell>>)
    ensures
        screen_text(grid).len() > 0 ==> !is_white(screen_text(grid).last()),
{
    let lines = Seq::new(grid.len(), |r: int| screen_line(grid, r));
    let kept = drop_blank_tail(lines);
    lemma_drop_blank_tail_last(lines);
    if kept.len() > 0 {
        let k = kept.len() - 1;
        assert(kept[k] == lines[k]);
        assert(lines[k] == screen_line(grid, k));
        lemma_trim_end_last(row_plain(grid[k]@, grid[k]@.len()));
        lemma_join_last(kept, "\n"@);
    }
}

} // verus!

verus! {

/// `p` without one trailing carriage return.
pub open spec fn strip_cr(p: Seq<char>) -> Seq<char> {
    if p.len() > 0 && p.last() == '\r' {
        p.drop_last()
    } else {
        p
    }
}

/// The lines of `s` as `str::lines` yields them: split at each newline, a
/// carriage return just before a newline dropped, and no empty line after a
/// final newline.
pub open spec fn text_lines(s: Seq<char>) -> Seq<Seq<char>> {
    let parts = split_on(s, '\n');
    let body = parts.drop_last().map_values(|p: Seq<char>| strip_cr(p));
    if parts.last().len() == 0 {
        body
    } else {
        body.push(parts.last())
    }
}

/// The last `n` lines of `s` joined by newlines, or `s` itself when no count
/// is given.
pub open spec fn tail_text(s: Seq<char>, n: Option<usize>) -> Seq<char> {
    match n {
        Some(k) => {
            let all = text_lines(s);
            let start = if all.len() > k { all.len() - k } else { 0 };
            join_with(all.subrange(start, all.len() as int), "\n"@)
        },
        None => s,
    }
}

fn without_cr(p: &Vec<char>) -> (r: Vec<char>)
    ensures
        r@ == strip_cr(p@),
{
    let mut q = p.clone();
    if q.len() > 0 && q[q.len() - 1] == '\r' {
        q.pop();
    }
    q
}

/// The scrollback as text: the last `lines` lines of `full`, or all of it;
/// see `tail_text`.
pub fn scrollback_tail(full: &str, lines: Option<usize>) -> (r: String)
    ensures
        r@ == tail_text(full@, lines),
{
    match lines {
        None => full.to_owned(),
        Some(k) => {
            let v = chars_of(full);
            let parts = split_chars(&v, '\n');
            proof {
                crate::chars::lemma_split_nonempty(full@, '\n');
            }
            let ghost ps = split_on(full@, '\n');
            let mut all: Vec<Vec<char>> = Vec::new();
            let mut i: usize = 0;
            assert(parts@.len() >= 1);
            while i < parts.len() - 1
                invariant
                    parts@.len() >= 1,
                    i + 1 <= parts@.len(),
                    views(parts@) == ps,
                    views(all@) =~= ps.take(i as int).map_values(|p: Seq<char>| strip_cr(p)),
                decreases parts@.len() - i,
            {
                let ghost before = views(all@);
                all.push(without_cr(&parts[i]));
                assert(ps.take(i + 1) =~= ps.take(i as int).push(ps[i as int]));
                assert(views(all@) =~= before.push(strip_cr(ps[i as int])));
                i = i + 1;
            }
            assert(ps.take(i as int) =~= ps.drop_last());
            let last = &parts[parts.len() - 1];
            if last.len() > 0 {
                all.push(last.clone());
            }
            assert(views(all@) =~= text_lines(full@));
            let n = all.len();
            let start = if n > k { n - k } else { 0 };
            let joined = join_range(&all, start, n, "\n");
            string_of(&joined)
        },
    }
}

} // verus!

verus! {

/// What a non-blocking wait for a session's child reported.
#[derive(Debug, Clone, Copy, PartialEq, Eq, Structural)]
pub enum WaitOutcome {
    /// The child is still running.
    StillAlive,
    /// The child exited with a status code.
    Exited { code: i32 },
    /// The child was killed by a signal.
    Signaled { signal: u8 },
    /// The wait reported something else (stopped, continued).
    Other,
    /// The wait itself failed: the child is gone.
    Failed,
}

/// A session's (alive, exit code) after a wait outcome: an exit records its
/// code, a fatal signal records 128 plus the signal number, a failed wait
/// marks the session dead without a code; a dead session stays as it was.
pub open spec fn status_after(alive: bool, exit_code: Option<i32>, outcome: WaitOutcome) -> (bool, Option<i32>) {
    if !alive {
        (alive, exit_code)
    } else {
        match outcome {
            WaitOutcome::Exited { code } => (false, Some(code)),
            WaitOutcome::Signaled { signal } => (false, Some((128 + signal) as i32)),
            WaitOutcome::Failed => (false, exit_code),
            _ => (true, exit_code),
        }
    }
}

/// The session's status after a wait; see `status_after`.
pub fn child_status(alive: bool, exit_code: Option<i32>, outcome: WaitOutcome) -> (r: (bool, Option<i32>))
    ensures
        r == status_after(alive, exit_code, outcome),
{
    if !alive {
        return (alive, exit_code);
    }
    match outcome {
        WaitOutcome::Exited { code } => (false, Some(code)),
        WaitOutcome::Signaled { signal } => (false, Some(128 + signal as i32)),
        WaitOutcome::Failed => (false, exit_code),
        _ => (true, exit_code),
    }
}

} // verus!
