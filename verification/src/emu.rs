//! The terminal emulator's screen as the rest of the library reads it: cells
//! with their character, colors and attributes, plus the mouse modes the
//! inner application enabled. The emulator itself runs outside the library
//! and hands cells over in these types.

use vstd::prelude::*;

use crate::chars::{dec, join_range, join_with, push_dec, push_str, string_of, views};

verus! {

/// A cell color: the terminal default, a palette index, or 24-bit RGB.
#[derive(Debug, Clone, Copy, PartialEq, Eq, Structural)]
pub enum Color {
    Default,
    Idx(u8),
    Rgb(u8, u8, u8),
}

/// Mouse reporting the inner application enabled (press-only reporting is
/// reported as `PressRelease`).
#[derive(Debug, Clone, Copy, PartialEq, Eq, Structural)]
pub enum MouseProtocolMode {
    /// No reporting.
    Off,
    PressRelease,
    ButtonMotion,
    AnyMotion,
}

/// Wire encoding of mouse reports.
#[derive(Debug, Clone, Copy, PartialEq, Eq, Structural)]
pub enum MouseProtocolEncoding {
    Default,
    Utf8,
    Sgr,
}

/// One screen cell.
#[derive(Debug, Clone)]
pub struct Cell {
    contents: String,
    fg: Color,
    bg: Color,
    bold: bool,
    italic: bool,
    underline: bool,
    inverse: bool,
    is_wide_continuation: bool,
}

impl Cell {
    /// A cell with the given contents ("" for an empty cell) and attributes.
    pub fn new(
        contents: String,
        fg: Color,
        bg: Color,
        bold: bool,
        italic: bool,
        underline: bool,
        inverse: bool,
        is_wide_continuation: bool,
    ) -> (c: Cell)
        ensures
            c.text() == contents@,
            c.fg_spec() == fg,
            c.bg_spec() == bg,
            c.bold_spec() == bold,
            c.italic_spec() == italic,
            c.underline_spec() == underline,
            c.inverse_spec() == inverse,
            c.wide_continuation_spec() == is_wide_continuation,
    {
        Cell { contents, fg, bg, bold, italic, underline, inverse, is_wide_continuation }
    }

    pub closed spec fn text(&self) -> Seq<char> {
        self.contents@
    }

    pub closed spec fn fg_spec(&self) -> Color {
        self.fg
    }

    pub closed spec fn bg_spec(&self) -> Color {
        self.bg
    }

    pub closed spec fn bold_spec(&self) -> bool {
        self.bold
    }

    pub closed spec fn italic_spec(&self) -> bool {
        self.italic
    }

    pub closed spec fn underline_spec(&self) -> bool {
        self.underline
    }

    pub closed spec fn inverse_spec(&self) -> bool {
        self.inverse
    }

    pub closed spec fn wide_continuation_spec(&self) -> bool {
        self.is_wide_continuation
    }

    /// The characters in the cell; empty for an empty cell.
    pub fn contents(&self) -> (r: &str)
        ensures
            r@ == self.text(),
    {
        self.contents.as_str()
    }

    pub fn fgcolor(&self) -> (r: Color)
        ensures
            r == self.fg_spec(),
    {
        self.fg
    }

    pub fn bgcolor(&self) -> (r: Color)
        ensures
            r == self.bg_spec(),
    {
        self.bg
    }

    pub fn bold(&self) -> (r: bool)
        ensures
            r == self.bold_spec(),
    {
        self.bold
    }

    pub fn italic(&self) -> (r: bool)
        ensures
            r == self.italic_spec(),
    {
        self.italic
    }

    pub fn underline(&self) -> (r: bool)
        ensures
            r == self.underline_spec(),
    {
        self.underline
    }

    pub fn inverse(&self) -> (r: bool)
        ensures
            r == self.inverse_spec(),
    {
        self.inverse
    }

    /// Whether this is the trailing column of a wide character.
    pub fn is_wide_continuation(&self) -> (r: bool)
        ensures
            r == self.wide_continuation_spec(),
    {
        self.is_wide_continuation
    }
}

} // verus!

verus! {

/// A color as the terminal emulator stores it in a cell: one of its named
/// colors (by number: 0-15 the ANSI palette, 256 the default foreground, 257
/// the default background, higher numbers the cursor and dim variants), a
/// 24-bit color, or a palette index.
#[derive(Debug, Clone, Copy, PartialEq, Eq, Structural)]
pub enum TermColor {
    Named(u16),
    Spec(u8, u8, u8),
    Indexed(u8),
}

/// The named default foreground and background colors.
pub const NAMED_FOREGROUND: u16 = 256;
pub const NAMED_BACKGROUND: u16 = 257;

/// The cell color a terminal color stands for: the default foreground and
/// background become `Default`, other named colors their number (truncated
/// to a byte), and the rest carry over.
pub open spec fn color_of(c: TermColor) -> Color {
    match c {
        TermColor::Named(n) => if n == NAMED_FOREGROUND || n == NAMED_BACKGROUND {
            Color::Default
        } else {
            Color::Idx(n as u8)
        },
        TermColor::Spec(r, g, b) => Color::Rgb(r, g, b),
        TermColor::Indexed(i) => Color::Idx(i),
    }
}

impl Color {
    /// The cell color for an emulator color; see `color_of`.
    pub fn from_term_color(c: TermColor) -> (r: Color)
        ensures
            r == color_of(c),
    {
        match c {
            TermColor::Named(n) => {
                if n == NAMED_FOREGROUND || n == NAMED_BACKGROUND {
                    Color::Default
                } else {
                    Color::Idx(n as u8)
                }
            },
            TermColor::Spec(r, g, b) => Color::Rgb(r, g, b),
            TermColor::Indexed(i) => Color::Idx(i),
        }
    }
}

/// Cell flag bits of the emulator.
pub const FLAG_INVERSE: u16 = 0x0001;
pub const FLAG_BOLD: u16 = 0x0002;
pub const FLAG_ITALIC: u16 = 0x0004;
pub const FLAG_UNDERLINE: u16 = 0x0008;
pub const FLAG_WIDE_CHAR: u16 = 0x0020;
pub const FLAG_WIDE_CHAR_SPACER: u16 = 0x0040;
pub const FLAG_DOUBLE_UNDERLINE: u16 = 0x0800;
pub const FLAG_UNDERCURL: u16 = 0x1000;
pub const FLAG_DOTTED_UNDERLINE: u16 = 0x2000;
pub const FLAG_DASHED_UNDERLINE: u16 = 0x4000;

/// Every underline style.
pub const ANY_UNDERLINE: u16 = 0x7808;

pub open spec fn has_flag(flags: u16, f: u16) -> bool {
    flags & f == f
}

/// A cell as the emulator's grid holds it: its character, flag bits, the
/// zero-width characters combined with it, and its colors.
#[derive(Debug, Clone)]
pub struct RawCell {
    pub c: char,
    pub flags: u16,
    pub zerowidth: Vec<char>,
    pub fg: TermColor,
    pub bg: TermColor,
}

/// The text a grid cell shows: nothing for a plain space (a wide character's
/// own space counts), else its character followed by its zero-width ones.
pub open spec fn raw_text(c: char, flags: u16, zerowidth: Seq<char>) -> Seq<char> {
    if c == ' ' && !has_flag(flags, FLAG_WIDE_CHAR) {
        zerowidth
    } else {
        seq![c] + zerowidth
    }
}

/// The cell the rest of the library reads for a grid cell: its text (see
/// `raw_text`), colors, bold/italic/inverse from their flags, underline from
/// any underline style, and whether it is the spacer after a wide character.
pub fn cell_from_raw(c: &RawCell) -> (r: Cell)
    ensures
        r.text() == raw_text(c.c, c.flags, c.zerowidth@),
        r.fg_spec() == color_of(c.fg),
        r.bg_spec() == color_of(c.bg),
        r.bold_spec() == has_flag(c.flags, FLAG_BOLD),
        r.italic_spec() == has_flag(c.flags, FLAG_ITALIC),
        r.inverse_spec() == has_flag(c.flags, FLAG_INVERSE),
        r.underline_spec() == (c.flags & ANY_UNDERLINE != 0),
        r.wide_continuation_spec() == has_flag(c.flags, FLAG_WIDE_CHAR_SPACER),
{
    let flags = c.flags;
    let mut text: Vec<char> = Vec::new();
    if !(c.c == ' ' && (flags & FLAG_WIDE_CHAR) != FLAG_WIDE_CHAR) {
        text.push(c.c);
    }
    let mut i: usize = 0;
    let ghost start = text@;
    while i < c.zerowidth.len()
        invariant
            i <= c.zerowidth@.len(),
            text@ == start + c.zerowidth@.take(i as int),
        decreases c.zerowidth@.len() - i,
    {
        text.push(c.zerowidth[i]);
        i = i + 1;
        assert(text@ =~= start + c.zerowidth@.take(i as int));
    }
    assert(c.zerowidth@.take(i as int) =~= c.zerowidth@);
    assert(text@ =~= raw_text(c.c, c.flags, c.zerowidth@));
    Cell::new(
        crate::chars::string_of(&text),
        Color::from_term_color(c.fg),
        Color::from_term_color(c.bg),
        (flags & FLAG_BOLD) == FLAG_BOLD,
        (flags & FLAG_ITALIC) == FLAG_ITALIC,
        (flags & ANY_UNDERLINE) != 0,
        (flags & FLAG_INVERSE) == FLAG_INVERSE,
        (flags & FLAG_WIDE_CHAR_SPACER) == FLAG_WIDE_CHAR_SPACER,
    )
}

/// Mode bits of the emulator that concern the mouse.
pub const MODE_MOUSE_REPORT_CLICK: u32 = 0x0008;
pub const MODE_SGR_MOUSE: u32 = 0x0020;
pub const MODE_MOUSE_MOTION: u32 = 0x0040;
pub const MODE_MOUSE_DRAG: u32 = 0x2000;
pub const MODE_UTF8_MOUSE: u32 = 0x4000;

/// The strongest mouse reporting the mode bits enable (any motion implies
/// the rest).
pub open spec fn mode_of_bits(mode: u32) -> MouseProtocolMode {
    if mode & MODE_MOUSE_MOTION == MODE_MOUSE_MOTION {
        MouseProtocolMode::AnyMotion
    } else if mode & MODE_MOUSE_DRAG == MODE_MOUSE_DRAG {
        MouseProtocolMode::ButtonMotion
    } else if mode & MODE_MOUSE_REPORT_CLICK == MODE_MOUSE_REPORT_CLICK {
        MouseProtocolMode::PressRelease
    } else {
        MouseProtocolMode::Off
    }
}

/// The mouse report encoding the mode bits select (SGR over UTF-8).
pub open spec fn encoding_of_bits(mode: u32) -> MouseProtocolEncoding {
    if mode & MODE_SGR_MOUSE == MODE_SGR_MOUSE {
        MouseProtocolEncoding::Sgr
    } else if mode & MODE_UTF8_MOUSE == MODE_UTF8_MOUSE {
        MouseProtocolEncoding::Utf8
    } else {
        MouseProtocolEncoding::Default
    }
}

/// The mouse reporting the inner application enabled; see `mode_of_bits`.
pub fn mouse_protocol_mode(mode: u32) -> (r: MouseProtocolMode)
    ensures
        r == mode_of_bits(mode),
{
    if mode & MODE_MOUSE_MOTION == MODE_MOUSE_MOTION {
        MouseProtocolMode::AnyMotion
    } else if mode & MODE_MOUSE_DRAG == MODE_MOUSE_DRAG {
        MouseProtocolMode::ButtonMotion
    } else if mode & MODE_MOUSE_REPORT_CLICK == MODE_MOUSE_REPORT_CLICK {
        MouseProtocolMode::PressRelease
    } else {
        MouseProtocolMode::Off
    }
}

/// The mouse report encoding the inner application selected; see
/// `encoding_of_bits`.
pub fn mouse_protocol_encoding(mode: u32) -> (r: MouseProtocolEncoding)
    ensures
        r == encoding_of_bits(mode),
{
    if mode & MODE_SGR_MOUSE == MODE_SGR_MOUSE {
        MouseProtocolEncoding::Sgr
    } else if mode & MODE_UTF8_MOUSE == MODE_UTF8_MOUSE {
        MouseProtocolEncoding::Utf8
    } else {
        MouseProtocolEncoding::Default
    }
}

/// The cursor as a visible-screen `(row, col)`: the emulator's line clamped
/// to the screen's rows (an off-screen cursor goes to row 0) and its column
/// to the last column.
pub open spec fn cursor_cell(line: i32, column: usize, rows: u16, cols: u16) -> (u16, u16) {
    let lo = if line < 0 { 0 } else { line as int };
    let row = if lo < rows - 1 { lo } else { rows - 1 };
    let last_col = if cols >= 1 { cols - 1 } else { 0 };
    let col = if column < last_col { column as int } else { last_col };
    (row as u16, col as u16)
}

/// The visible-screen cursor position; see `cursor_cell`.
pub fn cursor_position(line: i32, column: usize, rows: u16, cols: u16) -> (r: (u16, u16))
    ensures
        r == cursor_cell(line, column, rows, cols),
        rows >= 1 && cols >= 1 ==> r.0 < rows && r.1 < cols,
{
    let lo: i32 = if line < 0 { 0 } else { line };
    let top: i32 = (rows as i32) - 1;
    let row: i32 = if lo < top { lo } else { top };
    let last_col: usize = cols.saturating_sub(1) as usize;
    let col: usize = if column < last_col { column } else { last_col };
    (row as u16, col as u16)
}

} // verus!

verus! {

/// The SGR parameters selecting foreground `c` (none for the default).
pub open spec fn fg_sgr(c: Color) -> Seq<char> {
    match c {
        Color::Default => Seq::empty(),
        Color::Idx(i) => if i < 8 {
            ";"@ + dec((30 + i) as nat)
        } else if i < 16 {
            ";"@ + dec((90 + i - 8) as nat)
        } else {
            ";38;5;"@ + dec(i as nat)
        },
        Color::Rgb(r, g, b) => ";38;2;"@ + dec(r as nat) + ";"@ + dec(g as nat) + ";"@ + dec(b as nat),
    }
}

/// The SGR parameters selecting background `c` (none for the default).
pub open spec fn bg_sgr(c: Color) -> Seq<char> {
    match c {
        Color::Default => Seq::empty(),
        Color::Idx(i) => if i < 8 {
            ";"@ + dec((40 + i) as nat)
        } else if i < 16 {
            ";"@ + dec((100 + i - 8) as nat)
        } else {
            ";48;5;"@ + dec(i as nat)
        },
        Color::Rgb(r, g, b) => ";48;2;"@ + dec(r as nat) + ";"@ + dec(g as nat) + ";"@ + dec(b as nat),
    }
}

/// Appends the SGR parameters for foreground `color`; see `fg_sgr`.
pub fn push_fg_sgr(out: &mut Vec<char>, color: Color)
    ensures
        final(out)@ == old(out)@ + fg_sgr(color),
{
    match color {
        Color::Default => {
            assert(old(out)@ + fg_sgr(color) =~= old(out)@);
        },
        Color::Idx(i) => {
            if i < 8 {
                push_str(out, ";");
                push_dec(out, (30 + i) as u64);
            } else if i < 16 {
                push_str(out, ";");
                push_dec(out, (90 + i - 8) as u64);
            } else {
                push_str(out, ";38;5;");
                push_dec(out, i as u64);
            }
        },
        Color::Rgb(r, g, b) => {
            push_str(out, ";38;2;");
            push_dec(out, r as u64);
            push_str(out, ";");
            push_dec(out, g as u64);
            push_str(out, ";");
            push_dec(out, b as u64);
        },
    }
}

/// Appends the SGR parameters for background `color`; see `bg_sgr`.
pub fn push_bg_sgr(out: &mut Vec<char>, color: Color)
    ensures
        final(out)@ == old(out)@ + bg_sgr(color),
{
    match color {
        Color::Default => {
            assert(old(out)@ + bg_sgr(color) =~= old(out)@);
        },
        Color::Idx(i) => {
            if i < 8 {
                push_str(out, ";");
                push_dec(out, (40 + i) as u64);
            } else if i < 16 {
                push_str(out, ";");
                push_dec(out, (100 + i - 8) as u64);
            } else {
                push_str(out, ";48;5;");
                push_dec(out, i as u64);
            }
        },
        Color::Rgb(r, g, b) => {
            push_str(out, ";48;2;");
            push_dec(out, r as u64);
            push_str(out, ";");
            push_dec(out, g as u64);
            push_str(out, ";");
            push_dec(out, b as u64);
        },
    }
}

/// The rendition a run of cells is drawn with.
#[derive(Debug, Clone, Copy, PartialEq, Eq, Structural)]
pub struct Attrs {
    pub fg: Color,
    pub bg: Color,
    pub bold: bool,
    pub italic: bool,
    pub underline: bool,
    pub inverse: bool,
}

/// The terminal's initial rendition.
pub open spec fn plain_attrs() -> Attrs {
    Attrs {
        fg: Color::Default,
        bg: Color::Default,
        bold: false,
        italic: false,
        underline: false,
        inverse: false,
    }
}

/// A cell's rendition; italics only count when `with_italic`.
pub open spec fn attrs_of(c: Cell, with_italic: bool) -> Attrs {
    Attrs {
        fg: c.fg_spec(),
        bg: c.bg_spec(),
        bold: c.bold_spec(),
        italic: with_italic && c.italic_spec(),
        underline: c.underline_spec(),
        inverse: c.inverse_spec(),
    }
}

/// `s` when `on`, else nothing.
pub open spec fn flag_text(on: bool, s: Seq<char>) -> Seq<char> {
    if on {
        s
    } else {
        Seq::empty()
    }
}

/// The SGR sequence that resets and then selects rendition `a`.
pub open spec fn sgr_text(a: Attrs) -> Seq<char> {
    "\x1b[0"@ + flag_text(a.bold, ";1"@) + flag_text(a.italic, ";3"@) + flag_text(a.underline, ";4"@) + flag_text(
        a.inverse,
        ";7"@,
    ) + fg_sgr(a.fg) + bg_sgr(a.bg) + "m"@
}

/// What a cell shows: its text, or a space for an empty cell.
pub open spec fn shown_text(c: Cell) -> Seq<char> {
    if c.text().len() == 0 {
        " "@
    } else {
        c.text()
    }
}

/// The text for the first `n` cells of `cells`, starting from rendition
/// `start`, and the rendition in force after them: a wide character's
/// trailing cell is skipped, and a cell whose rendition differs from the one
/// in force is preceded by the SGR sequence selecting its own.
pub open spec fn cells_text(cells: Seq<Cell>, n: nat, start: Attrs, with_italic: bool) -> (Seq<char>, Attrs)
    decreases n,
{
    if n == 0 {
        (Seq::empty(), start)
    } else {
        let (text, cur) = cells_text(cells, (n - 1) as nat, start, with_italic);
        let (more, next) = cell_step(cells[n - 1], cur, with_italic);
        (text + more, next)
    }
}

/// The text for one cell drawn while rendition `cur` is in force, and the
/// rendition after it.
pub open spec fn cell_step(c: Cell, cur: Attrs, with_italic: bool) -> (Seq<char>, Attrs) {
    if c.wide_continuation_spec() {
        (Seq::empty(), cur)
    } else {
        let a = attrs_of(c, with_italic);
        ((if a != cur { sgr_text(a) } else { Seq::empty() }) + shown_text(c), a)
    }
}

fn push_cell(out: &mut Vec<char>, c: &Cell, cur: Attrs, with_italic: bool) -> (next: Attrs)
    ensures
        final(out)@ == old(out)@ + cell_step(*c, cur, with_italic).0,
        next == cell_step(*c, cur, with_italic).1,
{
    if c.is_wide_continuation() {
        assert(old(out)@ + cell_step(*c, cur, with_italic).0 =~= old(out)@);
        return cur;
    }
    let a = cell_attrs(c, with_italic);
    if a != cur {
        push_sgr(out, a);
    }
    let ghost mid = out@;
    assert(mid == old(out)@ + (if a != cur { sgr_text(a) } else { Seq::<char>::empty() }));
    let t = c.contents();
    if t.unicode_len() == 0 {
        push_str(out, " ");
    } else {
        push_str(out, t);
    }
    assert(final(out)@ =~= old(out)@ + cell_step(*c, cur, with_italic).0);
    a
}

fn push_flag(out: &mut Vec<char>, on: bool, s: &str)
    ensures
        final(out)@ == old(out)@ + flag_text(on, s@),
{
    if on {
        push_str(out, s);
    } else {
        assert(old(out)@ + flag_text(on, s@) =~= old(out)@);
    }
}

fn push_sgr(out: &mut Vec<char>, a: Attrs)
    ensures
        final(out)@ == old(out)@ + sgr_text(a),
{
    let ghost f = fg_sgr(a.fg);
    let ghost g = bg_sgr(a.bg);
    push_str(out, "\x1b[0");
    push_flag(out, a.bold, ";1");
    push_flag(out, a.italic, ";3");
    push_flag(out, a.underline, ";4");
    push_flag(out, a.inverse, ";7");
    push_fg_sgr(out, a.fg);
    push_bg_sgr(out, a.bg);
    push_str(out, "m");
    assert(final(out)@ =~= old(out)@ + ("\x1b[0"@ + flag_text(a.bold, ";1"@) + flag_text(a.italic, ";3"@)
        + flag_text(a.underline, ";4"@) + flag_text(a.inverse, ";7"@) + f + g + "m"@));
}

fn cell_attrs(c: &Cell, with_italic: bool) -> (a: Attrs)
    ensures
        a == attrs_of(*c, with_italic),
{
    Attrs {
        fg: c.fgcolor(),
        bg: c.bgcolor(),
        bold: c.bold(),
        italic: with_italic && c.italic(),
        underline: c.underline(),
        inverse: c.inverse(),
    }
}

/// Appends the text of `cells` starting from rendition `start` and returns
/// the rendition in force after them; see `cells_text`.
fn push_cells(out: &mut Vec<char>, cells: &Vec<Cell>, start: Attrs, with_italic: bool) -> (end: Attrs)
    ensures
        final(out)@ == old(out)@ + cells_text(cells@, cells@.len(), start, with_italic).0,
        end == cells_text(cells@, cells@.len(), start, with_italic).1,
{
    let mut cur = start;
    let mut i: usize = 0;
    assert(old(out)@ + cells_text(cells@, 0, start, with_italic).0 =~= old(out)@);
    while i < cells.len()
        invariant
            i <= cells@.len(),
            out@ == old(out)@ + cells_text(cells@, i as nat, start, with_italic).0,
            cur == cells_text(cells@, i as nat, start, with_italic).1,
        decreases cells@.len() - i,
    {
        let ghost before = out@;
        cur = push_cell(out, &cells[i], cur, with_italic);
        assert(out@ =~= old(out)@ + cells_text(cells@, (i + 1) as nat, start, with_italic).0);
        i = i + 1;
    }
    cur
}

/// The session's screen as one ANSI string per row, for embedding in the
/// monitor's frame: each row starts from the plain rendition, selects
/// bold/underline/inverse and colors as they change, and ends with a reset.
pub open spec fn ansi_rows(grid: Seq<Vec<Cell>>) -> Seq<Seq<char>> {
    Seq::new(grid.len(), |r: int| cells_text(grid[r]@, grid[r]@.len(), plain_attrs(), false).0 + "\x1b[0m"@)
}

/// Renders each row of `grid` with its colors and attributes; see
/// `ansi_rows`.
pub fn screenshot_cells(grid: &Vec<Vec<Cell>>) -> (rows: Vec<String>)
    ensures
        rows@.map_values(|s: String| s@) == ansi_rows(grid@),
{
    let mut rows: Vec<String> = Vec::new();
    let mut r: usize = 0;
    while r < grid.len()
        invariant
            r <= grid@.len(),
            rows@.map_values(|s: String| s@) =~= ansi_rows(grid@).take(r as int),
        decreases grid@.len() - r,
    {
        let mut line: Vec<char> = Vec::new();
        let start = Attrs {
            fg: Color::Default,
            bg: Color::Default,
            bold: false,
            italic: false,
            underline: false,
            inverse: false,
        };
        push_cells(&mut line, &grid[r], start, false);
        push_str(&mut line, "\x1b[0m");
        let ghost before = rows@.map_values(|s: String| s@);
        rows.push(string_of(&line));
        assert(rows@.map_values(|s: String| s@) =~= before.push(line@));
        assert(ansi_rows(grid@).take(r + 1) =~= ansi_rows(grid@).take(r as int).push(ansi_rows(grid@)[r as int]));
        r = r + 1;
    }
    assert(ansi_rows(grid@).take(r as int) =~= ansi_rows(grid@));
    rows
}

/// The rows of `grid` and the rendition in force after them, for the
/// first `n` rows, starting from `start`; rows are joined by CR LF and the
/// rendition carries from one row into the next.
pub open spec fn grid_text(grid: Seq<Vec<Cell>>, n: nat, start: Attrs) -> (Seq<char>, Attrs)
    decreases n,
{
    if n == 0 {
        (Seq::empty(), start)
    } else {
        let (text, cur) = grid_text(grid, (n - 1) as nat, start);
        let (row, end) = cells_text(grid[n - 1]@, grid[n - 1]@.len(), cur, true);
        (text + row + (if n < grid.len() { "\r\n"@ } else { Seq::empty() }), end)
    }
}

/// The screen as ANSI text that redraws it on a fresh terminal: clear and
/// home, the rows with their renditions (italics included), then a reset.
pub open spec fn formatted_screen(grid: Seq<Vec<Cell>>) -> Seq<char> {
    "\x1b[2J\x1b[H"@ + grid_text(grid, grid.len(), plain_attrs()).0 + "\x1b[0m"@
}

/// The UTF-8 bytes of `formatted_screen(grid)`.
pub fn contents_formatted(grid: &Vec<Vec<Cell>>) -> (bytes: Vec<u8>)
    ensures
        bytes@ == vstd::utf8::encode_utf8(formatted_screen(grid@)),
{
    let mut out: Vec<char> = Vec::new();
    push_str(&mut out, "\x1b[2J\x1b[H");
    let ghost head = out@;
    let mut cur = Attrs {
        fg: Color::Default,
        bg: Color::Default,
        bold: false,
        italic: false,
        underline: false,
        inverse: false,
    };
    let mut r: usize = 0;
    while r < grid.len()
        invariant
            r <= grid@.len(),
            out@ == head + grid_text(grid@, r as nat, plain_attrs()).0,
            cur == grid_text(grid@, r as nat, plain_attrs()).1,
        decreases grid@.len() - r,
    {
        let ghost before = out@;
        cur = push_cells(&mut out, &grid[r], cur, true);
        if r + 1 < grid.len() {
            push_str(&mut out, "\r\n");
        }
        assert(out@ =~= head + grid_text(grid@, (r + 1) as nat, plain_attrs()).0);
        r = r + 1;
    }
    push_str(&mut out, "\x1b[0m");
    assert(out@ =~= formatted_screen(grid@));
    let text = string_of(&out);
    let b = text.as_str().as_bytes();
    let mut bytes: Vec<u8> = Vec::new();
    let mut i: usize = 0;
    while i < b.len()
        invariant
            i <= b@.len(),
            bytes@ == b@.take(i as int),
        decreases b@.len() - i,
    {
        bytes.push(b[i]);
        i = i + 1;
        assert(bytes@ =~= b@.take(i as int));
    }
    assert(b@.take(i as int) =~= b@);
    bytes
}

} // verus!

verus! {

/// One character per column for the first `n` cells: a space for a wide
/// character's trailing cell and for an empty cell, else the first
/// character of the cell's text (combining marks that follow it are left
/// out, so that every row has as many characters as columns).
pub open spec fn column_text(cells: Seq<Cell>, n: nat) -> Seq<char>
    decreases n,
{
    if n == 0 {
        Seq::empty()
    } else {
        let c = cells[n - 1];
        column_text(cells, (n - 1) as nat) + (if c.wide_continuation_spec() || c.text().len() == 0 {
            seq![' ']
        } else {
            seq![c.text()[0]]
        })
    }
}

/// The visible screen as one string per row (see `column_text`), so that
/// character offsets in a row line up with screen columns: each row has
/// exactly one character per cell.
pub fn text_rows(grid: &Vec<Vec<Cell>>) -> (rows: Vec<String>)
    ensures
        rows@.len() == grid@.len(),
        forall|r: int| 0 <= r < grid@.len() ==> (#[trigger] rows@[r])@ == column_text(grid@[r]@, grid@[r]@.len()),
        forall|r: int| 0 <= r < grid@.len() ==> (#[trigger] rows@[r])@.len() == grid@[r]@.len(),
{
    let mut rows: Vec<String> = Vec::new();
    let mut r: usize = 0;
    while r < grid.len()
        invariant
            r <= grid@.len(),
            rows@.len() == r,
            forall|k: int| 0 <= k < r ==> (#[trigger] rows@[k])@ == column_text(grid@[k]@, grid@[k]@.len()),
            forall|k: int| 0 <= k < r ==> (#[trigger] rows@[k])@.len() == grid@[k]@.len(),
        decreases grid@.len() - r,
    {
        let cells = &grid[r];
        let mut line: Vec<char> = Vec::new();
        let mut c: usize = 0;
        while c < cells.len()
            invariant
                c <= cells@.len(),
                line@ == column_text(cells@, c as nat),
                line@.len() == c,
            decreases cells@.len() - c,
        {
            let cell = &cells[c];
            let t = crate::chars::chars_of(cell.contents());
            if cell.is_wide_continuation() || t.len() == 0 {
                line.push(' ');
            } else {
                line.push(t[0]);
            }
            c = c + 1;
        }
        rows.push(string_of(&line));
        r = r + 1;
    }
    rows
}

/// `s` without trailing spaces.
pub open spec fn trim_spaces_end(s: Seq<char>) -> Seq<char>
    decreases s.len(),
{
    if s.len() > 0 && s.last() == ' ' {
        trim_spaces_end(s.drop_last())
    } else {
        s
    }
}

/// The text of the first `n` grid cells of a line: a wide character's
/// spacer is skipped, a space stays a space, any other character comes with
/// its zero-width characters.
pub open spec fn line_text(cells: Seq<RawCell>, n: nat) -> Seq<char>
    decreases n,
{
    if n == 0 {
        Seq::empty()
    } else {
        let c = cells[n - 1];
        line_text(cells, (n - 1) as nat) + (if has_flag(c.flags, FLAG_WIDE_CHAR_SPACER) {
            Seq::<char>::empty()
        } else if c.c == ' ' {
            " "@
        } else {
            seq![c.c] + c.zerowidth@
        })
    }
}

/// The plain text of scrollback and screen lines: each line's text without
/// trailing spaces, the lines joined by newlines.
pub open spec fn plain_text(lines: Seq<Vec<RawCell>>) -> Seq<char> {
    join_with(Seq::new(lines.len(), |i: int| plain_line(lines, i)), "\n"@)
}

/// Line `i`'s text without trailing spaces.
pub open spec fn plain_line(lines: Seq<Vec<RawCell>>, i: int) -> Seq<char> {
    trim_spaces_end(line_text(lines[i]@, lines[i]@.len()))
}

fn trim_spaces(v: &mut Vec<char>)
    ensures
        final(v)@ == trim_spaces_end(old(v)@),
{
    while v.len() > 0 && v[v.len() - 1] == ' '
        invariant
            trim_spaces_end(v@) == trim_spaces_end(old(v)@),
        decreases v@.len(),
    {
        v.pop();
    }
}

/// Plain-text dump of scrollback and screen, line by line; see
/// `plain_text`.
pub fn contents(lines: &Vec<Vec<RawCell>>) -> (r: String)
    ensures
        r@ == plain_text(lines@),
{
    let mut texts: Vec<Vec<char>> = Vec::new();
    let mut i: usize = 0;
    while i < lines.len()
        invariant
            i <= lines@.len(),
            views(texts@) =~= Seq::new(i as nat, |k: int| plain_line(lines@, k)),
        decreases lines@.len() - i,
    {
        let cells = &lines[i];
        let mut buf: Vec<char> = Vec::new();
        let mut c: usize = 0;
        while c < cells.len()
            invariant
                c <= cells@.len(),
                buf@ == line_text(cells@, c as nat),
            decreases cells@.len() - c,
        {
            let cell = &cells[c];
            if (cell.flags & FLAG_WIDE_CHAR_SPACER) != FLAG_WIDE_CHAR_SPACER {
                if cell.c == ' ' {
                    push_str(&mut buf, " ");
                } else {
                    buf.push(cell.c);
                    let mut z: usize = 0;
                    let ghost start = buf@;
                    while z < cell.zerowidth.len()
                        invariant
                            z <= cell.zerowidth@.len(),
                            buf@ == start + cell.zerowidth@.take(z as int),
                        decreases cell.zerowidth@.len() - z,
                    {
                        buf.push(cell.zerowidth[z]);
                        z = z + 1;
                        assert(buf@ =~= start + cell.zerowidth@.take(z as int));
                    }
                    assert(cell.zerowidth@.take(z as int) =~= cell.zerowidth@);
                }
            }
            assert(buf@ =~= line_text(cells@, (c + 1) as nat));
            c = c + 1;
        }
        trim_spaces(&mut buf);
        assert(buf@ == trim_spaces_end(line_text(lines@[i as int]@, lines@[i as int]@.len())));
        let ghost before = views(texts@);
        texts.push(buf);
        assert(views(texts@) =~= before.push(plain_line(lines@, i as int)));
        i = i + 1;
    }
    let joined = join_range(&texts, 0, texts.len(), "\n");
    assert(views(texts@).subrange(0, texts@.len() as int) =~= Seq::new(lines@.len(), |k: int| plain_line(lines@, k)));
    string_of(&joined)
}

} // verus!
