//! An owned snapshot of the emulator's visible screen, the boundary between
//! the daemon's parser and the renderers.

use vstd::prelude::*;

verus! {

/// Terminal color value of a snapshot cell.
#[derive(Debug, Clone, Copy, PartialEq, Eq, Structural)]
pub enum Color {
    /// The terminal's default foreground or background (context-dependent).
    Default,
    /// An index into the xterm-256color palette (0..=255).
    Indexed(u8),
    /// A direct 24-bit RGB color.
    Rgb(u8, u8, u8),
}

/// The snapshot color for an emulator cell color.
pub open spec fn color_from_emu(value: crate::emu::Color) -> Color {
    match value {
        crate::emu::Color::Default => Color::Default,
        crate::emu::Color::Idx(idx) => Color::Indexed(idx),
        crate::emu::Color::Rgb(r, g, b) => Color::Rgb(r, g, b),
    }
}

impl From<crate::emu::Color> for Color {
    fn from(value: crate::emu::Color) -> (r: Self) {
        match value {
            crate::emu::Color::Default => Color::Default,
            crate::emu::Color::Idx(idx) => Color::Indexed(idx),
            crate::emu::Color::Rgb(r, g, b) => Color::Rgb(r, g, b),
        }
    }
}

impl vstd::std_specs::convert::FromSpecImpl<crate::emu::Color> for Color {
    open spec fn obeys_from_spec() -> bool {
        true
    }

    open spec fn from_spec(value: crate::emu::Color) -> Self {
        color_from_emu(value)
    }
}

/// SGR text attributes for a single cell.
///
/// `bold`, `italic`, and `underline` are captured for completeness; the image
/// renderer only acts on `inverse` (swapping foreground and background).
#[derive(Debug, Clone, Copy, PartialEq, Eq, Structural)]
pub struct CellAttributes {
    pub bold: bool,
    pub italic: bool,
    pub underline: bool,
    pub inverse: bool,
}

impl Default for CellAttributes {
    /// No attribute set.
    fn default() -> (a: Self)
        ensures
            !a.bold && !a.italic && !a.underline && !a.inverse,
    {
        CellAttributes { bold: false, italic: false, underline: false, inverse: false }
    }
}

/// A single character cell of the snapshot. A wide character occupies two
/// columns: the first holds it, the second is a continuation cell with empty
/// contents, skipped when drawing text but still painted.
#[derive(Debug, Clone, PartialEq, Eq)]
pub struct Cell {
    pub contents: String,
    pub fg: Color,
    pub bg: Color,
    pub attrs: CellAttributes,
    /// True for the trailing column of a wide character.
    pub is_wide_continuation: bool,
}

impl Default for Cell {
    /// An empty cell in the default colors, without attributes.
    fn default() -> (c: Self)
        ensures
            c.contents@.len() == 0,
            c.fg == Color::Default,
            c.bg == Color::Default,
            !c.attrs.bold && !c.attrs.italic && !c.attrs.underline && !c.attrs.inverse,
            !c.is_wide_continuation,
    {
        Cell {
            contents: String::new(),
            fg: Color::Default,
            bg: Color::Default,
            attrs: CellAttributes::default(),
            is_wide_continuation: false,
        }
    }
}

/// The snapshot cell for an emulator cell, when the emulator has one there,
/// else an empty default cell.
pub open spec fn snapshot_cell(c: Option<crate::emu::Cell>, s: Cell) -> bool {
    match c {
        Some(e) => {
            &&& s.contents@ == e.text()
            &&& s.fg == color_from_emu(e.fg_spec())
            &&& s.bg == color_from_emu(e.bg_spec())
            &&& s.attrs == CellAttributes {
                bold: e.bold_spec(),
                italic: e.italic_spec(),
                underline: e.underline_spec(),
                inverse: e.inverse_spec(),
            }
            &&& s.is_wide_continuation == e.wide_continuation_spec()
        },
        None => {
            &&& s.contents@.len() == 0
            &&& s.fg == Color::Default
            &&& s.bg == Color::Default
            &&& s.attrs == CellAttributes { bold: false, italic: false, underline: false, inverse: false }
            &&& !s.is_wide_continuation
        },
    }
}

/// The emulator's cell at (`row`, `col`) of `grid`, if the grid has one.
pub open spec fn grid_cell(grid: Seq<Vec<Option<crate::emu::Cell>>>, row: int, col: int) -> Option<
    crate::emu::Cell,
> {
    if 0 <= row < grid.len() && 0 <= col < grid[row]@.len() {
        grid[row]@[col]
    } else {
        None
    }
}

/// An owned snapshot of the emulator's visible screen, stored row-major
/// (`cells[row][col]`), with exactly `rows` rows of `cols` cells.
#[derive(Debug, Clone, PartialEq, Eq)]
pub struct ScreenSnapshot {
    rows: u16,
    cols: u16,
    cells: Vec<Vec<Cell>>,
}

impl ScreenSnapshot {
    /// The grid has the snapshot's dimensions.
    pub closed spec fn wf(&self) -> bool {
        &&& self.cells@.len() == self.rows
        &&& forall|r: int| 0 <= r < self.rows ==> (#[trigger] self.cells@[r])@.len() == self.cols
    }

    pub closed spec fn rows_spec(&self) -> u16 {
        self.rows
    }

    pub closed spec fn cols_spec(&self) -> u16 {
        self.cols
    }

    pub closed spec fn cells_spec(&self) -> Seq<Vec<Cell>> {
        self.cells@
    }

    /// A snapshot of a `rows` by `cols` screen whose emulator cells are
    /// `grid[row][col]`; positions the emulator reports no cell for get an
    /// empty default cell.
    pub fn from_emu_cells(rows: u16, cols: u16, grid: &Vec<Vec<Option<crate::emu::Cell>>>) -> (s: Self)
        ensures
            s.wf(),
            s.rows_spec() == rows,
            s.cols_spec() == cols,
            forall|r: int, c: int|
                0 <= r < rows && 0 <= c < cols ==> snapshot_cell(grid_cell(grid@, r, c), #[trigger] s.cells_spec()[r]@[c]),
    {
        let mut cells: Vec<Vec<Cell>> = Vec::new();
        let mut row: u16 = 0;
        while row < rows
            invariant
                row <= rows,
                cells@.len() == row,
                forall|r: int| 0 <= r < row ==> (#[trigger] cells@[r])@.len() == cols,
                forall|r: int, c: int|
                    0 <= r < row && 0 <= c < cols ==> snapshot_cell(grid_cell(grid@, r, c), #[trigger] cells@[r]@[c]),
            decreases rows - row,
        {
            let mut row_cells: Vec<Cell> = Vec::new();
            let mut col: u16 = 0;
            while col < cols
                invariant
                    row < rows,
                    col <= cols,
                    row_cells@.len() == col,
                    forall|c: int| 0 <= c < col ==> snapshot_cell(grid_cell(grid@, row as int, c), #[trigger] row_cells@[c]),
                decreases cols - col,
            {
                let found: Option<&crate::emu::Cell> = if (row as usize) < grid.len() && (col as usize) < grid[row as usize].len() {
                    match &grid[row as usize][col as usize] {
                        Some(e) => Some(e),
                        None => None,
                    }
                } else {
                    None
                };
                let cell = match found {
                    Some(e) => Cell {
                        contents: e.contents().to_owned(),
                        fg: Color::from(e.fgcolor()),
                        bg: Color::from(e.bgcolor()),
                        attrs: CellAttributes {
                            bold: e.bold(),
                            italic: e.italic(),
                            underline: e.underline(),
                            inverse: e.inverse(),
                        },
                        is_wide_continuation: e.is_wide_continuation(),
                    },
                    None => Cell::default(),
                };
                row_cells.push(cell);
                col = col + 1;
            }
            cells.push(row_cells);
            row = row + 1;
        }
        ScreenSnapshot { rows, cols, cells }
    }

    pub fn rows(&self) -> (r: u16)
        ensures
            r == self.rows_spec(),
    {
        self.rows
    }

    pub fn cols(&self) -> (c: u16)
        ensures
            c == self.cols_spec(),
    {
        self.cols
    }

    pub fn cells(&self) -> (c: &[Vec<Cell>])
        ensures
            c@ == self.cells_spec(),
    {
        self.cells.as_slice()
    }
}

} // verus!
