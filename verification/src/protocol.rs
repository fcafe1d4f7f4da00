//! Messages exchanged between the command-line client and the daemon, and the
//! small value types they carry.

use vstd::prelude::*;

verus! {

/// Size of a terminal in character cells.
#[derive(Debug, Clone, Copy, PartialEq, Eq, Structural)]
pub struct TermSize {
    pub cols: u16,
    pub rows: u16,
}

impl Default for TermSize {
    /// 120 columns by 40 rows.
    fn default() -> (s: Self)
        ensures
            s.cols == 120,
            s.rows == 40,
    {
        TermSize { cols: 120, rows: 40 }
    }
}

/// Requests from the client to the daemon.
#[derive(Debug, Clone)]
pub enum Request {
    Run {
        command: String,
        args: Vec<String>,
        name: Option<String>,
        size: TermSize,
        scrollback: usize,
        env: Vec<(String, String)>,
        cwd: Option<String>,
        term: String,
        shell: bool,
    },
    Kill { name: String },
    List,
    Status { name: String },
    Screenshot { name: String },
    /// The raw ANSI-formatted screen bytes, for client-side image rendering.
    ScreenshotAnsi { name: String },
    /// Pre-rendered ANSI strings, one per visible row.
    ScreenshotCells { name: String },
    Cursor { name: String },
    Scrollback { name: String, lines: Option<usize> },
    Type { name: String, text: String },
    Press { name: String, keys: Vec<u8> },
    Paste { name: String, text: String },
    Resize { name: String, size: TermSize },
    Mouse { name: String, action: MouseAction, force: bool },
    MouseState { name: String },
    Wait { name: String, stable_ms: Option<u64>, text_pattern: Option<String>, timeout_ms: u64 },
    Shutdown,
}

/// Mouse button to send.
#[derive(Debug, Clone, Copy, PartialEq, Eq, Structural)]
pub enum MouseButton {
    Left,
    Right,
    Middle,
}

/// Modifier keys held during a mouse event.
#[derive(Debug, Clone, Copy, PartialEq, Eq, Structural)]
pub struct MouseMods {
    pub shift: bool,
    pub alt: bool,
    pub ctrl: bool,
}

impl Default for MouseMods {
    /// No modifier held.
    fn default() -> (m: Self)
        ensures
            !m.shift && !m.alt && !m.ctrl,
    {
        MouseMods { shift: false, alt: false, ctrl: false }
    }
}

/// Scroll direction of the wheel.
#[derive(Debug, Clone, Copy, PartialEq, Eq, Structural)]
pub enum ScrollDir {
    Up,
    Down,
    Left,
    Right,
}

/// How to locate the cell that a mouse action aims at.
#[derive(Debug, Clone, PartialEq, Eq)]
pub enum MouseTarget {
    /// Absolute cell coordinates (0-based).
    Coords { col: u16, row: u16 },
    /// The first (or `match_index`-th) literal-text match on the visible screen.
    Text { needle: String, match_index: usize },
    /// The first (or `match_index`-th) regex match on the visible screen.
    Regex { pattern: String, match_index: usize },
}

/// One mouse operation; compound ones (click, drag) are expanded by the daemon.
#[derive(Debug, Clone)]
pub enum MouseAction {
    Click { target: MouseTarget, button: MouseButton, mods: MouseMods, clicks: u32 },
    Down { target: MouseTarget, button: MouseButton, mods: MouseMods },
    Up { target: MouseTarget, button: MouseButton, mods: MouseMods },
    Move { target: MouseTarget, mods: MouseMods },
    Drag { from: MouseTarget, to: MouseTarget, button: MouseButton, mods: MouseMods },
    Scroll { target: Option<MouseTarget>, dir: ScrollDir, amount: u32, mods: MouseMods },
}

/// Which mouse reports the inner application has enabled.
#[derive(Debug, Clone, Copy, PartialEq, Eq, Structural)]
pub enum MouseMode {
    /// No mouse reporting enabled.
    Off,
    Press,
    PressRelease,
    ButtonMotion,
    AnyMotion,
}

/// Wire encoding of mouse reports.
#[derive(Debug, Clone, Copy, PartialEq, Eq, Structural)]
pub enum MouseEncoding {
    Default,
    Utf8,
    Sgr,
}

/// A session's status.
#[derive(Debug, Clone)]
pub struct SessionInfo {
    pub name: String,
    pub pid: u32,
    pub alive: bool,
    pub exit_code: Option<i32>,
    pub size: TermSize,
}

/// A cell position on the screen.
#[derive(Debug, Clone, Copy, PartialEq, Eq, Structural)]
pub struct CursorPos {
    pub row: u16,
    pub col: u16,
}

/// Responses from the daemon to the client.
#[derive(Debug, Clone)]
pub enum Response {
    /// The request was carried out.
    Success,
    SessionCreated { name: String, pid: u32 },
    SessionList { sessions: Vec<SessionInfo> },
    Status { info: SessionInfo },
    Screenshot {
        content: String,
        rows: u16,
        cols: u16,
        cursor: CursorPos,
        mouse_cursor: Option<CursorPos>,
        mouse_held: bool,
    },
    Cursor { pos: CursorPos },
    /// Raw ANSI screen bytes (base64) for client-side rendering.
    ScreenshotAnsi {
        content_b64: String,
        rows: u16,
        cols: u16,
        /// The synthetic mouse cursor, once a positional mouse event was sent.
        mouse_cursor: Option<CursorPos>,
        /// Whether a mouse button is held (a down without its up).
        mouse_held: bool,
    },
    ScreenshotCells {
        /// One SGR-formatted string per visible row.
        rows_ansi: Vec<String>,
        rows: u16,
        cols: u16,
        mouse_cursor: Option<CursorPos>,
        mouse_held: bool,
    },
    Scrollback { content: String },
    MouseState {
        mode: MouseMode,
        encoding: MouseEncoding,
        size: TermSize,
        cursor: Option<CursorPos>,
        buttons_held: Vec<MouseButton>,
        last_event: Option<MouseLastEvent>,
    },
    Error { message: String },
}

/// Kind of the most recent mouse event written to a session.
#[derive(Debug, Clone, Copy, PartialEq, Eq, Structural)]
pub enum MouseEventKind {
    Down,
    Up,
    Move,
    DragMove,
    Scroll,
}

/// The last mouse event written to a session's terminal.
#[derive(Debug, Clone, Copy, PartialEq, Eq, Structural)]
pub struct MouseLastEvent {
    pub kind: MouseEventKind,
    pub col: u16,
    pub row: u16,
    /// Set for Down, Up and DragMove.
    pub button: Option<MouseButton>,
    /// Set for Scroll.
    pub scroll_dir: Option<ScrollDir>,
    pub mods: MouseMods,
    /// Seconds since the Unix epoch when the event was written.
    pub ts_unix: u64,
}

} // verus!
