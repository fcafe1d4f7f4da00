use terminal_use::emu::{self as emu, Cell as EmuCell};
use terminal_use::protocol::CursorPos;
use terminal_use::render::colors::{color_to_rgb, palette};
use terminal_use::render::screen::{Color, ScreenSnapshot};
use terminal_use::render::text::format_screenshot;

fn emu_color(c: vt100::Color) -> emu::Color {
    match c {
        vt100::Color::Default => emu::Color::Default,
        vt100::Color::Idx(i) => emu::Color::Idx(i),
        vt100::Color::Rgb(r, g, b) => emu::Color::Rgb(r, g, b),
    }
}

fn snapshot_of(screen: &vt100::Screen) -> ScreenSnapshot {
    let (rows, cols) = screen.size();
    let grid: Vec<Vec<Option<EmuCell>>> = (0..rows)
        .map(|r| {
            (0..cols)
                .map(|c| {
                    screen.cell(r, c).map(|cell| {
                        EmuCell::new(
                            cell.contents().to_string(),
                            emu_color(cell.fgcolor()),
                            emu_color(cell.bgcolor()),
                            cell.bold(),
                            cell.italic(),
                            cell.underline(),
                            cell.inverse(),
                            cell.is_wide_continuation(),
                        )
                    })
                })
                .collect()
        })
        .collect();
    ScreenSnapshot::from_emu_cells(rows, cols, &grid)
}

#[test]
fn builds_snapshot_from_vt100_screen() {
    let mut parser = vt100::Parser::new(4, 10, 0);
    parser.process(b"\x1b[31mA\x1b[7mB\x1b[0m");

    let snapshot = snapshot_of(parser.screen());
    assert_eq!(snapshot.rows(), 4);
    assert_eq!(snapshot.cols(), 10);
    assert_eq!(snapshot.cells()[0][0].contents, "A");
    assert_eq!(snapshot.cells()[0][0].fg, Color::Indexed(1));
    assert_eq!(snapshot.cells()[0][1].contents, "B");
    assert!(snapshot.cells()[0][1].attrs.inverse);
}

#[test]
fn snapshot_fills_missing_cells_with_defaults() {
    let grid: Vec<Vec<Option<EmuCell>>> = vec![vec![None]];
    let snapshot = ScreenSnapshot::from_emu_cells(2, 3, &grid);
    assert_eq!(snapshot.cells().len(), 2);
    assert!(snapshot.cells().iter().all(|r| r.len() == 3));
    assert_eq!(snapshot.cells()[1][2], terminal_use::render::screen::Cell::default());
}

#[test]
fn format_screenshot_without_mouse_cursor_is_the_content() {
    assert_eq!(format_screenshot("hello\nworld", 2, 5, 0, 0, None, false), "hello\nworld");
}

#[test]
fn format_screenshot_reports_the_mouse_cursor_below() {
    assert_eq!(
        format_screenshot("x", 1, 1, 0, 0, Some(CursorPos { row: 4, col: 7 }), false),
        "x\n\n△ tu mouse cursor at (7,4)"
    );
    assert_eq!(
        format_screenshot("x", 1, 1, 0, 0, Some(CursorPos { row: 0, col: 1 }), true),
        "x\n\n▲ tu mouse cursor held at (1,0)"
    );
}

#[test]
fn palette_colors() {
    assert_eq!(color_to_rgb(Color::Default, true), (229, 229, 229));
    assert_eq!(color_to_rgb(Color::Default, false), (0, 0, 0));
    assert_eq!(color_to_rgb(Color::Indexed(1), true), (205, 0, 0));
    assert_eq!(color_to_rgb(Color::Indexed(12), true), (92, 92, 255));
    assert_eq!(color_to_rgb(Color::Indexed(16), true), (0, 0, 0));
    assert_eq!(color_to_rgb(Color::Indexed(196), true), (255, 0, 0));
    assert_eq!(color_to_rgb(Color::Indexed(231), true), (255, 255, 255));
    assert_eq!(color_to_rgb(Color::Indexed(232), true), (8, 8, 8));
    assert_eq!(color_to_rgb(Color::Indexed(255), false), (238, 238, 238));
    assert_eq!(color_to_rgb(Color::Rgb(1, 2, 3), false), (1, 2, 3));
    assert_eq!(palette(21), (0, 0, 255));
}
