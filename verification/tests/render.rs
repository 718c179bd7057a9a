use terminalshooter::render::{self, bg, green, white, Cell, ColorMode, Frame, Rgb, TerminalRenderer};

#[test]
fn unchanged_frames_emit_nothing_and_changes_only_update_their_cells() {
    for mode in [ColorMode::Palette, ColorMode::TrueColor] {
        let mut renderer = TerminalRenderer::new(mode);
        let mut frame = Frame::new(40, 16);
        frame.text(5, 5, "MENU", white());
        let full = renderer.encode(&frame);
        assert!(full.contains("\x1b[2J"));
        assert!(renderer.encode(&frame).is_empty());
        frame.text(6, 5, "X", green());
        let delta = renderer.encode(&frame);
        assert!(delta.contains("\x1b[6;7H"));
        assert!(!delta.contains("MENU"));
        assert!(!delta.contains("\x1b[2J"));
        assert!(delta.len() < full.len() / 3);
        assert!(delta.starts_with("\x1b[?2026h") && delta.ends_with("\x1b[?2026l"));
    }
}

#[test]
fn text_is_composited_before_encoding_and_resize_forces_repaint() {
    let mut frame = Frame::new(40, 16);
    frame.pixel(20, 16, green());
    frame.text(20, 8, "P", white());
    assert_eq!(frame.cells[8 * 40 + 20].glyph, 'P');
    assert_eq!(frame.cells[8 * 40 + 20].bg, bg());
    let mut renderer = TerminalRenderer::new(ColorMode::Palette);
    renderer.encode(&frame);
    assert!(renderer.encode(&Frame::new(60, 20)).contains("\x1b[2J"));
}

#[test]
fn new_frames_are_blank() {
    let frame = Frame::new(3, 2);
    assert_eq!(frame.cells.len(), 6);
    assert!(frame.cells.iter().all(|c| *c == Cell::default()));
    assert_eq!(Cell::default(), Cell { glyph: ' ', fg: white(), bg: bg() });
    assert_eq!(frame.plain(), "   \n   \n");
}

#[test]
fn pixels_fill_upper_and_lower_halves() {
    let mut frame = Frame::new(4, 2);
    frame.pixel(1, 2, Rgb(1, 2, 3));
    let cell = frame.cells[4 + 1];
    assert_eq!(cell.glyph, render::HALF_BLOCK);
    assert_eq!(cell.fg, Rgb(1, 2, 3));
    assert_eq!(cell.bg, bg());
    frame.pixel(1, 3, Rgb(4, 5, 6));
    let cell = frame.cells[4 + 1];
    assert_eq!(cell.fg, Rgb(1, 2, 3));
    assert_eq!(cell.bg, Rgb(4, 5, 6));
    let before = frame.cells.clone();
    frame.pixel(-1, 0, Rgb(9, 9, 9));
    frame.pixel(4, 0, Rgb(9, 9, 9));
    frame.pixel(0, 4, Rgb(9, 9, 9));
    assert_eq!(frame.cells, before);
}

#[test]
fn text_is_cut_at_the_right_edge() {
    let mut frame = Frame::new(5, 2);
    frame.text(3, 1, "ABCDE", green());
    assert_eq!(frame.plain(), "     \n   AB\n");
    frame.text(5, 0, "Z", green());
    frame.text(0, 2, "Z", green());
    assert_eq!(frame.plain(), "     \n   AB\n");
    frame.center(0, "─┼─", white());
    assert_eq!(frame.plain(), " ─┼─ \n   AB\n");
    assert_eq!(frame.cells[1].fg, white());
    assert_eq!(frame.cells[1].bg, bg());
}

#[test]
fn palette_picks_the_nearest_cube_or_grey_entry() {
    let mut renderer = TerminalRenderer::new(ColorMode::Palette);
    let mut frame = Frame::new(1, 1);
    frame.cells[0] = Cell { glyph: 'x', fg: Rgb(255, 0, 0), bg: Rgb(8, 8, 8) };
    let out = renderer.encode(&frame);
    // Pure red is cube entry 16 + 36 * 5 = 196; dark grey is ramp entry 232.
    assert!(out.contains("\x1b[38;5;196m"));
    assert!(out.contains("\x1b[48;5;232m"));
    frame.cells[0] = Cell { glyph: 'x', fg: Rgb(95, 135, 175), bg: Rgb(128, 128, 128) };
    let out = renderer.encode(&frame);
    // Channel levels 1, 2, 3 give 16 + 36 + 12 + 3 = 67; mid grey is 232 + 12.
    assert!(out.contains("\x1b[38;5;67m"));
    assert!(out.contains("\x1b[48;5;244m"));
}

#[test]
fn true_colour_writes_each_channel() {
    let mut renderer = TerminalRenderer::new(ColorMode::TrueColor);
    let mut frame = Frame::new(2, 1);
    frame.cells[0] = Cell { glyph: 'a', fg: Rgb(1, 2, 3), bg: Rgb(250, 184, 74) };
    frame.cells[1] = Cell { glyph: 'b', fg: Rgb(1, 2, 3), bg: Rgb(250, 184, 74) };
    let out = renderer.encode(&frame);
    assert_eq!(
        out,
        "\x1b[?2026h\x1b[0m\x1b[2J\x1b[1;1H\x1b[38;2;1;2;3m\x1b[48;2;250;184;74mab\x1b[0m\x1b[?2026l"
    );
}

#[test]
fn invalidate_forces_a_full_repaint() {
    let mut renderer = TerminalRenderer::new(ColorMode::Palette);
    let frame = Frame::new(10, 4);
    assert!(!renderer.encode(&frame).is_empty());
    assert!(renderer.encode(&frame).is_empty());
    renderer.invalidate();
    let out = renderer.encode(&frame);
    assert!(out.starts_with("\x1b[?2026h\x1b[0m\x1b[2J"));
}

#[test]
fn changed_cells_on_a_new_row_move_the_cursor() {
    let mut renderer = TerminalRenderer::new(ColorMode::Palette);
    let mut frame = Frame::new(3, 3);
    renderer.encode(&frame);
    frame.text(2, 0, "A", white());
    frame.text(0, 1, "B", white());
    let out = renderer.encode(&frame);
    assert!(out.contains("\x1b[1;3H"));
    assert!(out.contains("\x1b[2;1HB"));
}
