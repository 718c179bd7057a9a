use terminalshooter::render::{bg, gold, green, red, white, Cell, ColorMode, Frame, Rgb, TerminalRenderer};

/// A screen as the encoder's terminal model reads text: control sequences
/// `ESC [ params final` with `H`, `2J` and `m`; other characters drawn at
/// the cursor, which moves one column right.
#[derive(Clone, Debug, PartialEq)]
struct Screen {
    width: usize,
    height: usize,
    cells: Vec<(char, Option<u32>, Option<u32>)>,
    row: i64,
    col: i64,
    fg: Option<u32>,
    bg: Option<u32>,
}

impl Screen {
    fn new(width: usize, height: usize) -> Screen {
        Screen {
            width,
            height,
            cells: vec![('?', None, None); width * height],
            row: 0,
            col: 0,
            fg: None,
            bg: None,
        }
    }

    fn apply(&mut self, text: &str) {
        let chars: Vec<char> = text.chars().collect();
        let mut k = 0;
        while k < chars.len() {
            if chars[k] == '\x1b' {
                assert_eq!(chars[k + 1], '[');
                k += 2;
                let mut params: Vec<u32> = Vec::new();
                let mut current = 0u32;
                loop {
                    let c = chars[k];
                    k += 1;
                    if let Some(d) = c.to_digit(10) {
                        current = current * 10 + d;
                    } else if c == ';' {
                        params.push(current);
                        current = 0;
                    } else if c == '?' {
                    } else {
                        params.push(current);
                        self.control(&params, c);
                        break;
                    }
                }
            } else {
                if self.row >= 0 && self.col >= 0 && (self.row as usize) < self.height && (self.col as usize) < self.width {
                    let i = self.row as usize * self.width + self.col as usize;
                    self.cells[i] = (chars[k], self.fg, self.bg);
                }
                self.col += 1;
                k += 1;
            }
        }
    }

    fn control(&mut self, p: &[u32], c: char) {
        match (c, p) {
            ('H', [r, c]) => {
                self.row = *r as i64 - 1;
                self.col = *c as i64 - 1;
            }
            ('J', [2]) => self.cells = vec![(' ', None, None); self.width * self.height],
            ('m', [0]) => {
                self.fg = None;
                self.bg = None;
            }
            ('m', [38, 5, n]) => self.fg = Some(*n),
            ('m', [48, 5, n]) => self.bg = Some(*n),
            ('m', [38, 2, r, g, b]) => self.fg = Some(r * 65536 + g * 256 + b),
            ('m', [48, 2, r, g, b]) => self.bg = Some(r * 65536 + g * 256 + b),
            _ => {}
        }
    }
}

fn code(c: Rgb) -> u32 {
    c.0 as u32 * 65536 + c.1 as u32 * 256 + c.2 as u32
}

fn assert_shows(screen: &Screen, frame: &Frame) {
    for (i, cell) in frame.cells.iter().enumerate() {
        assert_eq!(screen.cells[i], (cell.glyph, Some(code(cell.fg)), Some(code(cell.bg))), "cell {i}");
    }
}

#[test]
fn applying_updates_shows_each_frame() {
    let mut renderer = TerminalRenderer::new(ColorMode::TrueColor);
    let mut screen = Screen::new(40, 16);
    let mut frame = Frame::new(40, 16);
    frame.text(5, 5, "MENU", white());
    frame.pixel(3, 3, green());
    screen.apply(&renderer.encode(&frame));
    assert_shows(&screen, &frame);
    frame.text(6, 5, "X", gold());
    frame.pixel(39, 31, red());
    frame.cells[0] = Cell { glyph: '#', fg: red(), bg: bg() };
    screen.apply(&renderer.encode(&frame));
    assert_shows(&screen, &frame);
    // An unchanged frame sends nothing and the screen stays right.
    screen.apply(&renderer.encode(&frame));
    assert_shows(&screen, &frame);
    // After the renderer forgets, any screen is repainted.
    renderer.invalidate();
    let mut other = Screen::new(40, 16);
    other.apply(&renderer.encode(&frame));
    assert_shows(&other, &frame);
}

#[test]
fn palette_updates_show_palette_codes() {
    let mut renderer = TerminalRenderer::new(ColorMode::Palette);
    let mut screen = Screen::new(20, 4);
    let mut frame = Frame::new(20, 4);
    frame.text(1, 1, "HP 100", green());
    screen.apply(&renderer.encode(&frame));
    for (i, cell) in frame.cells.iter().enumerate() {
        assert_eq!(screen.cells[i].0, cell.glyph);
        assert!(screen.cells[i].1.unwrap() < 256 && screen.cells[i].2.unwrap() < 256);
    }
    let green_code = screen.cells[21].1;
    frame.text(1, 2, "A", green());
    screen.apply(&renderer.encode(&frame));
    assert_eq!(screen.cells[41].0, 'A');
    assert_eq!(screen.cells[41].1, green_code);
}
