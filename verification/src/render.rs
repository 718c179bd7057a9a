//! Character frames made of half-block pixels and text, and their
//! differential ANSI encoding for the terminal.
use vstd::prelude::*;
use vstd::string::*;
use crate::strings::{push_char, push_decimal, decimal};

verus! {

/// A 24-bit colour.
#[derive(Clone, Copy, Debug, PartialEq, Eq, Structural)]
pub struct Rgb(pub u8, pub u8, pub u8);

/// Background.
#[verifier::allow_in_spec]
pub fn bg() -> Rgb
    returns
        Rgb(8, 12, 20),
{
    Rgb(8, 12, 20)
}

/// Highlight green.
#[verifier::allow_in_spec]
pub fn green() -> Rgb
    returns
        Rgb(70, 245, 155),
{
    Rgb(70, 245, 155)
}

/// Text white.
#[verifier::allow_in_spec]
pub fn white() -> Rgb
    returns
        Rgb(220, 236, 241),
{
    Rgb(220, 236, 241)
}

/// Dimmed text.
#[verifier::allow_in_spec]
pub fn dim() -> Rgb
    returns
        Rgb(90, 120, 140),
{
    Rgb(90, 120, 140)
}

/// Warning gold.
#[verifier::allow_in_spec]
pub fn gold() -> Rgb
    returns
        Rgb(250, 184, 74),
{
    Rgb(250, 184, 74)
}

/// Danger red.
#[verifier::allow_in_spec]
pub fn red() -> Rgb
    returns
        Rgb(245, 60, 52),
{
    Rgb(245, 60, 52)
}

/// Minimap wall.
#[verifier::allow_in_spec]
pub fn mm_wall() -> Rgb
    returns
        Rgb(90, 125, 145),
{
    Rgb(90, 125, 145)
}

/// The upper half block: its foreground paints the upper pixel of a cell
/// and its background the lower one.
pub const HALF_BLOCK: char = '\u{2580}';

/// One terminal cell.
#[derive(Clone, Copy, Debug, PartialEq, Eq, Structural)]
pub struct Cell {
    pub glyph: char,
    pub fg: Rgb,
    pub bg: Rgb,
}

/// A space in white on the background colour.
pub open spec fn blank() -> Cell {
    Cell { glyph: ' ', fg: white(), bg: bg() }
}

impl Default for Cell {
    fn default() -> (r: Self)
        ensures
            r == blank(),
    {
        Cell { glyph: ' ', fg: white(), bg: bg() }
    }
}

/// `cell` after painting its upper (`upper`) or lower half with `color`.
/// A cell that does not show a half block yet becomes one whose two halves
/// both keep the old background.
pub open spec fn painted(cell: Cell, upper: bool, color: Rgb) -> Cell {
    let base = if cell.glyph != HALF_BLOCK {
        Cell { glyph: HALF_BLOCK, fg: cell.bg, bg: cell.bg }
    } else {
        cell
    };
    if upper {
        Cell { fg: color, ..base }
    } else {
        Cell { bg: color, ..base }
    }
}

/// `cells`, the cells of a `width` by `height` frame, after painting
/// pixel `(x, y)` in `color`: every cell holds two pixels, the upper one
/// on even `y`. Pixels outside the frame leave it unchanged.
pub open spec fn pixel_painted(cells: Seq<Cell>, width: int, height: int, x: int, y: int, color: Rgb) -> Seq<Cell> {
    if 0 <= x < width && 0 <= y < 2 * height {
        cells.update((y / 2) * width + x, painted(cells[(y / 2) * width + x], y % 2 == 0, color))
    } else {
        cells
    }
}

/// `cells`, the cells of a `width` by `height` frame, after writing `chars`
/// from column `x` of row `y` in `color` on the background, cut at the
/// right edge. Nothing is written when `(x, y)` lies outside the frame.
pub open spec fn write_text(
    cells: Seq<Cell>,
    width: int,
    height: int,
    x: int,
    y: int,
    chars: Seq<char>,
    color: Rgb,
) -> Seq<Cell> {
    let start = y * width + x;
    let n = text_span(width, height, x, y, chars);
    Seq::new(cells.len(), |k: int| written_cell(cells, start, n, chars, color, k))
}

/// Cell `k` of `cells` after `n` characters of `chars` are written in
/// `color` from cell `start` on.
pub open spec fn written_cell(
    cells: Seq<Cell>,
    start: int,
    n: int,
    chars: Seq<char>,
    color: Rgb,
    k: int,
) -> Cell {
    if start <= k < start + n {
        Cell { glyph: chars[k - start], fg: color, bg: bg() }
    } else {
        cells[k]
    }
}

/// How many characters of `chars` fit from column `x` of row `y`.
pub open spec fn text_span(width: int, height: int, x: int, y: int, chars: Seq<char>) -> int {
    if y >= height || x >= width {
        0
    } else if chars.len() < width - x {
        chars.len() as int
    } else {
        width - x
    }
}

/// The column at which `chars` is centred in a row `width` cells wide.
pub open spec fn centred_column(width: int, chars: Seq<char>) -> int {
    if width > chars.len() { (width - chars.len()) / 2 } else { 0 }
}

/// The text of one row of a frame: the glyph of column `c`, and a line
/// feed after the last column.
pub open spec fn plain_char(cells: Seq<Cell>, width: int, r: int, c: int) -> char {
    if c == width { '\n' } else { cells[r * width + c].glyph }
}

proof fn lemma_cell_index(r: int, c: int, width: int, height: int)
    requires
        0 <= r < height,
        0 <= c < width,
    ensures
        0 <= r * width + c < width * height,
{
    assert(r * width + c < width * height) by (nonlinear_arith)
        requires
            0 <= r < height,
            0 <= c < width,
    ;
    assert(0 <= r * width) by (nonlinear_arith)
        requires
            0 <= r,
            0 <= c < width,
    ;
}

/// A grid of cells, `width` columns by `height` rows, stored row by row.
#[derive(Clone, Debug)]
pub struct Frame {
    pub width: usize,
    pub height: usize,
    pub cells: Vec<Cell>,
}

impl Frame {
    /// The cells are exactly the rows times the columns.
    pub open spec fn wf(&self) -> bool {
        self.cells@.len() == self.width * self.height
    }

    /// A frame of blank cells.
    pub fn new(width: usize, height: usize) -> (r: Self)
        requires
            width * height <= usize::MAX,
        ensures
            r.wf(),
            r.width == width,
            r.height == height,
            forall|i: int| 0 <= i < r.cells@.len() ==> r.cells@[i] == blank(),
    {
        let n = width * height;
        let mut cells: Vec<Cell> = Vec::with_capacity(n);
        let mut i: usize = 0;
        while i < n
            invariant
                i <= n,
                cells@.len() == i,
                forall|j: int| 0 <= j < i ==> cells@[j] == blank(),
            decreases n - i,
        {
            cells.push(Cell::default());
            i = i + 1;
        }
        Frame { width, height, cells }
    }

    /// Paints pixel `(x, y)`: every cell holds two pixels, the upper one on
    /// even `y`. Pixels outside the frame are ignored.
    pub fn pixel(&mut self, x: i32, y: i32, color: Rgb)
        requires
            old(self).wf(),
        ensures
            final(self).wf(),
            final(self).width == old(self).width,
            final(self).height == old(self).height,
            final(self).cells@ == pixel_painted(
                old(self).cells@,
                old(self).width as int,
                old(self).height as int,
                x as int,
                y as int,
                color,
            ),
    {
        if x < 0 || y < 0 || x as usize >= self.width || y as usize / 2 >= self.height {
            return;
        }
        let total = self.cells.len();
        let row = y as usize / 2;
        proof {
            lemma_cell_index(row as int, x as int, self.width as int, self.height as int);
        }
        let i = row * self.width + x as usize;
        let mut cell = self.cells[i];
        if cell.glyph != HALF_BLOCK {
            cell.fg = cell.bg;
            cell.glyph = HALF_BLOCK;
        }
        if y % 2 == 0 {
            cell.fg = color;
        } else {
            cell.bg = color;
        }
        self.cells.set(i, cell);
    }

    /// Writes `text` from column `x` of row `y`, cut at the right edge.
    pub fn text(&mut self, x: usize, y: usize, text: &str, color: Rgb)
        requires
            old(self).wf(),
        ensures
            final(self).wf(),
            final(self).width == old(self).width,
            final(self).height == old(self).height,
            final(self).cells@ == write_text(
                old(self).cells@,
                old(self).width as int,
                old(self).height as int,
                x as int,
                y as int,
                text@,
                color,
            ),
    {
        if y >= self.height || x >= self.width {
            assert(self.cells@ =~= write_text(
                self.cells@,
                self.width as int,
                self.height as int,
                x as int,
                y as int,
                text@,
                color,
            ));
            return;
        }
        let ghost old_cells = self.cells@;
        let total = self.cells.len();
        let len = text.unicode_len();
        let n = if len < self.width - x { len } else { self.width - x };
        proof {
            lemma_cell_index(y as int, x as int, self.width as int, self.height as int);
            if n > 0 {
                lemma_cell_index(y as int, (x + n - 1) as int, self.width as int, self.height as int);
            }
        }
        let start = y * self.width + x;
        let mut offset: usize = 0;
        while offset < n
            invariant
                self.wf(),
                self.width == old(self).width,
                self.height == old(self).height,
                old_cells == old(self).cells@,
                total == self.width * self.height,
                x < self.width,
                y < self.height,
                len == text@.len(),
                n <= len,
                start + n <= self.width * self.height,
                start == y * self.width + x,
                n == (if text@.len() < self.width - x { text@.len() as int } else { self.width - x }),
                offset <= n,
                forall|k: int|
                    0 <= k < self.cells@.len() ==> #[trigger] self.cells@[k] == (if start <= k
                        < start + offset {
                        Cell { glyph: text@[k - start], fg: color, bg: bg() }
                    } else {
                        old_cells[k]
                    }),
            decreases n - offset,
        {
            let glyph = text.get_char(offset);
            self.cells.set(start + offset, Cell { glyph, fg: color, bg: bg() });
            offset = offset + 1;
        }
        assert(self.cells@ =~= write_text(
            old_cells,
            self.width as int,
            self.height as int,
            x as int,
            y as int,
            text@,
            color,
        ));
    }

    /// Writes `text` centred in row `y`.
    pub fn center(&mut self, y: usize, text: &str, color: Rgb)
        requires
            old(self).wf(),
        ensures
            final(self).wf(),
            final(self).width == old(self).width,
            final(self).height == old(self).height,
            final(self).cells@ == write_text(
                old(self).cells@,
                old(self).width as int,
                old(self).height as int,
                centred_column(old(self).width as int, text@),
                y as int,
                text@,
                color,
            ),
    {
        let len = text.unicode_len();
        let x = if self.width > len { (self.width - len) / 2 } else { 0 };
        self.text(x, y, text, color);
    }

    /// The glyphs of the frame, one line per row.
    pub fn plain(&self) -> (r: String)
        requires
            self.wf(),
            self.width > 0,
        ensures
            r@.len() == self.height * (self.width + 1),
            forall|row: int, col: int|
                0 <= row < self.height && 0 <= col <= self.width ==> r@[row * (self.width + 1)
                    + col] == #[trigger] plain_char(self.cells@, self.width as int, row, col),
    {
        let w = self.width;
        let h = self.height;
        let total = self.cells.len();
        let mut out = String::new();
        let mut r: usize = 0;
        while r < h
            invariant
                self.wf(),
                w == self.width,
                h == self.height,
                w > 0,
                total == w * h,
                r <= h,
                out@.len() == r * (w + 1),
                forall|row: int, col: int|
                    0 <= row < r && 0 <= col <= w ==> out@[row * (w + 1) + col]
                        == #[trigger] plain_char(self.cells@, w as int, row, col),
            decreases h - r,
        {
            let mut c: usize = 0;
            let ghost before = out@;
            proof {
                lemma_cell_index(r as int, 0, w as int, h as int);
                assert(r * w + w <= w * h) by (nonlinear_arith)
                    requires
                        r < h,
                ;
            }
            while c < w
                invariant
                    self.wf(),
                    w == self.width,
                    h == self.height,
                    w > 0,
                    r < h,
                    c <= w,
                    r * w + w <= w * h,
                    total == w * h,
                    before.len() == r * (w + 1),
                    out@.len() == r * (w + 1) + c,
                    forall|k: int| 0 <= k < before.len() ==> out@[k] == before[k],
                    forall|col: int|
                        0 <= col < c ==> out@[r * (w + 1) + col] == #[trigger] plain_char(
                            self.cells@,
                            w as int,
                            r as int,
                            col,
                        ),
                decreases w - c,
            {
                proof {
                    lemma_cell_index(r as int, c as int, w as int, h as int);
                }
                push_char(&mut out, self.cells[r * w + c].glyph);
                c = c + 1;
            }
            push_char(&mut out, '\n');
            proof {
                assert((r + 1) * (w + 1) == r * (w + 1) + w + 1) by (nonlinear_arith);
                assert forall|row: int, col: int|
                    0 <= row < r + 1 && 0 <= col <= w implies out@[row * (w + 1) + col]
                        == #[trigger] plain_char(self.cells@, w as int, row, col) by {
                    if row < r {
                        assert(row * (w + 1) + col < r * (w + 1)) by (nonlinear_arith)
                            requires
                                row < r,
                                col <= w,
                        ;
                        assert(0 <= row * (w + 1)) by (nonlinear_arith)
                            requires
                                0 <= row,
                        ;
                    }
                }
            }
            r = r + 1;
        }
        out
    }
}

} // verus!

verus! {

/// Colour output of the terminal: 24-bit escapes or the 256-colour palette.
#[derive(Clone, Copy, Debug, PartialEq, Eq, Structural)]
pub enum ColorMode {
    TrueColor,
    Palette,
}

/// Level `i` (0 to 5) of each channel of the 6x6x6 palette cube.
pub open spec fn cube_value(i: int) -> int {
    if i == 0 {
        0
    } else if i == 1 {
        95
    } else if i == 2 {
        135
    } else if i == 3 {
        175
    } else if i == 4 {
        215
    } else {
        255
    }
}

/// The cube level nearest to channel value `c`: the first level whose
/// squared distance to `c` is smallest (see `lemma_cube_level_is_nearest`).
pub open spec fn cube_level(c: int) -> int {
    if c <= 47 {
        0
    } else if c <= 115 {
        1
    } else if c <= 155 {
        2
    } else if c <= 195 {
        3
    } else if c <= 235 {
        4
    } else {
        5
    }
}

/// Squared distance of `c` from cube level `i`.
pub open spec fn level_error(i: int, c: int) -> int {
    (cube_value(i) - c) * (cube_value(i) - c)
}

proof fn lemma_square_order(a: int, b: int)
    ensures
        (a * a <= b * b) == ((if a < 0 { -a } else { a }) <= (if b < 0 { -b } else { b })),
        (a * a < b * b) == ((if a < 0 { -a } else { a }) < (if b < 0 { -b } else { b })),
{
    let x = if a < 0 { -a } else { a };
    let y = if b < 0 { -b } else { b };
    assert(a * a == x * x) by (nonlinear_arith)
        requires
            x == (if a < 0 { -a } else { a }),
    ;
    assert(b * b == y * y) by (nonlinear_arith)
        requires
            y == (if b < 0 { -b } else { b }),
    ;
    assert((x * x <= y * y) == (x <= y)) by (nonlinear_arith)
        requires
            x >= 0,
            y >= 0,
    ;
    assert((x * x < y * y) == (x < y)) by (nonlinear_arith)
        requires
            x >= 0,
            y >= 0,
    ;
}

/// `cube_level(c)` has the least squared error of all six levels, and every
/// earlier level has a strictly greater one.
pub proof fn lemma_cube_level_is_nearest(c: int)
    requires
        0 <= c <= 255,
    ensures
        0 <= cube_level(c) < 6,
        forall|j: int| 0 <= j < 6 ==> level_error(cube_level(c), c) <= #[trigger] level_error(j, c),
        forall|j: int| 0 <= j < cube_level(c) ==> level_error(cube_level(c), c) < #[trigger] level_error(j, c),
{
    let l = cube_level(c);
    assert forall|j: int| 0 <= j < 6 implies level_error(l, c) <= #[trigger] level_error(j, c) by {
        lemma_square_order(cube_value(l) - c, cube_value(j) - c);
    }
    assert forall|j: int| 0 <= j < l implies level_error(l, c) < #[trigger] level_error(j, c) by {
        lemma_square_order(cube_value(l) - c, cube_value(j) - c);
    }
}

/// The grey ramp step (0 to 23) for a colour: its channel average, rounded
/// to the ramp 8, 18, ..., 238.
pub open spec fn gray_step(c: Rgb) -> int {
    let average = (c.0 + c.1 + c.2) / 3;
    if average < 3 {
        0
    } else if (average - 3) / 10 > 23 {
        23
    } else {
        (average - 3) / 10
    }
}

/// Squared error of `c` against grey ramp step `g`.
pub open spec fn gray_error(c: Rgb, g: int) -> int {
    let v = 8 + g * 10;
    (v - c.0) * (v - c.0) + (v - c.1) * (v - c.1) + (v - c.2) * (v - c.2)
}

/// Squared error of `c` against its nearest cube colour.
pub open spec fn cube_error(c: Rgb) -> int {
    level_error(cube_level(c.0 as int), c.0 as int) + level_error(cube_level(c.1 as int), c.1 as int)
        + level_error(cube_level(c.2 as int), c.2 as int)
}

/// The 256-colour palette index for `c`: the grey ramp entry when it is
/// strictly closer than the nearest cube colour, else that cube colour.
pub open spec fn palette_index(c: Rgb) -> int {
    if gray_error(c, gray_step(c)) < cube_error(c) {
        232 + gray_step(c)
    } else {
        16 + 36 * cube_level(c.0 as int) + 6 * cube_level(c.1 as int) + cube_level(c.2 as int)
    }
}

/// The square of a difference of two channel values.
fn square(d: i32) -> (r: i32)
    requires
        -255 <= d <= 255,
    ensures
        r == d * d,
        0 <= r <= 65025,
{
    proof {
        assert(0 <= d * d <= 65025) by (nonlinear_arith)
            requires
                -255 <= d <= 255,
        ;
    }
    d * d
}

/// The nearest cube level of a channel value, as the first level of least
/// squared error.
fn nearest(c: u8) -> (r: usize)
    ensures
        r == cube_level(c as int),
{
    let values: [i32; 6] = [0, 95, 135, 175, 215, 255];
    let ci = c as i32;
    let mut best: usize = 0;
    let mut best_error: i32 = square(values[0] - ci);
    let mut i: usize = 1;
    proof {
        assert(values@ == seq![0i32, 95, 135, 175, 215, 255]);
    }
    while i < 6
        invariant
            values@ == seq![0i32, 95, 135, 175, 215, 255],
            ci == c as int,
            1 <= i <= 6,
            best < i,
            best_error == level_error(best as int, c as int),
            forall|j: int| 0 <= j < i ==> level_error(best as int, c as int) <= #[trigger] level_error(j, c as int),
            forall|j: int| 0 <= j < best ==> level_error(best as int, c as int) < #[trigger] level_error(j, c as int),
        decreases 6 - i,
    {
        let e = square(values[i] - ci);
        assert(e == level_error(i as int, c as int));
        if e < best_error {
            best = i;
            best_error = e;
        }
        i = i + 1;
    }
    proof {
        lemma_cube_level_is_nearest(c as int);
        let l = cube_level(c as int);
        if (best as int) < l {
            assert(level_error(l, c as int) < level_error(best as int, c as int));
        } else if l < (best as int) {
            assert(level_error(best as int, c as int) < level_error(l, c as int));
        }
    }
    best
}

/// The 256-colour palette index nearest to `color`.
fn palette(color: Rgb) -> (r: u32)
    ensures
        r == palette_index(color),
{
    let (r, g, b) = (nearest(color.0), nearest(color.1), nearest(color.2));
    let values: [i32; 6] = [0, 95, 135, 175, 215, 255];
    proof {
        assert(values@ == seq![0i32, 95, 135, 175, 215, 255]);
    }
    let c0 = color.0 as i32;
    let c1 = color.1 as i32;
    let c2 = color.2 as i32;
    let error = square(values[r] - c0) + square(values[g] - c1) + square(values[b] - c2);
    let average = (c0 + c1 + c2) / 3;
    let gray = if average < 3 {
        0
    } else if (average - 3) / 10 > 23 {
        23
    } else {
        (average - 3) / 10
    };
    let value = 8 + gray * 10;
    let gray_err = square(value - c0) + square(value - c1) + square(value - c2);
    if gray_err < error {
        232 + gray as u32
    } else {
        (16 + 36 * r + 6 * g + b) as u32
    }
}

} // verus!

verus! {

/// A cell as it goes to the terminal: its glyph and the colour codes of its
/// two colours in the renderer's colour mode.
#[derive(Clone, Copy, Debug, PartialEq, Eq, Structural)]
pub struct Encoded {
    pub glyph: char,
    pub fg: u32,
    pub bg: u32,
}

/// The colour code of `c`: a palette index, or `0xRRGGBB`.
pub open spec fn color_code(mode: ColorMode, c: Rgb) -> u32 {
    match mode {
        ColorMode::Palette => palette_index(c) as u32,
        ColorMode::TrueColor => (c.0 * 65536 + c.1 * 256 + c.2) as u32,
    }
}

/// `cell` with its colours as codes.
pub open spec fn encoded(mode: ColorMode, cell: Cell) -> Encoded {
    Encoded { glyph: cell.glyph, fg: color_code(mode, cell.fg), bg: color_code(mode, cell.bg) }
}

/// Every cell of `cells`, encoded.
pub open spec fn encode_cells(mode: ColorMode, cells: Seq<Cell>) -> Seq<Encoded>
    decreases cells.len(),
{
    if cells.len() == 0 {
        seq![]
    } else {
        encode_cells(mode, cells.drop_last()).push(encoded(mode, cells.last()))
    }
}

pub(crate) proof fn lemma_encode_cells(mode: ColorMode, cells: Seq<Cell>)
    ensures
        encode_cells(mode, cells).len() == cells.len(),
        forall|i: int|
            0 <= i < cells.len() ==> #[trigger] encode_cells(mode, cells)[i] == encoded(
                mode,
                cells[i],
            ),
    decreases cells.len(),
{
    if cells.len() > 0 {
        lemma_encode_cells(mode, cells.drop_last());
    }
}

/// `ESC [`, the start of every control sequence.
pub open spec fn csi() -> Seq<char> {
    seq!['\x1b', '[']
}

/// Moves the cursor to 1-based `row` and `col`.
pub open spec fn cursor_to(row: nat, col: nat) -> Seq<char> {
    csi() + decimal(row) + seq![';'] + decimal(col) + seq!['H']
}

/// Selects colour code `value` for the foreground (`fg`) or background.
pub open spec fn select_color(mode: ColorMode, value: u32, fg: bool) -> Seq<char> {
    let prefix: nat = if fg { 38 } else { 48 };
    match mode {
        ColorMode::Palette => csi() + decimal(prefix) + seq![';', '5', ';'] + decimal(value as nat)
            + seq!['m'],
        ColorMode::TrueColor => csi() + decimal(prefix) + seq![';', '2', ';'] + decimal(
            ((value / 65536) % 256) as nat,
        ) + seq![';'] + decimal(((value / 256) % 256) as nat) + seq![';'] + decimal(
            (value % 256) as nat,
        ) + seq!['m'],
    }
}

/// The text emitted for the first `n` cells, and the foreground,
/// background and cursor continuity in effect after it.
pub struct Emission {
    pub text: Seq<char>,
    pub fg: Option<u32>,
    pub bg: Option<u32>,
    pub adjacent: bool,
}

/// Emission of the first `n` of `cells` in a frame `width` wide. On a full
/// repaint every cell is drawn; otherwise only cells that differ from
/// `previous`. The cursor is placed before a cell that does not follow a
/// drawn cell on the same row, and a colour is selected only when it
/// differs from the one in effect.
pub open spec fn emission(
    mode: ColorMode,
    cells: Seq<Encoded>,
    previous: Seq<Encoded>,
    full: bool,
    width: int,
    n: int,
) -> Emission
    decreases n,
{
    if n <= 0 {
        Emission { text: seq![], fg: None, bg: None, adjacent: false }
    } else {
        let e = emission(mode, cells, previous, full, width, n - 1);
        if !full && cells[n - 1] == previous[n - 1] {
            Emission { adjacent: false, ..e }
        } else {
            drawn(mode, e, cells[n - 1], n - 1, width)
        }
    }
}

/// Emission `e` followed by drawing `cell`, the `i`-th cell of a frame
/// `width` wide.
pub open spec fn drawn(mode: ColorMode, e: Emission, cell: Encoded, i: int, width: int) -> Emission {
    Emission {
        text: e.text + cell_text(mode, e.fg, e.bg, e.adjacent, cell, i, width),
        fg: Some(cell.fg),
        bg: Some(cell.bg),
        adjacent: true,
    }
}

/// The text that draws `cell`, the `i`-th cell of a frame `width` wide,
/// when colours `fg` and `bg` are in effect and the cursor stands after
/// the previous cell (`adjacent`) or not.
#[verifier::opaque]
pub open spec fn cell_text(
    mode: ColorMode,
    fg: Option<u32>,
    bg: Option<u32>,
    adjacent: bool,
    cell: Encoded,
    i: int,
    width: int,
) -> Seq<char> {
    let t1 = if !adjacent || i % width == 0 {
        cursor_to((i / width + 1) as nat, (i % width + 1) as nat)
    } else {
        seq![]
    };
    let t2 = if fg != Some(cell.fg) {
        t1 + select_color(mode, cell.fg, true)
    } else {
        t1
    };
    let t3 = if bg != Some(cell.bg) {
        t2 + select_color(mode, cell.bg, false)
    } else {
        t2
    };
    t3.push(cell.glyph)
}

/// Begin synchronized update.
pub open spec fn sync_begin() -> Seq<char> {
    csi() + seq!['?', '2', '0', '2', '6', 'h']
}

/// Reset attributes and clear the screen.
pub open spec fn clear_screen() -> Seq<char> {
    csi() + seq!['0', 'm'] + csi() + seq!['2', 'J']
}

/// Reset attributes and end the synchronized update.
pub open spec fn sync_end() -> Seq<char> {
    csi() + seq!['0', 'm'] + csi() + seq!['?', '2', '0', '2', '6', 'l']
}

/// Whether a frame of `width` by `height` with `count` cells needs a full
/// repaint after `previous` was sent for a frame of size `size`.
pub open spec fn needs_full(previous: Seq<Encoded>, size: (usize, usize), width: usize, height: usize, count: int) -> bool {
    size != (width, height) || previous.len() != count
}

/// What encoding `frame` sends after `previous` was sent at size `size`:
/// nothing when no cell changed, else one synchronized update that clears
/// the screen on a full repaint and draws the changed cells.
pub open spec fn encoding(
    mode: ColorMode,
    previous: Seq<Encoded>,
    size: (usize, usize),
    frame: Frame,
) -> Seq<char> {
    let cells = encode_cells(mode, frame.cells@);
    let full = needs_full(previous, size, frame.width, frame.height, cells.len() as int);
    if !full && cells == previous {
        seq![]
    } else {
        sync_begin() + (if full { clear_screen() } else { seq![] }) + emission(
            mode,
            cells,
            previous,
            full,
            frame.width as int,
            cells.len() as int,
        ).text + sync_end()
    }
}

fn push_csi(out: &mut String)
    ensures
        final(out)@ == old(out)@ + csi(),
{
    push_char(out, '\x1b');
    push_char(out, '[');
}

fn push_cursor(out: &mut String, row: u64, col: u64)
    ensures
        final(out)@ == old(out)@ + cursor_to(row as nat, col as nat),
{
    let ghost start = out@;
    push_csi(out);
    push_decimal(out, row);
    push_char(out, ';');
    push_decimal(out, col);
    push_char(out, 'H');
    proof {
        assert(out@ =~= start + cursor_to(row as nat, col as nat));
    }
}

fn push_sync_begin(out: &mut String)
    ensures
        final(out)@ == old(out)@ + sync_begin(),
{
    let ghost start = out@;
    push_csi(out);
    push_char(out, '?');
    push_char(out, '2');
    push_char(out, '0');
    push_char(out, '2');
    push_char(out, '6');
    push_char(out, 'h');
    proof {
        assert(out@ =~= start + sync_begin());
    }
}

fn push_clear_screen(out: &mut String)
    ensures
        final(out)@ == old(out)@ + clear_screen(),
{
    let ghost start = out@;
    push_csi(out);
    push_char(out, '0');
    push_char(out, 'm');
    push_csi(out);
    push_char(out, '2');
    push_char(out, 'J');
    proof {
        assert(out@ =~= start + clear_screen());
    }
}

fn push_sync_end(out: &mut String)
    ensures
        final(out)@ == old(out)@ + sync_end(),
{
    let ghost start = out@;
    push_csi(out);
    push_char(out, '0');
    push_char(out, 'm');
    push_csi(out);
    push_char(out, '?');
    push_char(out, '2');
    push_char(out, '0');
    push_char(out, '2');
    push_char(out, '6');
    push_char(out, 'l');
    proof {
        assert(out@ =~= start + sync_end());
    }
}

fn same_cells(a: &Vec<Encoded>, b: &Vec<Encoded>) -> (r: bool)
    ensures
        r == (a@ == b@),
{
    if a.len() != b.len() {
        return false;
    }
    let mut i: usize = 0;
    while i < a.len()
        invariant
            a@.len() == b@.len(),
            i <= a@.len(),
            forall|j: int| 0 <= j < i ==> a@[j] == b@[j],
        decreases a.len() - i,
    {
        if a[i] != b[i] {
            return false;
        }
        i = i + 1;
    }
    assert(a@ =~= b@);
    true
}

/// Encodes frames for the terminal, sending only what changed since the
/// previous frame.
pub struct TerminalRenderer {
    pub mode: ColorMode,
    previous: Vec<Encoded>,
    size: (usize, usize),
}

impl TerminalRenderer {
    /// The colour mode.
    pub closed spec fn color_mode(&self) -> ColorMode {
        self.mode
    }

    /// The encoded cells of the frame sent last.
    pub closed spec fn previous(&self) -> Seq<Encoded> {
        self.previous@
    }

    /// The size of the frame sent last.
    pub closed spec fn size(&self) -> (usize, usize) {
        self.size
    }

    /// A renderer that has sent nothing yet.
    pub fn new(mode: ColorMode) -> (r: Self)
        ensures
            r.color_mode() == mode,
            r.previous() == Seq::<Encoded>::empty(),
            r.size() == (0usize, 0usize),
    {
        TerminalRenderer { mode, previous: Vec::new(), size: (0, 0) }
    }

    /// Forgets the frame sent last, so that the next frame is repainted in
    /// full.
    pub fn invalidate(&mut self)
        ensures
            final(self).color_mode() == old(self).color_mode(),
            final(self).previous() == Seq::<Encoded>::empty(),
            final(self).size() == old(self).size(),
    {
        self.previous.clear();
    }

    /// Encodes `frame` as the text that brings the terminal from the frame
    /// sent last to this one (see `encoding`), and remembers it.
    pub fn encode(&mut self, frame: &Frame) -> (r: String)
        requires
            frame.wf(),
        ensures
            r@ == encoding(old(self).color_mode(), old(self).previous(), old(self).size(), *frame),
            final(self).color_mode() == old(self).color_mode(),
            final(self).previous() == encode_cells(old(self).color_mode(), frame.cells@),
            final(self).size() == (frame.width, frame.height),
    {
        let ghost mode = self.mode;
        let mut cells: Vec<Encoded> = Vec::new();
        let mut k: usize = 0;
        while k < frame.cells.len()
            invariant
                mode == self.mode,
                k <= frame.cells@.len(),
                cells@ == encode_cells(mode, frame.cells@.take(k as int)),
            decreases frame.cells.len() - k,
        {
            let c = frame.cells[k];
            let e = Encoded { glyph: c.glyph, fg: self.color_code(c.fg), bg: self.color_code(c.bg) };
            cells.push(e);
            proof {
                assert(frame.cells@.take(k + 1).drop_last() =~= frame.cells@.take(k as int));
            }
            k = k + 1;
        }
        proof {
            assert(frame.cells@.take(k as int) =~= frame.cells@);
            lemma_encode_cells(mode, frame.cells@);
        }
        let width = frame.width;
        let full = self.size.0 != frame.width || self.size.1 != frame.height
            || self.previous.len() != cells.len();
        if !full && same_cells(&cells, &self.previous) {
            return String::new();
        }
        let mut out = String::new();
        push_sync_begin(&mut out);
        if full {
            push_clear_screen(&mut out);
        }
        let ghost head = out@;
        let mut fg: Option<u32> = None;
        let mut bg: Option<u32> = None;
        let mut adjacent = false;
        let mut i: usize = 0;
        while i < cells.len()
            invariant
                mode == self.mode,
                width == frame.width,
                cells@.len() == frame.width * frame.height,
                full == needs_full(self.previous@, self.size, frame.width, frame.height, cells@.len() as int),
                !full ==> self.previous@.len() == cells@.len(),
                i <= cells@.len(),
                out@ == head + emission(mode, cells@, self.previous@, full, width as int, i as int).text,
                fg == emission(mode, cells@, self.previous@, full, width as int, i as int).fg,
                bg == emission(mode, cells@, self.previous@, full, width as int, i as int).bg,
                adjacent == emission(mode, cells@, self.previous@, full, width as int, i as int).adjacent,
            decreases cells.len() - i,
        {
            let cell = cells[i];
            if !full && cell == self.previous[i] {
                adjacent = false;
                i = i + 1;
                continue;
            }
            proof {
                if width == 0 {
                    assert(frame.width * frame.height == 0) by (nonlinear_arith)
                        requires
                            frame.width == 0,
                    ;
                }
            }
            let (f2, b2, a2) = self.draw_cell(&mut out, fg, bg, adjacent, cell, i, width);
            fg = f2;
            bg = b2;
            adjacent = a2;
            i = i + 1;
        }
        push_sync_end(&mut out);
        self.previous = cells;
        self.size = (frame.width, frame.height);
        out
    }

    #[verifier::rlimit(50)]
    fn draw_cell(
        &self,
        out: &mut String,
        fg: Option<u32>,
        bg: Option<u32>,
        adjacent: bool,
        cell: Encoded,
        i: usize,
        width: usize,
    ) -> (r: (Option<u32>, Option<u32>, bool))
        requires
            width > 0,
            i < usize::MAX,
        ensures
            final(out)@ == old(out)@ + cell_text(
                self.color_mode(),
                fg,
                bg,
                adjacent,
                cell,
                i as int,
                width as int,
            ),
            r == (Some(cell.fg), Some(cell.bg), true),
    {
        reveal(cell_text);
        let ghost start = out@;
        if !adjacent || i % width == 0 {
            proof {
                assert(i / width <= i) by (nonlinear_arith)
                    requires
                        width > 0,
                ;
            }
            push_cursor(out, (i / width + 1) as u64, (i % width + 1) as u64);
        }
        let ghost t1 = out@;
        if fg != Some(cell.fg) {
            self.color(out, cell.fg, true);
        }
        let ghost t2 = out@;
        if bg != Some(cell.bg) {
            self.color(out, cell.bg, false);
        }
        push_char(out, cell.glyph);
        proof {
            assert(out@ =~= start + cell_text(
                self.color_mode(),
                fg,
                bg,
                adjacent,
                cell,
                i as int,
                width as int,
            ));
        }
        (Some(cell.fg), Some(cell.bg), true)
    }

    fn color_code(&self, rgb: Rgb) -> (r: u32)
        ensures
            r == color_code(self.color_mode(), rgb),
    {
        match self.mode {
            ColorMode::Palette => palette(rgb),
            ColorMode::TrueColor => {
                let v = ((rgb.0 as u32) << 16u32) | ((rgb.1 as u32) << 8u32) | rgb.2 as u32;
                proof {
                    let (a, b, c) = (rgb.0, rgb.1, rgb.2);
                    assert(((a as u32) << 16u32) | ((b as u32) << 8u32) | c as u32 == (a as u32)
                        * 65536 + (b as u32) * 256 + c as u32) by (bit_vector);
                }
                v
            },
        }
    }

    fn color(&self, out: &mut String, value: u32, fg: bool)
        ensures
            final(out)@ == old(out)@ + select_color(self.color_mode(), value, fg),
    {
        let ghost start = out@;
        let prefix: u32 = if fg { 38 } else { 48 };
        match self.mode {
            ColorMode::Palette => {
                push_csi(out);
                push_decimal(out, prefix as u64);
                push_char(out, ';');
                push_char(out, '5');
                push_char(out, ';');
                push_decimal(out, value as u64);
                push_char(out, 'm');
                proof {
                    assert(out@ =~= start + select_color(self.mode, value, fg));
                }
            },
            ColorMode::TrueColor => {
                let r = (value >> 16u32) & 255;
                let g = (value >> 8u32) & 255;
                let b = value & 255;
                proof {
                    assert((value >> 16u32) & 255 == (value / 65536) % 256) by (bit_vector);
                    assert((value >> 8u32) & 255 == (value / 256) % 256) by (bit_vector);
                    assert(value & 255 == value % 256) by (bit_vector);
                }
                push_csi(out);
                push_decimal(out, prefix as u64);
                push_char(out, ';');
                push_char(out, '2');
                push_char(out, ';');
                push_decimal(out, r as u64);
                push_char(out, ';');
                push_decimal(out, g as u64);
                push_char(out, ';');
                push_decimal(out, b as u64);
                push_char(out, 'm');
                proof {
                    assert(out@ =~= start + select_color(self.mode, value, fg));
                }
            },
        }
    }
}

} // verus!

verus! {

/// Encoding a frame right after encoding the same frame sends nothing.
pub proof fn lemma_repeat_frame_is_silent(mode: ColorMode, frame: Frame)
    requires
        frame.wf(),
    ensures
        encoding(mode, encode_cells(mode, frame.cells@), (frame.width, frame.height), frame)
            == Seq::<char>::empty(),
{
    lemma_encode_cells(mode, frame.cells@);
}

/// Whatever was sent before, a frame of another size, or any frame with
/// cells after the renderer forgot the previous one, is repainted in full:
/// the update begins by clearing the screen.
pub proof fn lemma_full_repaint_clears(
    mode: ColorMode,
    previous: Seq<Encoded>,
    size: (usize, usize),
    frame: Frame,
)
    requires
        frame.wf(),
        size != (frame.width, frame.height) || (previous.len() == 0 && frame.cells@.len() > 0),
    ensures
        encoding(mode, previous, size, frame).len() >= sync_begin().len() + clear_screen().len(),
        encoding(mode, previous, size, frame).subrange(
            0,
            (sync_begin().len() + clear_screen().len()) as int,
        ) == sync_begin() + clear_screen(),
{
    lemma_encode_cells(mode, frame.cells@);
    let cells = encode_cells(mode, frame.cells@);
    let e = emission(mode, cells, previous, true, frame.width as int, cells.len() as int);
    let whole = sync_begin() + clear_screen() + e.text + sync_end();
    assert(encoding(mode, previous, size, frame) == whole);
    assert(whole.subrange(0, (sync_begin().len() + clear_screen().len()) as int) =~= sync_begin()
        + clear_screen());
}

/// Every non-empty update is one synchronized update: it begins with the
/// begin marker and ends by resetting the attributes and ending the update.
pub proof fn lemma_update_is_synchronized(
    mode: ColorMode,
    previous: Seq<Encoded>,
    size: (usize, usize),
    frame: Frame,
)
    requires
        frame.wf(),
        encoding(mode, previous, size, frame).len() > 0,
    ensures
        ({
            let out = encoding(mode, previous, size, frame);
            &&& out.len() >= sync_begin().len() + sync_end().len()
            &&& out.subrange(0, sync_begin().len() as int) == sync_begin()
            &&& out.subrange(out.len() - sync_end().len(), out.len() as int) == sync_end()
        }),
{
    let cells = encode_cells(mode, frame.cells@);
    let full = needs_full(previous, size, frame.width, frame.height, cells.len() as int);
    let e = emission(mode, cells, previous, full, frame.width as int, cells.len() as int);
    let mid = (if full { clear_screen() } else { seq![] }) + e.text;
    let out = encoding(mode, previous, size, frame);
    assert(out =~= sync_begin() + mid + sync_end());
    assert(out.subrange(0, sync_begin().len() as int) =~= sync_begin());
    assert(out.subrange(out.len() - sync_end().len(), out.len() as int) =~= sync_end());
}

} // verus!

verus! {

/// Text placed in a frame: `text` in `color` from column `x` of row `y`.
pub struct Placement {
    pub x: int,
    pub y: int,
    pub text: Seq<char>,
    pub color: Rgb,
}

/// Text `text` in `color` from column `x` of row `y`.
pub open spec fn at(x: int, y: int, text: Seq<char>, color: Rgb) -> Placement {
    Placement { x, y, text, color }
}

/// Text `text` in `color` centred in row `y` of a frame `width` wide.
pub open spec fn centred(width: int, y: int, text: Seq<char>, color: Rgb) -> Placement {
    at(centred_column(width, text), y, text, color)
}

/// `cells`, the cells of a `width` by `height` frame, after writing each
/// of `ps` in turn, later text over earlier.
pub open spec fn write_all(cells: Seq<Cell>, width: int, height: int, ps: Seq<Placement>) -> Seq<Cell>
    decreases ps.len(),
{
    if ps.len() == 0 {
        cells
    } else {
        let p = ps.last();
        write_text(write_all(cells, width, height, ps.drop_last()), width, height, p.x, p.y, p.text, p.color)
    }
}

/// A line of text to write into a frame.
pub struct Line {
    pub x: usize,
    pub y: usize,
    pub text: String,
    pub color: Rgb,
}

impl View for Line {
    type V = Placement;

    open spec fn view(&self) -> Placement {
        at(self.x as int, self.y as int, self.text@, self.color)
    }
}

/// The placements of `lines`, in order.
pub open spec fn placements(lines: Seq<Line>) -> Seq<Placement> {
    lines.map_values(|l: Line| l@)
}

/// `text` in `color` from column `x` of row `y`.
pub fn line_at(x: usize, y: usize, text: String, color: Rgb) -> (r: Line)
    ensures
        r@ == at(x as int, y as int, text@, color),
{
    Line { x, y, text, color }
}

/// `text` in `color` centred in row `y` of a frame `width` wide.
pub fn line_centred(width: usize, y: usize, text: String, color: Rgb) -> (r: Line)
    ensures
        r@ == centred(width as int, y as int, text@, color),
{
    let len = text.as_str().unicode_len();
    let x = if width > len { (width - len) / 2 } else { 0 };
    Line { x, y, text, color }
}

impl Frame {
    /// Writes each of `lines` in turn.
    pub fn write_lines(&mut self, lines: &Vec<Line>)
        requires
            old(self).wf(),
        ensures
            final(self).wf(),
            final(self).width == old(self).width,
            final(self).height == old(self).height,
            final(self).cells@ == write_all(
                old(self).cells@,
                old(self).width as int,
                old(self).height as int,
                placements(lines@),
            ),
    {
        let ghost start = self.cells@;
        let mut i: usize = 0;
        while i < lines.len()
            invariant
                self.wf(),
                self.width == old(self).width,
                self.height == old(self).height,
                start == old(self).cells@,
                i <= lines@.len(),
                self.cells@ == write_all(
                    start,
                    self.width as int,
                    self.height as int,
                    placements(lines@.take(i as int)),
                ),
            decreases lines.len() - i,
        {
            let line = &lines[i];
            self.text(line.x, line.y, line.text.as_str(), line.color);
            proof {
                let next = placements(lines@.take(i + 1));
                assert(next.drop_last() =~= placements(lines@.take(i as int)));
                assert(next.last() == lines@[i as int]@);
            }
            i = i + 1;
        }
        assert(lines@.take(lines@.len() as int) =~= lines@);
    }
}

} // verus!

verus! {

/// `cells`, the cells of a `width` by `height` frame, after painting each
/// of `dots`, given as `(x, y, color)`, in turn.
pub open spec fn paint_all(cells: Seq<Cell>, width: int, height: int, dots: Seq<(int, int, Rgb)>) -> Seq<Cell>
    decreases dots.len(),
{
    if dots.len() == 0 {
        cells
    } else {
        let (x, y, c) = dots.last();
        pixel_painted(paint_all(cells, width, height, dots.drop_last()), width, height, x, y, c)
    }
}

/// A pixel to paint in a frame.
#[derive(Clone, Copy, Debug, PartialEq, Eq, Structural)]
pub struct Dot {
    pub x: i32,
    pub y: i32,
    pub color: Rgb,
}

impl View for Dot {
    type V = (int, int, Rgb);

    open spec fn view(&self) -> (int, int, Rgb) {
        (self.x as int, self.y as int, self.color)
    }
}

/// The pixels of `dots`, in order.
pub open spec fn dot_views(dots: Seq<Dot>) -> Seq<(int, int, Rgb)> {
    dots.map_values(|d: Dot| d@)
}

impl Frame {
    /// Paints each of `dots` in turn.
    pub fn paint_dots(&mut self, dots: &Vec<Dot>)
        requires
            old(self).wf(),
        ensures
            final(self).wf(),
            final(self).width == old(self).width,
            final(self).height == old(self).height,
            final(self).cells@ == paint_all(
                old(self).cells@,
                old(self).width as int,
                old(self).height as int,
                dot_views(dots@),
            ),
    {
        let ghost start = self.cells@;
        let mut i: usize = 0;
        while i < dots.len()
            invariant
                self.wf(),
                self.width == old(self).width,
                self.height == old(self).height,
                start == old(self).cells@,
                i <= dots@.len(),
                self.cells@ == paint_all(start, self.width as int, self.height as int, dot_views(dots@.take(i as int))),
            decreases dots.len() - i,
        {
            let d = dots[i];
            self.pixel(d.x, d.y, d.color);
            proof {
                let next = dot_views(dots@.take(i + 1));
                assert(next.drop_last() =~= dot_views(dots@.take(i as int)));
                assert(next.last() == dots@[i as int]@);
            }
            i = i + 1;
        }
        assert(dots@.take(dots@.len() as int) =~= dots@);
    }
}

/// Painting pixel `(x, y)` of a frame `width` by `height` in `color`: the
/// cell of row `y / 2` and column `x` becomes an upper half block whose
/// upper half (for even `y`) or lower half takes `color`, the other half
/// keeping its colour, or the cell's background when it showed no half
/// block; every other cell stays. A pixel outside the frame changes
/// nothing.
pub proof fn lemma_pixel_paints(cells: Seq<Cell>, width: int, height: int, x: int, y: int, color: Rgb)
    requires
        cells.len() == width * height,
    ensures
        ({
            let after = pixel_painted(cells, width, height, x, y, color);
            let i = (y / 2) * width + x;
            &&& after.len() == cells.len()
            &&& (0 <= x < width && 0 <= y < 2 * height) ==> {
                let old = cells[i];
                let other = if old.glyph == '\u{2580}' {
                    if y % 2 == 0 { old.bg } else { old.fg }
                } else {
                    old.bg
                };
                &&& after[i].glyph == '\u{2580}'
                &&& y % 2 == 0 ==> after[i].fg == color && after[i].bg == other
                &&& y % 2 != 0 ==> after[i].bg == color && after[i].fg == other
                &&& forall|j: int| 0 <= j < cells.len() && j != i ==> #[trigger] after[j] == cells[j]
            }
            &&& !(0 <= x < width && 0 <= y < 2 * height) ==> after == cells
        }),
{
    if 0 <= x < width && 0 <= y < 2 * height {
        lemma_cell_index(y / 2, x, width, height);
    }
}

/// Writing text: the characters of `chars` that fit before the right edge
/// go to consecutive cells from column `x` of row `y`, each in `color` on
/// the background (8, 12, 20); every other cell stays. Text from outside
/// the frame changes nothing.
pub proof fn lemma_text_writes(
    cells: Seq<Cell>,
    width: int,
    height: int,
    x: int,
    y: int,
    chars: Seq<char>,
    color: Rgb,
)
    requires
        cells.len() == width * height,
        0 <= x,
        0 <= y,
    ensures
        ({
            let after = write_text(cells, width, height, x, y, chars, color);
            let n = if y >= height || x >= width {
                0
            } else if chars.len() < width - x {
                chars.len() as int
            } else {
                width - x
            };
            &&& after.len() == cells.len()
            &&& forall|k: int|
                0 <= k < n ==> #[trigger] after[y * width + x + k] == (Cell {
                    glyph: chars[k],
                    fg: color,
                    bg: Rgb(8, 12, 20),
                })
            &&& forall|j: int|
                0 <= j < cells.len() && !(y * width + x <= j < y * width + x + n) ==> #[trigger] after[j]
                    == cells[j]
        }),
{
    let after = write_text(cells, width, height, x, y, chars, color);
    let start = y * width + x;
    let n = text_span(width, height, x, y, chars);
    if y < height && x < width {
        lemma_cell_index(y, x, width, height);
        if n > 0 {
            lemma_cell_index(y, x + n - 1, width, height);
        }
        assert forall|k: int| 0 <= k < n implies #[trigger] after[y * width + x + k] == (Cell {
            glyph: chars[k],
            fg: color,
            bg: Rgb(8, 12, 20),
        }) by {
            assert(written_cell(cells, start, n, chars, color, start + k) == (Cell {
                glyph: chars[k],
                fg: color,
                bg: bg(),
            }));
        }
    }
}

/// Colour codes: in 24-bit mode a colour's code is `0xRRGGBB`; in palette
/// mode it is an index of the 256-colour palette beyond the 16 system
/// colours.
pub proof fn lemma_color_codes(c: Rgb)
    ensures
        color_code(ColorMode::TrueColor, c) == c.0 as int * 65536 + c.1 as int * 256 + c.2 as int,
        16 <= color_code(ColorMode::Palette, c) <= 255,
{
    assert(c.0 as int * 65536 + c.1 as int * 256 + c.2 as int <= 0xffffff) by (nonlinear_arith)
        requires
            c.0 <= 255,
            c.1 <= 255,
            c.2 <= 255,
    ;
}

} // verus!
