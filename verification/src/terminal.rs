//! A model of the terminal that the encoder writes to: a grid of shown
//! cells, a cursor, the current colours, and the parser of control
//! sequences. Applying an encoded update to the screen that shows the
//! previous frame yields a screen that shows the new one.
use vstd::prelude::*;
use crate::render::{ColorMode, Emission, Encoded, Frame, cell_text, color_code, drawn, emission,
    encode_cells, encoding, lemma_encode_cells, needs_full, clear_screen, csi, cursor_to, select_color, sync_begin, sync_end};
use crate::strings::{decimal, digit};

verus! {

/// What one cell of the screen shows: its glyph and its foreground and
/// background colour codes (`None`: the terminal's default colour).
pub struct Shown {
    pub glyph: char,
    pub fg: Option<int>,
    pub bg: Option<int>,
}

/// Where the parser stands: in plain text, after `ESC`, or inside a control
/// sequence with the parameters read so far and the one being read.
pub enum Parse {
    Ground,
    Escape,
    Csi { params: Seq<int>, current: int },
}

/// The terminal screen.
pub struct Screen {
    pub width: int,
    pub height: int,
    /// The cells, row by row.
    pub cells: Seq<Shown>,
    /// The cursor's row and column, from 0.
    pub row: int,
    pub col: int,
    /// The colours that drawn text gets.
    pub fg: Option<int>,
    pub bg: Option<int>,
    pub parse: Parse,
}

/// A cell erased with the default colours.
pub open spec fn erased() -> Shown {
    Shown { glyph: ' ', fg: None, bg: None }
}

/// `s` after drawing `c` at the cursor, which moves one column right; a
/// cursor outside the screen draws nothing.
pub open spec fn put(s: Screen, c: char) -> Screen {
    let cells = if 0 <= s.row < s.height && 0 <= s.col < s.width {
        s.cells.update(s.row * s.width + s.col, Shown { glyph: c, fg: s.fg, bg: s.bg })
    } else {
        s.cells
    };
    Screen { cells, col: s.col + 1, ..s }
}

/// Select graphic rendition: `0` resets both colours; `38;5;n` and `48;5;n`
/// select palette colour `n` for the foreground and the background;
/// `38;2;r;g;b` and `48;2;r;g;b` select a 24-bit colour, kept as
/// `0xRRGGBB`. Anything else changes nothing.
pub open spec fn graphic(s: Screen, p: Seq<int>) -> Screen {
    if p == seq![0int] {
        Screen { fg: None, bg: None, ..s }
    } else if p.len() == 3 && p[1] == 5 && p[0] == 38 {
        Screen { fg: Some(p[2]), ..s }
    } else if p.len() == 3 && p[1] == 5 && p[0] == 48 {
        Screen { bg: Some(p[2]), ..s }
    } else if p.len() == 5 && p[1] == 2 && p[0] == 38 {
        Screen { fg: Some(p[2] * 65536 + p[3] * 256 + p[4]), ..s }
    } else if p.len() == 5 && p[1] == 2 && p[0] == 48 {
        Screen { bg: Some(p[2] * 65536 + p[3] * 256 + p[4]), ..s }
    } else {
        s
    }
}

/// The control sequence with parameters `p` and final character `c`:
/// `H` moves the cursor to 1-based row `p[0]` and column `p[1]`, `2J`
/// erases the screen, `m` selects colours; other sequences (such as the
/// synchronized-update markers) change nothing on the screen.
pub open spec fn control(s: Screen, p: Seq<int>, c: char) -> Screen {
    if c == 'H' && p.len() == 2 {
        Screen { row: p[0] - 1, col: p[1] - 1, ..s }
    } else if c == 'J' && p == seq![2int] {
        Screen { cells: Seq::new(s.cells.len(), |i: int| erased()), ..s }
    } else if c == 'm' {
        graphic(s, p)
    } else {
        s
    }
}

/// `s` after the terminal reads character `c`.
pub open spec fn feed(s: Screen, c: char) -> Screen {
    match s.parse {
        Parse::Ground => if c == '\x1b' {
            Screen { parse: Parse::Escape, ..s }
        } else {
            put(s, c)
        },
        Parse::Escape => if c == '[' {
            Screen { parse: Parse::Csi { params: seq![], current: 0 }, ..s }
        } else {
            Screen { parse: Parse::Ground, ..s }
        },
        Parse::Csi { params, current } => if '0' <= c <= '9' {
            Screen { parse: Parse::Csi { params, current: current * 10 + (c as int - 48) }, ..s }
        } else if c == ';' {
            Screen { parse: Parse::Csi { params: params.push(current), current: 0 }, ..s }
        } else if c == '?' {
            s
        } else {
            control(Screen { parse: Parse::Ground, ..s }, params.push(current), c)
        },
    }
}

/// `s` after the terminal reads `text`.
pub open spec fn run(s: Screen, text: Seq<char>) -> Screen
    decreases text.len(),
{
    if text.len() == 0 {
        s
    } else {
        feed(run(s, text.drop_last()), text.last())
    }
}

/// Reading one more character.
pub broadcast proof fn lemma_run_push(s: Screen, text: Seq<char>, c: char)
    ensures
        #[trigger] run(s, text.push(c)) == feed(run(s, text), c),
{
    assert(text.push(c).drop_last() =~= text);
}

/// Reading two texts in turn.
pub broadcast proof fn lemma_run_concat(s: Screen, a: Seq<char>, b: Seq<char>)
    ensures
        #[trigger] run(s, a + b) == run(run(s, a), b),
    decreases b.len(),
{
    if b.len() == 0 {
        assert(a + b =~= a);
    } else {
        lemma_run_concat(s, a, b.drop_last());
        assert((a + b).drop_last() =~= a + b.drop_last());
        assert((a + b).last() == b.last());
    }
}

proof fn lemma_digit(d: nat)
    requires
        d < 10,
    ensures
        '0' <= digit(d) <= '9',
        digit(d) as int - 48 == d,
{
}

/// Reading the digits of `n` inside a control sequence makes `n` the
/// parameter being read.
proof fn lemma_run_decimal(s: Screen, params: Seq<int>, n: nat)
    requires
        s.parse == (Parse::Csi { params, current: 0 }),
    ensures
        run(s, decimal(n)) == (Screen { parse: Parse::Csi { params, current: n as int }, ..s }),
    decreases n,
{
    broadcast use lemma_run_push;

    if n < 10 {
        lemma_digit(n);
        assert(decimal(n) == seq![digit(n)]);
        assert(seq![digit(n)] == Seq::<char>::empty().push(digit(n)));
    } else {
        lemma_run_decimal(s, params, n / 10);
        lemma_digit(n % 10);
    }
}

/// The screen `s` in plain text with the cursor at `row`, `col`.
pub open spec fn moved(s: Screen, row: int, col: int) -> Screen {
    Screen { row, col, ..s }
}

/// Moving the cursor to 1-based `row` and `col`.
proof fn lemma_run_cursor(s: Screen, row: nat, col: nat)
    requires
        s.parse == Parse::Ground,
    ensures
        run(s, cursor_to(row, col)) == moved(s, row - 1, col - 1),
{
    broadcast use lemma_run_push, lemma_run_concat;

    let t0 = run(s, csi());
    assert(csi() == Seq::<char>::empty().push('\x1b').push('['));
    assert(t0 == (Screen { parse: Parse::Csi { params: seq![], current: 0 }, ..s }));
    lemma_run_decimal(t0, seq![], row);
    let t1 = run(t0, decimal(row));
    let t2 = feed(t1, ';');
    assert(seq![';'] == Seq::<char>::empty().push(';'));
    assert(t2 == (Screen { parse: Parse::Csi { params: seq![row as int], current: 0 }, ..s }));
    lemma_run_decimal(t2, seq![row as int], col);
    let t3 = run(t2, decimal(col));
    assert(seq!['H'] == Seq::<char>::empty().push('H'));
    assert(seq![row as int].push(col as int) =~= seq![row as int, col as int]);
    assert(feed(t3, 'H') == moved(s, row - 1, col - 1));
}

/// The screen `s` with colour code `v` selected for the foreground
/// (`fg`) or the background.
pub open spec fn colored(s: Screen, v: int, fg: bool) -> Screen {
    if fg {
        Screen { fg: Some(v), ..s }
    } else {
        Screen { bg: Some(v), ..s }
    }
}

proof fn lemma_rgb_parts(value: u32)
    requires
        value < 0x1000000,
    ensures
        ((value / 65536) % 256) * 65536 + ((value / 256) % 256) * 256 + value % 256 == value,
{
    assert(((value / 65536) % 256) * 65536 + ((value / 256) % 256) * 256 + value % 256 == value)
        by (bit_vector)
        requires
            value < 0x1000000u32,
    ;
}

/// Reading `ESC [`, the digits of `prefix` and `;` puts the parser inside
/// a control sequence with `prefix` read.
proof fn lemma_run_prefix(s: Screen, prefix: nat)
    requires
        s.parse == Parse::Ground,
    ensures
        run(s, csi() + decimal(prefix) + seq![';']) == (Screen {
            parse: Parse::Csi { params: seq![prefix as int], current: 0 },
            ..s
        }),
{
    broadcast use lemma_run_push;

    lemma_run_concat(s, csi() + decimal(prefix), seq![';']);
    lemma_run_concat(s, csi(), decimal(prefix));
    let t0 = run(s, csi());
    assert(csi() == Seq::<char>::empty().push('\x1b').push('['));
    lemma_run_decimal(t0, seq![], prefix);
    assert(seq![';'] == Seq::<char>::empty().push(';'));
    assert(seq![].push(prefix as int) =~= seq![prefix as int]);
}

/// Reading the digits of `n` and then `c` inside a control sequence.
proof fn lemma_run_param(s: Screen, params: Seq<int>, n: nat, c: char)
    requires
        s.parse == (Parse::Csi { params, current: 0 }),
    ensures
        run(s, decimal(n) + seq![c]) == feed(
            Screen { parse: Parse::Csi { params, current: n as int }, ..s },
            c,
        ),
{
    broadcast use lemma_run_push;

    lemma_run_concat(s, decimal(n), seq![c]);
    lemma_run_decimal(s, params, n);
    assert(seq![c] == Seq::<char>::empty().push(c));
}

proof fn lemma_run_palette(s: Screen, value: u32, fg: bool)
    requires
        s.parse == Parse::Ground,
    ensures
        run(s, select_color(ColorMode::Palette, value, fg)) == colored(s, value as int, fg),
{
    broadcast use lemma_run_push;

    let prefix: nat = if fg { 38 } else { 48 };
    let head = csi() + decimal(prefix) + seq![';'];
    assert(csi() + decimal(prefix) + seq![';', '5', ';'] =~= head + seq!['5', ';']);
    let text = head + seq!['5', ';'] + (decimal(value as nat) + seq!['m']);
    assert(select_color(ColorMode::Palette, value, fg) =~= text);
    lemma_run_prefix(s, prefix);
    lemma_run_concat(s, head + seq!['5', ';'], decimal(value as nat) + seq!['m']);
    lemma_run_concat(s, head, seq!['5', ';']);
    assert(seq!['5', ';'] == Seq::<char>::empty().push('5').push(';'));
    let ps = seq![prefix as int, 5int];
    assert(seq![prefix as int].push(5int) =~= ps);
    let t = run(s, head + seq!['5', ';']);
    assert(t == (Screen { parse: Parse::Csi { params: ps, current: 0 }, ..s }));
    lemma_run_param(t, ps, value as nat, 'm');
    assert(ps.push(value as int) =~= seq![prefix as int, 5int, value as int]);
}

proof fn lemma_run_true_color(s: Screen, value: u32, fg: bool)
    requires
        s.parse == Parse::Ground,
        value < 0x1000000,
    ensures
        run(s, select_color(ColorMode::TrueColor, value, fg)) == colored(s, value as int, fg),
{
    broadcast use lemma_run_push;

    let prefix: nat = if fg { 38 } else { 48 };
    let r = ((value / 65536) % 256) as nat;
    let g = ((value / 256) % 256) as nat;
    let b = (value % 256) as nat;
    let head = csi() + decimal(prefix) + seq![';'];
    let text = head + seq!['2', ';'] + (decimal(r) + seq![';']) + (decimal(g) + seq![';']) + (
    decimal(b) + seq!['m']);
    assert(select_color(ColorMode::TrueColor, value, fg) =~= text);
    lemma_run_prefix(s, prefix);
    let a1 = head + seq!['2', ';'];
    let a2 = a1 + (decimal(r) + seq![';']);
    let a3 = a2 + (decimal(g) + seq![';']);
    lemma_run_concat(s, a3, decimal(b) + seq!['m']);
    lemma_run_concat(s, a2, decimal(g) + seq![';']);
    lemma_run_concat(s, a1, decimal(r) + seq![';']);
    lemma_run_concat(s, head, seq!['2', ';']);
    assert(seq!['2', ';'] == Seq::<char>::empty().push('2').push(';'));
    let p2 = seq![prefix as int, 2int];
    assert(seq![prefix as int].push(2int) =~= p2);
    let t1 = run(s, a1);
    assert(t1 == (Screen { parse: Parse::Csi { params: p2, current: 0 }, ..s }));
    lemma_run_param(t1, p2, r, ';');
    let p3 = p2.push(r as int);
    let t2 = run(s, a2);
    assert(t2 == (Screen { parse: Parse::Csi { params: p3, current: 0 }, ..s }));
    lemma_run_param(t2, p3, g, ';');
    let p4 = p3.push(g as int);
    let t3 = run(s, a3);
    assert(t3 == (Screen { parse: Parse::Csi { params: p4, current: 0 }, ..s }));
    lemma_run_param(t3, p4, b, 'm');
    assert(p4.push(b as int) =~= seq![prefix as int, 2int, r as int, g as int, b as int]);
    lemma_rgb_parts(value);
}

/// Reading `ESC [` and then two or four more characters.
proof fn lemma_run_csi4(s: Screen, a: char, b: char, c: char, d: char)
    requires
        s.parse == Parse::Ground,
    ensures
        run(s, csi() + seq![a, b]) == feed(feed(run(s, csi()), a), b),
        run(s, csi() + seq![a, b, c, d]) == feed(feed(feed(feed(run(s, csi()), a), b), c), d),
{
    broadcast use lemma_run_push;

    lemma_run_concat(s, csi(), seq![a, b]);
    lemma_run_concat(s, csi(), seq![a, b, c, d]);
    assert(seq![a, b] == Seq::<char>::empty().push(a).push(b));
    assert(seq![a, b, c, d] == Seq::<char>::empty().push(a).push(b).push(c).push(d));
}

proof fn lemma_run_csi_start(s: Screen)
    requires
        s.parse == Parse::Ground,
    ensures
        run(s, csi()) == (Screen { parse: Parse::Csi { params: seq![], current: 0 }, ..s }),
{
    broadcast use lemma_run_push;

    assert(csi() == Seq::<char>::empty().push('\x1b').push('['));
}

/// `CSI 0 m` resets both colours.
proof fn lemma_run_reset(s: Screen)
    requires
        s.parse == Parse::Ground,
    ensures
        run(s, csi() + seq!['0', 'm']) == (Screen { fg: None, bg: None, ..s }),
{
    lemma_run_csi4(s, '0', 'm', '0', 'm');
    lemma_run_csi_start(s);
    assert(seq![0int] == Seq::<int>::empty().push(0int));
}

/// `CSI ? 2 0 2 6` and a final `h` or `l` change nothing on the screen.
proof fn lemma_run_sync_marker(s: Screen, last: char)
    requires
        s.parse == Parse::Ground,
        last == 'h' || last == 'l',
    ensures
        run(s, csi() + seq!['?', '2', '0', '2', '6', last]) == s,
{
    broadcast use lemma_run_push;

    lemma_run_concat(s, csi(), seq!['?', '2', '0', '2', '6', last]);
    assert(seq!['?', '2', '0', '2', '6', last] == Seq::<char>::empty().push('?').push('2').push('0').push(
        '2',
    ).push('6').push(last));
    lemma_run_csi_start(s);
}

/// The marker that begins a synchronized update changes nothing.
proof fn lemma_run_sync_begin(s: Screen)
    requires
        s.parse == Parse::Ground,
    ensures
        run(s, sync_begin()) == s,
{
    lemma_run_sync_marker(s, 'h');
}

/// Clearing resets the colours and erases every cell.
proof fn lemma_run_clear(s: Screen)
    requires
        s.parse == Parse::Ground,
    ensures
        run(s, clear_screen()) == (Screen {
            cells: Seq::new(s.cells.len(), |i: int| erased()),
            fg: None,
            bg: None,
            ..s
        }),
{
    let a = csi() + seq!['0', 'm'];
    assert(clear_screen() =~= a + (csi() + seq!['2', 'J']));
    lemma_run_concat(s, a, csi() + seq!['2', 'J']);
    lemma_run_reset(s);
    let t = run(s, a);
    lemma_run_csi4(t, '2', 'J', '2', 'J');
    lemma_run_csi_start(t);
    assert(seq![2int] == Seq::<int>::empty().push(2int));
}

/// Ending a synchronized update resets the colours.
proof fn lemma_run_sync_end(s: Screen)
    requires
        s.parse == Parse::Ground,
    ensures
        run(s, sync_end()) == (Screen { fg: None, bg: None, ..s }),
{
    let a = csi() + seq!['0', 'm'];
    assert(sync_end() =~= a + (csi() + seq!['?', '2', '0', '2', '6', 'l']));
    lemma_run_concat(s, a, csi() + seq!['?', '2', '0', '2', '6', 'l']);
    lemma_run_reset(s);
    lemma_run_sync_marker(run(s, a), 'l');
}

/// Whether the cursor of `t` stands on cell `i` of a screen `width` wide.
pub open spec fn at_cell(t: Screen, i: int, width: int) -> bool {
    t.row == i / width && t.col == i % width
}

/// Drawing `cell`, the `i`-th cell of a screen `width` wide, when colours
/// `fg` and `bg` were last selected and the cursor stands after the
/// previous cell (`adjacent`) or not: the cell's colours are selected and
/// its glyph is drawn on cell `i`.
proof fn lemma_run_cell(
    t: Screen,
    mode: ColorMode,
    fg: Option<u32>,
    bg: Option<u32>,
    adjacent: bool,
    cell: Encoded,
    i: int,
    width: int,
)
    requires
        t.parse == Parse::Ground,
        width > 0,
        i >= 0,
        cell.glyph != '\x1b',
        adjacent && i % width != 0 ==> at_cell(t, i, width),
        fg matches Some(v) ==> t.fg == Some(v as int),
        bg matches Some(v) ==> t.bg == Some(v as int),
        mode == ColorMode::TrueColor ==> cell.fg < 0x1000000 && cell.bg < 0x1000000,
    ensures
        run(t, cell_text(mode, fg, bg, adjacent, cell, i, width)) == put(
            Screen {
                row: i / width,
                col: i % width,
                fg: Some(cell.fg as int),
                bg: Some(cell.bg as int),
                ..t
            },
            cell.glyph,
        ),
{
    broadcast use lemma_run_push;

    reveal(cell_text);
    let t1 = if !adjacent || i % width == 0 {
        cursor_to((i / width + 1) as nat, (i % width + 1) as nat)
    } else {
        seq![]
    };
    let t2 = if fg != Some(cell.fg) {
        t1 + select_color(mode, cell.fg, true)
    } else {
        t1
    };
    let t3 = if bg != Some(cell.bg) {
        t2 + select_color(mode, cell.bg, false)
    } else {
        t2
    };
    assert(cell_text(mode, fg, bg, adjacent, cell, i, width) == t3.push(cell.glyph));
    let m = moved(t, i / width, i % width);
    if !adjacent || i % width == 0 {
        lemma_run_cursor(t, (i / width + 1) as nat, (i % width + 1) as nat);
    }
    assert(run(t, t1) == m);
    let m2 = Screen { fg: Some(cell.fg as int), ..m };
    if fg != Some(cell.fg) {
        lemma_run_concat(t, t1, select_color(mode, cell.fg, true));
        match mode {
            ColorMode::Palette => lemma_run_palette(m, cell.fg, true),
            ColorMode::TrueColor => lemma_run_true_color(m, cell.fg, true),
        }
    }
    assert(run(t, t2) == m2);
    let m3 = Screen { bg: Some(cell.bg as int), ..m2 };
    if bg != Some(cell.bg) {
        lemma_run_concat(t, t2, select_color(mode, cell.bg, false));
        match mode {
            ColorMode::Palette => lemma_run_palette(m2, cell.bg, false),
            ColorMode::TrueColor => lemma_run_true_color(m2, cell.bg, false),
        }
    }
    assert(run(t, t3) == m3);
}

/// How an encoded cell shows on the screen.
pub open spec fn shown(e: Encoded) -> Shown {
    Shown { glyph: e.glyph, fg: Some(e.fg as int), bg: Some(e.bg as int) }
}

/// The screen shows `cells`, one per screen cell.
pub open spec fn shows(s: Screen, cells: Seq<Encoded>) -> bool {
    &&& s.cells.len() == cells.len()
    &&& forall|i: int| 0 <= i < cells.len() ==> #[trigger] s.cells[i] == shown(cells[i])
}

/// After the emission `e` of the first `n` of `cells` from `start`, the
/// screen `t` shows those cells, keeps the rest as they were, has the
/// colours that `e` last selected, and, when `e` drew the last of them,
/// has the cursor just after it.
pub open spec fn emitted(t: Screen, e: Emission, start: Screen, cells: Seq<Encoded>, n: int) -> bool {
    let w = start.width;
    &&& t.parse == Parse::Ground
    &&& t.width == start.width
    &&& t.height == start.height
    &&& t.cells.len() == start.cells.len()
    &&& forall|i: int| 0 <= i < n ==> #[trigger] t.cells[i] == shown(cells[i])
    &&& forall|i: int| n <= i < t.cells.len() ==> #[trigger] t.cells[i] == start.cells[i]
    &&& e.fg matches Some(v) ==> t.fg == Some(v as int)
    &&& e.bg matches Some(v) ==> t.bg == Some(v as int)
    &&& e.adjacent ==> n > 0 && t.row == (n - 1) / w && t.col == (n - 1) % w + 1
}

/// The codes of `cells` can be drawn: no glyph is `ESC`, and in 24-bit
/// mode every code is a `0xRRGGBB` value.
pub open spec fn drawable(mode: ColorMode, cells: Seq<Encoded>) -> bool {
    forall|i: int|
        0 <= i < cells.len() ==> {
            &&& #[trigger] cells[i].glyph != '\x1b'
            &&& mode == ColorMode::TrueColor ==> cells[i].fg < 0x1000000 && cells[i].bg
                < 0x1000000
        }
}

proof fn lemma_cell_position(i: int, w: int, h: int)
    requires
        w > 0,
        0 <= i < w * h,
    ensures
        0 <= i / w < h,
        0 <= i % w < w,
        (i / w) * w + i % w == i,
        i % w != 0 ==> (i - 1) / w == i / w && (i - 1) % w + 1 == i % w,
{
    vstd::arithmetic::div_mod::lemma_fundamental_div_mod(i, w);
    assert((i / w) * w == w * (i / w)) by (nonlinear_arith);
    assert(0 <= i / w) by {
        vstd::arithmetic::div_mod::lemma_div_pos_is_pos(i, w);
    }
    assert(i / w < h) by (nonlinear_arith)
        requires
            w > 0,
            i < w * h,
            i == w * (i / w) + i % w,
            0 <= i % w,
    ;
    if i % w != 0 {
        vstd::arithmetic::div_mod::lemma_fundamental_div_mod_converse(i - 1, w, i / w, i % w - 1);
    }
}

/// Running the emission of the first `n` of `cells` from a screen `start`
/// of the frame's size that shows `previous` unless the repaint is full.
proof fn lemma_emission(
    mode: ColorMode,
    cells: Seq<Encoded>,
    previous: Seq<Encoded>,
    full: bool,
    start: Screen,
    n: int,
)
    requires
        start.parse == Parse::Ground,
        start.width > 0,
        start.cells.len() == cells.len(),
        cells.len() == start.width * start.height,
        0 <= n <= cells.len(),
        drawable(mode, cells),
        !full ==> shows(start, previous),
    ensures
        emitted(
            run(start, emission(mode, cells, previous, full, start.width, n).text),
            emission(mode, cells, previous, full, start.width, n),
            start,
            cells,
            n,
        ),
    decreases n,
{
    let w = start.width;
    if n <= 0 {
        assert(emission(mode, cells, previous, full, w, n).text == Seq::<char>::empty());
    } else {
        lemma_emission(mode, cells, previous, full, start, n - 1);
        let e = emission(mode, cells, previous, full, w, n - 1);
        let t = run(start, e.text);
        let i = n - 1;
        lemma_cell_position(i, w, start.height);
        if !full && cells[i] == previous[i] {
            assert(t.cells[i] == shown(cells[i]));
        } else {
            let cell = cells[i];
            assert(drawable(mode, cells) ==> cells[i].glyph != '\x1b');
            if e.adjacent && i % w != 0 {
                lemma_cell_position(i, w, start.height);
            }
            lemma_run_cell(t, mode, e.fg, e.bg, e.adjacent, cell, i, w);
            let ct = crate::render::cell_text(mode, e.fg, e.bg, e.adjacent, cell, i, w);
            lemma_run_concat(start, e.text, ct);
            assert(drawn(mode, e, cell, i, w).text == e.text + ct);
            let u = run(start, e.text + ct);
            assert(u.cells == t.cells.update(i, shown(cell)));
        }
    }
}

/// Applying an update: a screen of the frame's size, in plain text, that
/// shows what was sent last (any such screen, when the update repaints in
/// full) shows the new frame after reading the update, each cell with its
/// glyph and the codes of its two colours, and the parser is back in plain
/// text. A glyph `ESC` would start a control sequence, so frames hold none.
pub proof fn lemma_update_shows_frame(
    mode: ColorMode,
    previous: Seq<Encoded>,
    size: (usize, usize),
    frame: Frame,
    s: Screen,
)
    requires
        frame.wf(),
        s.parse == Parse::Ground,
        s.width == frame.width,
        s.height == frame.height,
        s.cells.len() == frame.cells@.len(),
        forall|i: int| 0 <= i < frame.cells@.len() ==> #[trigger] frame.cells@[i].glyph != '\x1b',
        !needs_full(previous, size, frame.width, frame.height, frame.cells@.len() as int) ==> shows(
            s,
            previous,
        ),
    ensures
        ({
            let after = run(s, encoding(mode, previous, size, frame));
            &&& after.parse == Parse::Ground
            &&& shows(after, encode_cells(mode, frame.cells@))
            &&& forall|i: int|
                0 <= i < frame.cells@.len() ==> #[trigger] after.cells[i] == (Shown {
                    glyph: frame.cells@[i].glyph,
                    fg: Some(color_code(mode, frame.cells@[i].fg) as int),
                    bg: Some(color_code(mode, frame.cells@[i].bg) as int),
                })
        }),
{
    lemma_encode_cells(mode, frame.cells@);
    let cells = encode_cells(mode, frame.cells@);
    let w = frame.width as int;
    let h = frame.height as int;
    let n = cells.len() as int;
    let full = needs_full(previous, size, frame.width, frame.height, n);
    assert forall|i: int| 0 <= i < n implies #[trigger] cells[i].glyph != '\x1b' && (mode
        == ColorMode::TrueColor ==> cells[i].fg < 0x1000000 && cells[i].bg < 0x1000000) by {
        let c = frame.cells@[i];
        assert(c.fg.0 * 65536 + c.fg.1 * 256 + c.fg.2 < 0x1000000) by (nonlinear_arith)
            requires
                c.fg.0 < 256,
                c.fg.1 < 256,
                c.fg.2 < 256,
        ;
        assert(c.bg.0 * 65536 + c.bg.1 * 256 + c.bg.2 < 0x1000000) by (nonlinear_arith)
            requires
                c.bg.0 < 256,
                c.bg.1 < 256,
                c.bg.2 < 256,
        ;
    }
    assert(drawable(mode, cells));
    let out = encoding(mode, previous, size, frame);
    if !full && cells == previous {
        assert(out == Seq::<char>::empty());
    } else {
        let e = emission(mode, cells, previous, full, w, n);
        let head = sync_begin() + (if full { clear_screen() } else { seq![] });
        assert(out == head + e.text + sync_end());
        lemma_run_concat(s, head + e.text, sync_end());
        lemma_run_concat(s, head, e.text);
        lemma_run_concat(s, sync_begin(), if full { clear_screen() } else { seq![] });
        lemma_run_sync_begin(s);
        let start = run(s, head);
        if full {
            lemma_run_clear(s);
        } else {
            assert(run(s, seq![]) == s);
        }
        if n > 0 {
            assert(w > 0) by (nonlinear_arith)
                requires
                    n == w * h,
                    n > 0,
                    w >= 0,
                    h >= 0,
            ;
            lemma_emission(mode, cells, previous, full, start, n);
        } else {
            assert(e.text == Seq::<char>::empty());
        }
        let t = run(start, e.text);
        lemma_run_sync_end(t);
    }
}

} // verus!
