//! The menu screens, laid out as lines of text placed in a frame.
use vstd::prelude::*;
use crate::game::Phase;
use crate::render::{
    Cell, Frame, Line, Placement, Rgb, at, blank, centred, write_all, placements, line_at, line_centred,
    green, white, dim, gold, red,
};
use crate::strings::{decimal, push_decimal, push_text, repeated, repeat_text};
use crate::world::{WIDTH, HEIGHT, map_row, row_text};

verus! {

/// Colour of the rules around the menu screens.
#[verifier::allow_in_spec]
pub fn edge() -> Rgb
    returns
        Rgb(32, 59, 72),
{
    Rgb(32, 59, 72)
}

/// Whether cell `c` lies inside the arena.
pub open spec fn in_arena(c: (i32, i32)) -> bool {
    0 <= c.0 < WIDTH && 0 <= c.1 < HEIGHT
}

/// Whether cell `c` lies inside the arena.
pub fn in_arena_cell(c: (i32, i32)) -> (r: bool)
    ensures
        r == in_arena(c),
{
    0 <= c.0 && c.0 < WIDTH as i32 && 0 <= c.1 && c.1 < HEIGHT as i32
}

/// What the menu screens show of the game.
pub struct MenuView {
    pub phase: Phase,
    /// The player's cell.
    pub player: (i32, i32),
    /// The cells of the living enemies.
    pub enemies: Vec<(i32, i32)>,
    pub score: u32,
    pub kills: u32,
    pub wave: u8,
    /// Whole seconds played.
    pub seconds: u64,
    /// The terminal reports key releases.
    pub release_events: bool,
}

impl MenuView {
    /// The player and the enemies stand inside the arena, which the
    /// tactical map needs.
    pub open spec fn wf(&self) -> bool {
        &&& in_arena(self.player)
        &&& forall|i: int| 0 <= i < self.enemies@.len() ==> in_arena(#[trigger] self.enemies@[i])
    }
}

/// Whether the menu of `phase` can be laid out in a frame of `width` by
/// `height`: the rules need six columns and a row, the pause screen two
/// rows, the result screens four and the tactical map seven. (A terminal
/// smaller than 40 by 16 is asked to resize instead.)
pub open spec fn menu_fits(phase: Phase, width: int, height: int) -> bool {
    &&& width >= 6
    &&& height >= 1
    &&& phase == Phase::Paused ==> height >= 2
    &&& (phase == Phase::Won || phase == Phase::Lost) ==> height >= 4
    &&& phase == Phase::Tactical ==> height >= 7
}

/// The heading of each screen.
pub open spec fn title_of(phase: Phase) -> Seq<char> {
    match phase {
        Phase::Title => "TERMINAL // BREACH"@,
        Phase::Paused => "PAUSED"@,
        Phase::Tactical => "TACTICAL MAP"@,
        Phase::Help => "FIELD MANUAL"@,
        Phase::Won => "ARENA CLEARED"@,
        Phase::Lost => "RUN ENDED"@,
        Phase::Playing => seq![],
    }
}

/// Piece `i` of the side rules: the left one on even `i`, the right one
/// on odd, in row `i / 2`.
pub open spec fn border_piece(width: int, i: int) -> Placement {
    at(if i % 2 == 0 { 0 } else { width - 1 }, i / 2, "│"@, edge())
}

/// The rules around a frame of `width` by `height`: the sides, then the
/// top and the bottom.
pub open spec fn frame_rules(width: int, height: int) -> Seq<Placement> {
    let rule = repeated("─"@, (width - 2) as nat);
    Seq::new((2 * height) as nat, |i: int| border_piece(width, i)) + seq![
        at(1, 0, rule, edge()),
        at(1, height - 1, rule, edge()),
    ]
}

/// The heading of `phase` over a rule at most 44 wide.
pub open spec fn heading(phase: Phase, width: int) -> Seq<Placement> {
    let n = if width - 6 < 44 { width - 6 } else { 44 };
    seq![centred(width, 1, title_of(phase), green()), centred(width, 2, repeated("─"@, n as nat), dim())]
}

/// The logo on a spacious title screen.
pub open spec fn logo() -> Seq<&'static str> {
    seq![
        "████▄  ████▄  █████  ▄███▄  ▄████  █   █",
        "█   █  █   █  █      █   █  █      █   █",
        "████   ████   ████   █████  █      █████",
        "█   █  █  █   █      █   █  █      █   █",
        "████   █   █  █████  █   █   ████  █   █",
    ]
}

/// The briefing on the title screen.
pub open spec fn briefing() -> Seq<&'static str> {
    seq![
        "PERIMETER SEALED. HOSTILES INBOUND.",
        "",
        "CLEAR FIVE WAVES. GET OUT.",
        "",
        "WASD move   Q/E turn   X dodge",
        "SPACE shotgun   F continuous fire",
        "",
        "ENTER or CLICK to deploy",
        "H controls   CTRL-C quit",
    ]
}

/// The field manual.
pub open spec fn manual() -> Seq<&'static str> {
    seq![
        "WASD / up-down: move  SHIFT+W: sprint",
        "Q/E / left-right: turn  X: dodge",
        "SPACE / click: shotgun  R: reload",
        "F: continuous fire  L: mouse look",
        "M: minimap  SHIFT+M: tactical map",
        "[ / ] / wheel: mouse sensitivity",
        "B: beep sound  P / ESC: pause",
        "Mouse reports stop at window edges.",
        "Q/E always work. CTRL-C quits.",
        "H / ESC: back",
    ]
}

/// A title screen of this size has room for the logo.
pub open spec fn spacious(width: int, height: int) -> bool {
    width >= 78 && height >= 28
}

/// The tag line under the logo.
pub open spec fn tag_line() -> Seq<char> {
    "N I G H T   S H I F T   / /   S E C T O R   0 7"@
}

/// The title screen: the logo (two white rows, then green) and the tag
/// line when there is room, then the briefing with the call to deploy in
/// gold.
pub open spec fn title_body(width: int, height: int) -> Seq<Placement> {
    let big = spacious(width, height);
    let top = if big { 14int } else { 4int };
    (if big {
        Seq::new(5, |i: int| block_piece(logo(), width, 5, green(), 2, white(), 5, green(), i)).push(
            centred(width, 11, tag_line(), dim()),
        )
    } else {
        seq![]
    }) + Seq::new(9, |i: int| block_piece(briefing(), width, top, white(), 0, white(), 7, gold(), i))
}

/// The pause screen.
pub open spec fn pause_body(width: int, height: int) -> Seq<Placement> {
    seq![
        centred(width, height / 2 - 1, "P / ESC to resume"@, white()),
        centred(width, height / 2 + 1, "CTRL-C to quit"@, gold()),
    ]
}

/// The field manual screen.
pub open spec fn manual_body(width: int) -> Seq<Placement> {
    Seq::new(10, |i: int| block_piece(manual(), width, 4, white(), 0, white(), 10, white(), i))
}

/// The first arena row that the tactical map shows in `available` rows:
/// the player's row `py` in the middle where the arena allows.
pub open spec fn map_window(py: int, available: int) -> int {
    let centred_start = if py > available / 2 { py - available / 2 } else { 0 };
    let last_start = if HEIGHT > available { HEIGHT - available } else { 0 };
    if centred_start < last_start { centred_start } else { last_start }
}

/// The column of the tactical map in a frame `width` wide.
pub open spec fn map_left(width: int) -> int {
    if width > WIDTH { (width - WIDTH) / 2 } else { 0 }
}

/// How many arena rows from `start` fit in `available` rows.
pub open spec fn shown_rows(start: int, available: int) -> int {
    if available < HEIGHT - start { available } else { HEIGHT - start }
}

/// The `i`-th row shown from arena row `start`, from column `left`.
pub open spec fn map_row_piece(left: int, start: int, i: int) -> Placement {
    at(left, 4 + i, row_text(start + i), dim())
}

/// The marks of the enemies in `enemies` whose rows are shown.
pub open spec fn enemy_marks(enemies: Seq<(i32, i32)>, left: int, start: int, available: int) -> Seq<Placement>
    decreases enemies.len(),
{
    if enemies.len() == 0 {
        seq![]
    } else {
        let rest = enemy_marks(enemies.drop_last(), left, start, available);
        let (ex, ey) = enemies.last();
        if start <= ey < start + available {
            rest.push(at(left + ex, 4 + ey - start, "E"@, red()))
        } else {
            rest
        }
    }
}

/// The tactical map: the arena rows around the player, the enemies, the
/// player, and how to leave.
pub open spec fn map_body(view: MenuView, width: int, height: int) -> Seq<Placement> {
    let available = height - 7;
    let start = map_window(view.player.1 as int, available);
    let left = map_left(width);
    Seq::new(shown_rows(start, available) as nat, |i: int| map_row_piece(left, start, i))
        + enemy_marks(view.enemies@, left, start, available) + seq![
        at(left + view.player.0, 4 + view.player.1 - start, "@"@, green()),
        centred(width, height - 2, "M / P / ESC: back"@, gold()),
    ]
}

/// The score line of the result screens.
pub open spec fn score_text(view: MenuView) -> Seq<char> {
    "SCORE "@ + decimal(view.score as nat) + "   KILLS "@ + decimal(view.kills as nat)
}

/// The progress line of the result screens.
pub open spec fn progress_text(view: MenuView) -> Seq<char> {
    "WAVE "@ + decimal(view.wave as nat) + "/5   TIME "@ + decimal(view.seconds as nat) + "s"@
}

/// The screens after a won or lost run.
pub open spec fn result_body(view: MenuView, width: int, height: int) -> Seq<Placement> {
    seq![
        centred(width, height / 2 - 2, score_text(view), white()),
        centred(width, height / 2, progress_text(view), dim()),
        centred(width, height / 2 + 2, "R / ENTER: new run   CTRL-C: quit"@, gold()),
    ]
}

/// The note on how keys are read, shown on a tall title screen.
pub open spec fn input_note(release_events: bool) -> Seq<char> {
    if release_events {
        "KEY RELEASE INPUT ACTIVE"@
    } else {
        "TERMINAL KEY REPEAT // F TOGGLE-FIRE"@
    }
}

/// What the screen of `view.phase` shows in a frame of `width` by
/// `height`, in the order it is written.
pub open spec fn menu_layout(view: MenuView, width: int, height: int) -> Seq<Placement> {
    let body = match view.phase {
        Phase::Title => title_body(width, height),
        Phase::Paused => pause_body(width, height),
        Phase::Help => manual_body(width),
        Phase::Tactical => map_body(view, width, height),
        Phase::Won | Phase::Lost => result_body(view, width, height),
        Phase::Playing => seq![],
    };
    let note = if view.phase == Phase::Title && height >= 20 {
        seq![centred(width, height - 2, input_note(view.release_events), dim())]
    } else {
        seq![]
    };
    frame_rules(width, height) + heading(view.phase, width) + body + note
}

} // verus!

verus! {

/// Appends `line` to `lines`.
fn append_line(lines: &mut Vec<Line>, line: Line)
    ensures
        placements(final(lines)@) == placements(old(lines)@).push(line@),
{
    let ghost before = lines@;
    lines.push(line);
    assert(placements(lines@) =~= placements(before).push(line@));
}

/// Appends the rules around a frame of `width` by `height`.
fn add_rules(lines: &mut Vec<Line>, width: usize, height: usize)
    requires
        width >= 2,
        height >= 1,
    ensures
        placements(final(lines)@) == placements(old(lines)@) + frame_rules(width as int, height as int),
{
    let ghost before = placements(lines@);
    let mut y: usize = 0;
    while y < height
        invariant
            width >= 2,
            y <= height,
            placements(lines@) == before + Seq::new((2 * y) as nat, |i: int| border_piece(width as int, i)),
        decreases height - y,
    {
        let ghost mid = placements(lines@);
        append_line(lines, line_at(0, y, "│".to_owned(), edge()));
        append_line(lines, line_at(width - 1, y, "│".to_owned(), edge()));
        proof {
            let next = Seq::new((2 * (y + 1)) as nat, |i: int| border_piece(width as int, i));
            let prev = Seq::new((2 * y) as nat, |i: int| border_piece(width as int, i));
            assert(next[2 * y] == border_piece(width as int, 2 * y));
            assert(next[2 * y + 1] == border_piece(width as int, 2 * y + 1));
            assert((2 * y) % 2 == 0 && (2 * y) / 2 == y) by (nonlinear_arith);
            assert((2 * y + 1) % 2 == 1 && (2 * y + 1) / 2 == y) by (nonlinear_arith);
            assert(before + next =~= mid.push(at(0, y as int, "│"@, edge())).push(
                at(width - 1, y as int, "│"@, edge()),
            ));
        }
        y = y + 1;
    }
    let rule = repeat_text("─", width - 2);
    append_line(lines, line_at(1, 0, rule.clone(), edge()));
    append_line(lines, line_at(1, height - 1, rule, edge()));
    assert(placements(lines@) =~= before + frame_rules(width as int, height as int));
}

/// Appends the heading of `phase`.
fn add_heading(lines: &mut Vec<Line>, phase: Phase, width: usize)
    requires
        width >= 6,
    ensures
        placements(final(lines)@) == placements(old(lines)@) + heading(phase, width as int),
{
    let ghost before = placements(lines@);
    let title = match phase {
        Phase::Title => "TERMINAL // BREACH",
        Phase::Paused => "PAUSED",
        Phase::Tactical => "TACTICAL MAP",
        Phase::Help => "FIELD MANUAL",
        Phase::Won => "ARENA CLEARED",
        Phase::Lost => "RUN ENDED",
        Phase::Playing => "",
    };
    proof {
        reveal_strlit("");
    }
    assert(title@ == title_of(phase));
    append_line(lines, line_centred(width, 1, title.to_owned(), green()));
    let n = if width - 6 < 44 { width - 6 } else { 44 };
    append_line(lines, line_centred(width, 2, repeat_text("─", n), dim()));
    assert(placements(lines@) =~= before + heading(phase, width as int));
}

/// Appends each of `texts` centred from row `top`, in `color` but for
/// line `accent`, which is in `accent_color`, and the lines before
/// `bright`, which are in `bright_color`.
fn add_centred_block(
    lines: &mut Vec<Line>,
    texts: &Vec<&'static str>,
    width: usize,
    top: usize,
    color: Rgb,
    bright: usize,
    bright_color: Rgb,
    accent: usize,
    accent_color: Rgb,
)
    requires
        top + texts@.len() <= usize::MAX,
    ensures
        placements(final(lines)@) == placements(old(lines)@) + Seq::new(
            texts@.len(),
            |i: int| block_piece(texts@, width as int, top as int, color, bright as int, bright_color, accent as int, accent_color, i),
        ),
{
    let ghost before = placements(lines@);
    let mut i: usize = 0;
    while i < texts.len()
        invariant
            top + texts@.len() <= usize::MAX,
            i <= texts@.len(),
            placements(lines@) == before + Seq::new(
                i as nat,
                |j: int| block_piece(texts@, width as int, top as int, color, bright as int, bright_color, accent as int, accent_color, j),
            ),
        decreases texts.len() - i,
    {
        let ghost mid = placements(lines@);
        let c = if i == accent {
            accent_color
        } else if i < bright {
            bright_color
        } else {
            color
        };
        append_line(lines, line_centred(width, top + i, texts[i].to_owned(), c));
        assert(before + Seq::new(
            (i + 1) as nat,
            |j: int| block_piece(texts@, width as int, top as int, color, bright as int, bright_color, accent as int, accent_color, j),
        ) =~= mid.push(block_piece(texts@, width as int, top as int, color, bright as int, bright_color, accent as int, accent_color, i as int)));
        i = i + 1;
    }
}

/// Line `i` of `texts` centred from row `top`: in `accent_color` when it
/// is line `accent`, else in `bright_color` before line `bright`, else in
/// `color`.
pub open spec fn block_piece(
    texts: Seq<&'static str>,
    width: int,
    top: int,
    color: Rgb,
    bright: int,
    bright_color: Rgb,
    accent: int,
    accent_color: Rgb,
    i: int,
) -> Placement {
    centred(
        width,
        top + i,
        texts[i]@,
        if i == accent {
            accent_color
        } else if i < bright {
            bright_color
        } else {
            color
        },
    )
}

} // verus!

verus! {

/// Appends the tactical map.
fn add_map(lines: &mut Vec<Line>, view: &MenuView, width: usize, height: usize)
    requires
        view.wf(),
        height >= 7,
    ensures
        placements(final(lines)@) == placements(old(lines)@) + map_body(*view, width as int, height as int),
{
    let ghost before = placements(lines@);
    let available = height - 7;
    let px = view.player.0 as usize;
    let py = view.player.1 as usize;
    let half = available / 2;
    let centred_start = if py > half { py - half } else { 0 };
    let last_start = if HEIGHT > available { HEIGHT - available } else { 0 };
    let start = if centred_start < last_start { centred_start } else { last_start };
    let left = if width > WIDTH { (width - WIDTH) / 2 } else { 0 };
    let rows = if available < HEIGHT - start { available } else { HEIGHT - start };
    assert(start == map_window(view.player.1 as int, available as int));
    assert(left == map_left(width as int));
    let mut i: usize = 0;
    while i < rows
        invariant
            start <= HEIGHT,
            rows == shown_rows(start as int, available as int),
            rows <= HEIGHT - start,
            i <= rows,
            placements(lines@) == before + Seq::new(i as nat, |j: int| map_row_piece(left as int, start as int, j)),
        decreases rows - i,
    {
        let ghost mid = placements(lines@);
        append_line(lines, line_at(left, 4 + i, map_row(start + i), dim()));
        assert(before + Seq::new((i + 1) as nat, |j: int| map_row_piece(left as int, start as int, j))
            =~= mid.push(map_row_piece(left as int, start as int, i as int)));
        i = i + 1;
    }
    let ghost shown = placements(lines@);
    let mut k: usize = 0;
    while k < view.enemies.len()
        invariant
            view.wf(),
            start <= HEIGHT,
            left == map_left(width as int),
            available == height - 7,
            k <= view.enemies@.len(),
            placements(lines@) == shown + enemy_marks(view.enemies@.take(k as int), left as int, start as int, available as int),
        decreases view.enemies.len() - k,
    {
        let ghost mid = placements(lines@);
        let (ex, ey) = view.enemies[k];
        assert(in_arena(view.enemies@[k as int]));
        proof {
            assert(view.enemies@.take(k + 1).drop_last() =~= view.enemies@.take(k as int));
            assert(view.enemies@.take(k + 1).last() == (ex, ey));
        }
        if start as i32 <= ey && (ey as usize) - start < available {
            append_line(lines, line_at(left + ex as usize, 4 + ey as usize - start, "E".to_owned(), red()));
            assert(placements(lines@) =~= shown + enemy_marks(view.enemies@.take(k + 1), left as int, start as int, available as int));
        }
        k = k + 1;
    }
    assert(view.enemies@.take(view.enemies@.len() as int) =~= view.enemies@);
    let ghost marked = placements(lines@);
    append_line(lines, line_at(left + px, 4 + py - start, "@".to_owned(), green()));
    append_line(lines, line_centred(width, height - 2, "M / P / ESC: back".to_owned(), gold()));
    assert(placements(lines@) =~= before + map_body(*view, width as int, height as int));
}

/// Appends the lines of the result screens.
fn add_results(lines: &mut Vec<Line>, view: &MenuView, width: usize, height: usize)
    requires
        height >= 4,
    ensures
        placements(final(lines)@) == placements(old(lines)@) + result_body(*view, width as int, height as int),
{
    let ghost before = placements(lines@);
    let mut score = String::new();
    push_text(&mut score, "SCORE ");
    push_decimal(&mut score, view.score as u64);
    push_text(&mut score, "   KILLS ");
    push_decimal(&mut score, view.kills as u64);
    assert(score@ =~= score_text(*view));
    let mut progress = String::new();
    push_text(&mut progress, "WAVE ");
    push_decimal(&mut progress, view.wave as u64);
    push_text(&mut progress, "/5   TIME ");
    push_decimal(&mut progress, view.seconds);
    push_text(&mut progress, "s");
    assert(progress@ =~= progress_text(*view));
    append_line(lines, line_centred(width, height / 2 - 2, score, white()));
    append_line(lines, line_centred(width, height / 2, progress, dim()));
    append_line(lines, line_centred(width, height / 2 + 2, "R / ENTER: new run   CTRL-C: quit".to_owned(), gold()));
    assert(placements(lines@) =~= before + result_body(*view, width as int, height as int));
}

/// The lines of the screen of `view.phase` in a frame of `width` by
/// `height`, in the order they are written.
pub fn menu_lines(view: &MenuView, width: usize, height: usize) -> (r: Vec<Line>)
    requires
        view.phase == Phase::Tactical ==> view.wf(),
        menu_fits(view.phase, width as int, height as int),
    ensures
        placements(r@) == menu_layout(*view, width as int, height as int),
{
    let mut lines: Vec<Line> = Vec::new();
    assert(placements(lines@) =~= Seq::<Placement>::empty());
    add_rules(&mut lines, width, height);
    add_heading(&mut lines, view.phase, width);
    let ghost head = placements(lines@);
    match view.phase {
        Phase::Title => {
            let big = width >= 78 && height >= 28;
            if big {
                let logo_texts: Vec<&'static str> = vec![
                    "████▄  ████▄  █████  ▄███▄  ▄████  █   █",
                    "█   █  █   █  █      █   █  █      █   █",
                    "████   ████   ████   █████  █      █████",
                    "█   █  █  █   █      █   █  █      █   █",
                    "████   █   █  █████  █   █   ████  █   █",
                ];
                assert(logo_texts@ == logo());
                add_centred_block(&mut lines, &logo_texts, width, 5, green(), 2, white(), 5, green());
                append_line(
                    &mut lines,
                    line_centred(width, 11, "N I G H T   S H I F T   / /   S E C T O R   0 7".to_owned(), dim()),
                );
            }
            let ghost top_part = placements(lines@);
            let briefing_texts: Vec<&'static str> = vec![
                "PERIMETER SEALED. HOSTILES INBOUND.",
                "",
                "CLEAR FIVE WAVES. GET OUT.",
                "",
                "WASD move   Q/E turn   X dodge",
                "SPACE shotgun   F continuous fire",
                "",
                "ENTER or CLICK to deploy",
                "H controls   CTRL-C quit",
            ];
            assert(briefing_texts@ == briefing());
            add_centred_block(&mut lines, &briefing_texts, width, if big { 14 } else { 4 }, white(), 0, white(), 7, gold());
            assert(placements(lines@) =~= head + title_body(width as int, height as int));
        },
        Phase::Paused => {
            append_line(&mut lines, line_centred(width, height / 2 - 1, "P / ESC to resume".to_owned(), white()));
            append_line(&mut lines, line_centred(width, height / 2 + 1, "CTRL-C to quit".to_owned(), gold()));
            assert(placements(lines@) =~= head + pause_body(width as int, height as int));
        },
        Phase::Help => {
            let manual_texts: Vec<&'static str> = vec![
                "WASD / up-down: move  SHIFT+W: sprint",
                "Q/E / left-right: turn  X: dodge",
                "SPACE / click: shotgun  R: reload",
                "F: continuous fire  L: mouse look",
                "M: minimap  SHIFT+M: tactical map",
                "[ / ] / wheel: mouse sensitivity",
                "B: beep sound  P / ESC: pause",
                "Mouse reports stop at window edges.",
                "Q/E always work. CTRL-C quits.",
                "H / ESC: back",
            ];
            assert(manual_texts@ == manual());
            add_centred_block(&mut lines, &manual_texts, width, 4, white(), 0, white(), 10, white());
        },
        Phase::Tactical => {
            add_map(&mut lines, view, width, height);
        },
        Phase::Won | Phase::Lost => {
            add_results(&mut lines, view, width, height);
        },
        Phase::Playing => {
            assert(placements(lines@) =~= head + Seq::<Placement>::empty());
        },
    }
    let ghost body = placements(lines@);
    if view.phase == Phase::Title && height >= 20 {
        let note = if view.release_events {
            "KEY RELEASE INPUT ACTIVE"
        } else {
            "TERMINAL KEY REPEAT // F TOGGLE-FIRE"
        };
        assert(note@ == input_note(view.release_events));
        append_line(&mut lines, line_centred(width, height - 2, note.to_owned(), dim()));
    }
    assert(placements(lines@) =~= menu_layout(*view, width as int, height as int));
    lines
}

} // verus!

verus! {

/// `n` blank cells.
pub open spec fn blank_cells(n: nat) -> Seq<Cell> {
    Seq::new(n, |i: int| blank())
}

/// A terminal smaller than 40 by 16 shows only a request to resize it.
pub open spec fn too_small(width: int, height: int) -> bool {
    width < 40 || height < 16
}

/// What a frame of `width` by `height` shows for `view`: the request to
/// resize when it is too small, else the menu.
pub open spec fn screen_layout(view: MenuView, width: int, height: int) -> Seq<Placement> {
    if too_small(width, height) {
        seq![centred(width, height / 2, "Resize terminal to at least 40x16"@, gold())]
    } else {
        menu_layout(view, width, height)
    }
}

/// Whether a frame of `width` by `height` in `phase` shows a menu screen
/// (or the request to resize) rather than play.
pub fn shows_menu(phase: Phase, width: usize, height: usize) -> (r: bool)
    ensures
        r == (too_small(width as int, height as int) || phase != Phase::Playing),
{
    width < 40 || height < 16 || phase != Phase::Playing
}

/// Writes the screen of `view.phase` over `frame`.
pub fn menu(frame: &mut Frame, view: &MenuView)
    requires
        old(frame).wf(),
        view.phase == Phase::Tactical ==> view.wf(),
        menu_fits(view.phase, old(frame).width as int, old(frame).height as int),
    ensures
        final(frame).wf(),
        final(frame).width == old(frame).width,
        final(frame).height == old(frame).height,
        final(frame).cells@ == write_all(
            old(frame).cells@,
            old(frame).width as int,
            old(frame).height as int,
            menu_layout(*view, old(frame).width as int, old(frame).height as int),
        ),
{
    let lines = menu_lines(view, frame.width, frame.height);
    frame.write_lines(&lines);
}

/// A frame of `width` by `height` showing the screen of `view.phase`, or
/// the request to resize when the terminal is too small.
pub fn draw_menu(width: usize, height: usize, view: &MenuView) -> (r: Frame)
    requires
        width * height <= usize::MAX,
        !too_small(width as int, height as int) && view.phase == Phase::Tactical ==> view.wf(),
    ensures
        r.wf(),
        r.width == width,
        r.height == height,
        r.cells@ == write_all(
            blank_cells((width * height) as nat),
            width as int,
            height as int,
            screen_layout(*view, width as int, height as int),
        ),
{
    let mut frame = Frame::new(width, height);
    assert(frame.cells@ =~= blank_cells((width * height) as nat));
    if width < 40 || height < 16 {
        let ghost start = frame.cells@;
        frame.center(height / 2, "Resize terminal to at least 40x16", gold());
        let ghost ps = seq![centred(width as int, (height / 2) as int, "Resize terminal to at least 40x16"@, gold())];
        assert(ps.drop_last() =~= Seq::<Placement>::empty());
        assert(write_all(start, width as int, height as int, ps.drop_last()) == start);
        assert(frame.cells@ == write_all(start, width as int, height as int, ps));
        assert(ps == screen_layout(*view, width as int, height as int));
    } else {
        menu(&mut frame, view);
    }
    frame
}

/// Each menu screen is headed, centred in the second row and in green
/// (70, 245, 155), by its title: TERMINAL // BREACH on the title screen,
/// PAUSED, TACTICAL MAP, FIELD MANUAL, ARENA CLEARED after a won run and
/// RUN ENDED after a lost one; the heading follows the frame's rules.
pub proof fn lemma_menu_titles(view: MenuView, width: int, height: int)
    requires
        height >= 0,
    ensures
        menu_layout(view, width, height)[2 * height + 2] == centred(
            width,
            1,
            match view.phase {
                Phase::Title => "TERMINAL // BREACH"@,
                Phase::Paused => "PAUSED"@,
                Phase::Tactical => "TACTICAL MAP"@,
                Phase::Help => "FIELD MANUAL"@,
                Phase::Won => "ARENA CLEARED"@,
                Phase::Lost => "RUN ENDED"@,
                Phase::Playing => seq![],
            },
            Rgb(70, 245, 155),
        ),
{
    let rules = frame_rules(width, height);
    assert(rules.len() == 2 * height + 2);
    let layout = menu_layout(view, width, height);
    let head = heading(view.phase, width);
    assert(layout[2 * height + 2] == head[0]);
}

} // verus!
