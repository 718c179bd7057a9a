//! The heads-up display shown during play, laid out as lines of text.
use vstd::prelude::*;
use crate::game::MAGAZINE;
use crate::render::{
    Dot, Frame, Line, Placement, Rgb, at, write_all, placements, line_at, green, white, dim, gold, red,
    paint_all, dot_views,
};
use crate::strings::{
    decimal, padded, push_decimal, push_padded3, push_repeated, push_text, repeated,
    signed_decimal, signed_text,
};

verus! {

/// Where the nearest living enemy lies, seen from the player.
#[derive(Clone, Copy, Debug, PartialEq, Eq, Structural)]
pub enum Bearing {
    Ahead,
    Behind,
    Left,
    Right,
}

/// What the heads-up display shows of the game.
pub struct HudView {
    pub hp: i32,
    pub shells: u16,
    pub reserve: u16,
    /// How far a running reload has come, in percent.
    pub reload_percent: Option<u8>,
    pub wave: u8,
    /// Living enemies.
    pub alive: usize,
    pub score: u32,
    /// Frames per second, rounded.
    pub fps: u64,
    /// Whole seconds left of a running break between waves, rounded up.
    pub break_secs: Option<u8>,
    /// The remaining dodge cooldown as shown, while it runs.
    pub dash: Option<String>,
    pub auto_fire: bool,
    pub mouse: bool,
    /// The message of the moment, while it shows.
    pub message: Option<String>,
    /// Bearing and rounded distance in cells of the nearest living enemy.
    pub nearest: Option<(Bearing, u64)>,
}

/// `ON` or `OFF`.
pub open spec fn on_off(b: bool) -> Seq<char> {
    if b {
        "ON"@
    } else {
        "OFF"@
    }
}

/// The ammunition: the progress of a running reload, else the rounds in
/// the magazine and in reserve.
pub open spec fn ammo_text(v: HudView) -> Seq<char> {
    match v.reload_percent {
        Some(p) => "RELOAD "@ + padded(decimal(p as nat), 3) + "%"@,
        None => "SHELLS "@ + decimal(v.shells as nat) + "/"@ + decimal(MAGAZINE as nat) + " +"@
            + decimal(v.reserve as nat),
    }
}

/// Health above 30 shows green, else red.
pub open spec fn vital_color(hp: i32) -> Rgb {
    if hp > 30 {
        green()
    } else {
        red()
    }
}

/// The health and ammunition line.
pub open spec fn health_text(v: HudView) -> Seq<char> {
    "HP "@ + padded(signed_decimal(v.hp as int), 3) + "   "@ + ammo_text(v)
}

/// The objective line: the countdown of a break between waves, else the
/// wave, the enemies left and the score, with the frame rate on a wide
/// terminal.
pub open spec fn objective_text(v: HudView, width: int) -> Seq<char> {
    match v.break_secs {
        Some(s) => "WAVE CLEAR // NEXT IN "@ + decimal(s as nat) + " // +25 HP"@,
        None => "WAVE "@ + decimal(v.wave as nat) + "/5  LEFT "@ + decimal(v.alive as nat)
            + "  SCORE "@ + decimal(v.score as nat) + if width >= 65 {
            "   "@ + decimal(v.fps as nat) + " FPS"@
        } else {
            seq![]
        },
    }
}

/// The status line: the dodge, continuous fire and reload, with the mouse
/// and help on a wide terminal.
pub open spec fn status_text(v: HudView, width: int) -> Seq<char> {
    let dash = match v.dash {
        None => "READY"@,
        Some(t) => t@ + "s"@,
    };
    "X dodge "@ + dash + " | F fire "@ + on_off(v.auto_fire) + " | R reload"@ + if width >= 90 {
        " | L mouse "@ + on_off(v.mouse) + " | H help"@
    } else {
        seq![]
    }
}

/// The name of a bearing.
pub open spec fn bearing_text(b: Bearing) -> Seq<char> {
    match b {
        Bearing::Ahead => "AHEAD"@,
        Bearing::Behind => "BEHIND"@,
        Bearing::Left => "LEFT"@,
        Bearing::Right => "RIGHT"@,
    }
}

/// The hint shown when nothing else is.
pub open spec fn default_hint() -> Seq<char> {
    "Yellow enemy = attack incoming. Shoot or dodge."@
}

/// The message line: the message of the moment; else, with at most two
/// enemies left, where the nearest one is; else the hint.
pub open spec fn message_text(v: HudView) -> Seq<char> {
    match v.message {
        Some(m) => m@,
        None => match v.nearest {
            Some((b, d)) => if v.alive <= 2 {
                "LAST HOSTILES: "@ + bearing_text(b) + "  "@ + decimal(d as nat) + "m"@
            } else {
                default_hint()
            },
            None => default_hint(),
        },
    }
}

/// Tenths of full health, rounded up, from 0 to 10.
pub open spec fn health_bars(hp: i32) -> int {
    let h: int = if hp > 0 { hp as int } else { 0 };
    let c = (h + 9) / 10;
    if c < 10 { c } else { 10 }
}

/// The health gauge.
pub open spec fn vital_gauge(hp: i32) -> Seq<char> {
    let n = health_bars(hp);
    "VITAL ["@ + repeated("━"@, n as nat) + repeated("·"@, (10 - n) as nat) + "]"@
}

/// The magazine gauge.
pub open spec fn load_gauge(shells: u16) -> Seq<char> {
    let n: int = if shells < MAGAZINE { shells as int } else { MAGAZINE as int };
    "LOAD  "@ + repeated("▮ "@, n as nat) + repeated("· "@, (MAGAZINE - n) as nat)
}

/// The heads-up display in the four bottom rows of a frame of `width` by
/// `height`, with the gauges on the right of a wide terminal.
pub open spec fn hud_layout(v: HudView, width: int, height: int) -> Seq<Placement> {
    let row = height - 4;
    seq![
        at(1, row, health_text(v), vital_color(v.hp)),
        at(1, row + 1, objective_text(v, width), white()),
        at(1, row + 2, status_text(v, width), dim()),
        at(1, row + 3, message_text(v), gold()),
    ] + if width >= 90 {
        seq![at(width - 31, row, vital_gauge(v.hp), vital_color(v.hp)), at(width - 31, row + 1, load_gauge(v.shells), gold())]
    } else {
        seq![]
    }
}

} // verus!

verus! {

fn push_on_off(s: &mut String, b: bool)
    ensures
        final(s)@ == old(s)@ + on_off(b),
{
    if b {
        push_text(s, "ON");
    } else {
        push_text(s, "OFF");
    }
}

fn health_line(v: &HudView) -> (r: String)
    ensures
        r@ == health_text(*v),
{
    let mut s = String::new();
    push_text(&mut s, "HP ");
    let hp = signed_text(v.hp as i64);
    push_padded3(&mut s, hp.as_str());
    push_text(&mut s, "   ");
    match v.reload_percent {
        Some(p) => {
            push_text(&mut s, "RELOAD ");
            let mut digits = String::new();
            push_decimal(&mut digits, p as u64);
            push_padded3(&mut s, digits.as_str());
            push_text(&mut s, "%");
        },
        None => {
            push_text(&mut s, "SHELLS ");
            push_decimal(&mut s, v.shells as u64);
            push_text(&mut s, "/");
            push_decimal(&mut s, MAGAZINE as u64);
            push_text(&mut s, " +");
            push_decimal(&mut s, v.reserve as u64);
        },
    }
    assert(s@ =~= health_text(*v));
    s
}

fn objective_line(v: &HudView, width: usize) -> (r: String)
    ensures
        r@ == objective_text(*v, width as int),
{
    let mut s = String::new();
    match v.break_secs {
        Some(secs) => {
            push_text(&mut s, "WAVE CLEAR // NEXT IN ");
            push_decimal(&mut s, secs as u64);
            push_text(&mut s, " // +25 HP");
        },
        None => {
            push_text(&mut s, "WAVE ");
            push_decimal(&mut s, v.wave as u64);
            push_text(&mut s, "/5  LEFT ");
            push_decimal(&mut s, v.alive as u64);
            push_text(&mut s, "  SCORE ");
            push_decimal(&mut s, v.score as u64);
            if width >= 65 {
                push_text(&mut s, "   ");
                push_decimal(&mut s, v.fps);
                push_text(&mut s, " FPS");
            }
        },
    }
    assert(s@ =~= objective_text(*v, width as int));
    s
}

fn status_line(v: &HudView, width: usize) -> (r: String)
    ensures
        r@ == status_text(*v, width as int),
{
    let mut s = String::new();
    push_text(&mut s, "X dodge ");
    match &v.dash {
        None => push_text(&mut s, "READY"),
        Some(t) => {
            push_text(&mut s, t.as_str());
            push_text(&mut s, "s");
        },
    }
    push_text(&mut s, " | F fire ");
    push_on_off(&mut s, v.auto_fire);
    push_text(&mut s, " | R reload");
    if width >= 90 {
        push_text(&mut s, " | L mouse ");
        push_on_off(&mut s, v.mouse);
        push_text(&mut s, " | H help");
    }
    assert(s@ =~= status_text(*v, width as int));
    s
}

fn message_line(v: &HudView) -> (r: String)
    ensures
        r@ == message_text(*v),
{
    let mut s = String::new();
    let hint = "Yellow enemy = attack incoming. Shoot or dodge.";
    match &v.message {
        Some(m) => push_text(&mut s, m.as_str()),
        None => match v.nearest {
            Some((b, d)) => {
                if v.alive <= 2 {
                    push_text(&mut s, "LAST HOSTILES: ");
                    let name = match b {
                        Bearing::Ahead => "AHEAD",
                        Bearing::Behind => "BEHIND",
                        Bearing::Left => "LEFT",
                        Bearing::Right => "RIGHT",
                    };
                    push_text(&mut s, name);
                    push_text(&mut s, "  ");
                    push_decimal(&mut s, d);
                    push_text(&mut s, "m");
                } else {
                    push_text(&mut s, hint);
                }
            },
            None => push_text(&mut s, hint),
        },
    }
    assert(s@ =~= message_text(*v));
    s
}

fn vital_line(hp: i32) -> (r: String)
    ensures
        r@ == vital_gauge(hp),
{
    let h: i32 = if hp > 0 { hp } else { 0 };
    let c: i32 = (h / 10) + if h % 10 > 0 { 1 } else { 0 };
    let n: usize = if c < 10 { c as usize } else { 10 };
    assert(n == health_bars(hp));
    let mut s = String::new();
    push_text(&mut s, "VITAL [");
    push_repeated(&mut s, "━", n);
    push_repeated(&mut s, "·", 10 - n);
    push_text(&mut s, "]");
    assert(s@ =~= vital_gauge(hp));
    s
}

fn load_line(shells: u16) -> (r: String)
    ensures
        r@ == load_gauge(shells),
{
    let n: usize = if shells < MAGAZINE { shells as usize } else { MAGAZINE as usize };
    let mut s = String::new();
    push_text(&mut s, "LOAD  ");
    push_repeated(&mut s, "▮ ", n);
    push_repeated(&mut s, "· ", MAGAZINE as usize - n);
    assert(s@ =~= load_gauge(shells));
    s
}

/// The lines of the heads-up display in a frame of `width` by `height`.
pub fn hud_lines(v: &HudView, width: usize, height: usize) -> (r: Vec<Line>)
    requires
        height >= 4,
    ensures
        placements(r@) == hud_layout(*v, width as int, height as int),
{
    let row = height - 4;
    let color = if v.hp > 30 { green() } else { red() };
    let mut lines: Vec<Line> = Vec::new();
    lines.push(line_at(1, row, health_line(v), color));
    lines.push(line_at(1, row + 1, objective_line(v, width), white()));
    lines.push(line_at(1, row + 2, status_line(v, width), dim()));
    lines.push(line_at(1, row + 3, message_line(v), gold()));
    if width >= 90 {
        lines.push(line_at(width - 31, row, vital_line(v.hp), color));
        lines.push(line_at(width - 31, row + 1, load_line(v.shells), gold()));
    }
    assert(placements(lines@) =~= hud_layout(*v, width as int, height as int));
    lines
}

/// Writes the heads-up display over `frame`.
pub fn hud(frame: &mut Frame, v: &HudView)
    requires
        old(frame).wf(),
        old(frame).height >= 4,
    ensures
        final(frame).wf(),
        final(frame).width == old(frame).width,
        final(frame).height == old(frame).height,
        final(frame).cells@ == write_all(
            old(frame).cells@,
            old(frame).width as int,
            old(frame).height as int,
            hud_layout(*v, old(frame).width as int, old(frame).height as int),
        ),
{
    let lines = hud_lines(v, frame.width, frame.height);
    frame.write_lines(&lines);
}

/// The crosshair around the centre `(cx, cy)` of the view: four pixels
/// three away on each side and the centre itself, white while a hit is
/// confirmed (`hit`), else green.
pub open spec fn crosshair_dots(cx: int, cy: int, hit: bool) -> Seq<(int, int, Rgb)> {
    let c = if hit { white() } else { green() };
    seq![(cx - 3, cy, c), (cx + 3, cy, c), (cx, cy - 3, c), (cx, cy + 3, c), (cx, cy, c)]
}

/// Paints the crosshair around `(cx, cy)`.
pub fn crosshair(frame: &mut Frame, cx: i32, cy: i32, hit: bool)
    requires
        old(frame).wf(),
        i32::MIN + 3 <= cx <= i32::MAX - 3,
        i32::MIN + 3 <= cy <= i32::MAX - 3,
    ensures
        final(frame).wf(),
        final(frame).width == old(frame).width,
        final(frame).height == old(frame).height,
        final(frame).cells@ == paint_all(
            old(frame).cells@,
            old(frame).width as int,
            old(frame).height as int,
            crosshair_dots(cx as int, cy as int, hit),
        ),
{
    let color = if hit { white() } else { green() };
    let dots: Vec<Dot> = vec![
        Dot { x: cx - 3, y: cy, color },
        Dot { x: cx + 3, y: cy, color },
        Dot { x: cx, y: cy - 3, color },
        Dot { x: cx, y: cy + 3, color },
        Dot { x: cx, y: cy, color },
    ];
    assert(dot_views(dots@) =~= crosshair_dots(cx as int, cy as int, hit));
    frame.paint_dots(&dots);
}

/// The message line, the bottom row of the display, in gold: the message
/// of the moment while one shows; otherwise, with at most two enemies
/// left, `LAST HOSTILES:` with where the nearest one is (AHEAD, BEHIND,
/// LEFT or RIGHT) and how many cells away; otherwise the hint about
/// yellow enemies.
pub proof fn lemma_message_line(v: HudView, width: int, height: int)
    ensures
        hud_layout(v, width, height)[3] == at(
            1,
            height - 1,
            match v.message {
                Some(m) => m@,
                None => match v.nearest {
                    Some((b, d)) => if v.alive <= 2 {
                        "LAST HOSTILES: "@ + match b {
                            Bearing::Ahead => "AHEAD"@,
                            Bearing::Behind => "BEHIND"@,
                            Bearing::Left => "LEFT"@,
                            Bearing::Right => "RIGHT"@,
                        } + "  "@ + decimal(d as nat) + "m"@
                    } else {
                        "Yellow enemy = attack incoming. Shoot or dodge."@
                    },
                    None => "Yellow enemy = attack incoming. Shoot or dodge."@,
                },
            },
            Rgb(250, 184, 74),
        ),
{
}

/// The upper three lines of the display, from the fourth row from the
/// bottom: health and ammunition (green above 30 health, else red); the
/// wave, enemies left and score (with the frame rate from 65 columns), or
/// the countdown of a break; and the dodge, continuous fire and reload
/// (with mouse look and help from 90 columns), dim.
pub proof fn lemma_hud_lines(v: HudView, width: int, height: int)
    ensures
        hud_layout(v, width, height)[0] == at(
            1,
            height - 4,
            "HP "@ + padded(signed_decimal(v.hp as int), 3) + "   "@ + match v.reload_percent {
                Some(p) => "RELOAD "@ + padded(decimal(p as nat), 3) + "%"@,
                None => "SHELLS "@ + decimal(v.shells as nat) + "/"@ + decimal(6) + " +"@ + decimal(
                    v.reserve as nat,
                ),
            },
            if v.hp > 30 { Rgb(70, 245, 155) } else { Rgb(245, 60, 52) },
        ),
        hud_layout(v, width, height)[1] == at(
            1,
            height - 3,
            match v.break_secs {
                Some(secs) => "WAVE CLEAR // NEXT IN "@ + decimal(secs as nat) + " // +25 HP"@,
                None => "WAVE "@ + decimal(v.wave as nat) + "/5  LEFT "@ + decimal(v.alive as nat)
                    + "  SCORE "@ + decimal(v.score as nat) + if width >= 65 {
                    "   "@ + decimal(v.fps as nat) + " FPS"@
                } else {
                    seq![]
                },
            },
            Rgb(220, 236, 241),
        ),
        hud_layout(v, width, height)[2] == at(
            1,
            height - 2,
            "X dodge "@ + match v.dash {
                None => "READY"@,
                Some(t) => t@ + "s"@,
            } + " | F fire "@ + (if v.auto_fire { "ON"@ } else { "OFF"@ }) + " | R reload"@
                + if width >= 90 {
                " | L mouse "@ + (if v.mouse { "ON"@ } else { "OFF"@ }) + " | H help"@
            } else {
                seq![]
            },
            Rgb(90, 120, 140),
        ),
{
}

} // verus!
