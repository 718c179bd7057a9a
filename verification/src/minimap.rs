//! The minimap in the corner of the play screen, as pixels.
use vstd::prelude::*;
use crate::game::PickupKind;
use crate::render::{Dot, Frame, Rgb, bg, dim, gold, green, mm_wall, paint_all, dot_views, red, white};
use crate::screens::in_arena;
use crate::world::{WIDTH, HEIGHT, is_wall, wall};

verus! {

/// What the minimap shows of the game.
pub struct MinimapView {
    /// The player's cell.
    pub player: (i32, i32),
    /// The cells and kinds of the pickups lying in the arena.
    pub pickups: Vec<((i32, i32), PickupKind)>,
    /// The cells of the living enemies.
    pub enemies: Vec<(i32, i32)>,
    /// The cell next to the player's that the player faces.
    pub facing: (i32, i32),
    /// The centre of the faced cell is in the player's sight.
    pub facing_visible: bool,
}

impl MinimapView {
    /// The player's cell is far enough from the least `i32` for the window
    /// around it to be computed.
    pub open spec fn wf(&self) -> bool {
        self.player.0 >= i32::MIN + 9 && self.player.1 >= i32::MIN + 9
    }
}

/// Green at half brightness: a medkit.
pub open spec fn medkit_mark() -> Rgb {
    Rgb(35, 122, 77)
}

/// A frame smaller than 60 by 22 shows a 9 by 9 window of the arena, a
/// larger one all of it.
pub open spec fn window_size(width: int, height: int) -> (int, int) {
    if width < 60 || height < 22 {
        (9, 9)
    } else {
        (WIDTH as int, HEIGHT as int)
    }
}

/// `v` clamped to `lo ..= hi`.
pub open spec fn clamped(v: int, lo: int, hi: int) -> int {
    if v < lo {
        lo
    } else if v > hi {
        hi
    } else {
        v
    }
}

/// The first column and row of the window of `mw` by `mh` cells: the
/// player in the middle where the arena allows.
pub open spec fn window_origin(player: (i32, i32), mw: int, mh: int) -> (int, int) {
    (clamped(player.0 - mw / 2, 0, WIDTH - mw), clamped(player.1 - mh / 2, 0, HEIGHT - mh))
}

/// The pixel of window cell `(x, y)`, from -1 to the window's size: the
/// frame around the window dim, walls and floor of the arena inside.
pub open spec fn grid_dot(sx: int, sy: int, mw: int, mh: int, x: int, y: int) -> (int, int, Rgb) {
    let color = if x < 0 || y < 0 || x == mw || y == mh {
        dim()
    } else if is_wall(sx + x, sy + y) {
        mm_wall()
    } else {
        bg()
    };
    (2 + x, 2 + y, color)
}

/// The pixels of the first `n` rows of the window and its frame, row by
/// row from row -1.
pub open spec fn grid_dots(sx: int, sy: int, mw: int, mh: int, n: int) -> Seq<(int, int, Rgb)>
    decreases n,
{
    if n <= 0 {
        seq![]
    } else {
        grid_dots(sx, sy, mw, mh, n - 1) + Seq::new((mw + 2) as nat, |i: int| grid_dot(sx, sy, mw, mh, i - 1, n - 2))
    }
}

/// The pixel marking arena cell `(x, y)` in `color`, when the window
/// shows it.
pub open spec fn mark(sx: int, sy: int, mw: int, mh: int, x: int, y: int, color: Rgb) -> Seq<(int, int, Rgb)> {
    if sx <= x < sx + mw && sy <= y < sy + mh {
        seq![(2 + x - sx, 2 + y - sy, color)]
    } else {
        seq![]
    }
}

/// The marks of the pickups: medkits half-bright green, ammunition gold.
pub open spec fn pickup_marks(pickups: Seq<((i32, i32), PickupKind)>, sx: int, sy: int, mw: int, mh: int) -> Seq<(int, int, Rgb)>
    decreases pickups.len(),
{
    if pickups.len() == 0 {
        seq![]
    } else {
        let (c, kind) = pickups.last();
        pickup_marks(pickups.drop_last(), sx, sy, mw, mh) + mark(
            sx,
            sy,
            mw,
            mh,
            c.0 as int,
            c.1 as int,
            if kind == PickupKind::Medkit { medkit_mark() } else { gold() },
        )
    }
}

/// The marks of the enemies, in red.
pub open spec fn enemy_dots(enemies: Seq<(i32, i32)>, sx: int, sy: int, mw: int, mh: int) -> Seq<(int, int, Rgb)>
    decreases enemies.len(),
{
    if enemies.len() == 0 {
        seq![]
    } else {
        let c = enemies.last();
        enemy_dots(enemies.drop_last(), sx, sy, mw, mh) + mark(sx, sy, mw, mh, c.0 as int, c.1 as int, red())
    }
}

/// The pixels of the minimap in a frame of `width` by `height`, in the
/// order they are painted: the window with its frame, the pickups, the
/// enemies, the faced cell in white when it is floor in sight, and the
/// player in green.
pub open spec fn minimap_layout(view: MinimapView, width: int, height: int) -> Seq<(int, int, Rgb)> {
    let (mw, mh) = window_size(width, height);
    let (sx, sy) = window_origin(view.player, mw, mh);
    let (tx, ty) = (view.facing.0 as int, view.facing.1 as int);
    grid_dots(sx, sy, mw, mh, mh + 2) + pickup_marks(view.pickups@, sx, sy, mw, mh) + enemy_dots(
        view.enemies@,
        sx,
        sy,
        mw,
        mh,
    ) + (if !is_wall(tx, ty) && view.facing_visible {
        mark(sx, sy, mw, mh, tx, ty, white())
    } else {
        seq![]
    }) + mark(sx, sy, mw, mh, view.player.0 as int, view.player.1 as int, green())
}

} // verus!

verus! {

fn push_dot(dots: &mut Vec<Dot>, x: i32, y: i32, color: Rgb)
    ensures
        dot_views(final(dots)@) == dot_views(old(dots)@).push((x as int, y as int, color)),
{
    let ghost before = dots@;
    dots.push(Dot { x, y, color });
    assert(dot_views(dots@) =~= dot_views(before).push((x as int, y as int, color)));
}

fn push_mark(dots: &mut Vec<Dot>, sx: i32, sy: i32, mw: i32, mh: i32, x: i32, y: i32, color: Rgb)
    requires
        0 <= sx <= WIDTH,
        0 <= sy <= HEIGHT,
        0 <= mw <= WIDTH,
        0 <= mh <= HEIGHT,
    ensures
        dot_views(final(dots)@) == dot_views(old(dots)@) + mark(
            sx as int,
            sy as int,
            mw as int,
            mh as int,
            x as int,
            y as int,
            color,
        ),
{
    let ghost before = dot_views(dots@);
    if x >= sx && y >= sy && x < sx + mw && y < sy + mh {
        push_dot(dots, 2 + x - sx, 2 + y - sy, color);
    }
    assert(dot_views(dots@) =~= before + mark(sx as int, sy as int, mw as int, mh as int, x as int, y as int, color));
}

/// The pixels of the minimap in a frame of `width` by `height`, in the
/// order they are painted.
pub fn minimap_dots(view: &MinimapView, width: usize, height: usize) -> (r: Vec<Dot>)
    requires
        view.wf(),
    ensures
        dot_views(r@) == minimap_layout(*view, width as int, height as int),
{
    let compact = width < 60 || height < 22;
    let (mw, mh): (i32, i32) = if compact { (9, 9) } else { (WIDTH as i32, HEIGHT as i32) };
    let (px, py) = view.player;
    let ax = px - mw / 2;
    let sx: i32 = if ax < 0 { 0 } else if ax > WIDTH as i32 - mw { WIDTH as i32 - mw } else { ax };
    let ay = py - mh / 2;
    let sy: i32 = if ay < 0 { 0 } else if ay > HEIGHT as i32 - mh { HEIGHT as i32 - mh } else { ay };
    assert((sx as int, sy as int) == window_origin(view.player, mw as int, mh as int));
    let mut dots: Vec<Dot> = Vec::new();
    assert(dot_views(dots@) =~= grid_dots(sx as int, sy as int, mw as int, mh as int, 0));
    let mut row: i32 = -1;
    while row <= mh
        invariant
            0 <= sx <= WIDTH - mw,
            0 <= sy <= HEIGHT - mh,
            (mw, mh) == (9i32, 9i32) || (mw, mh) == (WIDTH as i32, HEIGHT as i32),
            -1 <= row <= mh + 1,
            dot_views(dots@) == grid_dots(sx as int, sy as int, mw as int, mh as int, row + 1),
        decreases mh + 1 - row,
    {
        let ghost done = dot_views(dots@);
        let mut col: i32 = -1;
        while col <= mw
            invariant
                0 <= sx <= WIDTH - mw,
                0 <= sy <= HEIGHT - mh,
                (mw, mh) == (9i32, 9i32) || (mw, mh) == (WIDTH as i32, HEIGHT as i32),
                -1 <= row <= mh,
                -1 <= col <= mw + 1,
                dot_views(dots@) == done + Seq::new(
                    (col + 1) as nat,
                    |i: int| grid_dot(sx as int, sy as int, mw as int, mh as int, i - 1, row as int),
                ),
            decreases mw + 1 - col,
        {
            let ghost mid = dot_views(dots@);
            let color = if col < 0 || row < 0 || col == mw || row == mh {
                dim()
            } else if wall(sx + col, sy + row) {
                mm_wall()
            } else {
                bg()
            };
            push_dot(&mut dots, 2 + col, 2 + row, color);
            assert(done + Seq::new(
                (col + 2) as nat,
                |i: int| grid_dot(sx as int, sy as int, mw as int, mh as int, i - 1, row as int),
            ) =~= mid.push(grid_dot(sx as int, sy as int, mw as int, mh as int, col as int, row as int)));
            col = col + 1;
        }
        assert(grid_dots(sx as int, sy as int, mw as int, mh as int, row + 2) == grid_dots(
            sx as int,
            sy as int,
            mw as int,
            mh as int,
            row + 1,
        ) + Seq::new(
            (mw + 2) as nat,
            |i: int| grid_dot(sx as int, sy as int, mw as int, mh as int, i - 1, row as int),
        ));
        row = row + 1;
    }
    let ghost grid = dot_views(dots@);
    let mut k: usize = 0;
    while k < view.pickups.len()
        invariant
            view.wf(),
            0 <= sx <= WIDTH - mw,
            0 <= sy <= HEIGHT - mh,
            (mw, mh) == (9i32, 9i32) || (mw, mh) == (WIDTH as i32, HEIGHT as i32),
            k <= view.pickups@.len(),
            dot_views(dots@) == grid + pickup_marks(view.pickups@.take(k as int), sx as int, sy as int, mw as int, mh as int),
        decreases view.pickups.len() - k,
    {
        let ghost mid = dot_views(dots@);
        let (c, kind) = view.pickups[k];
        let color = match kind {
            PickupKind::Medkit => Rgb(35, 122, 77),
            PickupKind::Ammo => gold(),
        };
        push_mark(&mut dots, sx, sy, mw, mh, c.0, c.1, color);
        proof {
            let next = view.pickups@.take(k + 1);
            assert(next.drop_last() =~= view.pickups@.take(k as int));
            assert(next.last() == (c, kind));
            assert(dot_views(dots@) =~= grid + pickup_marks(next, sx as int, sy as int, mw as int, mh as int));
        }
        k = k + 1;
    }
    assert(view.pickups@.take(view.pickups@.len() as int) =~= view.pickups@);
    let ghost picked = dot_views(dots@);
    let mut e: usize = 0;
    while e < view.enemies.len()
        invariant
            view.wf(),
            0 <= sx <= WIDTH - mw,
            0 <= sy <= HEIGHT - mh,
            (mw, mh) == (9i32, 9i32) || (mw, mh) == (WIDTH as i32, HEIGHT as i32),
            e <= view.enemies@.len(),
            dot_views(dots@) == picked + enemy_dots(view.enemies@.take(e as int), sx as int, sy as int, mw as int, mh as int),
        decreases view.enemies.len() - e,
    {
        let c = view.enemies[e];
        push_mark(&mut dots, sx, sy, mw, mh, c.0, c.1, red());
        proof {
            let next = view.enemies@.take(e + 1);
            assert(next.drop_last() =~= view.enemies@.take(e as int));
            assert(next.last() == c);
            assert(dot_views(dots@) =~= picked + enemy_dots(next, sx as int, sy as int, mw as int, mh as int));
        }
        e = e + 1;
    }
    assert(view.enemies@.take(view.enemies@.len() as int) =~= view.enemies@);
    let ghost enemies_done = dot_views(dots@);
    let (tx, ty) = view.facing;
    if !wall(tx, ty) && view.facing_visible {
        push_mark(&mut dots, sx, sy, mw, mh, tx, ty, white());
    }
    let ghost faced = dot_views(dots@);
    assert(faced =~= enemies_done + (if !is_wall(tx as int, ty as int) && view.facing_visible {
        mark(sx as int, sy as int, mw as int, mh as int, tx as int, ty as int, white())
    } else {
        seq![]
    }));
    push_mark(&mut dots, sx, sy, mw, mh, px, py, green());
    assert(dot_views(dots@) =~= minimap_layout(*view, width as int, height as int));
    dots
}

/// Paints the minimap over `frame`.
pub fn minimap(frame: &mut Frame, view: &MinimapView)
    requires
        old(frame).wf(),
        view.wf(),
    ensures
        final(frame).wf(),
        final(frame).width == old(frame).width,
        final(frame).height == old(frame).height,
        final(frame).cells@ == paint_all(
            old(frame).cells@,
            old(frame).width as int,
            old(frame).height as int,
            minimap_layout(*view, old(frame).width as int, old(frame).height as int),
        ),
{
    let dots = minimap_dots(view, frame.width, frame.height);
    frame.paint_dots(&dots);
}

/// The window always shows the player's cell, and the player's green
/// dot is painted last, over everything else.
pub proof fn lemma_player_is_shown(view: MinimapView, width: int, height: int)
    requires
        in_arena(view.player),
    ensures
        ({
            let (mw, mh) = window_size(width, height);
            let (sx, sy) = window_origin(view.player, mw, mh);
            let (px, py) = (view.player.0 as int, view.player.1 as int);
            &&& sx <= px < sx + mw
            &&& sy <= py < sy + mh
            &&& minimap_layout(view, width, height).last() == (2 + px - sx, 2 + py - sy, green())
        }),
{
}

/// Pixel `d` marks a pickup of `p` inside the window from `(sx, sy)` of
/// `mw` by `mh` cells at its cell: half-bright green (35, 122, 77) for a
/// medkit, gold (250, 184, 74) for ammunition.
pub open spec fn marks_pickup(p: Seq<((i32, i32), PickupKind)>, sx: int, sy: int, mw: int, mh: int, d: (int, int, Rgb)) -> bool {
    exists|j: int|
        0 <= j < p.len() && sx <= #[trigger] p[j].0.0 < sx + mw && sy <= p[j].0.1 < sy + mh && d == (
            2 + p[j].0.0 - sx,
            2 + p[j].0.1 - sy,
            if p[j].1 == PickupKind::Medkit {
                Rgb(35, 122, 77)
            } else {
                Rgb(250, 184, 74)
            },
        )
}

/// The pixel of pickup `p` in a window from `(sx, sy)`: at its cell, in
/// half-bright green for a medkit and gold for ammunition.
spec fn pickup_dot(p: ((i32, i32), PickupKind), sx: int, sy: int) -> (int, int, Rgb) {
    (
        2 + p.0.0 - sx,
        2 + p.0.1 - sy,
        if p.1 == PickupKind::Medkit { Rgb(35, 122, 77) } else { Rgb(250, 184, 74) },
    )
}

proof fn lemma_pickup_dots(p: Seq<((i32, i32), PickupKind)>, sx: int, sy: int, mw: int, mh: int)
    ensures
        forall|j: int|
            0 <= j < p.len() && sx <= p[j].0.0 < sx + mw && sy <= p[j].0.1 < sy + mh
                ==> pickup_marks(p, sx, sy, mw, mh).contains(#[trigger] pickup_dot(p[j], sx, sy)),
        forall|i: int|
            0 <= i < pickup_marks(p, sx, sy, mw, mh).len() ==> marks_pickup(
                p,
                sx,
                sy,
                mw,
                mh,
                #[trigger] pickup_marks(p, sx, sy, mw, mh)[i],
            ),
    decreases p.len(),
{
    if p.len() > 0 {
        let q = p.drop_last();
        lemma_pickup_dots(q, sx, sy, mw, mh);
        let n = p.len() - 1;
        let before = pickup_marks(q, sx, sy, mw, mh);
        let all = pickup_marks(p, sx, sy, mw, mh);
        assert forall|j: int|
            0 <= j < p.len() && sx <= p[j].0.0 < sx + mw && sy <= p[j].0.1 < sy + mh
                implies all.contains(#[trigger] pickup_dot(p[j], sx, sy)) by {
            if j < n {
                assert(q[j] == p[j]);
                let i = choose|i: int| 0 <= i < before.len() && before[i] == pickup_dot(q[j], sx, sy);
                assert(all[i] == before[i]);
            } else {
                assert(all[before.len() as int] == pickup_dot(p[j], sx, sy));
            }
        }
        assert forall|i: int| 0 <= i < all.len() implies marks_pickup(p, sx, sy, mw, mh, #[trigger] all[i]) by {
            if i < before.len() {
                assert(all[i] == before[i]);
                assert(marks_pickup(q, sx, sy, mw, mh, before[i]));
                let j = choose|j: int|
                    0 <= j < q.len() && sx <= #[trigger] q[j].0.0 < sx + mw && sy <= q[j].0.1 < sy + mh
                        && before[i] == (
                        2 + q[j].0.0 - sx,
                        2 + q[j].0.1 - sy,
                        if q[j].1 == PickupKind::Medkit {
                            Rgb(35, 122, 77)
                        } else {
                            Rgb(250, 184, 74)
                        },
                    );
                assert(q[j] == p[j]);
                assert(sx <= p[j].0.0);
            } else {
                assert(all[i] == pickup_dot(p[n], sx, sy));
                assert(sx <= p[n].0.0);
            }
        }
    }
}

/// Pickups on the minimap, whose window from `(sx, sy)` is `mw` by `mh`
/// cells: every pickup inside the window is marked at its cell, in
/// half-bright green (35, 122, 77) when it is a medkit and in gold
/// (250, 184, 74) when it is ammunition; and every pickup mark is such a
/// mark of some pickup inside the window.
proof fn lemma_layout_has_marks(view: MinimapView, width: int, height: int, sx: int, sy: int, mw: int, mh: int)
    requires
        (mw, mh) == window_size(width, height),
        (sx, sy) == window_origin(view.player, mw, mh),
    ensures
        forall|d: (int, int, Rgb)|
            #[trigger] pickup_marks(view.pickups@, sx, sy, mw, mh).contains(d) ==> minimap_layout(
                view,
                width,
                height,
            ).contains(d),
{
    let g = grid_dots(sx, sy, mw, mh, mh + 2);
    let marks = pickup_marks(view.pickups@, sx, sy, mw, mh);
    let layout = minimap_layout(view, width, height);
    let rest = enemy_dots(view.enemies@, sx, sy, mw, mh) + (if !is_wall(view.facing.0 as int, view.facing.1 as int) && view.facing_visible {
        mark(sx, sy, mw, mh, view.facing.0 as int, view.facing.1 as int, white())
    } else {
        seq![]
    }) + mark(sx, sy, mw, mh, view.player.0 as int, view.player.1 as int, green());
    assert(layout =~= g + marks + rest);
    assert forall|d: (int, int, Rgb)| #[trigger] marks.contains(d) implies layout.contains(d) by {
        let i = choose|i: int| 0 <= i < marks.len() && marks[i] == d;
        assert(layout[g.len() + i] == marks[i]);
    }
}

pub proof fn lemma_pickup_colors(view: MinimapView, width: int, height: int, sx: int, sy: int, mw: int, mh: int)
    requires
        (mw, mh) == window_size(width, height),
        (sx, sy) == window_origin(view.player, mw, mh),
    ensures
        forall|j: int|
            0 <= j < view.pickups@.len() && sx <= #[trigger] view.pickups@[j].0.0 < sx + mw && sy
                <= view.pickups@[j].0.1 < sy + mh ==> minimap_layout(view, width, height).contains(
                (
                    2 + view.pickups@[j].0.0 - sx,
                    2 + view.pickups@[j].0.1 - sy,
                    if view.pickups@[j].1 == PickupKind::Medkit {
                        Rgb(35, 122, 77)
                    } else {
                        Rgb(250, 184, 74)
                    },
                ),
            ),
        forall|i: int|
            0 <= i < pickup_marks(view.pickups@, sx, sy, mw, mh).len() ==> marks_pickup(
                view.pickups@,
                sx,
                sy,
                mw,
                mh,
                #[trigger] pickup_marks(view.pickups@, sx, sy, mw, mh)[i],
            ),
{
    lemma_pickup_dots(view.pickups@, sx, sy, mw, mh);
    lemma_layout_has_marks(view, width, height, sx, sy, mw, mh);
    assert forall|j: int|
        0 <= j < view.pickups@.len() && sx <= #[trigger] view.pickups@[j].0.0 < sx + mw && sy
            <= view.pickups@[j].0.1 < sy + mh implies minimap_layout(view, width, height).contains(
        pickup_dot(view.pickups@[j], sx, sy),
    ) by {
        assert(pickup_marks(view.pickups@, sx, sy, mw, mh).contains(pickup_dot(view.pickups@[j], sx, sy)));
    }
}

} // verus!
