//! Where the enemies of a new wave appear.
use vstd::prelude::*;
use crate::game::{FINAL_WAVE, Kind, kind_in_wave, spec_wave_size, wave_kind, wave_size};
use crate::world::{
    CELLS, HEIGHT, WIDTH, UNREACHED, Rng, cell_index, dist, in_grid, is_floor, is_route_field,
    lemma_arena_connected, xorshift,
};

verus! {

/// The cell with index `c`, row by row.
pub open spec fn cell_of(c: int) -> (int, int) {
    (c % WIDTH as int, c / WIDTH as int)
}

/// Two cells are apart when their centres lie more than 1.2 cells apart,
/// which for whole cells means a squared distance of at least 2: neither
/// the same cell nor side by side.
pub open spec fn apart(a: (int, int), b: (int, int)) -> bool {
    (a.0 - b.0) * (a.0 - b.0) + (a.1 - b.1) * (a.1 - b.1) >= 2
}

/// Whether the cell with index `c` may take the next enemy: the field
/// reaches it, it is far enough from the player (`far`), and it is apart
/// from every cell already `taken`.
pub open spec fn spawnable(field: Seq<u16>, far: Seq<bool>, taken: Seq<(int, int)>, c: int) -> bool {
    &&& field[c] != UNREACHED
    &&& far[c]
    &&& forall|j: int| 0 <= j < taken.len() ==> apart(#[trigger] taken[j], cell_of(c))
}

/// The indices below `n` of the cells that may take the next enemy, in
/// increasing order.
pub open spec fn candidates(field: Seq<u16>, far: Seq<bool>, taken: Seq<(int, int)>, n: int) -> Seq<int>
    decreases n,
{
    if n <= 0 {
        seq![]
    } else {
        candidates(field, far, taken, n - 1) + if spawnable(field, far, taken, n - 1) {
            seq![n - 1]
        } else {
            seq![]
        }
    }
}

/// The cells of `placed`.
pub open spec fn placed_cells(placed: Seq<((i32, i32), Kind)>) -> Seq<(int, int)> {
    placed.map_values(|p: ((i32, i32), Kind)| (p.0.0 as int, p.0.1 as int))
}

/// The enemies placed for the first `i` slots of wave `wave`, and the
/// generator state after: each slot takes a candidate cell picked by the
/// generator, and is skipped, without drawing, when none is left.
pub open spec fn spawned(field: Seq<u16>, far: Seq<bool>, state: u64, wave: u8, i: nat) -> (Seq<((i32, i32), Kind)>, u64)
    decreases i,
{
    if i == 0 {
        (seq![], state)
    } else {
        let (prev, s) = spawned(field, far, state, wave, (i - 1) as nat);
        let cands = candidates(field, far, placed_cells(prev), CELLS as int);
        if cands.len() == 0 {
            (prev, s)
        } else {
            let next = xorshift(s);
            let c = cands[(next as int) % (cands.len() as int)];
            (prev.push((((c % WIDTH as int) as i32, (c / WIDTH as int) as i32), kind_in_wave(wave, i - 1))), next)
        }
    }
}

proof fn lemma_candidates(field: Seq<u16>, far: Seq<bool>, taken: Seq<(int, int)>, n: int)
    requires
        0 <= n <= field.len(),
        n <= far.len(),
    ensures
        candidates(field, far, taken, n).len() <= n,
        forall|k: int|
            0 <= k < candidates(field, far, taken, n).len() ==> {
                let c = #[trigger] candidates(field, far, taken, n)[k];
                0 <= c < n && spawnable(field, far, taken, c)
            },
        forall|c: int| 0 <= c < n && spawnable(field, far, taken, c) ==> candidates(field, far, taken, n).contains(c),
    decreases n,
{
    if n > 0 {
        lemma_candidates(field, far, taken, n - 1);
        let prev = candidates(field, far, taken, n - 1);
        let cur = candidates(field, far, taken, n);
        assert forall|c: int| 0 <= c < n && spawnable(field, far, taken, c) implies cur.contains(c) by {
            if c < n - 1 {
                let k = choose|k: int| 0 <= k < prev.len() && prev[k] == c;
                assert(cur[k] == c);
            } else {
                assert(cur[prev.len() as int] == c);
            }
        }
    }
}

/// The indices of the cells that may take the next enemy, in increasing
/// order.
fn candidate_cells(field: &Vec<u16>, far: &Vec<bool>, placed: &Vec<((i32, i32), Kind)>) -> (r: Vec<usize>)
    requires
        field@.len() == CELLS,
        far@.len() == CELLS,
        forall|k: int| 0 <= k < placed@.len() ==> in_grid(#[trigger] placed@[k].0.0 as int, placed@[k].0.1 as int),
    ensures
        r@.len() == candidates(field@, far@, placed_cells(placed@), CELLS as int).len(),
        forall|k: int|
            0 <= k < r@.len() ==> #[trigger] r@[k] as int == candidates(field@, far@, placed_cells(placed@), CELLS as int)[k],
{
    let ghost taken = placed_cells(placed@);
    let mut out: Vec<usize> = Vec::new();
    let mut c: usize = 0;
    while c < CELLS
        invariant
            field@.len() == CELLS,
            far@.len() == CELLS,
            taken == placed_cells(placed@),
            forall|k: int| 0 <= k < placed@.len() ==> in_grid(#[trigger] placed@[k].0.0 as int, placed@[k].0.1 as int),
            c <= CELLS,
            out@.len() == candidates(field@, far@, taken, c as int).len(),
            forall|k: int| 0 <= k < out@.len() ==> #[trigger] out@[k] as int == candidates(field@, far@, taken, c as int)[k],
        decreases CELLS - c,
    {
        let x = (c % WIDTH) as i32;
        let y = (c / WIDTH) as i32;
        let mut ok = field[c] != UNREACHED && far[c];
        let mut j: usize = 0;
        while ok && j < placed.len()
            invariant
                forall|k: int| 0 <= k < placed@.len() ==> in_grid(#[trigger] placed@[k].0.0 as int, placed@[k].0.1 as int),
                taken == placed_cells(placed@),
                c < CELLS,
                x == (c as int) % (WIDTH as int),
                y == (c as int) / (WIDTH as int),
                j <= placed@.len(),
                ok == (field@[c as int] != UNREACHED && far@[c as int] && forall|k: int| 0 <= k < j ==> apart(#[trigger] taken[k], cell_of(c as int))),
            decreases placed.len() - j,
        {
            let (p, _) = placed[j];
            assert(in_grid(placed@[j as int].0.0 as int, placed@[j as int].0.1 as int));
            let dx = p.0 - x;
            let dy = p.1 - y;
            assert(-20 <= dx <= 20 && -20 <= dy <= 20);
            assert(0 <= dx * dx <= 400 && 0 <= dy * dy <= 400) by (nonlinear_arith)
                requires
                    -20 <= dx <= 20,
                    -20 <= dy <= 20,
            ;
            assert(taken[j as int] == (p.0 as int, p.1 as int));
            if dx * dx + dy * dy < 2 {
                ok = false;
            }
            j = j + 1;
        }
        proof {
            assert(ok == spawnable(field@, far@, taken, c as int));
        }
        if ok {
            out.push(c);
        }
        c = c + 1;
    }
    out
}

/// The enemies of wave `wave`: for each of its slots in turn, the kind
/// of that slot on a cell that the generator picks among those the field
/// `field` reaches, that are far enough from the player (`far`, by cell
/// index) and apart from the cells already taken; a slot is skipped when
/// no such cell is left.
pub fn spawn_wave(field: &Vec<u16>, far: &Vec<bool>, rng: &mut Rng, wave: u8) -> (r: Vec<((i32, i32), Kind)>)
    requires
        field@.len() == CELLS,
        far@.len() == CELLS,
    ensures
        (r@, final(rng).state()) == spawned(field@, far@, old(rng).state(), wave, spec_wave_size(wave)),
{
    let count = wave_size(wave);
    let mut placed: Vec<((i32, i32), Kind)> = Vec::new();
    let mut i: usize = 0;
    while i < count
        invariant
            field@.len() == CELLS,
            far@.len() == CELLS,
            count == spec_wave_size(wave),
            i <= count,
            (placed@, rng.state()) == spawned(field@, far@, old(rng).state(), wave, i as nat),
            forall|k: int| 0 <= k < placed@.len() ==> in_grid(#[trigger] placed@[k].0.0 as int, placed@[k].0.1 as int),
        decreases count - i,
    {
        let kind = wave_kind(wave, i);
        let cands = candidate_cells(field, far, &placed);
        proof {
            lemma_candidates(field@, far@, placed_cells(placed@), CELLS as int);
        }
        if cands.len() > 0 {
            let k = rng.index(cands.len());
            let c = cands[k];
            assert(0 <= c < CELLS);
            placed.push((((c % WIDTH) as i32, (c / WIDTH) as i32), kind));
        }
        i = i + 1;
    }
    placed
}

/// Every enemy of a wave stands on a cell of the grid that the field
/// reaches and that is far enough from the player; no two enemies stand
/// on the same cell or on neighbouring cells, diagonals included; and a
/// wave places at most one enemy per slot.
pub proof fn lemma_spawns_are_safe(field: Seq<u16>, far: Seq<bool>, state: u64, wave: u8, i: nat)
    requires
        field.len() == CELLS,
        far.len() == CELLS,
    ensures
        ({
            let placed = spawned(field, far, state, wave, i).0;
            &&& placed.len() <= i
            &&& forall|k: int|
                0 <= k < placed.len() ==> {
                    let (x, y) = (#[trigger] placed[k].0.0 as int, placed[k].0.1 as int);
                    in_grid(x, y) && dist(field, x, y) != UNREACHED && far[cell_index(x, y)]
                }
            &&& forall|j: int, k: int|
                0 <= j < k < placed.len() ==> {
                    let dx = #[trigger] placed[j].0.0 - #[trigger] placed[k].0.0;
                    let dy = placed[j].0.1 - placed[k].0.1;
                    dx * dx + dy * dy >= 2
                }
        }),
    decreases i,
{
    if i > 0 {
        lemma_spawns_are_safe(field, far, state, wave, (i - 1) as nat);
        let (prev, s) = spawned(field, far, state, wave, (i - 1) as nat);
        let taken = placed_cells(prev);
        let cands = candidates(field, far, taken, CELLS as int);
        lemma_candidates(field, far, taken, CELLS as int);
        if cands.len() > 0 {
            let next = xorshift(s);
            let c = cands[(next as int) % (cands.len() as int)];
            assert(0 <= c < CELLS && spawnable(field, far, taken, c));
            let placed = spawned(field, far, state, wave, i).0;
            let n = prev.len() as int;
            assert(placed[n].0 == ((c % WIDTH as int) as i32, (c / WIDTH as int) as i32));
            assert(cell_index(c % WIDTH as int, c / WIDTH as int) == c);
            assert forall|j: int, k: int|
                0 <= j < k < placed.len() implies {
                    let dx = #[trigger] placed[j].0.0 - #[trigger] placed[k].0.0;
                    let dy = placed[j].0.1 - placed[k].0.1;
                    dx * dx + dy * dy >= 2
                } by {
                if k == n {
                    assert(taken[j] == (prev[j].0.0 as int, prev[j].0.1 as int));
                    assert(apart(taken[j], cell_of(c)));
                } else {
                    assert(placed[j] == prev[j] && placed[k] == prev[k]);
                }
            }
            assert forall|k: int| 0 <= k < placed.len() implies {
                let (x, y) = (#[trigger] placed[k].0.0 as int, placed[k].0.1 as int);
                in_grid(x, y) && dist(field, x, y) != UNREACHED && far[cell_index(x, y)]
            } by {
                if k < n {
                    assert(placed[k] == prev[k]);
                }
            }
        }
    }
}

/// How many cells may take the first enemy of a wave: those the field
/// reaches that are far enough from the player.
pub open spec fn open_cells(field: Seq<u16>, far: Seq<bool>) -> int {
    candidates(field, far, seq![], CELLS as int).len() as int
}

/// How many of the cells with index below `n` are not apart from `t`.
spec fn near_count(t: (int, int), n: int) -> int
    decreases n,
{
    if n <= 0 {
        0
    } else {
        near_count(t, n - 1) + if !apart(t, cell_of(n - 1)) { 1int } else { 0int }
    }
}

spec fn below(i: int, n: int) -> int {
    if 0 <= i < n { 1 } else { 0 }
}

/// How many of the indices of `t` and its four side neighbours lie below
/// `n` (at most five).
spec fn sides_below(t: (int, int), n: int) -> int {
    let w = WIDTH as int;
    below(t.1 * w + t.0, n) + below(t.1 * w + t.0 - 1, n) + below(t.1 * w + t.0 + 1, n) + below(
        (t.1 - 1) * w + t.0,
        n,
    ) + below((t.1 + 1) * w + t.0, n)
}

proof fn lemma_close_cells(dx: int, dy: int)
    requires
        dx * dx + dy * dy < 2,
    ensures
        (dx == 0 && dy == 0) || (dx == 1 && dy == 0) || (dx == -1 && dy == 0) || (dx == 0 && dy
            == 1) || (dx == 0 && dy == -1),
{
    assert(-1 <= dx <= 1 && -1 <= dy <= 1 && (dx == 0 || dy == 0)) by (nonlinear_arith)
        requires
            dx * dx + dy * dy < 2,
    ;
}

/// At most five cells are not apart from a cell: itself and its four
/// side neighbours.
proof fn lemma_near_count(t: (int, int), n: int)
    requires
        0 <= n,
    ensures
        near_count(t, n) <= sides_below(t, n),
        sides_below(t, n) <= 5,
    decreases n,
{
    if n > 0 {
        lemma_near_count(t, n - 1);
        let c = n - 1;
        if !apart(t, cell_of(c)) {
            let (x, y) = cell_of(c);
            assert(c == y * WIDTH + x);
            lemma_close_cells(t.0 - x, t.1 - y);
        }
    }
}

/// Taking cell `t` as well removes from the candidates at most the cells
/// that are not apart from it.
proof fn lemma_candidates_push(field: Seq<u16>, far: Seq<bool>, taken: Seq<(int, int)>, t: (int, int), n: int)
    requires
        0 <= n <= field.len(),
        n <= far.len(),
    ensures
        candidates(field, far, taken.push(t), n).len() + near_count(t, n) >= candidates(
            field,
            far,
            taken,
            n,
        ).len(),
    decreases n,
{
    if n > 0 {
        lemma_candidates_push(field, far, taken, t, n - 1);
        let c = n - 1;
        let more = taken.push(t);
        if spawnable(field, far, taken, c) && apart(t, cell_of(c)) {
            assert forall|j: int| 0 <= j < more.len() implies apart(#[trigger] more[j], cell_of(c)) by {
                if j < taken.len() {
                    assert(more[j] == taken[j]);
                }
            }
            assert(spawnable(field, far, more, c));
        }
    }
}

/// Each cell taken removes at most five candidates.
proof fn lemma_candidates_left(field: Seq<u16>, far: Seq<bool>, taken: Seq<(int, int)>)
    requires
        field.len() == CELLS,
        far.len() == CELLS,
    ensures
        candidates(field, far, taken, CELLS as int).len() >= open_cells(field, far) - 5 * taken.len(),
    decreases taken.len(),
{
    if taken.len() == 0 {
        assert(taken =~= seq![]);
    } else {
        let rest = taken.drop_last();
        lemma_candidates_left(field, far, rest);
        assert(rest.push(taken.last()) =~= taken);
        lemma_candidates_push(field, far, rest, taken.last(), CELLS as int);
        lemma_near_count(taken.last(), CELLS as int);
    }
}

proof fn lemma_slots_filled(field: Seq<u16>, far: Seq<bool>, state: u64, wave: u8, i: nat)
    requires
        field.len() == CELLS,
        far.len() == CELLS,
        i == 0 || open_cells(field, far) > 5 * (i - 1),
    ensures
        spawned(field, far, state, wave, i).0.len() == i,
    decreases i,
{
    if i > 0 {
        lemma_slots_filled(field, far, state, wave, (i - 1) as nat);
        let (prev, s) = spawned(field, far, state, wave, (i - 1) as nat);
        lemma_candidates_left(field, far, placed_cells(prev));
    }
}

/// Every slot of a wave takes an enemy when more cells are open at its
/// start than five for each slot but the last: each enemy placed rules out
/// at most its own cell and its four side neighbours.
pub proof fn lemma_every_slot_filled(field: Seq<u16>, far: Seq<bool>, state: u64, wave: u8)
    requires
        field.len() == CELLS,
        far.len() == CELLS,
        open_cells(field, far) > 5 * (spec_wave_size(wave) - 1),
    ensures
        spawned(field, far, state, wave, spec_wave_size(wave)).0.len() == spec_wave_size(wave),
{
    lemma_slots_filled(field, far, state, wave, spec_wave_size(wave));
}

/// Cell index `c` lies in columns `r.0 ..= r.1` and rows `r.2 ..= r.3`.
spec fn in_rect(c: int, r: (int, int, int, int)) -> bool {
    let (x, y) = cell_of(c);
    r.0 <= x <= r.1 && r.2 <= y <= r.3
}

/// How many cell indices below `n` lie in rectangle `r`.
spec fn rect_count(r: (int, int, int, int), n: int) -> int
    decreases n,
{
    if n <= 0 {
        0
    } else {
        rect_count(r, n - 1) + if in_rect(n - 1, r) { 1int } else { 0int }
    }
}

/// How many of the columns `r.0 ..= r.1` lie below `k`.
spec fn columns_below(r: (int, int, int, int), k: int) -> int {
    let hi = if r.1 + 1 < k { r.1 + 1 } else { k };
    if hi > r.0 { hi - r.0 } else { 0 }
}

proof fn lemma_rect_row(r: (int, int, int, int), y: int, k: int)
    requires
        0 <= y < HEIGHT,
        0 <= k <= WIDTH,
        0 <= r.0,
    ensures
        rect_count(r, y * WIDTH + k) == rect_count(r, y * WIDTH) + if r.2 <= y <= r.3 {
            columns_below(r, k)
        } else {
            0
        },
    decreases k,
{
    if k > 0 {
        lemma_rect_row(r, y, k - 1);
        vstd::arithmetic::div_mod::lemma_fundamental_div_mod_converse(y * WIDTH + k - 1, WIDTH as int, y, k - 1);
    }
}

proof fn lemma_rect_rows(r: (int, int, int, int), y: int)
    requires
        0 <= y <= HEIGHT,
        0 <= r.0 <= r.1 < WIDTH,
        0 <= r.2 <= r.3,
    ensures
        rect_count(r, y * WIDTH) == (r.1 - r.0 + 1) * (if y <= r.2 { 0 } else if y <= r.3 + 1 { y - r.2 } else { r.3 - r.2 + 1 }),
    decreases y,
{
    if y > 0 {
        lemma_rect_rows(r, y - 1);
        lemma_rect_row(r, y - 1, WIDTH as int);
        let w = r.1 - r.0 + 1;
        let a = if y - 1 <= r.2 { 0 } else if y - 1 <= r.3 + 1 { y - 1 - r.2 } else { r.3 - r.2 + 1 };
        let b = if y <= r.2 { 0 } else if y <= r.3 + 1 { y - r.2 } else { r.3 - r.2 + 1 };
        assert(w * b == w * a + if r.2 <= y - 1 <= r.3 { w } else { 0 }) by (nonlinear_arith)
            requires
                b == a + if r.2 <= y - 1 <= r.3 { 1int } else { 0int },
        ;
        assert((y - 1) * WIDTH + WIDTH == y * WIDTH);
    }
}

/// Candidates include every cell of two disjoint rectangles whose cells
/// may all take an enemy.
proof fn lemma_candidates_cover(
    field: Seq<u16>,
    far: Seq<bool>,
    a: (int, int, int, int),
    b: (int, int, int, int),
    n: int,
)
    requires
        0 <= n <= CELLS,
        field.len() == CELLS,
        far.len() == CELLS,
        forall|c: int|
            0 <= c < CELLS && (in_rect(c, a) || in_rect(c, b)) ==> spawnable(field, far, seq![], c),
        forall|c: int| 0 <= c < CELLS ==> !(in_rect(c, a) && in_rect(c, b)),
    ensures
        candidates(field, far, seq![], n).len() >= rect_count(a, n) + rect_count(b, n),
    decreases n,
{
    if n > 0 {
        lemma_candidates_cover(field, far, a, b, n - 1);
    }
}

/// The mask `far` marks every floor cell six or more columns or rows away
/// from the player's cell `(px, py)`. A mask of the cells whose centres lie
/// at least five cells from a position inside the player's cell does: such
/// a centre is at least five and a half cells away along one axis.
pub open spec fn far_beyond_six(far: Seq<bool>, px: int, py: int) -> bool {
    forall|c: int|
        0 <= c < CELLS && is_floor(#[trigger] cell_of(c).0, cell_of(c).1) && (cell_of(c).0 - px >= 6
            || px - cell_of(c).0 >= 6 || cell_of(c).1 - py >= 6 || py - cell_of(c).1 >= 6) ==> far[c]
}

/// Every wave of a run fills every slot: for a player on a floor cell,
/// the navigation field towards it, and a mask that marks the cells six
/// or more columns or rows away as far, at least 65 cells are open, more
/// than the 60 that the twelve enemies placed before the last slot of the
/// final wave can rule out.
pub proof fn lemma_waves_fill(field: Seq<u16>, far: Seq<bool>, px: int, py: int, state: u64, wave: u8)
    requires
        field.len() == CELLS,
        far.len() == CELLS,
        is_floor(px, py),
        is_route_field(field, px, py),
        far_beyond_six(far, px, py),
        1 <= wave <= FINAL_WAVE,
    ensures
        spawned(field, far, state, wave, spec_wave_size(wave)).0.len() == spec_wave_size(wave),
{
    lemma_arena_connected(field, px, py);
    let band: (int, int) = if py <= 7 { (13, 13) } else { (1, 1) };
    let (a, b): ((int, int, int, int), (int, int, int, int)) = if px <= 8 {
        ((14, 17, 1, 13), (1, 13, band.0, band.1))
    } else if px == 9 {
        ((1, 3, 1, 13), (15, 17, 1, 13))
    } else {
        ((1, 4, 1, 13), (5, 17, band.0, band.1))
    };
    assert forall|c: int|
        0 <= c < CELLS && (in_rect(c, a) || in_rect(c, b)) implies spawnable(field, far, seq![], c) by {
        let (x, y) = cell_of(c);
        assert(is_floor(x, y));
        assert(c == cell_index(x, y));
        assert(dist(field, x, y) != UNREACHED);
    }
    lemma_candidates_cover(field, far, a, b, CELLS as int);
    lemma_rect_rows(a, HEIGHT as int);
    lemma_rect_rows(b, HEIGHT as int);
    assert(HEIGHT * WIDTH == CELLS);
    let wa = a.1 - a.0 + 1;
    let ha = a.3 - a.2 + 1;
    let wb = b.1 - b.0 + 1;
    let hb = b.3 - b.2 + 1;
    assert(rect_count(a, CELLS as int) == wa * ha);
    assert(rect_count(b, CELLS as int) == wb * hb);
    assert(wa * ha + wb * hb >= 65) by (nonlinear_arith)
        requires
            (wa == 4 && ha == 13 && wb == 13 && hb == 1) || (wa == 3 && ha == 13 && wb == 3 && hb
                == 13),
    ;
    assert(open_cells(field, far) >= 65);
    lemma_slots_filled(field, far, state, wave, spec_wave_size(wave));
}

/// Wave composition: when the first `i` slots of a wave all took an
/// enemy, the enemy placed `k`-th is a brute from the third wave on when
/// `k` is a multiple of five; otherwise a runner from the second wave on
/// when `k` is a multiple of three; otherwise a grunt.
pub proof fn lemma_wave_composition(field: Seq<u16>, far: Seq<bool>, state: u64, wave: u8, i: nat)
    requires
        field.len() == CELLS,
        far.len() == CELLS,
        spawned(field, far, state, wave, i).0.len() == i,
    ensures
        forall|k: int|
            0 <= k < i ==> #[trigger] spawned(field, far, state, wave, i).0[k].1 == (if wave >= 3 && k % 5 == 0 {
                Kind::Brute
            } else if wave >= 2 && k % 3 == 0 {
                Kind::Runner
            } else {
                Kind::Grunt
            }),
    decreases i,
{
    if i > 0 {
        lemma_spawns_are_safe(field, far, state, wave, (i - 1) as nat);
        let (prev, s) = spawned(field, far, state, wave, (i - 1) as nat);
        let cands = candidates(field, far, placed_cells(prev), CELLS as int);
        assert(cands.len() > 0);
        lemma_wave_composition(field, far, state, wave, (i - 1) as nat);
        let placed = spawned(field, far, state, wave, i).0;
        assert forall|k: int| 0 <= k < i implies #[trigger] placed[k].1 == (if wave >= 3 && k % 5 == 0 {
                Kind::Brute
            } else if wave >= 2 && k % 3 == 0 {
                Kind::Runner
            } else {
                Kind::Grunt
            }) by {
            if k < i - 1 {
                assert(placed[k] == prev[k]);
            }
        }
    }
}

/// Every wave of a run, in the arena, places one enemy per slot with the
/// kind of its slot: wave 1 is all grunts, wave 2 brings runners on every
/// third slot, and from wave 3 every fifth slot holds a brute.
pub proof fn lemma_run_composition(field: Seq<u16>, far: Seq<bool>, px: int, py: int, state: u64, wave: u8)
    requires
        field.len() == CELLS,
        far.len() == CELLS,
        is_floor(px, py),
        is_route_field(field, px, py),
        far_beyond_six(far, px, py),
        1 <= wave <= FINAL_WAVE,
    ensures
        spawned(field, far, state, wave, spec_wave_size(wave)).0.len() == spec_wave_size(wave),
        forall|k: int|
            0 <= k < spec_wave_size(wave) ==> #[trigger] spawned(field, far, state, wave, spec_wave_size(wave)).0[k].1
                == (if wave >= 3 && k % 5 == 0 {
                Kind::Brute
            } else if wave >= 2 && k % 3 == 0 {
                Kind::Runner
            } else {
                Kind::Grunt
            }),
{
    lemma_waves_fill(field, far, px, py, state, wave);
    lemma_wave_composition(field, far, state, wave, spec_wave_size(wave));
}

} // verus!
