//! The arena grid: which cells are walls, the breadth-first navigation
//! field towards a target cell, and the xorshift generator used for spawns.
use vstd::prelude::*;

verus! {

/// Number of columns of the arena.
pub const WIDTH: usize = 19;
/// Number of rows of the arena.
pub const HEIGHT: usize = 15;
/// Number of cells of the arena.
pub const CELLS: usize = 285;

/// The arena, row by row (`#` is a wall, `.` is floor):
///
/// ```text
/// ###################
/// #.................#
/// #.................#
/// #....##....##.....#
/// #....##....##.....#
/// #.................#
/// #.................#
/// #.................#
/// #.................#
/// #....##....##.....#
/// #....##....##.....#
/// #.................#
/// #.................#
/// #.................#
/// ###################
/// ```
///
/// Everything outside the grid counts as wall.
pub open spec fn is_wall(x: int, y: int) -> bool {
    ||| x < 0 || y < 0 || x >= WIDTH || y >= HEIGHT
    ||| x == 0 || y == 0 || x == WIDTH - 1 || y == HEIGHT - 1
    ||| (x == 5 || x == 6 || x == 11 || x == 12) && (y == 3 || y == 4 || y == 9 || y == 10)
}

/// Whether cell `(x, y)` blocks movement and sight.
pub fn wall(x: i32, y: i32) -> (r: bool)
    ensures
        r == is_wall(x as int, y as int),
{
    x < 0 || y < 0 || x >= WIDTH as i32 || y >= HEIGHT as i32 || x == 0 || y == 0
        || x == WIDTH as i32 - 1 || y == HEIGHT as i32 - 1
        || ((x == 5 || x == 6 || x == 11 || x == 12) && (y == 3 || y == 4 || y == 9 || y == 10))
}

} // verus!

verus! {

/// One step of the 64-bit xorshift generator (shifts 13, 7, 17).
pub open spec fn xorshift(s: u64) -> u64 {
    let a = s ^ (s << 13u64);
    let b = a ^ (a >> 7u64);
    b ^ (b << 17u64)
}

/// Each xorshift step is a bijection that fixes zero, so a nonzero state
/// never becomes zero.
pub proof fn lemma_xorshift_nonzero(s: u64)
    requires
        s != 0,
    ensures
        xorshift(s) != 0,
{
    let a = s ^ (s << 13u64);
    let b = a ^ (a >> 7u64);
    assert(s != 0 ==> s ^ (s << 13u64) != 0) by (bit_vector);
    assert(a != 0 ==> a ^ (a >> 7u64) != 0) by (bit_vector);
    assert(b != 0 ==> b ^ (b << 17u64) != 0) by (bit_vector);
}

/// Deterministic xorshift generator; its state is never zero.
#[derive(Debug)]
pub struct Rng {
    state: u64,
}

impl Clone for Rng {
    fn clone(&self) -> (r: Self)
        ensures
            r.state() == self.state(),
    {
        proof {
            use_type_invariant(self);
        }
        Rng { state: self.state }
    }
}

impl Rng {
    /// The current state of the generator.
    pub closed spec fn state(self) -> u64 {
        self.state
    }

    #[verifier::type_invariant]
    spec fn nonzero(self) -> bool {
        self.state != 0
    }

    /// A generator seeded with `seed`; seed 0 is replaced by 1.
    pub fn new(seed: u64) -> (r: Self)
        ensures
            r.state() == (if seed == 0 { 1 } else { seed }),
    {
        Rng { state: if seed == 0 { 1 } else { seed } }
    }

    /// Advances the state by one xorshift step and returns the new state.
    pub fn next_u64(&mut self) -> (r: u64)
        ensures
            r == xorshift(old(self).state()),
            final(self).state() == r,
            r != 0,
    {
        proof {
            use_type_invariant(&*self);
            lemma_xorshift_nonzero(self.state);
        }
        let mut s = self.state;
        s = s ^ (s << 13u64);
        s = s ^ (s >> 7u64);
        s = s ^ (s << 17u64);
        self.state = s;
        s
    }

    /// Advances the generator and reduces its output to an index below
    /// `length`.
    pub fn index(&mut self, length: usize) -> (r: usize)
        requires
            length > 0,
        ensures
            r as nat == xorshift(old(self).state()) as nat % (length as nat),
            r < length,
            final(self).state() == xorshift(old(self).state()),
    {
        let v = self.next_u64();
        let l = length as u64;
        let r = v % l;
        r as usize
    }
}

} // verus!

verus! {

/// Field value of a cell that cannot be reached.
pub const UNREACHED: u16 = 65535;

/// Whether `(x, y)` lies on the grid.
pub open spec fn in_grid(x: int, y: int) -> bool {
    0 <= x < WIDTH && 0 <= y < HEIGHT
}

/// Whether `(x, y)` is a floor cell of the grid.
pub open spec fn is_floor(x: int, y: int) -> bool {
    in_grid(x, y) && !is_wall(x, y)
}

/// Position of cell `(x, y)` in a row-by-row field.
pub open spec fn cell_index(x: int, y: int) -> int {
    y * WIDTH + x
}

/// The value of `field` at cell `(x, y)`.
pub open spec fn dist(field: Seq<u16>, x: int, y: int) -> int {
    field[cell_index(x, y)] as int
}

/// Moving from `(x, y)` to the neighbour `(nx, ny)` keeps to the field:
/// a floor neighbour is reached, at most one step further.
pub open spec fn step_ok(field: Seq<u16>, x: int, y: int, nx: int, ny: int) -> bool {
    is_floor(nx, ny) ==> dist(field, nx, ny) != UNREACHED && dist(field, nx, ny) <= dist(
        field,
        x,
        y,
    ) + 1
}

/// All four neighbours of `(x, y)` keep to the field.
pub open spec fn settled(field: Seq<u16>, x: int, y: int) -> bool {
    &&& step_ok(field, x, y, x - 1, y)
    &&& step_ok(field, x, y, x + 1, y)
    &&& step_ok(field, x, y, x, y - 1)
    &&& step_ok(field, x, y, x, y + 1)
}

/// `(nx, ny)` is a floor cell one step closer than `(x, y)`.
pub open spec fn parent_at(field: Seq<u16>, x: int, y: int, nx: int, ny: int) -> bool {
    is_floor(nx, ny) && dist(field, nx, ny) + 1 == dist(field, x, y)
}

/// Some neighbour of `(x, y)` is one step closer.
pub open spec fn has_parent(field: Seq<u16>, x: int, y: int) -> bool {
    ||| parent_at(field, x, y, x - 1, y)
    ||| parent_at(field, x, y, x + 1, y)
    ||| parent_at(field, x, y, x, y - 1)
    ||| parent_at(field, x, y, x, y + 1)
}

/// `field` is the breadth-first distance field towards floor cell
/// `(tx, ty)`: the target is at 0, walls and cells cut off from the target
/// are `UNREACHED`, every reached cell has all its floor neighbours reached
/// at most one step further, and every reached cell other than the target
/// has a neighbour one step closer.
#[verifier::opaque]
pub open spec fn is_route_field(field: Seq<u16>, tx: int, ty: int) -> bool {
    &&& field.len() == CELLS
    &&& dist(field, tx, ty) == 0
    &&& forall|x: int, y: int|
        in_grid(x, y) && is_wall(x, y) ==> #[trigger] dist(field, x, y) == UNREACHED
    &&& forall|x: int, y: int|
        is_floor(x, y) && #[trigger] dist(field, x, y) != UNREACHED ==> settled(field, x, y)
    &&& forall|x: int, y: int|
        is_floor(x, y) && #[trigger] dist(field, x, y) != UNREACHED && (x, y) != (tx, ty)
            ==> has_parent(field, x, y)
}

/// Index of cell `(x, y)` in a field.
fn index_of(x: i32, y: i32) -> (r: usize)
    requires
        in_grid(x as int, y as int),
    ensures
        r == cell_index(x as int, y as int),
        r < CELLS,
{
    (y as usize) * WIDTH + x as usize
}

proof fn lemma_index_injective(x1: int, y1: int, x2: int, y2: int)
    requires
        in_grid(x1, y1),
        in_grid(x2, y2),
        cell_index(x1, y1) == cell_index(x2, y2),
    ensures
        x1 == x2 && y1 == y2,
{
}

/// Distinct cells of the grid number at most `CELLS`.
proof fn lemma_distinct_cells_bound(q: Seq<(i32, i32)>)
    requires
        forall|k: int| 0 <= k < q.len() ==> in_grid(#[trigger] q[k].0 as int, q[k].1 as int),
        forall|j: int, k: int| 0 <= j < k < q.len() ==> #[trigger] q[j] != #[trigger] q[k],
    ensures
        q.len() <= CELLS,
{
    let qi = Seq::new(q.len(), |k: int| cell_index(q[k].0 as int, q[k].1 as int));
    assert forall|j: int, k: int| 0 <= j < qi.len() && 0 <= k < qi.len() && j != k implies qi[j]
        != qi[k] by {
        if qi[j] == qi[k] {
            lemma_index_injective(q[j].0 as int, q[j].1 as int, q[k].0 as int, q[k].1 as int);
            if j < k {
                assert(q[j] != q[k]);
            } else {
                assert(q[k] != q[j]);
            }
        }
    }
    assert(qi.no_duplicates());
    qi.unique_seq_to_set();
    let range = vstd::set_lib::set_int_range(0, CELLS as int);
    vstd::set_lib::lemma_int_range(0, CELLS as int);
    assert forall|i: int| qi.to_set().contains(i) implies range.contains(i) by {
        let k = choose|k: int| 0 <= k < qi.len() && qi[k] == i;
        assert(in_grid(q[k].0 as int, q[k].1 as int));
    }
    vstd::set_lib::lemma_len_subset(qi.to_set(), range);
}

} // verus!

verus! {

/// Invariant of the breadth-first search towards `(tx, ty)`: the queue
/// `q` holds distinct floor cells in order of distance, spanning at most
/// one step from the cell at `head` on; every reached cell is queued; the
/// cells before `head` are settled; and every reached cell but the target
/// has a parent.
spec fn searching(f: Seq<u16>, q: Seq<(i32, i32)>, head: int, tx: int, ty: int) -> bool {
    &&& f.len() == CELLS
    &&& is_floor(tx, ty)
    &&& 0 <= head <= q.len() <= CELLS
    &&& q.len() > 0
    &&& q[0].0 == tx && q[0].1 == ty
    &&& dist(f, tx, ty) == 0
    &&& forall|k: int|
        0 <= k < q.len() ==> is_floor(#[trigger] q[k].0 as int, q[k].1 as int) && dist(
            f,
            q[k].0 as int,
            q[k].1 as int,
        ) <= k
    &&& forall|j: int, k: int|
        0 <= j <= k < q.len() ==> dist(f, #[trigger] q[j].0 as int, q[j].1 as int) <= dist(
            f,
            #[trigger] q[k].0 as int,
            q[k].1 as int,
        )
    &&& head < q.len() ==> dist(f, q[q.len() - 1].0 as int, q[q.len() - 1].1 as int) <= dist(
        f,
        q[head].0 as int,
        q[head].1 as int,
    ) + 1
    &&& forall|x: int, y: int|
        in_grid(x, y) && #[trigger] dist(f, x, y) != UNREACHED ==> is_floor(x, y) && exists|k: int|
            0 <= k < q.len() && #[trigger] q[k].0 == x && q[k].1 == y
    &&& forall|x: int, y: int|
        is_floor(x, y) && #[trigger] dist(f, x, y) != UNREACHED && (x, y) != (tx, ty)
            ==> has_parent(f, x, y)
    &&& forall|j: int, k: int| 0 <= j < k < q.len() ==> #[trigger] q[j] != #[trigger] q[k]
    &&& forall|k: int| 0 <= k < head ==> settled(f, #[trigger] q[k].0 as int, q[k].1 as int)
}

/// Reached cells keep their distance from `f0` to `f1`.
spec fn keeps_reached(f0: Seq<u16>, f1: Seq<u16>) -> bool {
    &&& f1.len() == f0.len()
    &&& forall|x: int, y: int|
        in_grid(x, y) && #[trigger] dist(f0, x, y) != UNREACHED ==> dist(f1, x, y) == dist(
            f0,
            x,
            y,
        )
}

/// Reaches neighbour `(nx, ny)` of the cell at `head`, when it is floor
/// and not reached yet, at distance `next`, and queues it.
#[verifier::rlimit(40)]
fn visit(
    f: &mut Vec<u16>,
    q: &mut Vec<(i32, i32)>,
    nx: i32,
    ny: i32,
    next: u16,
    Ghost(head): Ghost<int>,
    Ghost(tx): Ghost<int>,
    Ghost(ty): Ghost<int>,
)
    requires
        searching(old(f)@, old(q)@, head, tx, ty),
        head < old(q)@.len(),
        next == dist(old(f)@, old(q)@[head].0 as int, old(q)@[head].1 as int) + 1,
        ({
            let (cx, cy) = (old(q)@[head].0 as int, old(q)@[head].1 as int);
            ||| nx == cx - 1 && ny == cy
            ||| nx == cx + 1 && ny == cy
            ||| nx == cx && ny == cy - 1
            ||| nx == cx && ny == cy + 1
        }),
    ensures
        searching(final(f)@, final(q)@, head, tx, ty),
        keeps_reached(old(f)@, final(f)@),
        final(q)@.len() >= old(q)@.len(),
        forall|k: int| 0 <= k < old(q)@.len() ==> #[trigger] final(q)@[k] == old(q)@[k],
        step_ok(final(f)@, old(q)@[head].0 as int, old(q)@[head].1 as int, nx as int, ny as int),
{
    if wall(nx, ny) {
        return;
    }
    let i = index_of(nx, ny);
    if f[i] == UNREACHED {
        let ghost f0 = f@;
        let ghost q0 = q@;
        let ghost (cx, cy) = (q0[head].0 as int, q0[head].1 as int);
        f.set(i, next);
        q.push((nx, ny));
        proof {
            let n = q0.len() as int;
            assert forall|x: int, y: int| in_grid(x, y) && #[trigger] dist(f0, x, y) != UNREACHED implies dist(f@, x, y) == dist(f0, x, y) by {
                if x != nx || y != ny {
                    if cell_index(x, y) == i {
                        lemma_index_injective(x, y, nx as int, ny as int);
                    }
                }
            }
            assert(q@[n] == (nx, ny));
            assert forall|j: int, k: int| 0 <= j < k < q@.len() implies #[trigger] q@[j] != #[trigger] q@[k] by {
                if k == n {
                    assert(q@[j] == q0[j]);
                    assert(dist(f0, q0[j].0 as int, q0[j].1 as int) != UNREACHED);
                }
            }
            assert forall|k: int| 0 <= k < q@.len() implies in_grid(#[trigger] q@[k].0 as int, q@[k].1 as int) by {
            }
            lemma_distinct_cells_bound(q@);
            assert forall|x: int, y: int|
                in_grid(x, y) && #[trigger] dist(f@, x, y) != UNREACHED implies is_floor(x, y) && exists|k: int|
                    0 <= k < q@.len() && #[trigger] q@[k].0 == x && q@[k].1 == y by {
                if x == nx && y == ny {
                    assert(q@[n].0 == x && q@[n].1 == y);
                } else {
                    if cell_index(x, y) == i {
                        lemma_index_injective(x, y, nx as int, ny as int);
                    }
                    assert(dist(f0, x, y) != UNREACHED);
                    let k = choose|k: int| 0 <= k < q0.len() && #[trigger] q0[k].0 == x && q0[k].1 == y;
                    assert(q@[k] == q0[k]);
                }
            }
            assert forall|x: int, y: int|
                is_floor(x, y) && #[trigger] dist(f@, x, y) != UNREACHED && (x, y) != (tx, ty)
                    implies has_parent(f@, x, y) by {
                if x == nx && y == ny {
                    assert(parent_at(f@, x, y, cx, cy));
                } else {
                    if cell_index(x, y) == i {
                        lemma_index_injective(x, y, nx as int, ny as int);
                    }
                    assert(has_parent(f0, x, y));
                    if parent_at(f0, x, y, x - 1, y) {
                        assert(parent_at(f@, x, y, x - 1, y));
                    } else if parent_at(f0, x, y, x + 1, y) {
                        assert(parent_at(f@, x, y, x + 1, y));
                    } else if parent_at(f0, x, y, x, y - 1) {
                        assert(parent_at(f@, x, y, x, y - 1));
                    } else {
                        assert(parent_at(f@, x, y, x, y + 1));
                    }
                }
            }
            assert forall|k: int| 0 <= k < head implies settled(f@, #[trigger] q@[k].0 as int, q@[k].1 as int) by {
                assert(q@[k] == q0[k]);
                let (a, b) = (q0[k].0 as int, q0[k].1 as int);
                assert(settled(f0, a, b));
                assert(step_ok(f@, a, b, a - 1, b));
                assert(step_ok(f@, a, b, a + 1, b));
                assert(step_ok(f@, a, b, a, b - 1));
                assert(step_ok(f@, a, b, a, b + 1));
            }
            assert forall|j: int, k: int|
                0 <= j <= k < q@.len() implies dist(f@, #[trigger] q@[j].0 as int, q@[j].1 as int) <= dist(
                    f@,
                    #[trigger] q@[k].0 as int,
                    q@[k].1 as int,
                ) by {
                if k == n {
                    if j < n {
                        assert(q@[j] == q0[j]);
                    }
                } else {
                    assert(q@[j] == q0[j]);
                    assert(q@[k] == q0[k]);
                }
            }
            assert forall|k: int| 0 <= k < q@.len() implies is_floor(#[trigger] q@[k].0 as int, q@[k].1 as int) && dist(
                f@,
                q@[k].0 as int,
                q@[k].1 as int,
            ) <= k by {
                if k < n {
                    assert(q@[k] == q0[k]);
                }
            }
        }
    }
}

} // verus!

verus! {

/// Breadth-first distances, in steps between edge-adjacent floor cells,
/// from every cell to the target cell `(x, y)`; `UNREACHED` for walls and
/// for every cell when the target itself is a wall.
pub fn routes(x: i32, y: i32) -> (r: Vec<u16>)
    ensures
        r@.len() == CELLS,
        is_wall(x as int, y as int) ==> forall|i: int| 0 <= i < CELLS ==> r@[i] == UNREACHED,
        !is_wall(x as int, y as int) ==> is_route_field(r@, x as int, y as int),
{
    let mut f: Vec<u16> = Vec::new();
    let mut k: usize = 0;
    while k < CELLS
        invariant
            k <= CELLS,
            f@.len() == k,
            forall|i: int| 0 <= i < k ==> f@[i] == UNREACHED,
        decreases CELLS - k,
    {
        f.push(UNREACHED);
        k = k + 1;
    }
    if wall(x, y) {
        return f;
    }
    let mut q: Vec<(i32, i32)> = Vec::new();
    q.push((x, y));
    let t = index_of(x, y);
    f.set(t, 0);
    let ghost (tx, ty) = (x as int, y as int);
    proof {
        assert forall|a: int, b: int| in_grid(a, b) && #[trigger] dist(f@, a, b) != UNREACHED implies is_floor(a, b) && exists|k: int|
            0 <= k < q@.len() && #[trigger] q@[k].0 == a && q@[k].1 == b by {
            if cell_index(a, b) != t {
                assert(f@[cell_index(a, b)] == UNREACHED);
            } else {
                lemma_index_injective(a, b, tx, ty);
                assert(q@[0].0 == a && q@[0].1 == b);
            }
        }
        assert forall|a: int, b: int|
            is_floor(a, b) && #[trigger] dist(f@, a, b) != UNREACHED && (a, b) != (tx, ty) implies has_parent(f@, a, b) by {
            if cell_index(a, b) == t {
                lemma_index_injective(a, b, tx, ty);
            }
        }
    }
    let mut head: usize = 0;
    while head < q.len()
        invariant
            searching(f@, q@, head as int, tx, ty),
            tx == x,
            ty == y,
        decreases CELLS - head,
    {
        let (cx, cy) = q[head];
        let ghost f0 = f@;
        let ghost q0 = q@;
        let next = f[index_of(cx, cy)] + 1;
        visit(&mut f, &mut q, cx - 1, cy, next, Ghost(head as int), Ghost(tx), Ghost(ty));
        let ghost f1 = f@;
        visit(&mut f, &mut q, cx + 1, cy, next, Ghost(head as int), Ghost(tx), Ghost(ty));
        let ghost f2 = f@;
        visit(&mut f, &mut q, cx, cy - 1, next, Ghost(head as int), Ghost(tx), Ghost(ty));
        let ghost f3 = f@;
        visit(&mut f, &mut q, cx, cy + 1, next, Ghost(head as int), Ghost(tx), Ghost(ty));
        proof {
            let (a, b) = (cx as int, cy as int);
            assert(q@[head as int] == q0[head as int]);
            assert(dist(f@, a, b) == dist(f0, a, b));
            assert(step_ok(f@, a, b, a - 1, b));
            assert(step_ok(f@, a, b, a + 1, b));
            assert(step_ok(f@, a, b, a, b - 1));
            assert(step_ok(f@, a, b, a, b + 1));
            assert forall|k: int| 0 <= k < head + 1 implies settled(f@, #[trigger] q@[k].0 as int, q@[k].1 as int) by {
                if k == head {
                } else {
                }
            }
            if head + 1 < q@.len() {
                assert(dist(f@, q@[head + 1].0 as int, q@[head + 1].1 as int) >= dist(f@, a, b));
            }
        }
        head = head + 1;
    }
    proof {
        assert forall|a: int, b: int|
            is_floor(a, b) && #[trigger] dist(f@, a, b) != UNREACHED implies settled(f@, a, b) by {
            let k = choose|k: int| 0 <= k < q@.len() && #[trigger] q@[k].0 == a && q@[k].1 == b;
            assert(settled(f@, q@[k].0 as int, q@[k].1 as int));
        }
        reveal(is_route_field);
    }
    f
}

proof fn lemma_target_at_zero(f: Seq<u16>, tx: int, ty: int)
    requires
        is_route_field(f, tx, ty),
    ensures
        dist(f, tx, ty) == 0,
{
    reveal(is_route_field);
}

proof fn lemma_field_facts(f: Seq<u16>, tx: int, ty: int, x: int, y: int)
    requires
        is_route_field(f, tx, ty),
        is_floor(x, y),
        dist(f, x, y) != UNREACHED,
    ensures
        settled(f, x, y),
        (x, y) != (tx, ty) ==> has_parent(f, x, y),
        dist(f, tx, ty) == 0,
{
    reveal(is_route_field);
}

} // verus!

verus! {

/// Row `y` has no pillar: all its inner cells are floor.
pub open spec fn open_row(y: int) -> bool {
    y == 1 || y == 2 || (5 <= y <= 8) || (11 <= y <= 13)
}

/// Column `x` has no pillar: all its inner cells are floor.
pub open spec fn open_column(x: int) -> bool {
    (1 <= x <= 4) || (7 <= x <= 10) || (13 <= x <= 17)
}

proof fn lemma_row_right(f: Seq<u16>, tx: int, ty: int, y: int, a: int, b: int)
    requires
        is_route_field(f, tx, ty),
        a <= b,
        forall|x: int| a <= x <= b ==> #[trigger] is_floor(x, y),
        dist(f, a, y) != UNREACHED,
    ensures
        forall|x: int| a <= x <= b ==> #[trigger] dist(f, x, y) != UNREACHED,
    decreases b - a,
{
    if a < b {
        lemma_field_facts(f, tx, ty, a, y);
        assert(is_floor(a + 1, y));
        lemma_row_right(f, tx, ty, y, a + 1, b);
    }
}

proof fn lemma_row_left(f: Seq<u16>, tx: int, ty: int, y: int, a: int, b: int)
    requires
        is_route_field(f, tx, ty),
        a <= b,
        forall|x: int| a <= x <= b ==> #[trigger] is_floor(x, y),
        dist(f, b, y) != UNREACHED,
    ensures
        forall|x: int| a <= x <= b ==> #[trigger] dist(f, x, y) != UNREACHED,
    decreases b - a,
{
    if a < b {
        lemma_field_facts(f, tx, ty, b, y);
        assert(is_floor(b - 1, y));
        lemma_row_left(f, tx, ty, y, a, b - 1);
    }
}

proof fn lemma_column_down(f: Seq<u16>, tx: int, ty: int, x: int, a: int, b: int)
    requires
        is_route_field(f, tx, ty),
        a <= b,
        forall|y: int| a <= y <= b ==> #[trigger] is_floor(x, y),
        dist(f, x, a) != UNREACHED,
    ensures
        forall|y: int| a <= y <= b ==> #[trigger] dist(f, x, y) != UNREACHED,
    decreases b - a,
{
    if a < b {
        lemma_field_facts(f, tx, ty, x, a);
        assert(is_floor(x, a + 1));
        lemma_column_down(f, tx, ty, x, a + 1, b);
    }
}

proof fn lemma_column_up(f: Seq<u16>, tx: int, ty: int, x: int, a: int, b: int)
    requires
        is_route_field(f, tx, ty),
        a <= b,
        forall|y: int| a <= y <= b ==> #[trigger] is_floor(x, y),
        dist(f, x, b) != UNREACHED,
    ensures
        forall|y: int| a <= y <= b ==> #[trigger] dist(f, x, y) != UNREACHED,
    decreases b - a,
{
    if a < b {
        lemma_field_facts(f, tx, ty, x, b);
        assert(is_floor(x, b - 1));
        lemma_column_up(f, tx, ty, x, a, b - 1);
    }
}

/// A whole inner row or column that holds one reached cell is reached.
proof fn lemma_line_reached(f: Seq<u16>, tx: int, ty: int, x: int, y: int, along_row: bool)
    requires
        is_route_field(f, tx, ty),
        along_row ==> open_row(y) && 1 <= x <= 17,
        !along_row ==> open_column(x) && 1 <= y <= 13,
        dist(f, x, y) != UNREACHED,
    ensures
        along_row ==> forall|z: int| 1 <= z <= 17 ==> #[trigger] dist(f, z, y) != UNREACHED,
        !along_row ==> forall|z: int| 1 <= z <= 13 ==> #[trigger] dist(f, x, z) != UNREACHED,
{
    if along_row {
        assert forall|z: int| 1 <= z <= 17 implies #[trigger] is_floor(z, y) by {}
        lemma_row_right(f, tx, ty, y, x, 17);
        lemma_row_left(f, tx, ty, y, 1, x);
    } else {
        assert forall|z: int| 1 <= z <= 13 implies #[trigger] is_floor(x, z) by {}
        lemma_column_down(f, tx, ty, x, y, 13);
        lemma_column_up(f, tx, ty, x, 1, y);
    }
}

/// The arena is connected: the field towards any floor cell reaches
/// every floor cell.
pub proof fn lemma_arena_connected(f: Seq<u16>, tx: int, ty: int)
    requires
        is_route_field(f, tx, ty),
        is_floor(tx, ty),
    ensures
        forall|x: int, y: int| is_floor(x, y) ==> #[trigger] dist(f, x, y) != UNREACHED,
{
    lemma_target_at_zero(f, tx, ty);
    // One whole open row is reached: the target's, or the first row.
    let y0 = if open_row(ty) { ty } else { 1 };
    if open_row(ty) {
        lemma_line_reached(f, tx, ty, tx, ty, true);
    } else {
        lemma_line_reached(f, tx, ty, tx, ty, false);
        assert(dist(f, tx, 1) != UNREACHED);
        lemma_line_reached(f, tx, ty, tx, 1, true);
    }
    assert(dist(f, 1, y0) != UNREACHED);
    // Then the first column, then every open row and every open column.
    lemma_line_reached(f, tx, ty, 1, y0, false);
    assert(dist(f, 1, 1) != UNREACHED);
    lemma_line_reached(f, tx, ty, 1, 1, true);
    assert forall|x: int, y: int| is_floor(x, y) implies #[trigger] dist(f, x, y) != UNREACHED by {
        if open_row(y) {
            assert(dist(f, 1, y) != UNREACHED);
            lemma_line_reached(f, tx, ty, 1, y, true);
        } else {
            assert(dist(f, x, 1) != UNREACHED);
            lemma_line_reached(f, tx, ty, x, 1, false);
        }
    }
}

} // verus!

verus! {

/// Cells `a` and `b` share an edge.
pub open spec fn adjacent(a: (int, int), b: (int, int)) -> bool {
    ||| a.0 == b.0 && (a.1 == b.1 + 1 || a.1 + 1 == b.1)
    ||| a.1 == b.1 && (a.0 == b.0 + 1 || a.0 + 1 == b.0)
}

/// A walk over floor cells, each step to an edge-adjacent cell.
pub open spec fn is_walk(p: Seq<(int, int)>) -> bool {
    &&& p.len() >= 1
    &&& forall|k: int| 0 <= k < p.len() ==> is_floor(#[trigger] p[k].0, p[k].1)
    &&& forall|k: int| 0 <= k < p.len() - 1 ==> adjacent(#[trigger] p[k], p[k + 1])
}

/// No walk from the target is shorter than the field says: the end of any
/// walk from the target is reached, at a distance no larger than the
/// walk's number of steps.
pub proof fn lemma_walks_bound_distance(f: Seq<u16>, tx: int, ty: int, p: Seq<(int, int)>)
    requires
        is_route_field(f, tx, ty),
        is_walk(p),
        p[0] == (tx, ty),
    ensures
        dist(f, p.last().0, p.last().1) != UNREACHED,
        dist(f, p.last().0, p.last().1) <= p.len() - 1,
    decreases p.len(),
{
    if p.len() == 1 {
        lemma_target_at_zero(f, tx, ty);
    } else {
        let q = p.drop_last();
        assert forall|k: int| 0 <= k < q.len() implies is_floor(#[trigger] q[k].0, q[k].1) by {
            assert(q[k] == p[k]);
        }
        assert forall|k: int| 0 <= k < q.len() - 1 implies adjacent(#[trigger] q[k], q[k + 1]) by {
            assert(q[k] == p[k]);
            assert(q[k + 1] == p[k + 1]);
        }
        lemma_walks_bound_distance(f, tx, ty, q);
        let a = q.last();
        let b = p.last();
        assert(a == p[p.len() - 2]);
        assert(adjacent(p[p.len() - 2], p[p.len() - 1]));
        assert(is_floor(a.0, a.1));
        assert(is_floor(b.0, b.1));
        lemma_field_facts(f, tx, ty, a.0, a.1);
    }
}

/// Every distance is the length of an actual walk: a reached floor cell
/// is the end of a walk from the target with exactly that many steps.
pub proof fn lemma_distance_is_walked(f: Seq<u16>, tx: int, ty: int, x: int, y: int)
    requires
        is_route_field(f, tx, ty),
        is_floor(x, y),
        dist(f, x, y) != UNREACHED,
    ensures
        exists|p: Seq<(int, int)>|
            is_walk(p) && p[0] == (tx, ty) && p.last() == (x, y) && p.len() == dist(f, x, y) + 1,
    decreases dist(f, x, y),
{
    if (x, y) == (tx, ty) {
        lemma_target_at_zero(f, tx, ty);
        let p = seq![(tx, ty)];
        assert(is_walk(p) && p[0] == (tx, ty) && p.last() == (x, y) && p.len() == dist(f, x, y) + 1);
    } else {
        lemma_field_facts(f, tx, ty, x, y);
        let n = if parent_at(f, x, y, x - 1, y) {
            (x - 1, y)
        } else if parent_at(f, x, y, x + 1, y) {
            (x + 1, y)
        } else if parent_at(f, x, y, x, y - 1) {
            (x, y - 1)
        } else {
            (x, y + 1)
        };
        assert(parent_at(f, x, y, n.0, n.1));
        lemma_distance_is_walked(f, tx, ty, n.0, n.1);
        let p0 = choose|p: Seq<(int, int)>|
            is_walk(p) && p[0] == (tx, ty) && p.last() == n && p.len() == dist(f, n.0, n.1) + 1;
        let p = p0.push((x, y));
        assert forall|k: int| 0 <= k < p.len() implies is_floor(#[trigger] p[k].0, p[k].1) by {
            if k < p0.len() {
                assert(p[k] == p0[k]);
            }
        }
        assert forall|k: int| 0 <= k < p.len() - 1 implies adjacent(#[trigger] p[k], p[k + 1]) by {
            assert(p[k] == p0[k]);
            if k + 1 < p0.len() {
                assert(p[k + 1] == p0[k + 1]);
            } else {
                assert(p[k] == n);
            }
        }
        assert(is_walk(p) && p[0] == (tx, ty) && p.last() == (x, y) && p.len() == dist(f, x, y) + 1);
    }
}

} // verus!

verus! {

/// The `d`-th neighbour of `(x, y)`, in the order left, right, up, down.
pub open spec fn neighbour(x: int, y: int, d: int) -> (int, int) {
    if d == 0 {
        (x - 1, y)
    } else if d == 1 {
        (x + 1, y)
    } else if d == 2 {
        (x, y - 1)
    } else {
        (x, y + 1)
    }
}

/// The `d`-th neighbour of `(x, y)` is a floor cell strictly closer than
/// `(x, y)` in `field`.
pub open spec fn is_descent(field: Seq<u16>, x: int, y: int, d: int) -> bool {
    let n = neighbour(x, y, d);
    0 <= d < 4 && is_floor(n.0, n.1) && dist(field, n.0, n.1) < dist(field, x, y)
}

/// Direction `d` is the first of the closest descents from `(x, y)`.
pub open spec fn is_best_descent(field: Seq<u16>, x: int, y: int, d: int) -> bool {
    let n = neighbour(x, y, d);
    &&& is_descent(field, x, y, d)
    &&& forall|e: int|
        #![trigger is_descent(field, x, y, e)]
        is_descent(field, x, y, e) ==> dist(field, n.0, n.1) <= dist(
            field,
            neighbour(x, y, e).0,
            neighbour(x, y, e).1,
        ) && (e < d ==> dist(field, n.0, n.1) < dist(
            field,
            neighbour(x, y, e).0,
            neighbour(x, y, e).1,
        ))
}

/// The neighbour to move to from floor cell `(x, y)` down the distance
/// `field`: the closest floor neighbour that is strictly closer than the
/// cell itself, the first in the order left, right, up, down on a tie.
/// `None` on a wall or where no neighbour is closer.
pub fn next_step(x: i32, y: i32, field: &Vec<u16>) -> (r: Option<(i32, i32)>)
    requires
        field@.len() == CELLS,
    ensures
        r is None <==> (is_wall(x as int, y as int) || forall|d: int|
            #![trigger is_descent(field@, x as int, y as int, d)]
            !is_descent(field@, x as int, y as int, d)),
        r matches Some(n) ==> exists|d: int|
            is_best_descent(field@, x as int, y as int, d) && neighbour(x as int, y as int, d) == (
            n.0 as int,
            n.1 as int,
        ),
{
    if wall(x, y) {
        return None;
    }
    let current = field[index_of(x, y)];
    let mut best: Option<(i32, i32)> = None;
    let mut best_value: u16 = 0;
    let ghost mut best_d: int = 0;
    let mut d: usize = 0;
    while d < 4
        invariant
            field@.len() == CELLS,
            is_floor(x as int, y as int),
            current == dist(field@, x as int, y as int),
            d <= 4,
            best is None <==> forall|e: int|
                #![trigger is_descent(field@, x as int, y as int, e)]
                0 <= e < d ==> !is_descent(field@, x as int, y as int, e),
            best matches Some(n) ==> {
                &&& 0 <= best_d < d
                &&& is_descent(field@, x as int, y as int, best_d)
                &&& neighbour(x as int, y as int, best_d) == (n.0 as int, n.1 as int)
                &&& best_value == dist(field@, n.0 as int, n.1 as int)
                &&& forall|e: int|
                    #![trigger is_descent(field@, x as int, y as int, e)]
                    0 <= e < d && is_descent(field@, x as int, y as int, e) ==> best_value <= dist(
                        field@,
                        neighbour(x as int, y as int, e).0,
                        neighbour(x as int, y as int, e).1,
                    ) && (e < best_d ==> best_value < dist(
                        field@,
                        neighbour(x as int, y as int, e).0,
                        neighbour(x as int, y as int, e).1,
                    ))
            },
        decreases 4 - d,
    {
        let (nx, ny) = if d == 0 {
            (x - 1, y)
        } else if d == 1 {
            (x + 1, y)
        } else if d == 2 {
            (x, y - 1)
        } else {
            (x, y + 1)
        };
        assert(neighbour(x as int, y as int, d as int) == (nx as int, ny as int));
        let ghost prev_best = best;
        if wall(nx, ny) {
            assert(!is_descent(field@, x as int, y as int, d as int));
        } else {
            let value = field[index_of(nx, ny)];
            assert(value == dist(field@, nx as int, ny as int));
            assert(is_descent(field@, x as int, y as int, d as int) == (value < current));
            if value < current {
                let better = match best {
                    None => true,
                    Some(_) => value < best_value,
                };
                if better {
                    best = Some((nx, ny));
                    best_value = value;
                    proof {
                        best_d = d as int;
                    }
                }
            }
        }
        proof {
            if best is None {
                assert(prev_best is None);
                assert(!is_descent(field@, x as int, y as int, d as int));
                assert forall|e: int| 0 <= e < d + 1 implies !is_descent(field@, x as int, y as int, e) by {
                    if e < d {
                    }
                }
            } else if prev_best is None {
                assert(is_descent(field@, x as int, y as int, d as int));
            }
        }
        d = d + 1;
    }
    best
}

/// Following the steps of a distance field leads to its target: from
/// every reached floor cell other than the target there is a step, and
/// each step is to a cell exactly one closer.
pub proof fn lemma_steps_descend(f: Seq<u16>, tx: int, ty: int, x: int, y: int, d: int)
    requires
        is_route_field(f, tx, ty),
        is_floor(x, y),
        dist(f, x, y) != UNREACHED,
        (x, y) != (tx, ty),
    ensures
        exists|e: int| #[trigger] is_descent(f, x, y, e),
        is_best_descent(f, x, y, d) ==> dist(f, neighbour(x, y, d).0, neighbour(x, y, d).1) == dist(
            f,
            x,
            y,
        ) - 1,
{
    lemma_field_facts(f, tx, ty, x, y);
    let p = if parent_at(f, x, y, x - 1, y) {
        0int
    } else if parent_at(f, x, y, x + 1, y) {
        1int
    } else if parent_at(f, x, y, x, y - 1) {
        2int
    } else {
        3int
    };
    assert(is_descent(f, x, y, p));
    if is_best_descent(f, x, y, d) {
        let n = neighbour(x, y, d);
        lemma_field_facts(f, tx, ty, n.0, n.1);
        assert(settled(f, n.0, n.1));
    }
}

} // verus!

verus! {

/// The glyph of cell `(x, y)` of the arena: `#` for a wall, `.` for floor.
pub open spec fn map_glyph(x: int, y: int) -> char {
    if is_wall(x, y) { '#' } else { '.' }
}

/// Row `y` of the arena as text.
pub open spec fn row_text(y: int) -> Seq<char> {
    Seq::new(WIDTH as nat, |x: int| map_glyph(x, y))
}

/// Row `y` of the arena as text: `#` for walls, `.` for floor.
pub fn map_row(y: usize) -> (r: String)
    requires
        y < HEIGHT,
    ensures
        r@ == row_text(y as int),
{
    let mut out = String::new();
    let mut x: usize = 0;
    while x < WIDTH
        invariant
            y < HEIGHT,
            x <= WIDTH,
            out@.len() == x,
            forall|k: int| 0 <= k < x ==> #[trigger] out@[k] == (if is_wall(k, y as int) { '#' } else { '.' }),
        decreases WIDTH - x,
    {
        crate::strings::push_char(&mut out, if wall(x as i32, y as i32) { '#' } else { '.' });
        x = x + 1;
    }
    assert(out@ =~= row_text(y as int));
    out
}

} // verus!
