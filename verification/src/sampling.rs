//! Poisson-disc sampling: points of a rectangle of the lattice, no two of
//! them closer than a radius, drawn from a seeded stream of random words.
//!
//! The sampler starts from one random point and keeps a list of active
//! points. It picks an active point at random and tries a number of
//! candidates in the ring between one and two radii around it; the first
//! candidate that lies in the rectangle and keeps the radius to every point
//! so far becomes a point and is active too. An active point around which
//! no candidate was found leaves the active list. The run ends when the
//! list is empty.

use vstd::prelude::*;
use vstd::arithmetic::div_mod::lemma_fundamental_div_mod;
use vstd::arithmetic::div_mod::lemma_fundamental_div_mod_converse;
use vstd::arithmetic::div_mod::lemma_mod_bound;
use crate::coords::UVec2;
use crate::hash::lemma_word_stream;
use crate::hash::next_pos;
use crate::hash::seeded_stream;
use crate::hash::stream_of;
use crate::hash::WordSource;
use crate::hash::WordStream;

verus! {

/// A word of the stream, scaled to the range from 0 up to, not including,
/// `n`: the word is read as the fraction that it is of 2^32.
pub open spec fn scaled(word: u32, n: int) -> int {
    (word as int * n) / 0x1_0000_0000
}

/// Squared distance between two points.
pub open spec fn dist2(ax: int, ay: int, bx: int, by: int) -> int {
    (ax - bx) * (ax - bx) + (ay - by) * (ay - by)
}

/// The step from a point to a candidate, from a word for the angle and a
/// distance. The two high bits of the word pick the quadrant; the sixteen
/// bits below them pick `t`, and the direction inside the quadrant is the
/// point `(1 - t^2, 2t) / (1 + t^2)` of the unit circle, for `t` taken as a
/// fraction of 65536. Each component of the step is rounded toward zero.
pub open spec fn offset(angle: u32, distance: int) -> (int, int) {
    let quadrant = angle as int / 0x4000_0000;
    let t = (angle as int % 0x4000_0000) / 0x4000;
    let along = distance * (0x1_0000_0000 - t * t) / (0x1_0000_0000 + t * t);
    let across = distance * (2 * t * 0x1_0000) / (0x1_0000_0000 + t * t);
    if quadrant == 0 {
        (along, across)
    } else if quadrant == 1 {
        (-across, along)
    } else if quadrant == 2 {
        (-along, -across)
    } else {
        (across, -along)
    }
}

/// The side of a cell of the grid that speeds up the search for near
/// points: the radius divided by the square root of two, rounded down, and
/// 1 at least.
pub open spec fn is_cell_size(cell: int, radius: int) -> bool {
    &&& cell >= 1
    &&& cell == 1 || 2 * cell * cell <= radius * radius
    &&& 2 * (cell + 1) * (cell + 1) > radius * radius
}

/// Scale a word of the stream to the range from 0 up to, not including, `n`.
pub fn scale_word(word: u32, n: u64) -> (r: u64)
    requires
        n >= 1,
    ensures
        r == scaled(word, n as int),
        r < n,
{
    proof {
        let w = word as int;
        let m = n as int;
        assert(0 <= w * m <= 0xffff_ffff * m) by (nonlinear_arith)
            requires
                0 <= w <= 0xffff_ffff,
                0 <= m,
        ;
    }
    let product: u128 = word as u128 * n as u128;
    (product / 0x1_0000_0000) as u64
}

/// The square of a number of 34 bits at most.
fn square(d: i128) -> (s: i128)
    requires
        -0x4_0000_0000 <= d <= 0x4_0000_0000,
    ensures
        s == d * d,
        0 <= s <= 0x10_0000_0000_0000_0000,
{
    proof {
        assert(0 <= d * d <= 0x10_0000_0000_0000_0000) by (nonlinear_arith)
            requires
                -0x4_0000_0000 <= d <= 0x4_0000_0000,
        ;
    }
    d * d
}

fn cell_size_of(radius: u32) -> (cell: u32)
    requires
        radius >= 1,
    ensures
        is_cell_size(cell as int, radius as int),
        cell <= radius,
{
    let r2: i128 = square(radius as i128);
    let mut lo: u32 = 1;
    let mut hi: u64 = radius as u64 + 1;
    proof {
        let r = radius as int;
        assert(2 * (r + 1) * (r + 1) > r * r) by (nonlinear_arith)
            requires
                r >= 1,
        ;
    }
    while hi - lo as u64 > 1
        invariant
            1 <= lo < hi <= radius + 1,
            r2 == radius * radius,
            lo == 1 || 2 * lo * lo <= radius * radius,
            2 * hi * hi > radius * radius,
        decreases hi - lo,
    {
        let mid: u64 = lo as u64 + (hi - lo as u64) / 2;
        let m2: i128 = square(mid as i128);
        proof {
            assert(2 * mid * mid == 2 * (mid * mid)) by (nonlinear_arith);
        }
        if 2 * m2 <= r2 {
            lo = mid as u32;
        } else {
            hi = mid;
        }
    }
    lo
}

/// The step from a point to a candidate, from a word for the angle and a
/// distance.
pub fn offset_of(angle: u32, distance: u64) -> (step: (i128, i128))
    requires
        distance <= 0x2_0000_0000,
    ensures
        step.0 == offset(angle, distance as int).0,
        step.1 == offset(angle, distance as int).1,
        -0x1_0000_0000_0000_0000_0000 <= step.0 <= 0x1_0000_0000_0000_0000_0000,
        -0x1_0000_0000_0000_0000_0000 <= step.1 <= 0x1_0000_0000_0000_0000_0000,
{
    let quadrant: u32 = angle / 0x4000_0000;
    let t: i128 = ((angle % 0x4000_0000) / 0x4000) as i128;
    let t2: i128 = square(t);
    let d: i128 = distance as i128;
    proof {
        assert(0 <= t * t <= 0xffff * 0xffff) by (nonlinear_arith)
            requires
                0 <= t <= 0xffff,
        ;
        assert(0 <= d * (0x1_0000_0000 - t * t) <= 0x2_0000_0000 * 0x1_0000_0000)
            by (nonlinear_arith)
            requires
                0 <= d <= 0x2_0000_0000,
                0 <= t * t <= 0xffff * 0xffff,
        ;
        assert(0 <= d * (2 * t * 0x1_0000) <= 0x2_0000_0000 * 0x2_0000_0000) by (nonlinear_arith)
            requires
                0 <= d <= 0x2_0000_0000,
                0 <= t <= 0xffff,
        ;
    }
    let den: i128 = 0x1_0000_0000 + t2;
    let along: i128 = d * (0x1_0000_0000 - t2) / den;
    let across: i128 = d * (2 * t * 0x1_0000) / den;
    if quadrant == 0 {
        (along, across)
    } else if quadrant == 1 {
        (-across, along)
    } else if quadrant == 2 {
        (-along, -across)
    } else {
        (across, -along)
    }
}


/// A Poisson-disc sampler: its seed, the least distance between two of its
/// points, the rectangle that it fills, and how many candidates it tries
/// around a point before it gives the point up.
#[derive(Clone, Copy, Debug, PartialEq, Eq, Structural)]
pub struct PoissonDiscSampler {
    /// The seed of the stream of random words.
    pub seed: u64,
    /// The least distance between any two points.
    pub radius: u32,
    /// The rectangle to fill: points have `x < size.x` and `y < size.y`.
    pub size: UVec2,
    /// The number of candidates to try around a point.
    pub k: u32,
}

/// How far a run of the sampler has come.
pub struct SamplerState {
    /// The points accepted so far, in the order in which they were accepted.
    pub samples: Seq<UVec2>,
    /// The points around which candidates are still tried.
    pub active: Seq<UVec2>,
    /// The position in the stream of the next word to read.
    pub pos: u64,
}

/// Whether every point lies in the rectangle of `size`.
pub open spec fn inside(samples: Seq<UVec2>, size: UVec2) -> bool {
    forall|i: int|
        0 <= i < samples.len() ==> (#[trigger] samples[i]).x < size.x && samples[i].y < size.y
}

/// Whether any two of the points are `radius` apart at least.
pub open spec fn separated(samples: Seq<UVec2>, radius: u32) -> bool {
    forall|i: int, j: int|
        0 <= i < samples.len() && 0 <= j < samples.len() && i != j ==> dist2(
            (#[trigger] samples[i]).x as int,
            samples[i].y as int,
            (#[trigger] samples[j]).x as int,
            samples[j].y as int,
        ) >= radius * radius
}

impl PoissonDiscSampler {
    /// Whether the point `(x, y)` can join `samples`: it lies in the
    /// rectangle, and no point of `samples` is closer to it than the radius.
    pub open spec fn admits(self, samples: Seq<UVec2>, x: int, y: int) -> bool {
        &&& 0 <= x < self.size.x
        &&& 0 <= y < self.size.y
        &&& forall|i: int|
            0 <= i < samples.len() ==> dist2(
                x,
                y,
                (#[trigger] samples[i]).x as int,
                samples[i].y as int,
            ) >= self.radius * self.radius
    }

    /// The candidate around `parent` that the words at `pos` and after it
    /// give: the first word is the angle, the second the distance, between
    /// one radius and two.
    pub open spec fn candidate(self, words: spec_fn(u64) -> u32, parent: UVec2, pos: u64) -> (
        int,
        int,
    ) {
        let angle = words(pos);
        let distance = self.radius + scaled(words(next_pos(pos)), self.radius + 1);
        let step = offset(angle, distance);
        (parent.x + step.0, parent.y + step.1)
    }

    /// The search around `parent`: the first of `tries` candidates that can
    /// join `samples`, if there is one, and the position in the stream after
    /// the search. Each candidate takes two words.
    pub open spec fn search(
        self,
        words: spec_fn(u64) -> u32,
        samples: Seq<UVec2>,
        parent: UVec2,
        tries: nat,
        pos: u64,
    ) -> (Option<UVec2>, u64)
        decreases tries,
    {
        if tries == 0 {
            (None, pos)
        } else {
            let c = self.candidate(words, parent, pos);
            let after = next_pos(next_pos(pos));
            if self.admits(samples, c.0, c.1) {
                (Some(UVec2 { x: c.0 as u32, y: c.1 as u32 }), after)
            } else {
                self.search(words, samples, parent, (tries - 1) as nat, after)
            }
        }
    }

    /// The start of a run that reads the stream from `start` on: one point,
    /// drawn from the first two words, which is active.
    pub open spec fn initial(self, words: spec_fn(u64) -> u32, start: u64) -> SamplerState {
        let first = UVec2 {
            x: scaled(words(start), self.size.x as int) as u32,
            y: scaled(words(next_pos(start)), self.size.y as int) as u32,
        };
        SamplerState { samples: seq![first], active: seq![first], pos: next_pos(next_pos(start)) }
    }

    /// One round of a run: a word picks an active point; the search around
    /// it either gives a new point, which is active from then on, or takes
    /// the point off the active list.
    pub open spec fn step(self, words: spec_fn(u64) -> u32, state: SamplerState) -> SamplerState {
        let index = scaled(words(state.pos), state.active.len() as int);
        let found = self.search(
            words,
            state.samples,
            state.active[index],
            self.k as nat,
            next_pos(state.pos),
        );
        match found.0 {
            Some(point) => SamplerState {
                samples: state.samples.push(point),
                active: state.active.push(point),
                pos: found.1,
            },
            None => SamplerState {
                samples: state.samples,
                active: state.active.remove(index),
                pos: found.1,
            },
        }
    }

    /// A run from `state` on: rounds until no point is active, `fuel`
    /// rounds at most.
    pub open spec fn run(self, words: spec_fn(u64) -> u32, state: SamplerState, fuel: nat) -> SamplerState
        decreases fuel,
    {
        if fuel == 0 || state.active.len() == 0 {
            state
        } else {
            self.run(words, self.step(words, state), (fuel - 1) as nat)
        }
    }

    /// The points that a run gives which reads the stream `words` from
    /// `start` on, in the order in which the run accepts them. The seed of
    /// the sampler plays no part. The run needs fewer rounds than twice the
    /// number of lattice points of the rectangle.
    pub open spec fn points_from(self, words: spec_fn(u64) -> u32, start: u64) -> Seq<UVec2> {
        self.run(
            words,
            self.initial(words, start),
            (2 * (self.size.x as int * self.size.y as int)) as nat,
        ).samples
    }

    /// The points of the sampler: those of the run that reads the stream
    /// of the sampler's seed from its start.
    pub open spec fn points(self) -> Seq<UVec2> {
        self.points_from(seeded_stream(self.seed), 0)
    }
}

/// The number of cells that cover `n` lattice points along one axis.
spec fn grid_side(n: int, cell: int) -> int {
    (n + cell - 1) / cell
}

/// What the grid holds for the cell in column `gx` of row `gy`.
spec fn cell_at(grid: Seq<Option<usize>>, width: int, gx: int, gy: int) -> Option<usize> {
    grid[gy * width + gx]
}

/// Whether the grid answers to the points: a cell holds the index of the
/// point that lies in it, and every point is held by its cell.
spec fn grid_ok(grid: Seq<Option<usize>>, samples: Seq<UVec2>, cell: int, width: int, height: int) -> bool {
    &&& grid.len() == width * height
    &&& samples.len() <= usize::MAX
    &&& forall|gx: int, gy: int|
        0 <= gx < width && 0 <= gy < height ==> (#[trigger] cell_at(grid, width, gx, gy)
            matches Some(s) ==> s < samples.len() && samples[s as int].x as int / cell == gx
            && samples[s as int].y as int / cell == gy)
    &&& forall|s: int|
        0 <= s < samples.len() ==> cell_at(
            grid,
            width,
            (#[trigger] samples[s]).x as int / cell,
            samples[s].y as int / cell,
        ) == Some(s as usize)
}

/// A lattice point lies in the cell that its coordinate divided by the
/// cell size names.
proof fn lemma_cell_bounds(x: int, cell: int)
    requires
        cell >= 1,
        x >= 0,
    ensures
        0 <= x / cell <= x,
        cell * (x / cell) <= x < cell * (x / cell) + cell,
{
    lemma_fundamental_div_mod(x, cell);
    lemma_mod_bound(x, cell);
    let q = x / cell;
    assert(0 <= q <= x) by (nonlinear_arith)
        requires
            x == cell * q + x % cell,
            0 <= x % cell < cell,
            cell >= 1,
            x >= 0,
    ;
}

/// The cell of a lattice point of the rectangle is a cell of the grid.
proof fn lemma_cell_in_grid(x: int, n: int, cell: int)
    requires
        cell >= 1,
        0 <= x < n,
    ensures
        0 <= x / cell < grid_side(n, cell),
        1 <= grid_side(n, cell) <= n,
{
    lemma_cell_bounds(x, cell);
    lemma_cell_bounds(n + cell - 1, cell);
    let q = x / cell;
    let g = (n + cell - 1) / cell;
    assert(q < g) by (nonlinear_arith)
        requires
            cell * q <= x,
            x < n,
            n + cell - 1 < cell * g + cell,
            cell >= 1,
    ;
    assert(g <= n) by (nonlinear_arith)
        requires
            cell * g <= n + cell - 1,
            cell >= 1,
            n >= 1,
            g >= 0,
    ;
}

/// A cell of the grid has an index in the grid, and no other cell has it.
proof fn lemma_cell_index(gx: int, gy: int, width: int, height: int)
    requires
        0 <= gx < width,
        0 <= gy < height,
    ensures
        0 <= gy * width + gx < width * height,
        (gy * width + gx) / width == gy,
        (gy * width + gx) % width == gx,
{
    assert(0 <= gy * width + gx < width * height) by (nonlinear_arith)
        requires
            0 <= gx < width,
            0 <= gy < height,
    ;
    lemma_fundamental_div_mod_converse(gy * width + gx, width, gy, gx);
}

/// Points whose cells lie three cells apart along an axis lie more than two
/// cell sizes apart.
proof fn lemma_far_cells(p: int, q: int, cell: int)
    requires
        cell >= 1,
        p >= 0,
        q >= 0,
        p / cell >= q / cell + 3,
    ensures
        p - q > 2 * cell,
{
    lemma_cell_bounds(p, cell);
    lemma_cell_bounds(q, cell);
    let a = p / cell;
    let b = q / cell;
    assert(cell * a >= cell * b + 3 * cell) by (nonlinear_arith)
        requires
            a >= b + 3,
            cell >= 1,
    ;
}

/// Two points of one cell are closer than the radius.
proof fn lemma_same_cell_close(ax: int, ay: int, bx: int, by: int, cell: int, radius: int)
    requires
        is_cell_size(cell, radius),
        radius >= 1,
        ax >= 0,
        ay >= 0,
        bx >= 0,
        by >= 0,
        ax / cell == bx / cell,
        ay / cell == by / cell,
    ensures
        dist2(ax, ay, bx, by) < radius * radius,
{
    lemma_cell_bounds(ax, cell);
    lemma_cell_bounds(ay, cell);
    lemma_cell_bounds(bx, cell);
    lemma_cell_bounds(by, cell);
    let dx = ax - bx;
    let dy = ay - by;
    assert(-cell < dx < cell);
    assert(-cell < dy < cell);
    assert(dx * dx + dy * dy < radius * radius) by (nonlinear_arith)
        requires
            -cell < dx < cell,
            -cell < dy < cell,
            cell >= 1,
            radius >= 1,
            cell == 1 || 2 * cell * cell <= radius * radius,
    ;
}

/// Points that lie more than two cell sizes apart along an axis are the
/// radius apart at least.
proof fn lemma_far_apart(d: int, e: int, cell: int, radius: int)
    requires
        is_cell_size(cell, radius),
        radius >= 1,
        d > 2 * cell || d < -2 * cell,
    ensures
        d * d + e * e >= radius * radius,
{
    assert(d * d + e * e >= radius * radius) by (nonlinear_arith)
        requires
            d > 2 * cell || d < -2 * cell,
            cell >= 1,
            radius >= 1,
            2 * (cell + 1) * (cell + 1) > radius * radius,
    ;
}


/// The number of empty cells of a grid.
spec fn free_cells(grid: Seq<Option<usize>>) -> nat
    decreases grid.len(),
{
    if grid.len() == 0 {
        0
    } else {
        free_cells(grid.drop_last()) + if grid.last() is None {
            1nat
        } else {
            0nat
        }
    }
}

/// A grid has no more empty cells than cells.
proof fn lemma_free_bound(grid: Seq<Option<usize>>)
    ensures
        free_cells(grid) <= grid.len(),
    decreases grid.len(),
{
    if grid.len() > 0 {
        lemma_free_bound(grid.drop_last());
    }
}

/// Filling an empty cell leaves one empty cell less.
proof fn lemma_fill(grid: Seq<Option<usize>>, index: int, value: usize)
    requires
        0 <= index < grid.len(),
        grid[index] is None,
    ensures
        free_cells(grid.update(index, Some(value))) + 1 == free_cells(grid),
    decreases grid.len(),
{
    let filled = grid.update(index, Some(value));
    if index == grid.len() - 1 {
        assert(filled.drop_last() =~= grid.drop_last());
    } else {
        assert(filled.drop_last() =~= grid.drop_last().update(index, Some(value)));
        lemma_fill(grid.drop_last(), index, value);
    }
}

/// The grid that speeds up the search for the points near a candidate.
struct Grid {
    cell: u32,
    width: usize,
    height: usize,
    cells: Vec<Option<usize>>,
}

impl Grid {
    /// Whether the grid is the grid of `sampler` for `samples`.
    spec fn ok(&self, samples: Seq<UVec2>, sampler: PoissonDiscSampler) -> bool {
        &&& sampler.radius >= 1
        &&& is_cell_size(self.cell as int, sampler.radius as int)
        &&& self.width == grid_side(sampler.size.x as int, self.cell as int)
        &&& self.height == grid_side(sampler.size.y as int, self.cell as int)
        &&& grid_ok(self.cells@, samples, self.cell as int, self.width as int, self.height as int)
        &&& inside(samples, sampler.size)
    }
}

/// A candidate in the rectangle that keeps the radius to every point in
/// the cells up to two cells away keeps it to every point.
proof fn lemma_scan_complete(
    sampler: PoissonDiscSampler,
    grid: Grid,
    samples: Seq<UVec2>,
    x: int,
    y: int,
)
    requires
        grid.ok(samples, sampler),
        0 <= x < sampler.size.x,
        0 <= y < sampler.size.y,
        forall|gx: int, gy: int|
            0 <= gx < grid.width && 0 <= gy < grid.height && x / (grid.cell as int) - 2 <= gx <= x
                / (grid.cell as int) + 2 && y / (grid.cell as int) - 2 <= gy <= y / (
            grid.cell as int) + 2 ==> (#[trigger] cell_at(grid.cells@, grid.width as int, gx, gy)
                matches Some(s) ==> dist2(
                x,
                y,
                samples[s as int].x as int,
                samples[s as int].y as int,
            ) >= sampler.radius * sampler.radius),
    ensures
        sampler.admits(samples, x, y),
{
    let cell = grid.cell as int;
    let radius = sampler.radius as int;
    assert forall|i: int| 0 <= i < samples.len() implies dist2(
        x,
        y,
        (#[trigger] samples[i]).x as int,
        samples[i].y as int,
    ) >= radius * radius by {
        let px = samples[i].x as int;
        let py = samples[i].y as int;
        lemma_cell_in_grid(px, sampler.size.x as int, cell);
        lemma_cell_in_grid(py, sampler.size.y as int, cell);
        let gx = px / cell;
        let gy = py / cell;
        assert(cell_at(grid.cells@, grid.width as int, gx, gy) == Some(i as usize));
        if gx >= x / cell + 3 {
            lemma_far_cells(px, x, cell);
            lemma_far_apart(x - px, y - py, cell, radius);
        } else if x / cell >= gx + 3 {
            lemma_far_cells(x, px, cell);
            lemma_far_apart(x - px, y - py, cell, radius);
        } else if gy >= y / cell + 3 {
            lemma_far_cells(py, y, cell);
            lemma_far_apart(y - py, x - px, cell, radius);
        } else if y / cell >= gy + 3 {
            lemma_far_cells(y, py, cell);
            lemma_far_apart(y - py, x - px, cell, radius);
        } else {
        }
    }
}

/// What accepting a candidate does: its cell was empty, and with the
/// candidate in it the grid answers to the points again; the points stay in
/// the rectangle and apart.
proof fn lemma_accept(
    sampler: PoissonDiscSampler,
    grid: Grid,
    samples: Seq<UVec2>,
    point: UVec2,
)
    requires
        grid.ok(samples, sampler),
        separated(samples, sampler.radius),
        sampler.admits(samples, point.x as int, point.y as int),
        samples.len() < usize::MAX,
    ensures
        ({
            let gx = point.x as int / (grid.cell as int);
            let gy = point.y as int / (grid.cell as int);
            let index = gy * grid.width + gx;
            &&& 0 <= gx < grid.width
            &&& 0 <= gy < grid.height
            &&& 0 <= index < grid.cells@.len()
            &&& grid.cells@[index] is None
            &&& grid_ok(
                grid.cells@.update(index, Some(samples.len() as usize)),
                samples.push(point),
                grid.cell as int,
                grid.width as int,
                grid.height as int,
            )
            &&& inside(samples.push(point), sampler.size)
            &&& separated(samples.push(point), sampler.radius)
        }),
{
    let cell = grid.cell as int;
    let width = grid.width as int;
    let height = grid.height as int;
    let radius = sampler.radius as int;
    let x = point.x as int;
    let y = point.y as int;
    let gx = x / cell;
    let gy = y / cell;
    let index = gy * width + gx;
    let n = samples.len() as usize;
    lemma_cell_in_grid(x, sampler.size.x as int, cell);
    lemma_cell_in_grid(y, sampler.size.y as int, cell);
    lemma_cell_index(gx, gy, width, height);
    assert(grid.cells@[index] == cell_at(grid.cells@, width, gx, gy));
    if let Some(s) = grid.cells@[index] {
        let q = samples[s as int];
        lemma_same_cell_close(x, y, q.x as int, q.y as int, cell, radius);
        assert(false);
    }
    let filled = grid.cells@.update(index, Some(n));
    let grown = samples.push(point);
    assert forall|ax: int, ay: int| 0 <= ax < width && 0 <= ay < height implies (
    #[trigger] cell_at(filled, width, ax, ay) matches Some(s) ==> s < grown.len() && grown[s as int].x
        as int / cell == ax && grown[s as int].y as int / cell == ay) by {
        lemma_cell_index(ax, ay, width, height);
        if ax == gx && ay == gy {
        } else {
            assert(ay * width + ax != index);
            assert(cell_at(filled, width, ax, ay) == cell_at(grid.cells@, width, ax, ay));
        }
    }
    assert forall|s: int| 0 <= s < grown.len() implies cell_at(
        filled,
        width,
        (#[trigger] grown[s]).x as int / cell,
        grown[s].y as int / cell,
    ) == Some(s as usize) by {
        if s < samples.len() {
            let q = samples[s];
            let qx = q.x as int / cell;
            let qy = q.y as int / cell;
            lemma_cell_in_grid(q.x as int, sampler.size.x as int, cell);
            lemma_cell_in_grid(q.y as int, sampler.size.y as int, cell);
            lemma_cell_index(qx, qy, width, height);
            if qx == gx && qy == gy {
                lemma_same_cell_close(x, y, q.x as int, q.y as int, cell, radius);
                assert(false);
            }
            assert(qy * width + qx != index);
            assert(cell_at(grid.cells@, width, qx, qy) == Some(s as usize));
        } else {
        }
    }
    assert forall|i: int, j: int|
        0 <= i < grown.len() && 0 <= j < grown.len() && i != j implies dist2(
        (#[trigger] grown[i]).x as int,
        grown[i].y as int,
        (#[trigger] grown[j]).x as int,
        grown[j].y as int,
    ) >= radius * radius by {
        if i < samples.len() && j < samples.len() {
            assert(grown[i] == samples[i]);
            assert(grown[j] == samples[j]);
        } else if i < samples.len() {
            let q = samples[i];
            let dx = x - q.x as int;
            let dy = y - q.y as int;
            assert((-dx) * (-dx) == dx * dx) by (nonlinear_arith);
            assert((-dy) * (-dy) == dy * dy) by (nonlinear_arith);
        } else {
            assert(grown[j] == samples[j]);
        }
    }
}

impl PoissonDiscSampler {
    /// Whether the candidate `(x, y)` can join `samples`.
    fn is_valid(&self, x: i128, y: i128, grid: &Grid, samples: &Vec<UVec2>) -> (valid: bool)
        requires
            grid.ok(samples@, *self),
            -0x1_0000_0000_0000_0000_0000_0000 <= x <= 0x1_0000_0000_0000_0000_0000_0000,
            -0x1_0000_0000_0000_0000_0000_0000 <= y <= 0x1_0000_0000_0000_0000_0000_0000,
        ensures
            valid == self.admits(samples@, x as int, y as int),
    {
        if !(x >= 0 && x < self.size.x as i128 && y >= 0 && y < self.size.y as i128) {
            return false;
        }
        let r2: i128 = square(self.radius as i128);
        let cx: usize = (x as u32 / grid.cell) as usize;
        let cy: usize = (y as u32 / grid.cell) as usize;
        proof {
            lemma_cell_in_grid(x as int, self.size.x as int, grid.cell as int);
            lemma_cell_in_grid(y as int, self.size.y as int, grid.cell as int);
        }
        let min_x: usize = if cx >= 2 {
            cx - 2
        } else {
            0
        };
        let max_x: usize = if grid.width - cx > 2 {
            cx + 2
        } else {
            grid.width - 1
        };
        let min_y: usize = if cy >= 2 {
            cy - 2
        } else {
            0
        };
        let max_y: usize = if grid.height - cy > 2 {
            cy + 2
        } else {
            grid.height - 1
        };
        let mut gy: usize = min_y;
        while gy <= max_y
            invariant
                grid.ok(samples@, *self),
                0 <= x < self.size.x,
                0 <= y < self.size.y,
                r2 == self.radius * self.radius,
                min_x <= max_x < grid.width,
                min_y <= max_y < grid.height,
                min_y <= gy <= max_y + 1,
                forall|ax: int, ay: int|
                    min_x <= ax <= max_x && min_y <= ay < gy ==> (#[trigger] cell_at(
                        grid.cells@,
                        grid.width as int,
                        ax,
                        ay,
                    ) matches Some(s) ==> dist2(
                        x as int,
                        y as int,
                        samples@[s as int].x as int,
                        samples@[s as int].y as int,
                    ) >= r2),
            decreases max_y + 1 - gy,
        {
            let mut gx: usize = min_x;
            while gx <= max_x
                invariant
                    grid.ok(samples@, *self),
                    0 <= x < self.size.x,
                    0 <= y < self.size.y,
                    r2 == self.radius * self.radius,
                    min_x <= max_x < grid.width,
                    min_y <= gy <= max_y < grid.height,
                    min_x <= gx <= max_x + 1,
                    forall|ax: int, ay: int|
                        min_x <= ax <= max_x && min_y <= ay <= max_y && (ay < gy || (ay == gy && ax
                            < gx)) ==> (#[trigger] cell_at(grid.cells@, grid.width as int, ax, ay)
                            matches Some(s) ==> dist2(
                            x as int,
                            y as int,
                            samples@[s as int].x as int,
                            samples@[s as int].y as int,
                        ) >= r2),
                decreases max_x + 1 - gx,
            {
                proof {
                    lemma_cell_index(gx as int, gy as int, grid.width as int, grid.height as int);
                    assert(grid.cells@.len() == grid.cells.len());
                    assert(grid.cells@[gy * grid.width + gx] == cell_at(
                        grid.cells@,
                        grid.width as int,
                        gx as int,
                        gy as int,
                    ));
                }
                match grid.cells[gy * grid.width + gx] {
                    Some(index) => {
                        let other = samples[index];
                        let dx: i128 = x - other.x as i128;
                        let dy: i128 = y - other.y as i128;
                        let d2: i128 = square(dx) + square(dy);
                        if d2 < r2 {
                            assert(!self.admits(samples@, x as int, y as int)) by {
                                assert(dist2(
                                    x as int,
                                    y as int,
                                    samples@[index as int].x as int,
                                    samples@[index as int].y as int,
                                ) < self.radius * self.radius);
                            }
                            return false;
                        }
                    },
                    None => {},
                }
                gx = gx + 1;
            }
            gy = gy + 1;
        }
        proof {
            lemma_scan_complete(*self, *grid, samples@, x as int, y as int);
        }
        true
    }
}


impl Default for PoissonDiscSampler {
    /// Seed 0, radius 1, a rectangle of 32 by 32, and 30 candidates.
    fn default() -> (sampler: PoissonDiscSampler)
        ensures
            sampler == (PoissonDiscSampler {
                seed: 0,
                radius: 1,
                size: UVec2 { x: 32, y: 32 },
                k: 30,
            }),
    {
        PoissonDiscSampler { seed: 0, radius: 1, size: UVec2 { x: 32, y: 32 }, k: 30 }
    }
}

impl PoissonDiscSampler {
    /// The default sampler with another seed.
    pub fn new(seed: u64) -> (sampler: PoissonDiscSampler)
        ensures
            sampler == (PoissonDiscSampler {
                seed,
                radius: 1,
                size: UVec2 { x: 32, y: 32 },
                k: 30,
            }),
    {
        PoissonDiscSampler { seed, radius: 1, size: UVec2 { x: 32, y: 32 }, k: 30 }
    }

    /// The same sampler with another radius.
    pub fn with_radius(self, radius: u32) -> (sampler: PoissonDiscSampler)
        ensures
            sampler == (PoissonDiscSampler { radius, ..self }),
    {
        PoissonDiscSampler { radius, ..self }
    }

    /// The same sampler with another rectangle.
    pub fn with_size(self, size: UVec2) -> (sampler: PoissonDiscSampler)
        ensures
            sampler == (PoissonDiscSampler { size, ..self }),
    {
        PoissonDiscSampler { size, ..self }
    }

    /// The same sampler with another number of candidates.
    pub fn with_k(self, k: u32) -> (sampler: PoissonDiscSampler)
        ensures
            sampler == (PoissonDiscSampler { k, ..self }),
    {
        PoissonDiscSampler { k, ..self }
    }

    /// Whether the sampler can run: the radius is 1 at least, the rectangle
    /// is not empty, and its lattice points can be counted.
    pub open spec fn runnable(self) -> bool {
        &&& self.radius >= 1
        &&& self.size.x >= 1
        &&& self.size.y >= 1
        &&& self.size.x as int * self.size.y as int <= usize::MAX
    }

    /// Whether the sampler can run.
    pub fn can_run(&self) -> (b: bool)
        ensures
            b == self.runnable(),
    {
        proof {
            let w = self.size.x as int;
            let h = self.size.y as int;
            assert(0 <= w * h <= 0xffff_ffff * 0xffff_ffff) by (nonlinear_arith)
                requires
                    0 <= w <= 0xffff_ffff,
                    0 <= h <= 0xffff_ffff,
            ;
        }
        self.radius >= 1 && self.size.x >= 1 && self.size.y >= 1 && self.size.x as u64
            * self.size.y as u64 <= usize::MAX as u64
    }

    /// An empty grid for the sampler.
    fn empty_grid(&self) -> (grid: Grid)
        requires
            self.runnable(),
        ensures
            grid.ok(Seq::<UVec2>::empty(), *self),
            grid.cells@.len() <= self.size.x as int * self.size.y as int,
    {
        let cell: u32 = cell_size_of(self.radius);
        let width: usize = ((self.size.x as u64 + cell as u64 - 1) / cell as u64) as usize;
        let height: usize = ((self.size.y as u64 + cell as u64 - 1) / cell as u64) as usize;
        proof {
            lemma_cell_in_grid(0, self.size.x as int, cell as int);
            lemma_cell_in_grid(0, self.size.y as int, cell as int);
            let w = width as int;
            let h = height as int;
            let sx = self.size.x as int;
            let sy = self.size.y as int;
            assert(0 <= w * h <= sx * sy) by (nonlinear_arith)
                requires
                    1 <= w <= sx,
                    1 <= h <= sy,
            ;
        }
        let count: usize = width * height;
        let mut cells: Vec<Option<usize>> = Vec::new();
        let mut i: usize = 0;
        while i < count
            invariant
                i <= count,
                cells@.len() == i,
                forall|j: int| 0 <= j < i ==> cells@[j] is None,
            decreases count - i,
        {
            cells.push(None);
            i = i + 1;
        }
        let grid = Grid { cell, width, height, cells };
        proof {
            assert forall|gx: int, gy: int| 0 <= gx < width && 0 <= gy < height implies (
            #[trigger] cell_at(grid.cells@, width as int, gx, gy)) is None by {
                lemma_cell_index(gx, gy, width as int, height as int);
            }
        }
        grid
    }

    /// Take `point`, which can join `samples`, into the points and the grid.
    fn accept(&self, point: UVec2, grid: &mut Grid, samples: &mut Vec<UVec2>)
        requires
            old(grid).ok(old(samples)@, *self),
            separated(old(samples)@, self.radius),
            self.admits(old(samples)@, point.x as int, point.y as int),
        ensures
            final(grid).ok(final(samples)@, *self),
            separated(final(samples)@, self.radius),
            final(samples)@ == old(samples)@.push(point),
            free_cells(final(grid).cells@) + 1 == free_cells(old(grid).cells@),
            final(grid).cells@.len() == old(grid).cells@.len(),
    {
        let ghost before = samples@;
        let n: usize = samples.len();
        samples.push(point);
        assert(samples.len() == n + 1);
        proof {
            lemma_accept(*self, *grid, before, point);
            lemma_fill(
                grid.cells@,
                (point.y as int / (grid.cell as int)) * grid.width + point.x as int / (
                grid.cell as int),
                n,
            );
        }
        let gx: usize = (point.x / grid.cell) as usize;
        let gy: usize = (point.y / grid.cell) as usize;
        proof {
            assert(grid.cells@.len() == grid.cells.len());
            assert(0 <= gy * grid.width) by (nonlinear_arith)
                requires
                    0 <= gy,
                    0 <= grid.width,
            ;
        }
        grid.cells.set(gy * grid.width + gx, Some(n));
    }

    /// Try the candidates around `parent`, `k` of them at most, and stop
    /// at the first that can join `samples`.
    fn try_around<W: WordSource>(&self, parent: UVec2, grid: &Grid, samples: &Vec<UVec2>, source: &mut W) -> (found:
        Option<UVec2>)
        requires
            grid.ok(samples@, *self),
        ensures
            forall|pos: u64| final(source).word_at(pos) == old(source).word_at(pos),
            (found, final(source).position()) == self.search(
                stream_of(old(source)),
                samples@,
                parent,
                self.k as nat,
                old(source).position(),
            ),
            found matches Some(point) ==> self.admits(
                samples@,
                point.x as int,
                point.y as int,
            ),
    {
        let ghost words = stream_of(source);
        let mut found: Option<UVec2> = None;
        let mut tried: u32 = 0;
        while tried < self.k && found.is_none()
            invariant
                grid.ok(samples@, *self),
                words == stream_of(old(source)),
                forall|pos: u64| source.word_at(pos) == old(source).word_at(pos),
                tried <= self.k,
                found matches Some(point) ==> self.admits(
                    samples@,
                    point.x as int,
                    point.y as int,
                ),
                self.search(words, samples@, parent, self.k as nat, old(source).position())
                    == match found {
                    Some(point) => (Some(point), source.position()),
                    None => self.search(
                        words,
                        samples@,
                        parent,
                        (self.k - tried) as nat,
                        source.position(),
                    ),
                },
            decreases self.k - tried + if found is None { 1int } else { 0int },
        {
            let ghost pos = source.position();
            let angle: u32 = source.next_word();
            let far: u32 = source.next_word();
            let distance: u64 = self.radius as u64 + scale_word(far, self.radius as u64 + 1);
            let step = offset_of(angle, distance);
            let x: i128 = parent.x as i128 + step.0;
            let y: i128 = parent.y as i128 + step.1;
            proof {
                assert(words(pos) == angle);
                assert(words(next_pos(pos)) == far);
                assert(self.candidate(words, parent, pos) == (x as int, y as int));
            }
            if self.is_valid(x, y, grid, samples) {
                found = Some(UVec2 { x: x as u32, y: y as u32 });
            }
            tried = tried + 1;
        }
        found
    }

    /// Run the sampler on the words of `source`, which it reads from where
    /// the source stands. The seed of the sampler plays no part. The points
    /// come in the order in which the run accepts them. Every point lies in
    /// the rectangle, and no two points are closer to each other than the
    /// radius, whatever the words are.
    pub fn sample_with<W: WordSource>(&self, source: &mut W) -> (samples: Vec<UVec2>)
        requires
            self.runnable(),
        ensures
            samples@ == self.points_from(stream_of(old(source)), old(source).position()),
            samples@.len() >= 1,
            inside(samples@, self.size),
            separated(samples@, self.radius),
            forall|pos: u64| final(source).word_at(pos) == old(source).word_at(pos),
    {
        let ghost words = stream_of(source);
        let mut grid = self.empty_grid();
        let mut samples: Vec<UVec2> = Vec::new();
        let mut active: Vec<UVec2> = Vec::new();
        let first_x: u32 = source.next_word();
        let first_y: u32 = source.next_word();
        let initial = UVec2 {
            x: scale_word(first_x, self.size.x as u64) as u32,
            y: scale_word(first_y, self.size.y as u64) as u32,
        };
        proof {
            lemma_free_bound(grid.cells@);
            assert(samples@ =~= Seq::<UVec2>::empty());
            assert(words(old(source).position()) == first_x);
            assert(words(next_pos(old(source).position())) == first_y);
        }
        self.accept(initial, &mut grid, &mut samples);
        active.push(initial);
        let ghost mut fuel: nat = (2 * (self.size.x as int * self.size.y as int)) as nat;
        proof {
            assert(samples@ =~= seq![initial]);
            assert(active@ =~= seq![initial]);
        }
        while active.len() > 0
            invariant
                self.runnable(),
                grid.ok(samples@, *self),
                separated(samples@, self.radius),
                samples@.len() >= 1,
                words == stream_of(old(source)),
                forall|pos: u64| source.word_at(pos) == old(source).word_at(pos),
                fuel >= 2 * free_cells(grid.cells@) + active@.len(),
                self.points_from(words, old(source).position()) == self.run(
                    words,
                    SamplerState { samples: samples@, active: active@, pos: source.position() },
                    fuel,
                ).samples,
            decreases fuel,
        {
            let ghost state = SamplerState {
                samples: samples@,
                active: active@,
                pos: source.position(),
            };
            let pick: u32 = source.next_word();
            let index: usize = scale_word(pick, active.len() as u64) as usize;
            let parent = active[index];
            proof {
                assert(words(state.pos) == pick);
                assert(stream_of(source) =~= words);
            }
            let found = self.try_around(parent, &grid, &samples, source);
            match found {
                Some(point) => {
                    self.accept(point, &mut grid, &mut samples);
                    active.push(point);
                },
                None => {
                    active.remove(index);
                },
            }
            proof {
                let next = SamplerState {
                    samples: samples@,
                    active: active@,
                    pos: source.position(),
                };
                assert(next == self.step(words, state));
                assert(self.run(words, state, fuel) == self.run(words, next, (fuel - 1) as nat));
                fuel = (fuel - 1) as nat;
            }
        }
        samples
    }

    /// Run the sampler on the stream of its seed. The points depend on the
    /// sampler alone, so that two runs of one sampler give the same points.
    /// Every point lies in the rectangle, and no two points are closer to
    /// each other than the radius.
    pub fn sample(&self) -> (samples: Vec<UVec2>)
        requires
            self.runnable(),
        ensures
            samples@ == self.points(),
            samples@.len() >= 1,
            inside(samples@, self.size),
            separated(samples@, self.radius),
    {
        let mut stream = WordStream::new(self.seed);
        proof {
            lemma_word_stream(&stream);
        }
        self.sample_with(&mut stream)
    }
}

/// Two samplers with the same seed, radius, rectangle and number of
/// candidates give the same points, in the same order.
pub proof fn lemma_sample_deterministic(a: PoissonDiscSampler, b: PoissonDiscSampler)
    requires
        a.seed == b.seed,
        a.radius == b.radius,
        a.size == b.size,
        a.k == b.k,
    ensures
        a.points() == b.points(),
{
}

} // verus!
