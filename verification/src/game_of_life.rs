//! The cellular automaton: a dense boolean grid with toroidal (wraparound)
//! adjacency, neighbor counting, the B3/S23 generation step, and a library
//! of named seed patterns.

use vstd::prelude::*;
use vstd::arithmetic::div_mod::{lemma_mod_add_multiples_vanish, lemma_mod_multiples_vanish, lemma_mod_sub_multiples_vanish};
use vstd::pervasive::VecAdditionalExecFns;

verus! {

/// Index of cell (x, y) in the flat row-major cell store.
pub open spec fn grid_index(x: int, y: int, width: int) -> int {
    y * width + x
}

/// A row-major index built from in-range coordinates is itself in range.
pub proof fn lemma_grid_index_bounds(x: int, y: int, width: int, height: int)
    by (nonlinear_arith)
    requires
        0 <= x < width,
        0 <= y < height,
    ensures
        0 <= grid_index(x, y, width) < width * height,
{
}

/// Distinct in-range coordinate pairs map to distinct row-major indices.
pub proof fn lemma_grid_index_injective(
    x1: int,
    y1: int,
    x2: int,
    y2: int,
    width: int,
    height: int,
)
    by (nonlinear_arith)
    requires
        0 <= x1 < width,
        0 <= y1 < height,
        0 <= x2 < width,
        0 <= y2 < height,
    ensures
        grid_index(x1, y1, width) == grid_index(x2, y2, width) <==> (x1 == x2 && y1 == y2),
{
}

/// 1 for an alive cell, 0 for a dead one; used to sum neighbor counts.
pub open spec fn one_if(alive: bool) -> int {
    if alive {
        1
    } else {
        0
    }
}

/// The standard Life transition rule (B3/S23): a cell is alive in the next
/// generation iff it has exactly 3 live neighbors, or it is alive now and
/// has exactly 2.
pub open spec fn life_rule(alive: bool, neighbors: int) -> bool {
    neighbors == 3 || (alive && neighbors == 2)
}

/// Offsets of the glider seed pattern.
pub open spec fn glider_offsets() -> Seq<(int, int)> {
    seq![(1, 0), (2, 1), (0, 2), (1, 2), (2, 2)]
}

/// Offsets of the blinker seed pattern.
pub open spec fn blinker_offsets() -> Seq<(int, int)> {
    seq![(0, 1), (1, 1), (2, 1)]
}

/// Offsets of the toad seed pattern.
pub open spec fn toad_offsets() -> Seq<(int, int)> {
    seq![(1, 0), (2, 0), (3, 0), (0, 1), (1, 1), (2, 1)]
}

/// Offsets of the beacon seed pattern.
pub open spec fn beacon_offsets() -> Seq<(int, int)> {
    seq![(0, 0), (1, 0), (0, 1), (3, 2), (2, 2), (3, 3)]
}

/// Offsets of the pulsar seed pattern.
pub open spec fn pulsar_offsets() -> Seq<(int, int)> {
    seq![(2, 0), (3, 0), (4, 0), (8, 0), (9, 0), (10, 0), (0, 2), (5, 2), (7, 2), (12, 2), (0, 3), (5, 3), (7, 3), (12, 3), (0, 4), (5, 4), (7, 4), (12, 4), (2, 5), (3, 5), (4, 5), (8, 5), (9, 5), (10, 5), (2, 7), (3, 7), (4, 7), (8, 7), (9, 7), (10, 7), (0, 8), (5, 8), (7, 8), (12, 8), (0, 9), (5, 9), (7, 9), (12, 9), (0, 10), (5, 10), (7, 10), (12, 10), (2, 12), (3, 12), (4, 12), (8, 12), (9, 12), (10, 12)]
}

/// Offsets of the spaceship seed pattern.
pub open spec fn spaceship_offsets() -> Seq<(int, int)> {
    seq![(0, 1), (1, 2), (2, 0), (2, 1), (2, 2)]
}

/// Offsets of the acorn seed pattern.
pub open spec fn acorn_offsets() -> Seq<(int, int)> {
    seq![(0, 0), (1, 0), (2, 0), (3, 1), (4, 2), (5, 3)]
}

/// Offsets of the r pentomino seed pattern.
pub open spec fn r_pentomino_offsets() -> Seq<(int, int)> {
    seq![(0, 0), (1, 0), (0, 1), (1, 1), (2, 1)]
}

/// Offsets of the glider gun seed pattern.
pub open spec fn glider_gun_offsets() -> Seq<(int, int)> {
    seq![(0, 6), (1, 6), (2, 6), (3, 6), (4, 6), (5, 6), (6, 6), (0, 7), (1, 7), (2, 7), (3, 7), (4, 7), (5, 7), (6, 7), (0, 8), (1, 8), (2, 8), (3, 8), (4, 8), (5, 8), (6, 8), (2, 5), (3, 5), (2, 4), (3, 4)]
}

/// Offsets of the gosper glider gun seed pattern.
pub open spec fn gosper_glider_gun_offsets() -> Seq<(int, int)> {
    seq![(0, 24), (1, 24), (2, 24), (3, 24), (4, 24), (5, 24), (6, 24), (0, 25), (1, 25), (2, 25), (3, 25), (4, 25), (5, 25), (6, 25), (0, 26), (1, 26), (2, 26), (3, 26), (4, 26), (5, 26), (6, 26), (2, 23), (3, 23), (2, 22), (3, 22)]
}

/// Offsets of the lwss seed pattern.
pub open spec fn lwss_offsets() -> Seq<(int, int)> {
    seq![(1, 0), (2, 0), (3, 0), (4, 0), (0, 1), (4, 1), (4, 2), (0, 3), (3, 3)]
}

/// Offsets of the beehive seed pattern.
pub open spec fn beehive_offsets() -> Seq<(int, int)> {
    seq![(0, 0), (1, 0), (2, 1), (3, 1), (1, 2), (2, 2)]
}

/// Offsets of the loaf seed pattern.
pub open spec fn loaf_offsets() -> Seq<(int, int)> {
    seq![(1, 0), (2, 0), (0, 1), (3, 1), (1, 2), (3, 2), (2, 3)]
}

/// Offsets of the boat seed pattern.
pub open spec fn boat_offsets() -> Seq<(int, int)> {
    seq![(0, 0), (1, 0), (2, 1), (0, 2), (1, 2)]
}

/// Offsets of the tub seed pattern.
pub open spec fn tub_offsets() -> Seq<(int, int)> {
    seq![(0, 0), (1, 0), (0, 1), (1, 1)]
}

/// Offsets of the mwss seed pattern.
pub open spec fn mwss_offsets() -> Seq<(int, int)> {
    seq![(1, 0), (2, 0), (3, 0), (4, 0), (5, 0), (0, 1), (5, 1), (5, 2), (0, 3), (4, 3)]
}

/// Offsets of the hwss seed pattern.
pub open spec fn hwss_offsets() -> Seq<(int, int)> {
    seq![(1, 0), (2, 0), (3, 0), (4, 0), (5, 0), (0, 1), (5, 1), (5, 2), (0, 3), (4, 3), (0, 4), (1, 4)]
}

/// The relative offsets of a seed pattern, as mathematical pairs.
pub open spec fn offsets_of(pat: Seq<(usize, usize)>) -> Seq<(int, int)> {
    pat.map_values(|p: (usize, usize)| (p.0 as int, p.1 as int))
}

/// `cur` is `prev` with the pattern `pat` applied at origin (ox, oy): every
/// translated offset is alive, everything else is as before, and offsets
/// landing outside the grid are clipped silently.
pub open spec fn pattern_applied(
    prev: GameOfLife,
    cur: GameOfLife,
    ox: int,
    oy: int,
    pat: Seq<(int, int)>,
) -> bool {
    &&& cur.width == prev.width
    &&& cur.height == prev.height
    &&& forall|i: int, j: int|
        0 <= i < cur.width && 0 <= j < cur.height ==> #[trigger] cur.cell(i, j) == (prev.cell(i, j)
            || pat.contains((i - ox, j - oy)))
}

/// Taking one more element of a sequence extends its membership by exactly
/// that element.
proof fn lemma_take_one_more<A>(s: Seq<A>, k: int)
    requires
        0 <= k < s.len(),
    ensures
        forall|v: A| #[trigger]
            s.take(k + 1).contains(v) <==> (s.take(k).contains(v) || v == s[k]),
{
    assert(s.take(k + 1) =~= s.take(k).push(s[k]));
    assert forall|v: A| #[trigger] s.take(k + 1).contains(v) implies (s.take(k).contains(v) || v
        == s[k]) by {
        let i = choose|i: int| 0 <= i < s.take(k + 1).len() && #[trigger] s.take(k + 1)[i] == v;
        if i < k {
            assert(s.take(k)[i] == v);
        }
    }
    assert forall|v: A| (s.take(k).contains(v) || v == s[k]) implies #[trigger] s.take(
        k + 1,
    ).contains(v) by {
        if s.take(k).contains(v) {
            let i = choose|i: int| 0 <= i < s.take(k).len() && #[trigger] s.take(k)[i] == v;
            assert(s.take(k + 1)[i] == v);
        } else {
            assert(s.take(k + 1)[k] == v);
        }
    }
}

/// A dense rectangular Game of Life grid with toroidal adjacency. The cell
/// store is flat and row-major: cell (x, y) lives at index `y * width + x`.
#[derive(Clone)]
pub struct GameOfLife {
    pub width: usize,
    pub height: usize,
    pub cells: Vec<bool>,
}

impl GameOfLife {
    /// Well-formedness: positive dimensions, small enough that the signed
    /// wraparound arithmetic cannot overflow, and a cell store of exactly
    /// `width * height` flags.
    pub open spec fn wf(&self) -> bool {
        &&& 1 <= self.width
        &&& 1 <= self.height
        &&& 2 * (self.width as int) <= isize::MAX as int
        &&& 2 * (self.height as int) <= isize::MAX as int
        &&& (self.width as int) * (self.height as int) <= usize::MAX as int
        &&& self.cells@.len() == (self.width as int) * (self.height as int)
    }

    /// The cell at in-range coordinates.
    pub open spec fn cell(&self, x: int, y: int) -> bool {
        self.cells@[grid_index(x, y, self.width as int)]
    }

    /// The cell at arbitrary signed coordinates, wrapped toroidally: the
    /// grid has no edge, every coordinate is taken modulo the dimensions.
    pub open spec fn alive_at(&self, x: int, y: int) -> bool {
        self.cell(x % (self.width as int), y % (self.height as int))
    }

    /// The number of live cells among the 8 toroidal neighbors of (x, y).
    pub open spec fn neighbor_count(&self, x: int, y: int) -> int {
        one_if(self.alive_at(x - 1, y - 1)) + one_if(self.alive_at(x, y - 1)) + one_if(
            self.alive_at(x + 1, y - 1),
        ) + one_if(self.alive_at(x - 1, y)) + one_if(self.alive_at(x + 1, y)) + one_if(
            self.alive_at(x - 1, y + 1),
        ) + one_if(self.alive_at(x, y + 1)) + one_if(self.alive_at(x + 1, y + 1))
    }

    /// Whether (x, y) is alive after one generation step.
    pub open spec fn next_alive(&self, x: int, y: int) -> bool {
        life_rule(self.cell(x, y), self.neighbor_count(x, y))
    }

    /// A fresh grid with every cell dead.
    pub fn new(width: usize, height: usize) -> (g: GameOfLife)
        requires
            1 <= width,
            1 <= height,
            2 * (width as int) <= isize::MAX as int,
            2 * (height as int) <= isize::MAX as int,
            (width as int) * (height as int) <= usize::MAX as int,
        ensures
            g.wf(),
            g.width == width,
            g.height == height,
            forall|x: int, y: int|
                0 <= x < width && 0 <= y < height ==> !(#[trigger] g.cell(x, y)),
    {
        proof {
            lemma_grid_index_bounds(0, (height - 1) as int, width as int, height as int);
        }
        let n: usize = width * height;
        let mut cells: Vec<bool> = Vec::new();
        let mut i: usize = 0;
        while i < n
            invariant
                i <= n,
                cells@.len() == i,
                forall|k: int| 0 <= k < i ==> !(#[trigger] cells@[k]),
            decreases n - i,
        {
            cells.push(false);
            i = i + 1;
        }
        let g = GameOfLife { width, height, cells };
        proof {
            assert forall|x: int, y: int|
                0 <= x < width && 0 <= y < height implies !(#[trigger] g.cell(x, y)) by {
                lemma_grid_index_bounds(x, y, width as int, height as int);
            }
        }
        g
    }

    /// Marks the cell at (x, y) alive; coordinates outside the grid are a
    /// silent no-op, so seeding code need not pre-clip.
    pub fn set_alive(&mut self, x: usize, y: usize)
        requires
            old(self).wf(),
        ensures
            final(self).wf(),
            final(self).width == old(self).width,
            final(self).height == old(self).height,
            forall|i: int, j: int|
                0 <= i < final(self).width && 0 <= j < final(self).height
                    ==> #[trigger] final(self).cell(i, j) == (old(self).cell(i, j) || (i == x && j
                    == y)),
    {
        if x < self.width && y < self.height {
            proof {
                lemma_grid_index_bounds(x as int, y as int, self.width as int, self.height as int);
            }
            let idx: usize = y * self.width + x;
            self.cells.set(idx, true);
            proof {
                assert forall|i: int, j: int|
                    0 <= i < self.width && 0 <= j < self.height implies #[trigger] self.cell(i, j)
                    == (old(self).cell(i, j) || (i == x && j == y)) by {
                    lemma_grid_index_bounds(i, j, self.width as int, self.height as int);
                    if i != x || j != y {
                        lemma_grid_index_injective(
                            i,
                            j,
                            x as int,
                            y as int,
                            self.width as int,
                            self.height as int,
                        );
                    }
                }
            }
        }
    }

    /// The Euclidean remainder of a signed coordinate by a positive
    /// dimension: the in-range coordinate the torus wraps it to.
    fn wrap_coord(coord: isize, dim: usize) -> (r: usize)
        requires
            1 <= dim,
        ensures
            r as int == (coord as int) % (dim as int),
            r < dim,
    {
        proof {
            vstd::arithmetic::div_mod::lemma_mod_bound(coord as int, dim as int);
        }
        if coord >= 0 {
            (coord as usize) % dim
        } else {
            let t: usize = ((-(coord + 1)) as usize) % dim;
            proof {
                let ci = coord as int;
                let mi = dim as int;
                let q = (-ci - 1) / mi;
                let rem = (-ci - 1) % mi;
                vstd::arithmetic::div_mod::lemma_fundamental_div_mod(-ci - 1, mi);
                vstd::arithmetic::div_mod::lemma_mod_bound(-ci - 1, mi);
                assert(mi * (-q - 1) + (mi - 1 - rem) == ci) by (nonlinear_arith)
                    requires
                        -ci - 1 == mi * q + rem,
                ;
                lemma_mod_multiples_vanish(-q - 1, mi - 1 - rem, mi);
                vstd::arithmetic::div_mod::lemma_small_mod((mi - 1 - rem) as nat, mi as nat);
                assert(ci % mi == mi - 1 - rem);
            }
            dim - 1 - t
        }
    }

    /// Reads a cell at arbitrary signed coordinates, wrapped into range by
    /// Euclidean remainder: toroidal adjacency, with negative coordinates
    /// and coordinates past any edge handled alike. Never fails.
    pub fn is_alive(&self, x: isize, y: isize) -> (r: bool)
        requires
            self.wf(),
        ensures
            r == self.alive_at(x as int, y as int),
    {
        let xm = GameOfLife::wrap_coord(x, self.width);
        let ym = GameOfLife::wrap_coord(y, self.height);
        proof {
            lemma_grid_index_bounds(xm as int, ym as int, self.width as int, self.height as int);
        }
        self.cells[ym * self.width + xm]
    }

    /// Counts the live cells among the 8 neighbors of (x, y), wrapping
    /// around the grid edges; the result is always between 0 and 8.
    pub fn count_neighbors(&self, x: usize, y: usize) -> (n: u8)
        requires
            self.wf(),
            x as int + 1 <= isize::MAX as int,
            y as int + 1 <= isize::MAX as int,
        ensures
            n as int == self.neighbor_count(x as int, y as int),
            n <= 8,
    {
        let xi = x as isize;
        let yi = y as isize;
        let mut n: u8 = 0;
        if self.is_alive(xi - 1, yi - 1) {
            n = n + 1;
        }
        if self.is_alive(xi, yi - 1) {
            n = n + 1;
        }
        if self.is_alive(xi + 1, yi - 1) {
            n = n + 1;
        }
        if self.is_alive(xi - 1, yi) {
            n = n + 1;
        }
        if self.is_alive(xi + 1, yi) {
            n = n + 1;
        }
        if self.is_alive(xi - 1, yi + 1) {
            n = n + 1;
        }
        if self.is_alive(xi, yi + 1) {
            n = n + 1;
        }
        if self.is_alive(xi + 1, yi + 1) {
            n = n + 1;
        }
        n
    }

    /// Advances the automaton by one generation: every cell of the new grid
    /// is computed from the old grid's neighbor counts, so no cell observes
    /// a partially updated neighborhood.
    pub fn tick(&mut self)
        requires
            old(self).wf(),
        ensures
            final(self).wf(),
            final(self).width == old(self).width,
            final(self).height == old(self).height,
            forall|x: int, y: int|
                0 <= x < final(self).width && 0 <= y < final(self).height
                    ==> #[trigger] final(self).cell(x, y) == old(self).next_alive(x, y),
    {
        let width = self.width;
        let height = self.height;
        let mut next: Vec<bool> = Vec::new();
        let mut y: usize = 0;
        while y < height
            invariant
                self == old(self),
                self.wf(),
                width == self.width,
                height == self.height,
                y <= height,
                next@.len() == y * (width as int),
                forall|i: int, j: int|
                    0 <= i < width && 0 <= j < y ==> #[trigger] next@[grid_index(
                        i,
                        j,
                        width as int,
                    )] == self.next_alive(i, j),
            decreases height - y,
        {
            let mut x: usize = 0;
            while x < width
                invariant
                    self == old(self),
                    self.wf(),
                    width == self.width,
                    height == self.height,
                    y < height,
                    x <= width,
                    next@.len() == y * (width as int) + x,
                    forall|i: int, j: int|
                        0 <= i < width && 0 <= j < y ==> #[trigger] next@[grid_index(
                            i,
                            j,
                            width as int,
                        )] == self.next_alive(i, j),
                    forall|i: int|
                        0 <= i < x ==> #[trigger] next@[grid_index(i, y as int, width as int)]
                            == self.next_alive(i, y as int),
                decreases width - x,
            {
                proof {
                    lemma_grid_index_bounds(x as int, y as int, width as int, height as int);
                }
                let alive = self.cells[y * width + x];
                let nb = self.count_neighbors(x, y);
                next.push(nb == 3 || (alive && nb == 2));
                x = x + 1;
                proof {
                    assert(next@.len() == y * (width as int) + x);
                    assert forall|i: int, j: int|
                        0 <= i < width && 0 <= j < y implies #[trigger] next@[grid_index(
                        i,
                        j,
                        width as int,
                    )] == self.next_alive(i, j) by {
                        lemma_grid_index_bounds(i, j, width as int, height as int);
                        lemma_grid_index_injective(
                            i,
                            j,
                            (x - 1) as int,
                            y as int,
                            width as int,
                            height as int,
                        );
                        assert(grid_index(i, j, width as int) < y * (width as int) + x - 1) by (
                        nonlinear_arith)
                            requires
                                0 <= i < width,
                                0 <= j < y,
                                1 <= x,
                                grid_index(i, j, width as int) == j * (width as int) + i,
                        ;
                    }
                    assert forall|i: int|
                        0 <= i < x implies #[trigger] next@[grid_index(i, y as int, width as int)]
                        == self.next_alive(i, y as int) by {
                        lemma_grid_index_bounds(i, y as int, width as int, height as int);
                    }
                }
            }
            y = y + 1;
            proof {
                assert(y * (width as int) == (y - 1) * (width as int) + width) by (nonlinear_arith);
            }
        }
        self.cells = next;
        proof {
            assert((height as int) * (width as int) == (width as int) * (height as int)) by (
            nonlinear_arith);
        }
    }

    /// Marks alive every offset of `pat`, translated by the origin; offsets
    /// that land outside the grid (or overflow the coordinate type, which
    /// puts them outside every grid) are clipped silently.
    fn apply_pattern(&mut self, offset_x: usize, offset_y: usize, pat: &Vec<(usize, usize)>)
        requires
            old(self).wf(),
        ensures
            final(self).wf(),
            pattern_applied(
                *old(self),
                *final(self),
                offset_x as int,
                offset_y as int,
                offsets_of(pat@),
            ),
    {
        let ghost offs = offsets_of(pat@);
        let mut k: usize = 0;
        while k < pat.len()
            invariant
                self.wf(),
                k <= pat@.len(),
                offs == offsets_of(pat@),
                pattern_applied(
                    *old(self),
                    *self,
                    offset_x as int,
                    offset_y as int,
                    offs.take(k as int),
                ),
            decreases pat@.len() - k,
        {
            let p = pat[k];
            proof {
                lemma_take_one_more(offs, k as int);
                assert(offs[k as int] == (p.0 as int, p.1 as int));
            }
            match offset_x.checked_add(p.0) {
                Some(cx) => match offset_y.checked_add(p.1) {
                    Some(cy) => self.set_alive(cx, cy),
                    None => (),
                },
                None => (),
            }
            k = k + 1;
            proof {
                assert(pattern_applied(
                    *old(self),
                    *self,
                    offset_x as int,
                    offset_y as int,
                    offs.take(k as int),
                ));
            }
        }
        proof {
            assert(offs.take(pat@.len() as int) =~= offs);
        }
    }

    /// A glider, the smallest spaceship. Each listed offset, translated by the origin, becomes alive;
    /// offsets falling outside the grid are clipped silently.
    pub fn insert_glider(&mut self, offset_x: usize, offset_y: usize)
        requires
            old(self).wf(),
        ensures
            final(self).wf(),
            final(self).width == old(self).width,
            final(self).height == old(self).height,
            pattern_applied(
                *old(self),
                *final(self),
                offset_x as int,
                offset_y as int,
                glider_offsets(),
            ),
    {
        let mut pat: Vec<(usize, usize)> = Vec::new();
        pat.push((1, 0));
        pat.push((2, 1));
        pat.push((0, 2));
        pat.push((1, 2));
        pat.push((2, 2));
        proof {
            assert(offsets_of(pat@) =~= glider_offsets());
        }
        self.apply_pattern(offset_x, offset_y, &pat);
    }

    /// A blinker: a 3-cell line that oscillates with period 2. Each listed offset, translated by the origin, becomes alive;
    /// offsets falling outside the grid are clipped silently.
    pub fn insert_blinker(&mut self, offset_x: usize, offset_y: usize)
        requires
            old(self).wf(),
        ensures
            final(self).wf(),
            final(self).width == old(self).width,
            final(self).height == old(self).height,
            pattern_applied(
                *old(self),
                *final(self),
                offset_x as int,
                offset_y as int,
                blinker_offsets(),
            ),
    {
        let mut pat: Vec<(usize, usize)> = Vec::new();
        pat.push((0, 1));
        pat.push((1, 1));
        pat.push((2, 1));
        proof {
            assert(offsets_of(pat@) =~= blinker_offsets());
        }
        self.apply_pattern(offset_x, offset_y, &pat);
    }

    /// A toad, a period-2 oscillator. Each listed offset, translated by the origin, becomes alive;
    /// offsets falling outside the grid are clipped silently.
    pub fn insert_toad(&mut self, offset_x: usize, offset_y: usize)
        requires
            old(self).wf(),
        ensures
            final(self).wf(),
            final(self).width == old(self).width,
            final(self).height == old(self).height,
            pattern_applied(
                *old(self),
                *final(self),
                offset_x as int,
                offset_y as int,
                toad_offsets(),
            ),
    {
        let mut pat: Vec<(usize, usize)> = Vec::new();
        pat.push((1, 0));
        pat.push((2, 0));
        pat.push((3, 0));
        pat.push((0, 1));
        pat.push((1, 1));
        pat.push((2, 1));
        proof {
            assert(offsets_of(pat@) =~= toad_offsets());
        }
        self.apply_pattern(offset_x, offset_y, &pat);
    }

    /// A beacon, a period-2 oscillator. Each listed offset, translated by the origin, becomes alive;
    /// offsets falling outside the grid are clipped silently.
    pub fn insert_beacon(&mut self, offset_x: usize, offset_y: usize)
        requires
            old(self).wf(),
        ensures
            final(self).wf(),
            final(self).width == old(self).width,
            final(self).height == old(self).height,
            pattern_applied(
                *old(self),
                *final(self),
                offset_x as int,
                offset_y as int,
                beacon_offsets(),
            ),
    {
        let mut pat: Vec<(usize, usize)> = Vec::new();
        pat.push((0, 0));
        pat.push((1, 0));
        pat.push((0, 1));
        pat.push((3, 2));
        pat.push((2, 2));
        pat.push((3, 3));
        proof {
            assert(offsets_of(pat@) =~= beacon_offsets());
        }
        self.apply_pattern(offset_x, offset_y, &pat);
    }

    /// A pulsar, a period-3 oscillator. Each listed offset, translated by the origin, becomes alive;
    /// offsets falling outside the grid are clipped silently.
    pub fn insert_pulsar(&mut self, offset_x: usize, offset_y: usize)
        requires
            old(self).wf(),
        ensures
            final(self).wf(),
            final(self).width == old(self).width,
            final(self).height == old(self).height,
            pattern_applied(
                *old(self),
                *final(self),
                offset_x as int,
                offset_y as int,
                pulsar_offsets(),
            ),
    {
        let mut pat: Vec<(usize, usize)> = Vec::new();
        pat.push((2, 0));
        pat.push((3, 0));
        pat.push((4, 0));
        pat.push((8, 0));
        pat.push((9, 0));
        pat.push((10, 0));
        pat.push((0, 2));
        pat.push((5, 2));
        pat.push((7, 2));
        pat.push((12, 2));
        pat.push((0, 3));
        pat.push((5, 3));
        pat.push((7, 3));
        pat.push((12, 3));
        pat.push((0, 4));
        pat.push((5, 4));
        pat.push((7, 4));
        pat.push((12, 4));
        pat.push((2, 5));
        pat.push((3, 5));
        pat.push((4, 5));
        pat.push((8, 5));
        pat.push((9, 5));
        pat.push((10, 5));
        pat.push((2, 7));
        pat.push((3, 7));
        pat.push((4, 7));
        pat.push((8, 7));
        pat.push((9, 7));
        pat.push((10, 7));
        pat.push((0, 8));
        pat.push((5, 8));
        pat.push((7, 8));
        pat.push((12, 8));
        pat.push((0, 9));
        pat.push((5, 9));
        pat.push((7, 9));
        pat.push((12, 9));
        pat.push((0, 10));
        pat.push((5, 10));
        pat.push((7, 10));
        pat.push((12, 10));
        pat.push((2, 12));
        pat.push((3, 12));
        pat.push((4, 12));
        pat.push((8, 12));
        pat.push((9, 12));
        pat.push((10, 12));
        proof {
            assert(offsets_of(pat@) =~= pulsar_offsets());
        }
        self.apply_pattern(offset_x, offset_y, &pat);
    }

    /// A small spaceship. Each listed offset, translated by the origin, becomes alive;
    /// offsets falling outside the grid are clipped silently.
    pub fn insert_spaceship(&mut self, offset_x: usize, offset_y: usize)
        requires
            old(self).wf(),
        ensures
            final(self).wf(),
            final(self).width == old(self).width,
            final(self).height == old(self).height,
            pattern_applied(
                *old(self),
                *final(self),
                offset_x as int,
                offset_y as int,
                spaceship_offsets(),
            ),
    {
        let mut pat: Vec<(usize, usize)> = Vec::new();
        pat.push((0, 1));
        pat.push((1, 2));
        pat.push((2, 0));
        pat.push((2, 1));
        pat.push((2, 2));
        proof {
            assert(offsets_of(pat@) =~= spaceship_offsets());
        }
        self.apply_pattern(offset_x, offset_y, &pat);
    }

    /// An acorn, a long-lived methuselah. Each listed offset, translated by the origin, becomes alive;
    /// offsets falling outside the grid are clipped silently.
    pub fn insert_acorn(&mut self, offset_x: usize, offset_y: usize)
        requires
            old(self).wf(),
        ensures
            final(self).wf(),
            final(self).width == old(self).width,
            final(self).height == old(self).height,
            pattern_applied(
                *old(self),
                *final(self),
                offset_x as int,
                offset_y as int,
                acorn_offsets(),
            ),
    {
        let mut pat: Vec<(usize, usize)> = Vec::new();
        pat.push((0, 0));
        pat.push((1, 0));
        pat.push((2, 0));
        pat.push((3, 1));
        pat.push((4, 2));
        pat.push((5, 3));
        proof {
            assert(offsets_of(pat@) =~= acorn_offsets());
        }
        self.apply_pattern(offset_x, offset_y, &pat);
    }

    /// An R-pentomino. Each listed offset, translated by the origin, becomes alive;
    /// offsets falling outside the grid are clipped silently.
    pub fn insert_r_pentomino(&mut self, offset_x: usize, offset_y: usize)
        requires
            old(self).wf(),
        ensures
            final(self).wf(),
            final(self).width == old(self).width,
            final(self).height == old(self).height,
            pattern_applied(
                *old(self),
                *final(self),
                offset_x as int,
                offset_y as int,
                r_pentomino_offsets(),
            ),
    {
        let mut pat: Vec<(usize, usize)> = Vec::new();
        pat.push((0, 0));
        pat.push((1, 0));
        pat.push((0, 1));
        pat.push((1, 1));
        pat.push((2, 1));
        proof {
            assert(offsets_of(pat@) =~= r_pentomino_offsets());
        }
        self.apply_pattern(offset_x, offset_y, &pat);
    }

    /// A glider gun block arrangement. Each listed offset, translated by the origin, becomes alive;
    /// offsets falling outside the grid are clipped silently.
    pub fn insert_glider_gun(&mut self, offset_x: usize, offset_y: usize)
        requires
            old(self).wf(),
        ensures
            final(self).wf(),
            final(self).width == old(self).width,
            final(self).height == old(self).height,
            pattern_applied(
                *old(self),
                *final(self),
                offset_x as int,
                offset_y as int,
                glider_gun_offsets(),
            ),
    {
        let mut pat: Vec<(usize, usize)> = Vec::new();
        pat.push((0, 6));
        pat.push((1, 6));
        pat.push((2, 6));
        pat.push((3, 6));
        pat.push((4, 6));
        pat.push((5, 6));
        pat.push((6, 6));
        pat.push((0, 7));
        pat.push((1, 7));
        pat.push((2, 7));
        pat.push((3, 7));
        pat.push((4, 7));
        pat.push((5, 7));
        pat.push((6, 7));
        pat.push((0, 8));
        pat.push((1, 8));
        pat.push((2, 8));
        pat.push((3, 8));
        pat.push((4, 8));
        pat.push((5, 8));
        pat.push((6, 8));
        pat.push((2, 5));
        pat.push((3, 5));
        pat.push((2, 4));
        pat.push((3, 4));
        proof {
            assert(offsets_of(pat@) =~= glider_gun_offsets());
        }
        self.apply_pattern(offset_x, offset_y, &pat);
    }

    /// A Gosper glider gun block arrangement. Each listed offset, translated by the origin, becomes alive;
    /// offsets falling outside the grid are clipped silently.
    pub fn insert_gosper_glider_gun(&mut self, offset_x: usize, offset_y: usize)
        requires
            old(self).wf(),
        ensures
            final(self).wf(),
            final(self).width == old(self).width,
            final(self).height == old(self).height,
            pattern_applied(
                *old(self),
                *final(self),
                offset_x as int,
                offset_y as int,
                gosper_glider_gun_offsets(),
            ),
    {
        let mut pat: Vec<(usize, usize)> = Vec::new();
        pat.push((0, 24));
        pat.push((1, 24));
        pat.push((2, 24));
        pat.push((3, 24));
        pat.push((4, 24));
        pat.push((5, 24));
        pat.push((6, 24));
        pat.push((0, 25));
        pat.push((1, 25));
        pat.push((2, 25));
        pat.push((3, 25));
        pat.push((4, 25));
        pat.push((5, 25));
        pat.push((6, 25));
        pat.push((0, 26));
        pat.push((1, 26));
        pat.push((2, 26));
        pat.push((3, 26));
        pat.push((4, 26));
        pat.push((5, 26));
        pat.push((6, 26));
        pat.push((2, 23));
        pat.push((3, 23));
        pat.push((2, 22));
        pat.push((3, 22));
        proof {
            assert(offsets_of(pat@) =~= gosper_glider_gun_offsets());
        }
        self.apply_pattern(offset_x, offset_y, &pat);
    }

    /// A lightweight spaceship. Each listed offset, translated by the origin, becomes alive;
    /// offsets falling outside the grid are clipped silently.
    pub fn insert_lwss(&mut self, offset_x: usize, offset_y: usize)
        requires
            old(self).wf(),
        ensures
            final(self).wf(),
            final(self).width == old(self).width,
            final(self).height == old(self).height,
            pattern_applied(
                *old(self),
                *final(self),
                offset_x as int,
                offset_y as int,
                lwss_offsets(),
            ),
    {
        let mut pat: Vec<(usize, usize)> = Vec::new();
        pat.push((1, 0));
        pat.push((2, 0));
        pat.push((3, 0));
        pat.push((4, 0));
        pat.push((0, 1));
        pat.push((4, 1));
        pat.push((4, 2));
        pat.push((0, 3));
        pat.push((3, 3));
        proof {
            assert(offsets_of(pat@) =~= lwss_offsets());
        }
        self.apply_pattern(offset_x, offset_y, &pat);
    }

    /// A beehive, a still life. Each listed offset, translated by the origin, becomes alive;
    /// offsets falling outside the grid are clipped silently.
    pub fn insert_beehive(&mut self, offset_x: usize, offset_y: usize)
        requires
            old(self).wf(),
        ensures
            final(self).wf(),
            final(self).width == old(self).width,
            final(self).height == old(self).height,
            pattern_applied(
                *old(self),
                *final(self),
                offset_x as int,
                offset_y as int,
                beehive_offsets(),
            ),
    {
        let mut pat: Vec<(usize, usize)> = Vec::new();
        pat.push((0, 0));
        pat.push((1, 0));
        pat.push((2, 1));
        pat.push((3, 1));
        pat.push((1, 2));
        pat.push((2, 2));
        proof {
            assert(offsets_of(pat@) =~= beehive_offsets());
        }
        self.apply_pattern(offset_x, offset_y, &pat);
    }

    /// A loaf, a still life. Each listed offset, translated by the origin, becomes alive;
    /// offsets falling outside the grid are clipped silently.
    pub fn insert_loaf(&mut self, offset_x: usize, offset_y: usize)
        requires
            old(self).wf(),
        ensures
            final(self).wf(),
            final(self).width == old(self).width,
            final(self).height == old(self).height,
            pattern_applied(
                *old(self),
                *final(self),
                offset_x as int,
                offset_y as int,
                loaf_offsets(),
            ),
    {
        let mut pat: Vec<(usize, usize)> = Vec::new();
        pat.push((1, 0));
        pat.push((2, 0));
        pat.push((0, 1));
        pat.push((3, 1));
        pat.push((1, 2));
        pat.push((3, 2));
        pat.push((2, 3));
        proof {
            assert(offsets_of(pat@) =~= loaf_offsets());
        }
        self.apply_pattern(offset_x, offset_y, &pat);
    }

    /// A boat, a still life. Each listed offset, translated by the origin, becomes alive;
    /// offsets falling outside the grid are clipped silently.
    pub fn insert_boat(&mut self, offset_x: usize, offset_y: usize)
        requires
            old(self).wf(),
        ensures
            final(self).wf(),
            final(self).width == old(self).width,
            final(self).height == old(self).height,
            pattern_applied(
                *old(self),
                *final(self),
                offset_x as int,
                offset_y as int,
                boat_offsets(),
            ),
    {
        let mut pat: Vec<(usize, usize)> = Vec::new();
        pat.push((0, 0));
        pat.push((1, 0));
        pat.push((2, 1));
        pat.push((0, 2));
        pat.push((1, 2));
        proof {
            assert(offsets_of(pat@) =~= boat_offsets());
        }
        self.apply_pattern(offset_x, offset_y, &pat);
    }

    /// A 2x2 block of four alive cells, a still life. Each listed offset, translated by the origin, becomes alive;
    /// offsets falling outside the grid are clipped silently.
    pub fn insert_tub(&mut self, offset_x: usize, offset_y: usize)
        requires
            old(self).wf(),
        ensures
            final(self).wf(),
            final(self).width == old(self).width,
            final(self).height == old(self).height,
            pattern_applied(
                *old(self),
                *final(self),
                offset_x as int,
                offset_y as int,
                tub_offsets(),
            ),
    {
        let mut pat: Vec<(usize, usize)> = Vec::new();
        pat.push((0, 0));
        pat.push((1, 0));
        pat.push((0, 1));
        pat.push((1, 1));
        proof {
            assert(offsets_of(pat@) =~= tub_offsets());
        }
        self.apply_pattern(offset_x, offset_y, &pat);
    }

    /// A medium-weight spaceship. Each listed offset, translated by the origin, becomes alive;
    /// offsets falling outside the grid are clipped silently.
    pub fn insert_mwss(&mut self, offset_x: usize, offset_y: usize)
        requires
            old(self).wf(),
        ensures
            final(self).wf(),
            final(self).width == old(self).width,
            final(self).height == old(self).height,
            pattern_applied(
                *old(self),
                *final(self),
                offset_x as int,
                offset_y as int,
                mwss_offsets(),
            ),
    {
        let mut pat: Vec<(usize, usize)> = Vec::new();
        pat.push((1, 0));
        pat.push((2, 0));
        pat.push((3, 0));
        pat.push((4, 0));
        pat.push((5, 0));
        pat.push((0, 1));
        pat.push((5, 1));
        pat.push((5, 2));
        pat.push((0, 3));
        pat.push((4, 3));
        proof {
            assert(offsets_of(pat@) =~= mwss_offsets());
        }
        self.apply_pattern(offset_x, offset_y, &pat);
    }

    /// A heavyweight spaceship. Each listed offset, translated by the origin, becomes alive;
    /// offsets falling outside the grid are clipped silently.
    pub fn insert_hwss(&mut self, offset_x: usize, offset_y: usize)
        requires
            old(self).wf(),
        ensures
            final(self).wf(),
            final(self).width == old(self).width,
            final(self).height == old(self).height,
            pattern_applied(
                *old(self),
                *final(self),
                offset_x as int,
                offset_y as int,
                hwss_offsets(),
            ),
    {
        let mut pat: Vec<(usize, usize)> = Vec::new();
        pat.push((1, 0));
        pat.push((2, 0));
        pat.push((3, 0));
        pat.push((4, 0));
        pat.push((5, 0));
        pat.push((0, 1));
        pat.push((5, 1));
        pat.push((5, 2));
        pat.push((0, 3));
        pat.push((4, 3));
        pat.push((0, 4));
        pat.push((1, 4));
        proof {
            assert(offsets_of(pat@) =~= hwss_offsets());
        }
        self.apply_pattern(offset_x, offset_y, &pat);
    }
}

/// Law: a neighbor count is never negative and never exceeds 8, on any
/// grid and at any coordinates.
pub proof fn lemma_neighbor_count_range(g: GameOfLife, x: int, y: int)
    ensures
        0 <= g.neighbor_count(x, y) <= 8,
{
}

/// Law: the grid is a torus. Moving by a whole width or height in either
/// direction reaches the same cell, so a lookup just past an edge equals
/// the lookup at the wrapped in-range coordinate (for example, column -1
/// is column `width - 1`).
pub proof fn lemma_toroidal_wrap(g: GameOfLife, x: int, y: int)
    requires
        g.wf(),
    ensures
        g.alive_at(x + g.width, y) == g.alive_at(x, y),
        g.alive_at(x - g.width, y) == g.alive_at(x, y),
        g.alive_at(x, y + g.height) == g.alive_at(x, y),
        g.alive_at(x, y - g.height) == g.alive_at(x, y),
{
    lemma_mod_add_multiples_vanish(x, g.width as int);
    lemma_mod_sub_multiples_vanish(x, g.width as int);
    lemma_mod_add_multiples_vanish(y, g.height as int);
    lemma_mod_sub_multiples_vanish(y, g.height as int);
}

} // verus!
