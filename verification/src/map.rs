//! The battlefield map: a width x height grid of cells with per-cell terrain
//! height, team-reserved starting cells, coordinate queries, and the weighted
//! reachability query used for movement legality.
//!
//! A cell identifier `id` maps to coordinates `(id % width, id / width)` and
//! back; the mapping is bijective over `[0, width*height)`.

use crate::effect::{Range, RangeKind};
use crate::error::Error;
use crate::id_map::Id;
use vstd::arithmetic::div_mod::{
    lemma_div_multiples_vanish, lemma_div_pos_is_pos, lemma_fundamental_div_mod,
    lemma_fundamental_div_mod_converse_div, lemma_fundamental_div_mod_converse_mod,
    lemma_mod_decreases, lemma_mod_division_less_than_divisor, lemma_multiply_divide_lt,
};
use vstd::math::abs;
use vstd::prelude::*;

verus! {

pub type CellId = Id<Cell>;
pub type GameMapId = Id<GameMap>;

/// A team index into a map's team list.
#[derive(Clone, Copy, Debug, PartialEq, Eq, Structural)]
pub struct TeamId(pub usize);

impl TeamId {
    pub fn new(id: usize) -> (r: Self)
        ensures
            r.0 == id,
    {
        TeamId(id)
    }

    pub fn raw(self) -> (r: usize)
        ensures
            r == self.0,
    {
        self.0
    }
}

/// A team: its name and the cells reserved as its starting positions.
#[derive(Clone, Debug)]
pub struct Team(pub String, pub Vec<CellId>);

/// Terrain attribute of a cell. Only height affects computed behavior in
/// the core; the attribute is inert pass-through data for subsystems out of
/// scope.
#[derive(Clone, Copy, Debug)]
pub enum CellAttibute {
    Plain,
    Wall,
    Hole,
    Water,
}

#[derive(Clone, Copy, Debug)]
pub struct Cell {
    /// Terrain height, used only for movement cost.
    pub height: i32,
    pub attribute: CellAttibute,
}

/// A battlefield: a flattened row-major cell list of `width * height`
/// cells, plus the teams that may start on it.
#[derive(Clone, Debug)]
pub struct GameMap {
    pub name: String,
    pub data: Vec<Cell>,
    pub width: usize,
    pub height: usize,
    pub teams: Vec<Team>,
}

impl GameMap {
    /// The size invariant every valid map satisfies.
    pub open spec fn size_ok(self) -> bool {
        self.width * self.height == self.data@.len()
    }

    /// A non-degenerate, machine-workable grid: the size invariant holds,
    /// at least one column exists, and every coordinate fits in 31 bits.
    pub open spec fn bounded(self) -> bool {
        &&& self.size_ok()
        &&& self.width > 0
        &&& self.data@.len() <= 0x7fff_ffff
    }

    pub open spec fn in_grid(self, id: int) -> bool {
        0 <= id < self.data@.len()
    }

    /// Column of a cell identifier.
    pub open spec fn cell_x(self, id: int) -> int {
        id % (self.width as int)
    }

    /// Row of a cell identifier.
    pub open spec fn cell_y(self, id: int) -> int {
        id / (self.width as int)
    }

    /// The identifier of the cell at `(x, y)`.
    pub open spec fn spec_cell_at(self, x: int, y: int) -> int {
        y * (self.width as int) + x
    }

    /// No starting cell appears twice, whether within one team or across
    /// two different teams.
    pub open spec fn starting_cells_distinct(self) -> bool {
        forall|i: int, j: int, a: int, b: int|
            0 <= i < self.teams@.len() && 0 <= j < self.teams@.len()
                && 0 <= a < self.teams@[i].1@.len() && 0 <= b < self.teams@[j].1@.len()
                && (i != j || a != b)
                ==> (#[trigger] self.teams@[i].1@[a]).0 != (#[trigger] self.teams@[j].1@[b]).0
    }

    /// Whether the starting cell at position `b` of team `j` repeats a cell
    /// at a lexicographically earlier position.
    pub open spec fn repeats_earlier_cell(self, j: int, b: int) -> bool {
        exists|i: int, a: int|
            0 <= i < self.teams@.len() && 0 <= a < self.teams@[i].1@.len()
                && (i < j || (i == j && a < b))
                && (#[trigger] self.teams@[i].1@[a]).0 == self.teams@[j].1@[b].0
    }

    /// Validates the authoring-time invariants: the size invariant, and
    /// that no two teams (nor one team twice) reserve the same starting
    /// cell. Reports exactly which one fails.
    pub fn check_validity(&self) -> (r: Result<(), Error>)
        ensures
            r is Ok <==> self.size_ok() && self.starting_cells_distinct(),
            r == Err::<(), Error>(Error::InvalidMapSize) <==> !self.size_ok(),
            r == Err::<(), Error>(Error::OverlappingStartingCells)
                <==> self.size_ok() && !self.starting_cells_distinct(),
    {
        let n = self.data.len();
        let size_holds = match self.height.checked_mul(self.width) {
            Some(p) => p == n,
            None => false,
        };
        proof {
            assert(self.height * self.width == self.width * self.height) by (nonlinear_arith);
        }
        if !size_holds {
            return Err(Error::InvalidMapSize);
        }

        let teams_len = self.teams.len();
        let mut tj: usize = 0;
        while tj < teams_len
            invariant
                self.size_ok(),
                teams_len == self.teams@.len(),
                tj <= teams_len,
                forall|j: int, b: int|
                    0 <= j < tj && 0 <= b < self.teams@[j].1@.len()
                        ==> !(#[trigger] self.repeats_earlier_cell(j, b)),
            decreases teams_len - tj,
        {
            let cells_len = self.teams[tj].1.len();
            let mut cj: usize = 0;
            while cj < cells_len
                invariant
                    self.size_ok(),
                    teams_len == self.teams@.len(),
                    tj < teams_len,
                    cells_len == self.teams@[tj as int].1@.len(),
                    cj <= cells_len,
                    forall|j: int, b: int|
                        0 <= j < tj && 0 <= b < self.teams@[j].1@.len()
                            ==> !(#[trigger] self.repeats_earlier_cell(j, b)),
                    forall|b: int|
                        0 <= b < cj ==> !(#[trigger] self.repeats_earlier_cell(tj as int, b)),
                decreases cells_len - cj,
            {
                if self.cell_taken_before(tj, cj) {
                    proof {
                        let (i, a) = choose|i: int, a: int|
                            0 <= i < self.teams@.len() && 0 <= a < self.teams@[i].1@.len()
                                && (i < tj as int || (i == tj as int && a < cj as int))
                                && (#[trigger] self.teams@[i].1@[a]).0
                                    == self.teams@[tj as int].1@[cj as int].0;
                        assert(!self.starting_cells_distinct());
                    }
                    return Err(Error::OverlappingStartingCells);
                }
                cj += 1;
            }
            tj += 1;
        }
        proof {
            assert forall|i: int, j: int, a: int, b: int|
                0 <= i < self.teams@.len() && 0 <= j < self.teams@.len()
                    && 0 <= a < self.teams@[i].1@.len() && 0 <= b < self.teams@[j].1@.len()
                    && (i != j || a != b)
                implies (#[trigger] self.teams@[i].1@[a]).0
                    != (#[trigger] self.teams@[j].1@[b]).0 by {
                if self.teams@[i].1@[a].0 == self.teams@[j].1@[b].0 {
                    if i < j || (i == j && a < b) {
                        assert(self.repeats_earlier_cell(j, b));
                    } else {
                        assert(self.repeats_earlier_cell(i, a));
                    }
                }
            }
        }
        Ok(())
    }

    /// Scans every starting cell at a position lexicographically before
    /// `(tj, cj)` for one equal to the cell at `(tj, cj)`.
    fn cell_taken_before(&self, tj: usize, cj: usize) -> (r: bool)
        requires
            tj < self.teams@.len(),
            cj < self.teams@[tj as int].1@.len(),
        ensures
            r == self.repeats_earlier_cell(tj as int, cj as int),
    {
        let c = self.teams[tj].1[cj];
        let mut i: usize = 0;
        while i < tj
            invariant
                tj < self.teams@.len(),
                cj < self.teams@[tj as int].1@.len(),
                c == self.teams@[tj as int].1@[cj as int],
                i <= tj,
                forall|x: int, a: int|
                    0 <= x < i && 0 <= a < self.teams@[x].1@.len()
                        ==> (#[trigger] self.teams@[x].1@[a]).0 != c.0,
            decreases tj - i,
        {
            let len_i = self.teams[i].1.len();
            let mut a: usize = 0;
            while a < len_i
                invariant
                    tj < self.teams@.len(),
                    cj < self.teams@[tj as int].1@.len(),
                    c == self.teams@[tj as int].1@[cj as int],
                    i < tj,
                    len_i == self.teams@[i as int].1@.len(),
                    a <= len_i,
                    forall|y: int| 0 <= y < a ==> (#[trigger] self.teams@[i as int].1@[y]).0 != c.0,
                decreases len_i - a,
            {
                if self.teams[i].1[a].raw() == c.raw() {
                    return true;
                }
                a += 1;
            }
            i += 1;
        }
        let mut a: usize = 0;
        while a < cj
            invariant
                tj < self.teams@.len(),
                cj < self.teams@[tj as int].1@.len(),
                c == self.teams@[tj as int].1@[cj as int],
                a <= cj,
                forall|x: int, y: int|
                    0 <= x < tj && 0 <= y < self.teams@[x].1@.len()
                        ==> (#[trigger] self.teams@[x].1@[y]).0 != c.0,
                forall|y: int| 0 <= y < a ==> (#[trigger] self.teams@[tj as int].1@[y]).0 != c.0,
            decreases cj - a,
        {
            if self.teams[tj].1[a].raw() == c.raw() {
                return true;
            }
            a += 1;
        }
        false
    }

    /// The unweighted Manhattan distance between two cells, ignoring
    /// terrain height. Used only for range checks, never for movement
    /// legality.
    pub open spec fn manhattan(self, a: int, b: int) -> int {
        abs(self.cell_x(a) - self.cell_x(b)) + abs(self.cell_y(a) - self.cell_y(b)) as int
    }

    /// Two cells of the grid are orthogonal neighbors.
    pub open spec fn adjacent(self, a: int, b: int) -> bool {
        &&& self.in_grid(a)
        &&& self.in_grid(b)
        &&& {
            ||| self.cell_x(a) == self.cell_x(b) && abs(self.cell_y(a) - self.cell_y(b)) == 1
            ||| self.cell_y(a) == self.cell_y(b) && abs(self.cell_x(a) - self.cell_x(b)) == 1
        }
    }

    /// Coordinate bijection, one direction: encoding coordinates and
    /// decoding the resulting identifier returns the same coordinates,
    /// for every `(x, y)` with `0 <= x < width` and `0 <= y`.
    pub proof fn lemma_coordinates_of_cell_at(self, x: int, y: int)
        requires
            self.width > 0,
            0 <= x < self.width,
            0 <= y,
        ensures
            self.cell_x(self.spec_cell_at(x, y)) == x,
            self.cell_y(self.spec_cell_at(x, y)) == y,
    {
        let w = self.width as int;
        lemma_fundamental_div_mod_converse_mod(y * w + x, w, y, x);
        lemma_fundamental_div_mod_converse_div(y * w + x, w, y, x);
    }

    /// Coordinate bijection, other direction: decoding an in-grid
    /// identifier gives in-range coordinates that encode back to it.
    pub proof fn lemma_cell_at_of_coordinates(self, id: int)
        requires
            self.size_ok(),
            self.width > 0,
            self.in_grid(id),
        ensures
            0 <= self.cell_x(id) < self.width,
            0 <= self.cell_y(id) < self.height,
            self.spec_cell_at(self.cell_x(id), self.cell_y(id)) == id,
    {
        let w = self.width as int;
        lemma_mod_division_less_than_divisor(id, w);
        lemma_div_pos_is_pos(id, w);
        assert(w * (self.height as int) == self.data@.len());
        lemma_multiply_divide_lt(id, w, self.height as int);
        lemma_fundamental_div_mod(id, w);
        assert(w * (id / w) == (id / w) * w) by (nonlinear_arith);
    }

    /// A fresh identifier is in the grid whenever its coordinates are.
    proof fn lemma_cell_at_in_grid(self, x: int, y: int)
        requires
            self.size_ok(),
            0 <= x < self.width,
            0 <= y < self.height,
        ensures
            self.in_grid(self.spec_cell_at(x, y)),
    {
        assert(0 <= y * (self.width as int) + x < (self.width as int) * (self.height as int))
            by (nonlinear_arith)
            requires
                0 <= x < (self.width as int),
                0 <= y < (self.height as int),
        ;
    }

    /// Encodes coordinates into the identifier of the cell at `(x, y)`.
    pub fn xy_to_id(&self, x: usize, y: usize) -> (r: CellId)
        requires
            x < self.width,
            y < self.height,
            self.width * self.height <= usize::MAX,
        ensures
            r.0 == self.spec_cell_at(x as int, y as int),
            self.size_ok() ==> self.in_grid(r.0 as int),
    {
        proof {
            assert(0 <= (y as int) * (self.width as int) + (x as int)
                < (self.width as int) * (self.height as int)) by (nonlinear_arith)
                requires
                    0 <= (x as int) < (self.width as int),
                    0 <= (y as int) < (self.height as int),
            ;
        }
        Id::new(y * self.width + x)
    }

    /// Decodes an identifier into its `(x, y)` coordinates.
    pub fn id_to_xy(&self, id: CellId) -> (r: (usize, usize))
        requires
            self.width > 0,
        ensures
            r.0 == self.cell_x(id.0 as int),
            r.1 == self.cell_y(id.0 as int),
    {
        let x = id.raw() % self.width;
        proof {
            let idi = id.0 as int;
            let w = self.width as int;
            lemma_mod_division_less_than_divisor(idi, w);
            lemma_mod_decreases(id.0 as nat, self.width as nat);
            lemma_fundamental_div_mod(idi, w);
            assert(idi - (idi % w) == w * (idi / w));
            lemma_div_multiples_vanish(idi / w, w);
        }
        let y = (id.raw() - x) / self.width;
        (x, y)
    }

    /// Decodes an identifier into machine-signed `(x, y)` coordinates, for
    /// the signed deltas of the range geometry.
    pub fn id_to_xy_i32(&self, id: CellId) -> (r: (i32, i32))
        requires
            self.bounded(),
            id.0 < self.data@.len(),
        ensures
            r.0 == self.cell_x(id.0 as int),
            r.1 == self.cell_y(id.0 as int),
    {
        proof {
            self.lemma_cell_at_of_coordinates(id.0 as int);
        }
        let (x, y) = self.id_to_xy(id);
        (x as i32, y as i32)
    }

    /// Whether an identifier denotes a cell of this map.
    pub fn is_valid_cell(&self, c: CellId) -> (r: bool)
        ensures
            r == self.in_grid(c.0 as int),
    {
        self.data.len() > c.raw()
    }

    /// The unweighted Manhattan distance between two cells.
    pub fn distance(&self, a: CellId, b: CellId) -> (r: u32)
        requires
            self.bounded(),
            a.0 < self.data@.len(),
            b.0 < self.data@.len(),
        ensures
            r == self.manhattan(a.0 as int, b.0 as int),
    {
        proof {
            self.lemma_cell_at_of_coordinates(a.0 as int);
            self.lemma_cell_at_of_coordinates(b.0 as int);
        }
        let (ax, ay) = self.id_to_xy(a);
        let (bx, by) = self.id_to_xy(b);
        let dx = if ax >= bx {
            ax - bx
        } else {
            bx - ax
        };
        let dy = if ay >= by {
            ay - by
        } else {
            by - ay
        };
        ((dx as u64) + (dy as u64)) as u32
    }

    /// The orthogonal neighbors of a cell: exactly the cells adjacent to
    /// it, each listed once.
    pub fn surrounding_cells(&self, c: CellId) -> (r: Vec<CellId>)
        requires
            self.bounded(),
            c.0 < self.data@.len(),
        ensures
            forall|k: int|
                0 <= k < r@.len() ==> self.adjacent(c.0 as int, (#[trigger] r@[k]).0 as int),
            forall|b: int|
                self.adjacent(c.0 as int, b)
                    ==> exists|k: int| 0 <= k < r@.len() && (#[trigger] r@[k]).0 == b,
            forall|k1: int, k2: int|
                0 <= k1 < k2 < r@.len() ==> (#[trigger] r@[k1]).0 != (#[trigger] r@[k2]).0,
    {
        proof {
            self.lemma_cell_at_of_coordinates(c.0 as int);
        }
        let (x, y) = self.id_to_xy(c);
        let ghost ci = c.0 as int;
        let ghost w = self.width as int;
        let mut r: Vec<CellId> = Vec::new();
        let ghost mut k_right: int = -1;
        let ghost mut k_down: int = -1;
        let ghost mut k_left: int = -1;
        let ghost mut k_up: int = -1;

        if x + 1 < self.width {
            let n = self.xy_to_id(x + 1, y);
            proof {
                self.lemma_cell_at_in_grid(x as int + 1, y as int);
                self.lemma_coordinates_of_cell_at(x as int + 1, y as int);
            }
            r.push(n);
            proof {
                k_right = r@.len() - 1;
            }
        }
        if y + 1 < self.height {
            let n = self.xy_to_id(x, y + 1);
            proof {
                self.lemma_cell_at_in_grid(x as int, y as int + 1);
                self.lemma_coordinates_of_cell_at(x as int, y as int + 1);
            }
            r.push(n);
            proof {
                k_down = r@.len() - 1;
            }
        }
        if x > 0 {
            let n = self.xy_to_id(x - 1, y);
            proof {
                self.lemma_cell_at_in_grid(x as int - 1, y as int);
                self.lemma_coordinates_of_cell_at(x as int - 1, y as int);
            }
            r.push(n);
            proof {
                k_left = r@.len() - 1;
            }
        }
        if y > 0 {
            let n = self.xy_to_id(x, y - 1);
            proof {
                self.lemma_cell_at_in_grid(x as int, y as int - 1);
                self.lemma_coordinates_of_cell_at(x as int, y as int - 1);
            }
            r.push(n);
            proof {
                k_up = r@.len() - 1;
            }
        }

        proof {
            assert((y as int + 1) * w == (y as int) * w + w) by (nonlinear_arith);
            assert((y as int - 1) * w == (y as int) * w - w) by (nonlinear_arith);
            assert forall|b: int| self.adjacent(ci, b)
                implies exists|k: int| 0 <= k < r@.len() && (#[trigger] r@[k]).0 == b by {
                self.lemma_cell_at_of_coordinates(b);
                let bx = self.cell_x(b);
                let by = self.cell_y(b);
                assert(b == by * w + bx);
                if bx == x as int && by == y as int + 1 {
                    assert(0 <= k_down < r@.len() && r@[k_down].0 == b);
                } else if bx == x as int && by == y as int - 1 {
                    assert(0 <= k_up < r@.len() && r@[k_up].0 == b);
                } else if by == y as int && bx == x as int + 1 {
                    assert(0 <= k_right < r@.len() && r@[k_right].0 == b);
                } else {
                    assert(by == y as int && bx == x as int - 1);
                    assert(0 <= k_left < r@.len() && r@[k_left].0 == b);
                }
            }
        }
        r
    }
}

impl GameMap {
    /// The cost of stepping from cell `a` onto an orthogonal neighbor `b`:
    /// climbing costs the height difference plus one; descending or staying
    /// level costs exactly one.
    pub open spec fn step_cost(self, a: int, b: int) -> int {
        let ha = self.data@[a].height as int;
        let hb = self.data@[b].height as int;
        (if hb > ha {
            hb - ha
        } else {
            0
        }) + 1
    }

    /// A walk over the grid: non-empty, every cell on it in the grid, and
    /// every consecutive pair orthogonal neighbors.
    pub open spec fn path_ok(self, p: Seq<int>) -> bool {
        &&& p.len() >= 1
        &&& forall|i: int| 0 <= i < p.len() ==> self.in_grid(#[trigger] p[i])
        &&& forall|i: int| 0 <= i < p.len() - 1 ==> #[trigger] self.adjacent(p[i], p[i + 1])
    }

    /// The summed step cost along a walk.
    pub open spec fn path_cost(self, p: Seq<int>) -> int
        decreases p.len(),
    {
        if p.len() <= 1 {
            0
        } else {
            self.step_cost(p[0], p[1]) + self.path_cost(p.drop_first())
        }
    }

    /// Whether some walk from `s` to `e` costs at most `budget`.
    pub open spec fn reachable_within(self, s: int, e: int, budget: int) -> bool {
        exists|p: Seq<int>|
            {
                &&& #[trigger] self.path_ok(p)
                &&& p[0] == s
                &&& p[p.len() - 1] == e
                &&& self.path_cost(p) <= budget
            }
    }

    /// A walk's cost splits into the cost of its prefix plus the last step.
    proof fn lemma_path_cost_last(self, p: Seq<int>)
        requires
            p.len() >= 2,
        ensures
            self.path_cost(p) == self.path_cost(p.drop_last())
                + self.step_cost(p[p.len() - 2], p[p.len() - 1]),
        decreases p.len(),
    {
        if p.len() == 2 {
            assert(p.drop_last() =~= seq![p[0]]);
            assert(p.drop_first() =~= seq![p[1]]);
            assert(self.path_cost(p.drop_first()) == 0);
            assert(self.path_cost(p.drop_last()) == 0);
            assert(self.path_cost(p) == self.step_cost(p[0], p[1]));
        } else {
            let q = p.drop_first();
            self.lemma_path_cost_last(q);
            assert(q[q.len() - 2] == p[p.len() - 2] && q[q.len() - 1] == p[p.len() - 1]);
            assert(p.drop_last().drop_first() =~= q.drop_last());
            assert(p.drop_last().len() >= 2);
            assert(p.drop_last()[0] == p[0] && p.drop_last()[1] == p[1]);
            assert(self.path_cost(p.drop_last()) == self.step_cost(p[0], p[1])
                + self.path_cost(q.drop_last()));
            assert(self.path_cost(p) == self.step_cost(p[0], p[1]) + self.path_cost(q));
        }
    }

    /// Every step costs at least one, so a walk's cost is at least its
    /// number of steps.
    proof fn lemma_path_cost_bounds(self, p: Seq<int>)
        requires
            p.len() >= 1,
        ensures
            self.path_cost(p) >= p.len() - 1,
        decreases p.len(),
    {
        if p.len() > 1 {
            self.lemma_path_cost_bounds(p.drop_first());
        }
    }

    /// Appending an adjacent cell keeps a walk valid and adds one step's
    /// cost.
    proof fn lemma_path_extend(self, p: Seq<int>, b: int)
        requires
            self.path_ok(p),
            self.adjacent(p[p.len() - 1], b),
        ensures
            self.path_ok(p.push(b)),
            self.path_cost(p.push(b)) == self.path_cost(p)
                + self.step_cost(p[p.len() - 1], b),
    {
        let q = p.push(b);
        assert(q.drop_last() =~= p);
        assert forall|i: int| 0 <= i < q.len() implies self.in_grid(#[trigger] q[i]) by {
            if i < p.len() {
                assert(q[i] == p[i]);
            } else {
                assert(q[i] == b);
            }
        }
        assert forall|i: int| 0 <= i < q.len() - 1 implies #[trigger] self.adjacent(
            q[i],
            q[i + 1],
        ) by {
            if i < p.len() - 1 {
                assert(q[i] == p[i] && q[i + 1] == p[i + 1]);
            } else {
                assert(q[i] == p[p.len() - 1] && q[i + 1] == b);
            }
        }
        self.lemma_path_cost_last(q);
    }

    /// Every tentative distance is witnessed by a walk from `s` of at most
    /// that cost, and stays within the budget.
    pub open spec fn dist_sound(self, dist: Seq<u32>, s: int, budget: int) -> bool {
        forall|i: int|
            0 <= i < dist.len() && (#[trigger] dist[i]) != u32::MAX ==> dist[i] <= budget
                && exists|p: Seq<int>|
                {
                    &&& #[trigger] self.path_ok(p)
                    &&& p[0] == s
                    &&& p[p.len() - 1] == i
                    &&& self.path_cost(p) <= dist[i]
                }
    }

    /// Every walk from `s` within the budget and of at most `k` steps is
    /// matched or beaten by the tentative distance of its endpoint.
    pub open spec fn dist_complete(self, dist: Seq<u32>, s: int, budget: int, k: int) -> bool {
        forall|p: Seq<int>|
            #[trigger] self.path_ok(p) && p[0] == s && self.path_cost(p) <= budget && p.len() - 1
                <= k ==> dist[p[p.len() - 1]] <= self.path_cost(p)
    }

    /// One full relaxation round extends completeness from walks of `k`
    /// steps to walks of `k + 1` steps.
    proof fn lemma_relax_round(self, d0: Seq<u32>, d1: Seq<u32>, s: int, budget: int, k: int)
        requires
            0 <= budget < u32::MAX,
            d0.len() == self.data@.len(),
            d1.len() == d0.len(),
            forall|i: int| 0 <= i < d1.len() ==> (#[trigger] d1[i]) <= d0[i],
            forall|a: int, b: int|
                #[trigger] self.adjacent(a, b) && d0[a] + self.step_cost(a, b) <= budget
                    ==> d1[b] <= d0[a] + self.step_cost(a, b),
            self.dist_complete(d0, s, budget, k),
            k >= 0,
        ensures
            self.dist_complete(d1, s, budget, k + 1),
    {
        assert forall|p: Seq<int>|
            #[trigger] self.path_ok(p) && p[0] == s && self.path_cost(p) <= budget && p.len() - 1
                <= k + 1 implies d1[p[p.len() - 1]] <= self.path_cost(p) by {
            assert(self.in_grid(p[p.len() - 1]));
            if p.len() - 1 <= k {
                assert(d0[p[p.len() - 1]] <= self.path_cost(p));
            } else {
                let q = p.drop_last();
                assert(q.len() == p.len() - 1);
                assert forall|i: int| 0 <= i < q.len() implies self.in_grid(#[trigger] q[i]) by {
                    assert(q[i] == p[i]);
                }
                assert forall|i: int| 0 <= i < q.len() - 1 implies #[trigger] self.adjacent(
                    q[i],
                    q[i + 1],
                ) by {
                    assert(q[i] == p[i] && q[i + 1] == p[i + 1]);
                }
                let a = p[p.len() - 2];
                let b = p[p.len() - 1];
                assert(q[q.len() - 1] == a);
                assert(q[0] == p[0]);
                assert(self.path_ok(q));
                self.lemma_path_cost_last(p);
                self.lemma_path_cost_bounds(q);
                assert(self.adjacent(a, b));
                assert(q.len() - 1 <= k);
                assert(self.path_cost(q) <= budget);
                assert(d0[a] <= self.path_cost(q));
                assert(d0[a] + self.step_cost(a, b) <= self.path_cost(p) <= budget);
                assert(d1[b] <= d0[a] + self.step_cost(a, b));
            }
        }
    }

    /// The weighted reachability query used for movement legality: whether
    /// `end` can be reached from `start` by orthogonal steps whose summed
    /// cost stays within the movement budget. The cost of a step onto a
    /// neighbor is `max(0, next.height - current.height) + 1`.
    pub fn can_move_to(&self, start: CellId, end: CellId, swiftness: i32) -> (r: bool)
        requires
            self.bounded(),
            start.0 < self.data@.len(),
        ensures
            r == self.reachable_within(start.0 as int, end.0 as int, swiftness as int),
    {
        let ghost s = start.0 as int;
        let ghost e = end.0 as int;
        if swiftness < 0 {
            proof {
                if self.reachable_within(s, e, swiftness as int) {
                    let p = choose|p: Seq<int>|
                        self.path_ok(p) && p[0] == s && p[p.len() - 1] == e && self.path_cost(p)
                            <= swiftness as int;
                    self.lemma_path_cost_bounds(p);
                }
            }
            return false;
        }
        if end.raw() >= self.data.len() {
            proof {
                if self.reachable_within(s, e, swiftness as int) {
                    let p = choose|p: Seq<int>|
                        self.path_ok(p) && p[0] == s && p[p.len() - 1] == e && self.path_cost(p)
                            <= swiftness as int;
                    assert(self.in_grid(p[p.len() - 1]));
                }
            }
            return false;
        }

        let n = self.data.len();
        let budget: u32 = swiftness as u32;
        let mut dist: Vec<u32> = Vec::new();
        let mut i: usize = 0;
        while i < n
            invariant
                i <= n,
                dist@.len() == i,
                forall|j: int| 0 <= j < i ==> (#[trigger] dist@[j]) == u32::MAX,
            decreases n - i,
        {
            dist.push(u32::MAX);
            i += 1;
        }
        dist.set(start.raw(), 0);

        proof {
            let p0 = seq![s];
            assert(self.path_ok(p0));
            assert(self.path_cost(p0) == 0);
            assert(p0[0] == s && p0[p0.len() - 1] == s);
            assert forall|i2: int|
                0 <= i2 < dist@.len() && (#[trigger] dist@[i2]) != u32::MAX implies dist@[i2]
                <= budget as int && exists|p: Seq<int>|
                {
                    &&& #[trigger] self.path_ok(p)
                    &&& p[0] == s
                    &&& p[p.len() - 1] == i2
                    &&& self.path_cost(p) <= dist@[i2]
                } by {
                assert(i2 == s);
            }
            assert(self.dist_sound(dist@, s, budget as int));
            assert forall|p: Seq<int>|
                #[trigger] self.path_ok(p) && p[0] == s && self.path_cost(p) <= budget as int
                    && p.len() - 1 <= 0 implies dist@[p[p.len() - 1]] <= self.path_cost(p) by {
                self.lemma_path_cost_bounds(p);
                assert(p.len() == 1);
                assert(p[p.len() - 1] == s);
            }
            assert(self.dist_complete(dist@, s, budget as int, 0));
        }

        let mut round: u32 = 0;
        while round < budget
            invariant
                self.bounded(),
                n == self.data@.len(),
                dist@.len() == n,
                budget <= 0x7fff_ffff,
                round <= budget,
                0 <= s < n,
                self.dist_sound(dist@, s, budget as int),
                self.dist_complete(dist@, s, budget as int, round as int),
            decreases budget - round,
        {
            let ghost d0 = dist@;
            let mut a: usize = 0;
            while a < n
                invariant
                    self.bounded(),
                    n == self.data@.len(),
                    dist@.len() == n,
                    d0.len() == n,
                    budget <= 0x7fff_ffff,
                    0 <= s < n,
                    a <= n,
                    forall|i2: int| 0 <= i2 < n ==> (#[trigger] dist@[i2]) <= d0[i2],
                    forall|x: int, b: int|
                        #[trigger] self.adjacent(x, b) && 0 <= x < a && d0[x] + self.step_cost(
                            x,
                            b,
                        ) <= budget as int ==> dist@[b] <= d0[x] + self.step_cost(x, b),
                    self.dist_sound(dist@, s, budget as int),
                decreases n - a,
            {
                let da = dist[a];
                if da != u32::MAX {
                    let nbrs = self.surrounding_cells(Id::new(a));
                    let m = nbrs.len();
                    let mut k: usize = 0;
                    while k < m
                        invariant
                            self.bounded(),
                            n == self.data@.len(),
                            dist@.len() == n,
                            d0.len() == n,
                            budget <= 0x7fff_ffff,
                            0 <= s < n,
                            a < n,
                            k <= m,
                            m == nbrs@.len(),
                            da as int <= budget as int,
                            da as int <= d0[a as int],
                            exists|p: Seq<int>|
                                {
                                    &&& #[trigger] self.path_ok(p)
                                    &&& p[0] == s
                                    &&& p[p.len() - 1] == a as int
                                    &&& self.path_cost(p) <= da as int
                                },
                            forall|k2: int|
                                0 <= k2 < m ==> self.adjacent(
                                    a as int,
                                    (#[trigger] nbrs@[k2]).0 as int,
                                ),
                            forall|i2: int| 0 <= i2 < n ==> (#[trigger] dist@[i2]) <= d0[i2],
                            forall|x: int, b: int|
                                #[trigger] self.adjacent(x, b) && 0 <= x < a && d0[x]
                                    + self.step_cost(x, b) <= budget as int ==> dist@[b] <= d0[x]
                                    + self.step_cost(x, b),
                            forall|k2: int|
                                0 <= k2 < k && d0[a as int] + self.step_cost(
                                    a as int,
                                    (#[trigger] nbrs@[k2]).0 as int,
                                ) <= budget as int ==> dist@[nbrs@[k2].0 as int] <= d0[a as int]
                                    + self.step_cost(a as int, nbrs@[k2].0 as int),
                            self.dist_sound(dist@, s, budget as int),
                        decreases m - k,
                    {
                        let b = nbrs[k].raw();
                        proof {
                            assert(self.adjacent(a as int, b as int));
                        }
                        let ha = self.data[a].height;
                        let hb = self.data[b].height;
                        let climb: u64 = if hb > ha {
                            ((hb as i64) - (ha as i64)) as u64
                        } else {
                            0
                        };
                        let c: u64 = climb + 1;
                        proof {
                            assert(c as int == self.step_cost(a as int, b as int));
                        }
                        let nd: u64 = (da as u64) + c;
                        if nd <= (budget as u64) && nd < (dist[b] as u64) {
                            dist.set(b, nd as u32);
                            proof {
                                let pa = choose|p: Seq<int>|
                                    {
                                        &&& #[trigger] self.path_ok(p)
                                        &&& p[0] == s
                                        &&& p[p.len() - 1] == a as int
                                        &&& self.path_cost(p) <= da as int
                                    };
                                self.lemma_path_extend(pa, b as int);
                                let pb = pa.push(b as int);
                                assert(pb[pb.len() - 1] == b as int);
                                assert(self.path_cost(pb) <= nd as int);
                            }
                        }
                        k += 1;
                    }
                    proof {
                        assert forall|b: int|
                            self.adjacent(a as int, b) && d0[a as int] + self.step_cost(
                                a as int,
                                b,
                            ) <= budget as int implies dist@[b] <= d0[a as int] + self.step_cost(
                            a as int,
                            b,
                        ) by {
                            let k2 = choose|k2: int|
                                0 <= k2 < nbrs@.len() && (#[trigger] nbrs@[k2]).0 == b;
                            assert(nbrs@[k2].0 as int == b);
                        }
                    }
                } else {
                    proof {
                        assert(d0[a as int] == u32::MAX);
                    }
                }
                a += 1;
            }
            proof {
                self.lemma_relax_round(d0, dist@, s, budget as int, round as int);
            }
            round += 1;
        }

        let de = dist[end.raw()];
        proof {
            if de != u32::MAX {
                let p = choose|p: Seq<int>|
                    {
                        &&& #[trigger] self.path_ok(p)
                        &&& p[0] == s
                        &&& p[p.len() - 1] == e
                        &&& self.path_cost(p) <= de as int
                    };
                assert(self.path_cost(p) <= swiftness as int);
                assert(self.reachable_within(s, e, swiftness as int));
            } else {
                if self.reachable_within(s, e, swiftness as int) {
                    let p = choose|p: Seq<int>|
                        self.path_ok(p) && p[0] == s && p[p.len() - 1] == e && self.path_cost(p)
                            <= swiftness as int;
                    self.lemma_path_cost_bounds(p);
                    assert(p.len() - 1 <= budget as int);
                    assert(dist@[e] <= self.path_cost(p));
                    assert(false);
                }
            }
        }
        de != u32::MAX
    }
}

impl GameMap {
    /// The geometric range predicate between an origin and a candidate
    /// cell, with inclusive `[min, max]` bounds on the shape's measure.
    /// `Square` bounds the horizontal delta by its absolute value but the
    /// vertical delta as a signed value, exactly as authored.
    pub open spec fn range_matches_spec(self, start: int, end: int, range: Range) -> bool {
        let dx = self.cell_x(start) - self.cell_x(end);
        let dy = self.cell_y(start) - self.cell_y(end);
        match range.kind {
            RangeKind::Star => range.min <= self.manhattan(start, end) <= range.max,
            RangeKind::Cross => {
                ||| dx == 0 && range.min <= abs(dy) <= range.max
                ||| dy == 0 && range.min <= abs(dx) <= range.max
            },
            RangeKind::Square => {
                &&& range.min <= abs(dx) <= range.max
                &&& range.min <= dy <= range.max
            },
        }
    }

    /// Whether the candidate cell lies in the skill range anchored at
    /// `start`.
    pub fn range_matches(&self, start: CellId, end: CellId, range: &Range) -> (r: bool)
        requires
            self.bounded(),
            start.0 < self.data@.len(),
            end.0 < self.data@.len(),
            range.min <= 0x7fff_ffff,
            range.max <= 0x7fff_ffff,
        ensures
            r == self.range_matches_spec(start.0 as int, end.0 as int, *range),
    {
        match range.kind {
            RangeKind::Star => {
                let d = self.distance(start, end);
                d <= range.max && d >= range.min
            },
            RangeKind::Cross => {
                proof {
                    self.lemma_cell_at_of_coordinates(start.0 as int);
                    self.lemma_cell_at_of_coordinates(end.0 as int);
                }
                let (sx, sy) = self.id_to_xy_i32(start);
                let (ex, ey) = self.id_to_xy_i32(end);
                let dx = sx - ex;
                let dy = sy - ey;
                let adx = if dx < 0 {
                    -dx
                } else {
                    dx
                };
                let ady = if dy < 0 {
                    -dy
                } else {
                    dy
                };
                let max = range.max as i32;
                let min = range.min as i32;
                dx == 0 && ady <= max && ady >= min || dy == 0 && adx <= max && adx >= min
            },
            RangeKind::Square => {
                proof {
                    self.lemma_cell_at_of_coordinates(start.0 as int);
                    self.lemma_cell_at_of_coordinates(end.0 as int);
                }
                let (sx, sy) = self.id_to_xy_i32(start);
                let (ex, ey) = self.id_to_xy_i32(end);
                let dx = sx - ex;
                let dy = sy - ey;
                let adx = if dx < 0 {
                    -dx
                } else {
                    dx
                };
                let max = range.max as i32;
                let min = range.min as i32;
                adx <= max && adx >= min && dy >= min && dy <= max
            },
        }
    }
}

} // verus!
