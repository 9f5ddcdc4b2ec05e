use vstd::prelude::*;

use vstd::arithmetic::div_mod::{lemma_fundamental_div_mod, lemma_mod_multiples_vanish, lemma_small_mod};

use crate::chance::SCALE;
use crate::model::ModelError;
use crate::params::{ConfigError, ModelParams};
use crate::random::{draw_below, PRng};
use crate::util::Size;

verus! {

/// One grid site: empty, or an animal of the species with the given id.
#[derive(Copy, Clone, Debug, PartialEq, Eq, Structural)]
pub enum Cell {
    Empty,
    Animal(u32),
}

/// A direction, and the wedge of a neighborhood that lies in that direction.
#[derive(Copy, Clone, Debug, PartialEq, Eq, Structural)]
pub enum Quadrant {
    West,
    North,
    East,
    South,
}

impl Cell {
    /// The id of the species in the cell, 0 for an empty cell.
    pub open spec fn specie(self) -> u32 {
        match self {
            Cell::Empty => 0,
            Cell::Animal(id) => id,
        }
    }

    pub fn specie_id(&self) -> (id: u32)
        ensures
            id == self.specie(),
    {
        match self {
            Cell::Empty => 0,
            Cell::Animal(id) => *id,
        }
    }
}

impl Quadrant {
    /// The offset of one step in this direction; `y` grows southward.
    pub open spec fn offset(self) -> (int, int) {
        match self {
            Quadrant::East => (1, 0),
            Quadrant::North => (0, -1),
            Quadrant::West => (-1, 0),
            Quadrant::South => (0, 1),
        }
    }

    /// The direction that leads back.
    pub open spec fn opposite(self) -> Quadrant {
        match self {
            Quadrant::East => Quadrant::West,
            Quadrant::North => Quadrant::South,
            Quadrant::West => Quadrant::East,
            Quadrant::South => Quadrant::North,
        }
    }

    /// Whether the offset `(i, j)` lies in this wedge. The diagonals belong to
    /// both wedges that they bound.
    pub open spec fn holds(self, i: int, j: int) -> bool {
        match self {
            Quadrant::East => i > 0 && -i <= j <= i,
            Quadrant::North => j < 0 && j <= i <= -j,
            Quadrant::West => i < 0 && i <= j <= -i,
            Quadrant::South => j > 0 && -j <= i <= j,
        }
    }

    pub fn contains_offset(&self, i: i64, j: i64) -> (b: bool)
        requires
            i > i64::MIN,
            j > i64::MIN,
        ensures
            b == self.holds(i as int, j as int),
    {
        match self {
            Quadrant::East => i > 0 && -i <= j && j <= i,
            Quadrant::North => j < 0 && j <= i && i <= -j,
            Quadrant::West => i < 0 && i <= j && j <= -i,
            Quadrant::South => j > 0 && -j <= i && i <= j,
        }
    }
}

/// The wedges cover every offset but `(0, 0)`, which lies in none. An offset
/// on a diagonal lies in the two wedges that the diagonal bounds, and every
/// other offset in one wedge alone.
pub proof fn lemma_wedges_cover(i: int, j: int)
    ensures
        (i == 0 && j == 0) <==> !(Quadrant::East.holds(i, j) || Quadrant::North.holds(i, j)
            || Quadrant::West.holds(i, j) || Quadrant::South.holds(i, j)),
        !(Quadrant::East.holds(i, j) && Quadrant::West.holds(i, j)),
        !(Quadrant::North.holds(i, j) && Quadrant::South.holds(i, j)),
        (Quadrant::East.holds(i, j) || Quadrant::West.holds(i, j)) && (Quadrant::North.holds(i, j)
            || Quadrant::South.holds(i, j)) <==> (i == j || i == -j) && i != 0,
{
}

/// Whether the offset `(i, j)` passes the optional wedge filter.
pub open spec fn in_quadrant(q: Option<Quadrant>, i: int, j: int) -> bool {
    match q {
        None => true,
        Some(quadrant) => quadrant.holds(i, j),
    }
}

/// How often `c` occurs in `cells`.
pub open spec fn count_of(cells: Seq<Cell>, c: Cell) -> nat
    decreases cells.len(),
{
    if cells.len() == 0 {
        0
    } else {
        count_of(cells.drop_last(), c) + if cells.last() == c {
            1nat
        } else {
            0nat
        }
    }
}

pub proof fn lemma_count_push(cells: Seq<Cell>, x: Cell, c: Cell)
    ensures
        count_of(cells.push(x), c) == count_of(cells, c) + if x == c {
            1nat
        } else {
            0nat
        },
{
    assert(cells.push(x).drop_last() =~= cells);
}

pub proof fn lemma_count_bounded(cells: Seq<Cell>, c: Cell)
    ensures
        count_of(cells, c) <= cells.len(),
    decreases cells.len(),
{
    if cells.len() > 0 {
        lemma_count_bounded(cells.drop_last(), c);
    }
}

/// A value occurs in a sequence exactly when its count is positive.
pub proof fn lemma_count_positive(cells: Seq<Cell>, c: Cell)
    ensures
        count_of(cells, c) > 0 <==> cells.contains(c),
    decreases cells.len(),
{
    if cells.len() > 0 {
        lemma_count_positive(cells.drop_last(), c);
        if cells.last() == c {
            assert(cells[cells.len() - 1] == c);
        } else if cells.contains(c) {
            let k = choose|k: int| 0 <= k < cells.len() && cells[k] == c;
            assert(cells.drop_last()[k] == c);
        } else if cells.drop_last().contains(c) {
            let k = choose|k: int| 0 <= k < cells.drop_last().len() && cells.drop_last()[k] == c;
            assert(cells[k] == c);
        }
    }
}

/// Writing `x` at index `k` moves one occurrence from the old value to `x`.
pub proof fn lemma_count_update(cells: Seq<Cell>, k: int, x: Cell, c: Cell)
    requires
        0 <= k < cells.len(),
    ensures
        count_of(cells.update(k, x), c) + (if cells[k] == c {
            1nat
        } else {
            0nat
        }) == count_of(cells, c) + if x == c {
            1nat
        } else {
            0nat
        },
    decreases cells.len(),
{
    let updated = cells.update(k, x);
    if k == cells.len() - 1 {
        assert(updated.drop_last() =~= cells.drop_last());
    } else {
        lemma_count_update(cells.drop_last(), k, x, c);
        assert(updated.drop_last() =~= cells.drop_last().update(k, x));
    }
}

/// A cell index in row-major order lies inside the storage.
pub proof fn lemma_index_in_range(w: int, h: int, x: int, y: int)
    requires
        0 <= x < w,
        0 <= y < h,
    ensures
        0 <= x + y * w < w * h,
        0 <= y * w <= w * h - w,
{
    assert(y * w <= (h - 1) * w) by (nonlinear_arith)
        requires
            0 <= y <= h - 1,
            0 <= w,
    ;
    assert((h - 1) * w == w * h - w) by (nonlinear_arith);
}

/// Two different coordinates have different row-major indices.
pub proof fn lemma_index_injective(w: int, x1: int, y1: int, x2: int, y2: int)
    requires
        0 <= x1 < w,
        0 <= x2 < w,
        x1 + y1 * w == x2 + y2 * w,
    ensures
        x1 == x2,
        y1 == y2,
{
    if y1 < y2 {
        assert(y2 * w - y1 * w >= w) by (nonlinear_arith)
            requires
                y1 < y2,
                0 < w,
        ;
    } else if y2 < y1 {
        assert(y1 * w - y2 * w >= w) by (nonlinear_arith)
            requires
                y2 < y1,
                0 < w,
        ;
    }
}

/// The coordinate that lies `shift - r` steps from `p` on a ring of `len`
/// places.
fn ring_coordinate(p: u32, shift: u64, r: u32, len: u32) -> (res: u32)
    requires
        len > 0,
        p < len,
        shift <= 2 * (r as int),
    ensures
        res == (p + shift - r) % (len as int),
        res < len,
{
    let rest: u32 = r % len;
    let total: u64 = p as u64 + shift + (len - rest) as u64;
    proof {
        let q: int = (r as int) / (len as int);
        let b: int = p + shift - r;
        lemma_fundamental_div_mod(r as int, len as int);
        assert((len as int) * (q + 1) == (len as int) * q + len) by (nonlinear_arith);
        lemma_mod_multiples_vanish(q + 1, b, len as int);
    }
    (total % (len as u64)) as u32
}

/// On a ring of `len` places, a step of `i` from `p` and a step of `-i` from
/// there lead back to `p`.
pub proof fn lemma_ring_back(p: int, i: int, len: int)
    requires
        0 <= p < len,
    ensures
        0 <= (p + i) % len < len,
        ((p + i) % len - i) % len == p,
{
    let d = (p + i) / len;
    lemma_fundamental_div_mod(p + i, len);
    assert(len * (-d) == -(len * d)) by (nonlinear_arith);
    lemma_mod_multiples_vanish(-d, p, len);
    lemma_small_mod(p as nat, len as nat);
}

/// A rectangle of cells in row-major order, with its edge policy: with
/// `wrap` the grid is a torus, without it the neighbors beyond an edge are
/// missing.
#[derive(Clone, Debug)]
pub struct Grid {
    size: Size,
    wrap: bool,
    cells: Vec<Cell>,
}

impl View for Grid {
    type V = Seq<Cell>;

    closed spec fn view(&self) -> Seq<Cell> {
        self.cells@
    }
}

impl Grid {
    pub closed spec fn dims(&self) -> Size {
        self.size
    }

    pub closed spec fn wraps(&self) -> bool {
        self.wrap
    }

    /// The storage holds one cell for each coordinate.
    pub open spec fn wf(&self) -> bool {
        self@.len() == self.dims().area()
    }

    pub open spec fn in_bounds(&self, x: int, y: int) -> bool {
        0 <= x < self.dims().w && 0 <= y < self.dims().h
    }

    pub open spec fn index_of(&self, x: int, y: int) -> int {
        x + y * self.dims().w
    }

    pub open spec fn cell_at(&self, x: int, y: int) -> Cell {
        self@[self.index_of(x, y)]
    }

    /// Whether the neighbor at offset `(i, j)` of `(x, y)` belongs to the
    /// neighborhood filtered by `q`.
    pub open spec fn senses(&self, x: int, y: int, i: int, j: int, q: Option<Quadrant>) -> bool {
        &&& (i != 0 || j != 0)
        &&& in_quadrant(q, i, j)
        &&& (self.wraps() || self.in_bounds(x + i, y + j))
    }

    /// The cell at offset `(i, j)` of `(x, y)`, looked up on the torus.
    pub open spec fn wrapped(&self, x: int, y: int, i: int, j: int) -> Cell {
        self.cell_at((x + i) % (self.dims().w as int), (y + j) % (self.dims().h as int))
    }

    /// The sensed neighbors at the offsets `(i, -r), .., (i, -r + m - 1)`.
    pub open spec fn moore_column(
        &self,
        x: int,
        y: int,
        r: int,
        q: Option<Quadrant>,
        i: int,
        m: nat,
    ) -> Seq<Cell>
        decreases m,
    {
        if m == 0 {
            Seq::empty()
        } else {
            let rest = self.moore_column(x, y, r, q, i, (m - 1) as nat);
            let j = m - 1 - r;
            if self.senses(x, y, i, j, q) {
                rest.push(self.wrapped(x, y, i, j))
            } else {
                rest
            }
        }
    }

    /// The sensed neighbors of the first `c` columns, from offset `-r` on.
    pub open spec fn moore_columns(
        &self,
        x: int,
        y: int,
        r: int,
        q: Option<Quadrant>,
        c: nat,
    ) -> Seq<Cell>
        decreases c,
    {
        if c == 0 {
            Seq::empty()
        } else {
            self.moore_columns(x, y, r, q, (c - 1) as nat) + self.moore_column(
                x,
                y,
                r,
                q,
                c - 1 - r,
                (2 * r + 1) as nat,
            )
        }
    }

    /// The Moore neighborhood of `(x, y)` with radius `r`: the cells at the
    /// offsets `(i, j)` with `-r <= i, j <= r` other than `(0, 0)`, column by
    /// column, restricted to the wedge `q` if one is given.
    pub open spec fn moore(&self, x: int, y: int, r: int, q: Option<Quadrant>) -> Seq<Cell> {
        self.moore_columns(x, y, r, q, (2 * r + 1) as nat)
    }

    /// The coordinate one step from `(x, y)` in direction `q`, if the edge
    /// policy gives one.
    pub open spec fn step(&self, x: int, y: int, q: Quadrant) -> Option<(int, int)> {
        let (i, j) = q.offset();
        if self.wraps() {
            Some(((x + i) % (self.dims().w as int), (y + j) % (self.dims().h as int)))
        } else if self.in_bounds(x + i, y + j) {
            Some((x + i, y + j))
        } else {
            None
        }
    }

    /// The neighbor one step in direction `q`, as a sequence of length 0 or 1.
    pub open spec fn neighbor(&self, x: int, y: int, q: Quadrant) -> Seq<Cell> {
        match self.step(x, y, q) {
            Some((a, b)) => seq![self.cell_at(a, b)],
            None => Seq::empty(),
        }
    }

    /// The Von Neumann neighborhood of radius 1: west, north, east, south.
    pub open spec fn von_neumann(&self, x: int, y: int) -> Seq<Cell> {
        self.neighbor(x, y, Quadrant::West) + self.neighbor(x, y, Quadrant::North) + self.neighbor(
            x,
            y,
            Quadrant::East,
        ) + self.neighbor(x, y, Quadrant::South)
    }

    /// How many cells hold an animal.
    pub open spec fn animal_count(&self) -> int {
        self@.len() - count_of(self@, Cell::Empty)
    }

    /// A grid never holds more animals than it has cells.
    pub proof fn lemma_mass_bounded(&self)
        requires
            self.wf(),
        ensures
            0 <= self.animal_count() <= self.dims().area(),
    {
        lemma_count_bounded(self@, Cell::Empty);
    }

    /// Every coordinate has its place in the storage, and no two share one.
    pub proof fn lemma_indices(&self, a: int, b: int, x: int, y: int)
        requires
            self.wf(),
            self.in_bounds(a, b),
            self.in_bounds(x, y),
        ensures
            0 <= self.index_of(a, b) < self@.len(),
            self.index_of(a, b) == self.index_of(x, y) ==> a == x && b == y,
    {
        lemma_index_in_range(self.dims().w as int, self.dims().h as int, a, b);
        if self.index_of(a, b) == self.index_of(x, y) {
            lemma_index_injective(self.dims().w as int, a, b, x, y);
        }
    }

    /// One step forth and one step back end where they began.
    pub proof fn lemma_step_back(&self, x: int, y: int, q: Quadrant, a: int, b: int)
        requires
            self.in_bounds(x, y),
            self.step(x, y, q) == Some((a, b)),
        ensures
            self.in_bounds(a, b),
            self.step(a, b, q.opposite()) == Some((x, y)),
    {
        let w = self.dims().w as int;
        let h = self.dims().h as int;
        let (i, j) = q.offset();
        if self.wraps() {
            lemma_ring_back(x, i, w);
            lemma_ring_back(y, j, h);
        }
    }

    /// A column of the Moore neighborhood holds the cell at every sensed
    /// offset that it reaches.
    pub proof fn lemma_column_holds(
        &self,
        x: int,
        y: int,
        r: int,
        q: Option<Quadrant>,
        i: int,
        m: nat,
        j: int,
    )
        requires
            0 <= j + r < m,
            self.senses(x, y, i, j, q),
        ensures
            self.moore_column(x, y, r, q, i, m).contains(self.wrapped(x, y, i, j)),
        decreases m,
    {
        let rest = self.moore_column(x, y, r, q, i, (m - 1) as nat);
        let all = self.moore_column(x, y, r, q, i, m);
        let c = self.wrapped(x, y, i, j);
        if j == m - 1 - r {
            assert(all[rest.len() as int] == c);
        } else {
            self.lemma_column_holds(x, y, r, q, i, (m - 1) as nat, j);
            let k = choose|k: int| 0 <= k < rest.len() && rest[k] == c;
            assert(all[k] == c);
        }
    }

    /// The Moore neighborhood holds the cell at every sensed offset within
    /// its radius.
    pub proof fn lemma_moore_holds(&self, x: int, y: int, r: int, q: Option<Quadrant>, i: int, j: int)
        requires
            -r <= i <= r,
            -r <= j <= r,
            self.senses(x, y, i, j, q),
        ensures
            self.moore(x, y, r, q).contains(self.wrapped(x, y, i, j)),
    {
        self.lemma_columns_hold(x, y, r, q, (2 * r + 1) as nat, i, j);
    }

    /// The first `c` columns of the Moore neighborhood hold the cell at
    /// every sensed offset that they reach.
    pub proof fn lemma_columns_hold(
        &self,
        x: int,
        y: int,
        r: int,
        q: Option<Quadrant>,
        c: nat,
        i: int,
        j: int,
    )
        requires
            0 <= i + r < c,
            -r <= j <= r,
            self.senses(x, y, i, j, q),
        ensures
            self.moore_columns(x, y, r, q, c).contains(self.wrapped(x, y, i, j)),
        decreases c,
    {
        let before = self.moore_columns(x, y, r, q, (c - 1) as nat);
        let column = self.moore_column(x, y, r, q, c - 1 - r, (2 * r + 1) as nat);
        let all = self.moore_columns(x, y, r, q, c);
        let cell = self.wrapped(x, y, i, j);
        if i == c - 1 - r {
            self.lemma_column_holds(x, y, r, q, i, (2 * r + 1) as nat, j);
            let k = choose|k: int| 0 <= k < column.len() && column[k] == cell;
            assert(all[before.len() + k] == cell);
        } else {
            self.lemma_columns_hold(x, y, r, q, (c - 1) as nat, i, j);
            let k = choose|k: int| 0 <= k < before.len() && before[k] == cell;
            assert(all[k] == cell);
        }
    }

    /// Every Von Neumann neighbor is among the Moore neighbors of radius 1.
    pub proof fn lemma_von_neumann_in_moore(&self, x: int, y: int, q: Quadrant, a: int, b: int)
        requires
            self.in_bounds(x, y),
            self.step(x, y, q) == Some((a, b)),
        ensures
            self.moore(x, y, 1, None).contains(self.cell_at(a, b)),
    {
        let (i, j) = q.offset();
        if !self.wraps() {
            lemma_small_mod((x + i) as nat, self.dims().w as nat);
            lemma_small_mod((y + j) as nat, self.dims().h as nat);
        }
        self.lemma_moore_holds(x, y, 1, None, i, j);
    }

    /// The cell one step away is among the Von Neumann neighbors.
    pub proof fn lemma_neighbor_sensed(&self, x: int, y: int, q: Quadrant, a: int, b: int)
        requires
            self.step(x, y, q) == Some((a, b)),
        ensures
            self.von_neumann(x, y).contains(self.cell_at(a, b)),
    {
        let west = self.neighbor(x, y, Quadrant::West);
        let north = self.neighbor(x, y, Quadrant::North);
        let east = self.neighbor(x, y, Quadrant::East);
        let all = self.von_neumann(x, y);
        let c = self.cell_at(a, b);
        match q {
            Quadrant::West => {
                assert(all[0] == c);
            },
            Quadrant::North => {
                assert(all[west.len() as int] == c);
            },
            Quadrant::East => {
                assert(all[(west.len() + north.len()) as int] == c);
            },
            Quadrant::South => {
                assert(all[(west.len() + north.len() + east.len()) as int] == c);
            },
        }
    }

    /// A grid of empty cells whose edges are closed.
    pub fn new(size: Size) -> (g: Grid)
        requires
            size.area() <= usize::MAX,
        ensures
            g.dims() == size,
            !g.wraps(),
            g.wf(),
            forall|k: int| 0 <= k < g@.len() ==> g@[k] == Cell::Empty,
    {
        Grid::with_edge_policy(size, false)
    }

    /// A grid of empty cells with the given edge policy.
    pub fn with_edge_policy(size: Size, wrap: bool) -> (g: Grid)
        requires
            size.area() <= usize::MAX,
        ensures
            g.dims() == size,
            g.wraps() == wrap,
            g.wf(),
            forall|k: int| 0 <= k < g@.len() ==> g@[k] == Cell::Empty,
    {
        let ghost area = size.area();
        assert(area == (size.w as int) * (size.h as int)) by (nonlinear_arith)
            requires
                area == ((size.w as nat) * (size.h as nat)),
        ;
        let n: usize = (size.w as usize) * (size.h as usize);
        let mut cells: Vec<Cell> = Vec::new();
        let mut k: usize = 0;
        while k < n
            invariant
                k <= n,
                cells@.len() == k,
                forall|m: int| 0 <= m < k ==> cells@[m] == Cell::Empty,
            decreases n - k,
        {
            cells.push(Cell::Empty);
            k = k + 1;
        }
        Grid { size, wrap, cells }
    }

    /// The number of cells.
    pub fn cell_count(&self) -> (n: usize)
        ensures
            n == self@.len(),
    {
        self.cells.len()
    }

    pub fn get_size(&self) -> (s: Size)
        ensures
            s == self.dims(),
    {
        self.size
    }

    pub fn edge_wrap(&self) -> (b: bool)
        ensures
            b == self.wraps(),
    {
        self.wrap
    }

    /// The place of `(x, y)` in the row-major storage.
    pub fn cell_index(&self, x: u32, y: u32) -> (index: usize)
        requires
            self.wf(),
            self.in_bounds(x as int, y as int),
        ensures
            index == self.index_of(x as int, y as int),
            index < self@.len(),
    {
        let len: usize = self.cells.len();
        proof {
            lemma_index_in_range(self.size.w as int, self.size.h as int, x as int, y as int);
        }
        let row: usize = y as usize * self.size.w as usize;
        x as usize + row
    }

    pub fn get_cell_at(&self, x: u32, y: u32) -> (c: &Cell)
        requires
            self.wf(),
            self.in_bounds(x as int, y as int),
        ensures
            *c == self.cell_at(x as int, y as int),
            self@.contains(*c),
    {
        let index: usize = self.cell_index(x, y);
        &self.cells[index]
    }

    pub fn set_cell_at(&mut self, x: u32, y: u32, cell: Cell)
        requires
            old(self).wf(),
            old(self).in_bounds(x as int, y as int),
        ensures
            final(self).dims() == old(self).dims(),
            final(self).wraps() == old(self).wraps(),
            final(self).wf(),
            final(self)@ == old(self)@.update(old(self).index_of(x as int, y as int), cell),
            0 <= old(self).index_of(x as int, y as int) < old(self)@.len(),
            final(self).cell_at(x as int, y as int) == cell,
            forall|a: int, b: int|
                old(self).in_bounds(a, b) && (a != x || b != y) ==> #[trigger] final(self).cell_at(a, b)
                    == old(self).cell_at(a, b),
    {
        let index: usize = self.cell_index(x, y);
        self.cells.set(index, cell);
        proof {
            assert forall|a: int, b: int|
                old(self).in_bounds(a, b) && (a != x || b != y) implies #[trigger] self.cell_at(a, b)
                    == old(self).cell_at(a, b) by {
                if a + b * (self.size.w as int) == x + y * (self.size.w as int) {
                    lemma_index_injective(self.size.w as int, a, b, x as int, y as int);
                }
                lemma_index_in_range(self.size.w as int, self.size.h as int, a, b);
            }
        }
    }

    /// A grid of empty cells with the same size and edge policy.
    pub fn empty_like(&self) -> (g: Grid)
        requires
            self.wf(),
        ensures
            g.dims() == self.dims(),
            g.wraps() == self.wraps(),
            g.wf(),
            forall|k: int| 0 <= k < g@.len() ==> g@[k] == Cell::Empty,
    {
        let n: usize = self.cells.len();
        let mut cells: Vec<Cell> = Vec::new();
        let mut k: usize = 0;
        while k < n
            invariant
                k <= n,
                cells@.len() == k,
                forall|m: int| 0 <= m < k ==> cells@[m] == Cell::Empty,
            decreases n - k,
        {
            cells.push(Cell::Empty);
            k = k + 1;
        }
        Grid { size: self.size, wrap: self.wrap, cells }
    }

    /// A grid with the same size, edge policy and cells.
    pub fn copy(&self) -> (g: Grid)
        ensures
            g.dims() == self.dims(),
            g.wraps() == self.wraps(),
            g@ == self@,
    {
        let mut cells: Vec<Cell> = Vec::new();
        let mut k: usize = 0;
        while k < self.cells.len()
            invariant
                k <= self.cells@.len(),
                cells@ == self.cells@.take(k as int),
            decreases self.cells@.len() - k,
        {
            cells.push(self.cells[k]);
            k = k + 1;
        }
        Grid { size: self.size, wrap: self.wrap, cells }
    }

    /// The coordinate one step from `(x, y)` in direction `q`, under the
    /// grid's edge policy.
    pub fn step_toward(&self, x: u32, y: u32, q: Quadrant) -> (target: Option<(u32, u32)>)
        requires
            self.wf(),
            self.in_bounds(x as int, y as int),
        ensures
            match target {
                Some((a, b)) => self.step(x as int, y as int, q) == Some((a as int, b as int))
                    && self.in_bounds(a as int, b as int),
                None => self.step(x as int, y as int, q) is None,
            },
    {
        let (shift_x, shift_y): (u64, u64) = match q {
            Quadrant::East => (2, 1),
            Quadrant::North => (1, 0),
            Quadrant::West => (0, 1),
            Quadrant::South => (1, 2),
        };
        if self.wrap {
            let a: u32 = ring_coordinate(x, shift_x, 1, self.size.w);
            let b: u32 = ring_coordinate(y, shift_y, 1, self.size.h);
            Some((a, b))
        } else {
            let a: u64 = x as u64 + shift_x;
            let b: u64 = y as u64 + shift_y;
            if a >= 1 && a - 1 < self.size.w as u64 && b >= 1 && b - 1 < self.size.h as u64 {
                Some(((a - 1) as u32, (b - 1) as u32))
            } else {
                None
            }
        }
    }

    /// Appends the neighbor one step in direction `q`, if there is one.
    fn push_neighbor(&self, out: &mut Vec<Cell>, x: u32, y: u32, q: Quadrant)
        requires
            self.wf(),
            self.in_bounds(x as int, y as int),
        ensures
            final(out)@ == old(out)@ + self.neighbor(x as int, y as int, q),
            final(out)@.len() <= old(out)@.len() + 1,
            forall|k: int| old(out)@.len() <= k < final(out)@.len() ==> self@.contains(final(out)@[k]),
    {
        match self.step_toward(x, y, q) {
            Some((a, b)) => {
                out.push(*self.get_cell_at(a, b));
            },
            None => {
            },
        }
    }

    /// The Von Neumann neighborhood of `(x, y)` with radius 1.
    pub fn von_neumann_neighborhood_r1(&self, x: u32, y: u32) -> (neighbors: Vec<Cell>)
        requires
            self.wf(),
            self.in_bounds(x as int, y as int),
        ensures
            neighbors@ == self.von_neumann(x as int, y as int),
            neighbors@.len() <= 4,
            forall|k: int| 0 <= k < neighbors@.len() ==> self@.contains(#[trigger] neighbors@[k]),
    {
        let mut neighbors: Vec<Cell> = Vec::new();
        self.push_neighbor(&mut neighbors, x, y, Quadrant::West);
        self.push_neighbor(&mut neighbors, x, y, Quadrant::North);
        self.push_neighbor(&mut neighbors, x, y, Quadrant::East);
        self.push_neighbor(&mut neighbors, x, y, Quadrant::South);
        neighbors
    }

    /// The Moore neighborhood of `(x, y)` with the given radius, restricted
    /// to a wedge if one is given.
    pub fn moore_neighborhood(&self, x: u32, y: u32, radius: u32, quadrant: Option<Quadrant>) -> (neighbors:
        Vec<Cell>)
        requires
            self.wf(),
            self.in_bounds(x as int, y as int),
        ensures
            neighbors@ == self.moore(x as int, y as int, radius as int, quadrant),
            neighbors@.len() <= (2 * radius + 1) * (2 * radius + 1),
            forall|k: int| 0 <= k < neighbors@.len() ==> self@.contains(#[trigger] neighbors@[k]),
    {
        let side: u64 = 2 * (radius as u64) + 1;
        let mut neighbors: Vec<Cell> = Vec::new();
        let mut ci: u64 = 0;
        while ci < side
            invariant
                self.wf(),
                self.in_bounds(x as int, y as int),
                side == 2 * (radius as int) + 1,
                ci <= side,
                neighbors@ == self.moore_columns(x as int, y as int, radius as int, quadrant, ci as nat),
                neighbors@.len() <= ci * side,
                forall|k: int| 0 <= k < neighbors@.len() ==> self@.contains(#[trigger] neighbors@[k]),
            decreases side - ci,
        {
            let ghost before = neighbors@;
            let i: i64 = ci as i64 - radius as i64;
            let mut cj: u64 = 0;
            while cj < side
                invariant
                    self.wf(),
                    self.in_bounds(x as int, y as int),
                    side == 2 * (radius as int) + 1,
                    ci < side,
                    cj <= side,
                    i == ci - radius,
                    neighbors@.len() <= ci * side + cj,
                    forall|k: int| 0 <= k < neighbors@.len() ==> self@.contains(#[trigger] neighbors@[k]),
                    neighbors@ == before + self.moore_column(
                        x as int,
                        y as int,
                        radius as int,
                        quadrant,
                        i as int,
                        cj as nat,
                    ),
                decreases side - cj,
            {
                let j: i64 = cj as i64 - radius as i64;
                let inside: bool = (i != 0 || j != 0) && match quadrant {
                    None => true,
                    Some(wedge) => wedge.contains_offset(i, j),
                };
                if inside {
                    if self.wrap {
                        let a: u32 = ring_coordinate(x, ci, radius, self.size.w);
                        let b: u32 = ring_coordinate(y, cj, radius, self.size.h);
                        let c: Cell = *self.get_cell_at(a, b);
                        neighbors.push(c);
                    } else {
                        let a: i64 = x as i64 + i;
                        let b: i64 = y as i64 + j;
                        if 0 <= a && a < self.size.w as i64 && 0 <= b && b < self.size.h as i64 {
                            proof {
                                lemma_small_mod(a as nat, self.size.w as nat);
                                lemma_small_mod(b as nat, self.size.h as nat);
                            }
                            let c: Cell = *self.get_cell_at(a as u32, b as u32);
                            neighbors.push(c);
                        }
                    }
                }
                cj = cj + 1;
            }
            proof {
                assert((ci + 1) * side == ci * side + side) by (nonlinear_arith);
            }
            ci = ci + 1;
        }
        neighbors
    }

    /// The cell at a row-major index.
    pub fn get_cell(&self, index: usize) -> (c: Cell)
        requires
            index < self@.len(),
        ensures
            c == self@[index as int],
    {
        self.cells[index]
    }

    /// Writes the cell at a row-major index.
    pub fn set_cell(&mut self, index: usize, cell: Cell)
        requires
            index < old(self)@.len(),
        ensures
            final(self).dims() == old(self).dims(),
            final(self).wraps() == old(self).wraps(),
            final(self)@ == old(self)@.update(index as int, cell),
    {
        self.cells.set(index, cell);
    }

    /// The species id of every cell in row-major order, 0 for an empty cell.
    pub fn get_cell_specie_ids(&self) -> (ids: Vec<u32>)
        ensures
            ids@.len() == self@.len(),
            forall|k: int| 0 <= k < ids@.len() ==> ids@[k] == self@[k].specie(),
    {
        let mut ids: Vec<u32> = Vec::new();
        let mut k: usize = 0;
        while k < self.cells.len()
            invariant
                k <= self.cells@.len(),
                ids@.len() == k,
                forall|m: int| 0 <= m < k ==> ids@[m] == self.cells@[m].specie(),
            decreases self.cells@.len() - k,
        {
            ids.push(self.cells[k].specie_id());
            k = k + 1;
        }
        ids
    }

    /// How many cells hold an animal.
    pub fn count_animals(&self) -> (n: usize)
        ensures
            n == self.animal_count(),
    {
        let empty: usize = self.count_cells(Cell::Empty);
        proof {
            lemma_count_bounded(self@, Cell::Empty);
        }
        self.cells.len() - empty
    }

    /// How many cells hold `c`.
    pub fn count_cells(&self, c: Cell) -> (n: usize)
        ensures
            n == count_of(self@, c),
    {
        let mut n: usize = 0;
        let mut k: usize = 0;
        while k < self.cells.len()
            invariant
                k <= self.cells@.len(),
                n == count_of(self.cells@.take(k as int), c),
                n <= k,
            decreases self.cells@.len() - k,
        {
            proof {
                assert(self.cells@.take(k as int + 1) =~= self.cells@.take(k as int).push(
                    self.cells@[k as int],
                ));
                lemma_count_push(self.cells@.take(k as int), self.cells@[k as int], c);
            }
            if self.cells[k] == c {
                n = n + 1;
            }
            k = k + 1;
        }
        proof {
            assert(self.cells@.take(k as int) =~= self.cells@);
        }
        n
    }
}

/// How many cells a species with the given share of the grid is seeded
/// with: the share of the number of cells, rounded down.
pub open spec fn target_population(share: u32, size: Size) -> nat {
    ((share as nat) * size.area()) / (SCALE as nat)
}

/// How many cells the first `n` species are seeded with in all.
pub open spec fn demand(params: &ModelParams, size: Size, n: nat) -> nat
    decreases n,
{
    if n == 0 {
        0
    } else {
        demand(params, size, (n - 1) as nat) + target_population(
            params.species@[n - 1].1.initial_population,
            size,
        )
    }
}

/// The retry budget for seeding one species: this many draws of a cell for
/// each animal to place.
pub const SEEDING_ATTEMPTS: u64 = 16;

/// The cells after the first `n` of the drawn coordinates were tried for
/// the species `id`, and how many animals were placed: a drawn cell takes
/// an animal if it is empty, and stays as it is if it is not.
pub open spec fn tried(grid: &Grid, cells: Seq<Cell>, id: u32, draws: Seq<(u32, u32)>, n: nat) -> (
    Seq<Cell>,
    nat,
)
    decreases n,
{
    if n == 0 {
        (cells, 0nat)
    } else {
        let (before, placed) = tried(grid, cells, id, draws, (n - 1) as nat);
        let index = grid.index_of(draws[n - 1].0 as int, draws[n - 1].1 as int);
        if before[index] == Cell::Empty {
            (before.update(index, Cell::Animal(id)), placed + 1)
        } else {
            (before, placed)
        }
    }
}

/// Whether `draws` are all the coordinates that are drawn for one species
/// with the given target on `cells`: each lies on the grid, and the drawing
/// goes on until the target is placed or `SEEDING_ATTEMPTS` draws for each
/// animal of the target are made, and no further.
pub open spec fn draws_complete(
    grid: &Grid,
    cells: Seq<Cell>,
    id: u32,
    target: nat,
    draws: Seq<(u32, u32)>,
) -> bool {
    &&& forall|m: int|
        0 <= m < draws.len() ==> grid.in_bounds((#[trigger] draws[m]).0 as int, draws[m].1 as int)
    &&& draws.len() <= SEEDING_ATTEMPTS * target
    &&& forall|m: nat| m < draws.len() ==> (#[trigger] tried(grid, cells, id, draws, m)).1 < target
    &&& (tried(grid, cells, id, draws, draws.len()).1 == target || draws.len() == SEEDING_ATTEMPTS
        * target)
}

/// The cells after the first `i` species were seeded on `grid` with the
/// coordinates `draws`, one sequence for each species, and whether all of
/// them reached their targets. After a species that fell short no further
/// species is seeded.
pub open spec fn seeded_with(params: &ModelParams, grid: &Grid, draws: Seq<Seq<(u32, u32)>>, i: nat) -> (
    Seq<Cell>,
    bool,
)
    decreases i,
{
    if i == 0 {
        (grid@, true)
    } else {
        let (cells, reached) = seeded_with(params, grid, draws, (i - 1) as nat);
        if !reached {
            (cells, false)
        } else {
            let target = target_population(params.species@[i - 1].1.initial_population, grid.dims());
            let (next, placed) = tried(grid, cells, i as u32, draws[i - 1], draws[i - 1].len());
            (next, placed == target)
        }
    }
}

/// Whether `draws` may be what is drawn while `grid` is seeded: for each
/// species in turn all the coordinates that are drawn for it, up to the
/// first species that falls short of its target.
pub open spec fn draws_valid(params: &ModelParams, grid: &Grid, draws: Seq<Seq<(u32, u32)>>) -> bool {
    &&& draws.len() <= params.species@.len()
    &&& forall|i: nat|
        i < draws.len() ==> (#[trigger] seeded_with(params, grid, draws, i)).1 && draws_complete(
            grid,
            seeded_with(params, grid, draws, i).0,
            (i + 1) as u32,
            target_population(params.species@[i as int].1.initial_population, grid.dims()),
            draws[i as int],
        )
    &&& (draws.len() < params.species@.len() ==> !seeded_with(params, grid, draws, draws.len()).1)
}

/// What seeding makes of the grid `before`: the grid `after` and the result
/// `res`.
///
/// The configuration is refused, and nothing placed, exactly when the
/// species together ask for more cells than are empty. Otherwise the grid
/// and the result are what some valid draws give: the species are seeded in
/// the order of their ids, seeding succeeds when every species reaches its
/// target, and fails at the first species that does not within its budget
/// of draws.
///
/// The further clauses follow from that. An animal is only ever put on an
/// empty cell, and is of a species of `params`. On success every species
/// has gained exactly its target, in no case more, and on failure some
/// species less. Where no species asks for a cell, seeding succeeds and
/// changes nothing. On a grid without animals the first draw cannot miss:
/// where an animal is asked for, one is placed, and where only one is asked
/// for, seeding succeeds.
pub open spec fn seeded_from(
    params: &ModelParams,
    before: &Grid,
    after: &Grid,
    res: Result<(), ModelError>,
) -> bool {
    let asked = demand(params, before.dims(), params.species@.len());
    let free = count_of(before@, Cell::Empty);
    &&& after.wf()
    &&& after.dims() == before.dims()
    &&& after.wraps() == before.wraps()
    &&& (res matches Err(ModelError::Config(ConfigError::Overpopulated)) <==> asked > free)
    &&& (res matches Err(ModelError::Config(ConfigError::Overpopulated)) ==> after@ == before@)
    &&& (res matches Err(e) ==> e matches ModelError::Config(ConfigError::Overpopulated) || e is Seeding)
    &&& (asked <= free ==> exists|draws: Seq<Seq<(u32, u32)>>|
        draws_valid(params, before, draws) && #[trigger] seeded_with(
            params,
            before,
            draws,
            params.species@.len(),
        ) == (after@, res is Ok))
    &&& forall|k: int|
        0 <= k < before@.len() && before@[k] != Cell::Empty ==> #[trigger] after@[k] == before@[k]
    &&& forall|k: int|
        0 <= k < before@.len() && before@[k] == Cell::Empty && #[trigger] after@[k] != Cell::Empty
            ==> params.registered(after@[k].specie())
    &&& (res is Ok ==> forall|id: u32|
        params.registered(id) ==> count_of(after@, Cell::Animal(id)) == count_of(before@, Cell::Animal(id))
            + #[trigger] target_population(params.specie(id).initial_population, before.dims()))
    &&& forall|id: u32|
        params.registered(id) ==> count_of(after@, Cell::Animal(id)) <= count_of(before@, Cell::Animal(id))
            + #[trigger] target_population(params.specie(id).initial_population, before.dims())
    &&& (res matches Err(ModelError::Seeding) ==> exists|id: u32|
        params.registered(id) && count_of(after@, Cell::Animal(id)) < count_of(before@, Cell::Animal(id))
            + #[trigger] target_population(params.specie(id).initial_population, before.dims()))
    &&& (asked == 0 ==> res is Ok && after@ == before@)
    &&& (0 < asked <= free && free == before@.len() ==> exists|k: int|
        0 <= k < after@.len() && #[trigger] after@[k] != Cell::Empty)
    &&& (asked == 1 && free == before@.len() ==> res is Ok)
}

/// What is tried with the first `n` draws depends on those draws alone.
pub proof fn lemma_tried_prefix(
    grid: &Grid,
    cells: Seq<Cell>,
    id: u32,
    draws: Seq<(u32, u32)>,
    others: Seq<(u32, u32)>,
    n: nat,
)
    requires
        forall|m: int| 0 <= m < n ==> draws[m] == others[m],
    ensures
        tried(grid, cells, id, draws, n) == tried(grid, cells, id, others, n),
    decreases n,
{
    if n > 0 {
        lemma_tried_prefix(grid, cells, id, draws, others, (n - 1) as nat);
    }
}

/// What the first `i` species are seeded with depends on their draws alone.
pub proof fn lemma_seeded_prefix(
    params: &ModelParams,
    grid: &Grid,
    draws: Seq<Seq<(u32, u32)>>,
    others: Seq<Seq<(u32, u32)>>,
    i: nat,
)
    requires
        forall|j: int| 0 <= j < i ==> draws[j] == others[j],
    ensures
        seeded_with(params, grid, draws, i) == seeded_with(params, grid, others, i),
    decreases i,
{
    if i > 0 {
        lemma_seeded_prefix(params, grid, draws, others, (i - 1) as nat);
    }
}

/// After a species that fell short, seeding places nothing more.
pub proof fn lemma_seeding_stops(
    params: &ModelParams,
    grid: &Grid,
    draws: Seq<Seq<(u32, u32)>>,
    k: nat,
    m: nat,
)
    requires
        k <= m,
        !seeded_with(params, grid, draws, k).1,
    ensures
        seeded_with(params, grid, draws, m) == seeded_with(params, grid, draws, k),
    decreases m,
{
    if k < m {
        lemma_seeding_stops(params, grid, draws, k, (m - 1) as nat);
    }
}

/// A sequence in which the empty cell occurs as often as the sequence is
/// long holds no animal.
pub proof fn lemma_all_empty(cells: Seq<Cell>)
    requires
        count_of(cells, Cell::Empty) == cells.len(),
    ensures
        forall|k: int| 0 <= k < cells.len() ==> cells[k] == Cell::Empty,
    decreases cells.len(),
{
    if cells.len() > 0 {
        lemma_count_bounded(cells.drop_last(), Cell::Empty);
        lemma_all_empty(cells.drop_last());
        assert forall|k: int| 0 <= k < cells.len() implies cells[k] == Cell::Empty by {
            if k < cells.len() - 1 {
                assert(cells.drop_last()[k] == cells[k]);
            }
        }
    }
}

/// After seeding an empty grid with success, every species holds exactly
/// its target: its share of the number of cells, rounded down.
pub proof fn lemma_population_fidelity(params: &ModelParams, before: &Grid, after: &Grid, id: u32)
    requires
        forall|k: int| 0 <= k < before@.len() ==> before@[k] == Cell::Empty,
        seeded_from(params, before, after, Ok(())),
        params.registered(id),
    ensures
        count_of(after@, Cell::Animal(id)) == target_population(
            params.specie(id).initial_population,
            before.dims(),
        ),
{
    lemma_count_positive(before@, Cell::Animal(id));
}

pub proof fn lemma_demand_grows(params: &ModelParams, size: Size, m: nat, n: nat)
    requires
        m <= n,
    ensures
        demand(params, size, m) <= demand(params, size, n),
    decreases n,
{
    if m < n {
        lemma_demand_grows(params, size, m, (n - 1) as nat);
    }
}

/// A grid without cells asks for no animal.
pub proof fn lemma_no_cells_no_demand(params: &ModelParams, size: Size, n: nat)
    requires
        size.area() == 0,
    ensures
        demand(params, size, n) == 0,
    decreases n,
{
    if n > 0 {
        lemma_no_cells_no_demand(params, size, (n - 1) as nat);
        let share = params.species@[n - 1].1.initial_population as nat;
        assert(share * 0 == 0) by (nonlinear_arith);
    }
}

pub proof fn lemma_target_bounded(share: u32, size: Size)
    requires
        share <= SCALE,
    ensures
        target_population(share, size) <= size.area(),
        target_population(share, size) > 0 ==> size.w > 0 && size.h > 0,
{
    let a: int = size.area() as int;
    let s: int = share as int;
    assert((s * a) / 1_000_000 <= a) by (nonlinear_arith)
        requires
            0 <= s <= 1_000_000,
            0 <= a,
    ;
    if size.w == 0 || size.h == 0 {
        assert(a == 0) by (nonlinear_arith)
            requires
                a == (size.w as nat) * (size.h as nat),
                size.w == 0 || size.h == 0,
        ;
        assert(s * a == 0) by (nonlinear_arith)
            requires
                a == 0,
        ;
    }
}

/// Computes `target_population`.
pub fn population_target(share: u32, size: Size) -> (target: usize)
    requires
        share <= SCALE,
        size.area() <= usize::MAX,
    ensures
        target == target_population(share, size),
{
    proof {
        lemma_target_bounded(share, size);
        let w: int = size.w as int;
        let h: int = size.h as int;
        assert(0 <= w * h <= 0xffff_ffff * 0xffff_ffff) by (nonlinear_arith)
            requires
                0 <= w <= 0xffff_ffff,
                0 <= h <= 0xffff_ffff,
        ;
    }
    let cells: u128 = (size.w as u128) * (size.h as u128);
    let scaled: u128 = (share as u128) * cells;
    (scaled / (SCALE as u128)) as usize
}

impl Grid {
    /// Puts an animal of species `id` at `(x, y)` if the cell is empty, and
    /// says whether it did.
    pub fn place_if_empty(&mut self, x: u32, y: u32, id: u32) -> (placed: bool)
        requires
            old(self).wf(),
            old(self).in_bounds(x as int, y as int),
        ensures
            final(self).wf(),
            final(self).dims() == old(self).dims(),
            final(self).wraps() == old(self).wraps(),
            placed == (old(self).cell_at(x as int, y as int) == Cell::Empty),
            0 <= old(self).index_of(x as int, y as int) < old(self)@.len(),
            final(self)@ == if placed {
                old(self)@.update(old(self).index_of(x as int, y as int), Cell::Animal(id))
            } else {
                old(self)@
            },
    {
        let index: usize = self.cell_index(x, y);
        if self.cells[index] == Cell::Empty {
            self.cells.set(index, Cell::Animal(id));
            true
        } else {
            false
        }
    }

    /// Seeds the grid: for each species in the order of its id, as many
    /// animals as its share of the cells asks for are put on empty cells
    /// drawn at random.
    ///
    /// Where the species together ask for more cells than are empty, nothing
    /// is placed and the configuration is refused. Where the draws for one
    /// species hit too few empty cells within `SEEDING_ATTEMPTS` draws for
    /// each animal, seeding stops with what was placed, and no further
    /// species is seeded.
    pub fn populate(&mut self, params: &ModelParams, rng: &mut PRng) -> (res: Result<(), ModelError>)
        requires
            old(self).wf(),
            params.count_ok(),
            params.rates_ok(),
        ensures
            seeded_from(params, old(self), final(self), res),
    {
        let size = self.size;
        let species_count: usize = params.species.len();
        let free: usize = self.count_cells(Cell::Empty);
        proof {
            assert(self.cells@.len() == self.cells.len());
        }
        let mut asked: u128 = 0;
        let mut i: usize = 0;
        while i < species_count
            invariant
                self.wf(),
                size == self.dims(),
                params.rates_ok(),
                species_count == params.species@.len(),
                i <= species_count,
                size.area() <= usize::MAX,
                *self == *old(self),
                free == count_of(old(self)@, Cell::Empty),
                asked == demand(params, size, i as nat),
                asked <= free,
            decreases species_count - i,
        {
            let target: usize = population_target(params.species[i].1.initial_population, size);
            asked = asked + target as u128;
            if asked > free as u128 {
                proof {
                    lemma_demand_grows(params, size, (i + 1) as nat, species_count as nat);
                    if size.area() == 0 {
                        lemma_no_cells_no_demand(params, size, species_count as nat);
                    }
                }
                return Err(ModelError::Config(ConfigError::Overpopulated));
            }
            i = i + 1;
        }
        let ghost mut draws: Seq<Seq<(u32, u32)>> = Seq::empty();
        let mut i: usize = 0;
        while i < species_count
            invariant
                self.wf(),
                size == self.dims(),
                self.dims() == old(self).dims(),
                self.wraps() == old(self).wraps(),
                self@.len() == old(self)@.len(),
                params.count_ok(),
                params.rates_ok(),
                species_count == params.species@.len(),
                i <= species_count,
                size.area() <= usize::MAX,
                demand(params, size, species_count as nat) <= count_of(old(self)@, Cell::Empty),
                demand(params, size, i as nat) == 0 ==> self@ == old(self)@,
                demand(params, size, i as nat) > 0 ==> exists|k: int|
                    0 <= k < self@.len() && #[trigger] self@[k] != Cell::Empty,
                draws.len() == i,
                seeded_with(params, old(self), draws, i as nat) == (self@, true),
                forall|j: nat|
                    j < i ==> (#[trigger] seeded_with(params, old(self), draws, j)).1 && draws_complete(
                        old(self),
                        seeded_with(params, old(self), draws, j).0,
                        (j + 1) as u32,
                        target_population(params.species@[j as int].1.initial_population, size),
                        draws[j as int],
                    ),
                forall|k: int|
                    0 <= k < old(self)@.len() && old(self)@[k] != Cell::Empty ==> #[trigger] self@[k] == old(
                        self,
                    )@[k],
                forall|k: int|
                    0 <= k < old(self)@.len() && old(self)@[k] == Cell::Empty && #[trigger] self@[k]
                        != Cell::Empty ==> params.registered(self@[k].specie()),
                forall|id: u32|
                    1 <= id <= i ==> count_of(self@, Cell::Animal(id)) == count_of(old(self)@, Cell::Animal(id))
                        + #[trigger] target_population(params.specie(id).initial_population, size),
                forall|id: u32|
                    id > i ==> #[trigger] count_of(self@, Cell::Animal(id)) == count_of(
                        old(self)@,
                        Cell::Animal(id),
                    ),
            decreases species_count - i,
        {
            let specie_id: u32 = (i + 1) as u32;
            proof {
                lemma_target_bounded(params.species@[i as int].1.initial_population, size);
            }
            let target: usize = population_target(params.species[i].1.initial_population, size);
            let budget: u128 = (SEEDING_ATTEMPTS as u128) * (target as u128);
            let mut attempts: u128 = 0;
            let mut population: usize = 0;
            let ghost start = self@;
            let ghost mut tries: Seq<(u32, u32)> = Seq::empty();
            while population < target && attempts < budget
                invariant
                    self.wf(),
                    size == self.dims(),
                    self.dims() == old(self).dims(),
                    self.wraps() == old(self).wraps(),
                    self@.len() == old(self)@.len(),
                    start.len() == old(self)@.len(),
                    specie_id == i + 1,
                    i < species_count,
                    species_count == params.species@.len(),
                    params.count_ok(),
                    target > 0 ==> size.w > 0 && size.h > 0,
                    population <= target,
                    attempts <= budget,
                    budget == SEEDING_ATTEMPTS * target,
                    population == 0 ==> self@ == start,
                    (forall|k: int| 0 <= k < start.len() ==> start[k] == Cell::Empty) && attempts >= 1
                        ==> population >= 1,
                    tries.len() == attempts,
                    forall|m: int|
                        0 <= m < tries.len() ==> old(self).in_bounds(
                            (#[trigger] tries[m]).0 as int,
                            tries[m].1 as int,
                        ),
                    tried(old(self), start, specie_id, tries, attempts as nat) == (self@, population as nat),
                    forall|m: nat|
                        m < attempts ==> (#[trigger] tried(old(self), start, specie_id, tries, m)).1
                            < target,
                    forall|k: int|
                        0 <= k < start.len() && start[k] != Cell::Empty ==> #[trigger] self@[k] == start[k],
                    forall|k: int|
                        0 <= k < start.len() && start[k] == Cell::Empty && #[trigger] self@[k] != Cell::Empty
                            ==> self@[k] == Cell::Animal(specie_id),
                    count_of(self@, Cell::Animal(specie_id)) == count_of(start, Cell::Animal(specie_id))
                        + population,
                    forall|id: u32|
                        id != specie_id ==> #[trigger] count_of(self@, Cell::Animal(id)) == count_of(
                            start,
                            Cell::Animal(id),
                        ),
                decreases budget - attempts,
            {
                let new_x: u32 = draw_below(rng, 0, size.w);
                let new_y: u32 = draw_below(rng, 0, size.h);
                let ghost before = self@;
                let ghost index = self.index_of(new_x as int, new_y as int);
                let ghost earlier = tries;
                let ghost made = attempts as nat;
                proof {
                    tries = earlier.push((new_x, new_y));
                    assert forall|m: nat| m <= made implies tried(old(self), start, specie_id, tries, m)
                        == #[trigger] tried(old(self), start, specie_id, earlier, m) by {
                        lemma_tried_prefix(old(self), start, specie_id, tries, earlier, m);
                    }
                    assert(tried(old(self), start, specie_id, tries, made) == (before, population as nat));
                }
                attempts = attempts + 1;
                if self.place_if_empty(new_x, new_y, specie_id) {
                    population = population + 1;
                    proof {
                        assert forall|id: u32| true implies count_of(self@, Cell::Animal(id)) == count_of(
                            before,
                            Cell::Animal(id),
                        ) + if id == specie_id {
                            1nat
                        } else {
                            0nat
                        } by {
                            lemma_count_update(before, index, Cell::Animal(specie_id), Cell::Animal(id));
                        }
                    }
                }
                proof {
                    assert(tries[made as int] == (new_x, new_y));
                    assert(tried(old(self), start, specie_id, tries, (made + 1) as nat) == (
                        self@,
                        population as nat,
                    ));
                    assert forall|m: nat| m < attempts implies (#[trigger] tried(
                        old(self),
                        start,
                        specie_id,
                        tries,
                        m,
                    )).1 < target by {
                        if m < made {
                            assert(tried(old(self), start, specie_id, earlier, m).1 < target);
                        }
                    }
                }
            }
            proof {
                lemma_demand_grows(params, size, (i + 1) as nat, species_count as nat);
                let ghost sofar = draws;
                draws = sofar.push(tries);
                assert forall|j: nat| j <= i implies seeded_with(params, old(self), draws, j)
                    == #[trigger] seeded_with(params, old(self), sofar, j) by {
                    lemma_seeded_prefix(params, old(self), draws, sofar, j);
                }
                assert(draws[i as int] == tries);
                assert(draws_complete(old(self), start, specie_id, target as nat, tries));
                assert(seeded_with(params, old(self), draws, (i + 1) as nat) == (
                    self@,
                    population == target,
                ));
                assert forall|j: nat| j < i + 1 implies (#[trigger] seeded_with(
                    params,
                    old(self),
                    draws,
                    j,
                )).1 && draws_complete(
                    old(self),
                    seeded_with(params, old(self), draws, j).0,
                    (j + 1) as u32,
                    target_population(params.species@[j as int].1.initial_population, size),
                    draws[j as int],
                ) by {
                    if j < i {
                        assert(seeded_with(params, old(self), sofar, j).1);
                        assert(draws[j as int] == sofar[j as int]);
                    }
                }
                if population >= 1 {
                    lemma_count_positive(self@, Cell::Animal(specie_id));
                    let k = choose|k: int| 0 <= k < self@.len() && self@[k] == Cell::Animal(specie_id);
                    assert(self@[k] != Cell::Empty);
                }
                if demand(params, size, i as nat) > 0 {
                    let k = choose|k: int| 0 <= k < start.len() && #[trigger] start[k] != Cell::Empty;
                    assert(self@[k] == start[k]);
                }
            }
            if population < target {
                proof {
                    lemma_seeding_stops(params, old(self), draws, (i + 1) as nat, species_count as nat);
                    assert(draws_valid(params, old(self), draws));
                    assert(params.registered(specie_id));
                    assert(params.specie(specie_id).initial_population
                        == params.species@[i as int].1.initial_population);
                    if count_of(old(self)@, Cell::Empty) == old(self)@.len() {
                        lemma_all_empty(old(self)@);
                    }
                }
                return Err(ModelError::Seeding);
            }
            i = i + 1;
        }
        proof {
            assert(draws_valid(params, old(self), draws));
        }
        Ok(())
    }
}

} // verus!
