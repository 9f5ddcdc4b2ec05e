use vstd::prelude::*;

use crate::analytics::{
    cell_registered, cells_registered, dominant, get_neighbor_herbivores, get_neighbor_predators,
    herbivores_in, leads, predators_in,
};
use crate::chance::{any_of_happens, happens, trial, trial_any_of, SCALE};
use crate::grid::{Cell, Grid};
use crate::model::{place_cell, Model, ModelError};
use crate::params::ModelParams;
use crate::random::{draw_chance, seeded_rng, PRng};
use crate::util::time_ns;

verus! {

/// What becomes of an animal of species `id` with `n_pred` threatening
/// neighbors, the most frequent of them of species `dom_pred`, under the
/// draws `r1` and `r2`.
///
/// Prey, that is a herbivore or an animal with a threatening neighbor, is
/// killed when `r1` makes one of `n_pred` hunts succeed; the cell then goes
/// to the predator where `r2` makes it breed, and is empty otherwise. Prey
/// that escapes and is no herbivore, like a predator without threats (on
/// `r1`), dies on its own death trial.
pub open spec fn animal_outcome(
    params: &ModelParams,
    id: u32,
    n_pred: nat,
    dom_pred: u32,
    r1: u32,
    r2: u32,
) -> Cell {
    let death = params.specie(id).death_rate as nat;
    if params.herbivore(id) || n_pred > 0 {
        if any_of_happens(r1 as nat, death, n_pred) {
            if happens(r2 as nat, params.specie(dom_pred).birth_rate as nat) {
                Cell::Animal(dom_pred)
            } else {
                Cell::Empty
            }
        } else if !params.herbivore(id) && happens(r2 as nat, death) {
            Cell::Empty
        } else {
            Cell::Animal(id)
        }
    } else if happens(r1 as nat, death) {
        Cell::Empty
    } else {
        Cell::Animal(id)
    }
}

/// What becomes of an empty cell with `n_pred` predators and `n_hrb`
/// herbivores of the leading species `dom_hrb` around it, under the draw `r`:
/// it stays empty with a predator or without a herbivore near, and else goes
/// to the herbivore when `r` makes one of `n_hrb` births succeed.
pub open spec fn breeding_outcome(params: &ModelParams, n_pred: nat, n_hrb: nat, dom_hrb: u32, r: u32) -> Cell {
    if n_hrb == 0 || n_pred > 0 {
        Cell::Empty
    } else if any_of_happens(r as nat, params.specie(dom_hrb).birth_rate as nat, n_hrb) {
        Cell::Animal(dom_hrb)
    } else {
        Cell::Empty
    }
}

/// Whether `out` is a next state that the rule allows for `cell` among
/// `neighbors`: the outcome under some draws and some choice among the
/// species that lead.
pub open spec fn simple_allowed(params: &ModelParams, cell: Cell, neighbors: Seq<Cell>, out: Cell) -> bool {
    let threats = predators_in(params, cell, neighbors);
    match cell {
        Cell::Animal(id) => exists|dom_pred: u32, r1: u32, r2: u32|
            leads(threats, dom_pred) && r1 < SCALE && r2 < SCALE && out == #[trigger] animal_outcome(
                params,
                id,
                threats.len(),
                dom_pred,
                r1,
                r2,
            ),
        Cell::Empty => exists|n_hrb: u32, dom_hrb: u32, r: u32|
            dominant(herbivores_in(params, neighbors), n_hrb, dom_hrb) && r < SCALE && out
                == #[trigger] breeding_outcome(params, threats.len(), n_hrb as nat, dom_hrb, r),
    }
}

/// An empty cell among empty neighbors stays empty, whatever is drawn.
pub proof fn lemma_simple_empty_stasis(params: &ModelParams, neighbors: Seq<Cell>, out: Cell)
    requires
        forall|k: int| 0 <= k < neighbors.len() ==> neighbors[k] == Cell::Empty,
        simple_allowed(params, Cell::Empty, neighbors, out),
    ensures
        out == Cell::Empty,
{
    let grazers = herbivores_in(params, neighbors);
    if grazers.len() > 0 {
        neighbors.lemma_filter_pred(crate::analytics::herbivore_filter(params), 0);
        neighbors.lemma_filter_contains_rev(crate::analytics::herbivore_filter(params), grazers[0]);
        assert(grazers.contains(grazers[0]));
    }
    assert(!crate::analytics::has_animal(grazers));
}

/// A herbivore without a threatening neighbor stays, whatever is drawn.
pub proof fn lemma_simple_herbivore_survives(params: &ModelParams, id: u32, neighbors: Seq<Cell>, out: Cell)
    requires
        params.herbivore(id),
        predators_in(params, Cell::Animal(id), neighbors).len() == 0,
        simple_allowed(params, Cell::Animal(id), neighbors, out),
    ensures
        out == Cell::Animal(id),
{
}

/// Whether one tick of the rule may turn `grid` into `next`: every cell of
/// `next` is an allowed next state of that cell of `grid` among its Moore
/// neighbors of radius 1.
pub open spec fn simple_tick_allowed(params: &ModelParams, grid: &Grid, next: &Grid) -> bool {
    forall|x: int, y: int|
        grid.in_bounds(x, y) ==> simple_allowed(
            params,
            grid.cell_at(x, y),
            grid.moore(x, y, 1, None),
            #[trigger] next.cell_at(x, y),
        )
}

/// In one tick, an empty cell whose Moore neighbors are empty stays empty,
/// whatever is drawn.
pub proof fn lemma_simple_tick_empty_stasis(params: &ModelParams, grid: &Grid, next: &Grid, x: int, y: int)
    requires
        simple_tick_allowed(params, grid, next),
        grid.in_bounds(x, y),
        grid.cell_at(x, y) == Cell::Empty,
        forall|k: int| 0 <= k < grid.moore(x, y, 1, None).len() ==> grid.moore(x, y, 1, None)[k] == Cell::Empty,
    ensures
        next.cell_at(x, y) == Cell::Empty,
{
    lemma_simple_empty_stasis(params, grid.moore(x, y, 1, None), next.cell_at(x, y));
}

/// In one tick, a herbivore none of whose Moore neighbors eats it stays,
/// whatever is drawn.
pub proof fn lemma_simple_tick_herbivore_survives(
    params: &ModelParams,
    grid: &Grid,
    next: &Grid,
    x: int,
    y: int,
    id: u32,
)
    requires
        simple_tick_allowed(params, grid, next),
        grid.in_bounds(x, y),
        grid.cell_at(x, y) == Cell::Animal(id),
        params.herbivore(id),
        predators_in(params, Cell::Animal(id), grid.moore(x, y, 1, None)).len() == 0,
    ensures
        next.cell_at(x, y) == Cell::Animal(id),
{
    lemma_simple_herbivore_survives(params, id, grid.moore(x, y, 1, None), next.cell_at(x, y));
}

/// The model with the single-phase rule: every cell is advanced from the
/// previous grid's Moore neighborhood of radius 1, on closed edges.
pub struct SimpleModel {
    grid: Grid,
    params: ModelParams,
    rng: PRng,
}

impl SimpleModel {
    /// A model with an empty grid. The generator is seeded with the
    /// configured seed, or with the clock where none is configured.
    pub fn new(params: ModelParams) -> (res: Result<SimpleModel, ModelError>)
        ensures
            res is Ok <==> params.wf(),
            res matches Ok(m) ==> m.wf() && m.the_params() == params && forall|k: int|
                0 <= k < m.the_grid()@.len() ==> m.the_grid()@[k] == Cell::Empty,
            res matches Err(e) ==> e matches ModelError::Config(fault) && params.has_fault(fault),
    {
        match params.validate() {
            Err(fault) => Err(ModelError::Config(fault)),
            Ok(()) => {
                let grid = Grid::new(params.grid_size);
                let seed: u64 = match params.random_seed {
                    Some(seed) => seed,
                    None => (time_ns() % 0x1_0000_0000_0000_0000) as u64,
                };
                let rng = seeded_rng(seed);
                Ok(SimpleModel { grid, params, rng })
            },
        }
    }

    /// The next state of `cell` among `neighbors`.
    pub fn next_cell_state(params: &ModelParams, rng: &mut PRng, cell: &Cell, neighbors: &Vec<Cell>) -> (out:
        Cell)
        requires
            params.wf(),
            neighbors@.len() <= u32::MAX,
            cell_registered(params, *cell),
            cells_registered(params, neighbors@),
        ensures
            simple_allowed(params, *cell, neighbors@, out),
            cell_registered(params, out),
    {
        let (n_predators, dominant_predator_id) = get_neighbor_predators(cell, neighbors, params, rng);
        match *cell {
            Cell::Animal(specie_id) => {
                let death_rate: u32 = params.get_specie_by_id(specie_id).death_rate;
                let specie_is_herbivore: bool = params.is_specie_herbivore(specie_id);
                let mut r1: u32 = 0;
                let mut r2: u32 = 0;
                let out: Cell = if specie_is_herbivore || n_predators > 0 {
                    r1 = draw_chance(rng);
                    if trial_any_of(r1, death_rate, n_predators) {
                        assert(n_predators > 0);
                        let predator_birth_rate: u32 = params.get_specie_by_id(dominant_predator_id).birth_rate;
                        r2 = draw_chance(rng);
                        if trial(r2, predator_birth_rate) {
                            Cell::Animal(dominant_predator_id)
                        } else {
                            Cell::Empty
                        }
                    } else if !specie_is_herbivore {
                        r2 = draw_chance(rng);
                        if trial(r2, death_rate) {
                            Cell::Empty
                        } else {
                            Cell::Animal(specie_id)
                        }
                    } else {
                        Cell::Animal(specie_id)
                    }
                } else {
                    r1 = draw_chance(rng);
                    if trial(r1, death_rate) {
                        Cell::Empty
                    } else {
                        Cell::Animal(specie_id)
                    }
                };
                proof {
                    assert(out == animal_outcome(
                        params,
                        specie_id,
                        predators_in(params, *cell, neighbors@).len(),
                        dominant_predator_id,
                        r1,
                        r2,
                    ));
                }
                out
            },
            Cell::Empty => {
                let (n_herbivores, dominant_herbivore_id) = get_neighbor_herbivores(neighbors, params, rng);
                let mut r: u32 = 0;
                let out: Cell = if n_herbivores == 0 || n_predators > 0 {
                    Cell::Empty
                } else {
                    r = draw_chance(rng);
                    let birth_rate: u32 = params.get_specie_by_id(dominant_herbivore_id).birth_rate;
                    if trial_any_of(r, birth_rate, n_herbivores) {
                        Cell::Animal(dominant_herbivore_id)
                    } else {
                        Cell::Empty
                    }
                };
                proof {
                    assert(out == breeding_outcome(
                        params,
                        predators_in(params, *cell, neighbors@).len(),
                        n_herbivores as nat,
                        dominant_herbivore_id,
                        r,
                    ));
                }
                out
            },
        }
    }

    /// The grid after one tick of the rule on `grid`: every cell advanced from
    /// `grid` alone, row by row.
    pub fn step(grid: &Grid, params: &ModelParams, rng: &mut PRng) -> (next: Grid)
        requires
            params.wf(),
            grid.wf(),
            cells_registered(params, grid@),
        ensures
            next.wf(),
            next.dims() == grid.dims(),
            next.wraps() == grid.wraps(),
            cells_registered(params, next@),
            simple_tick_allowed(params, grid, &next),
    {
        let size = grid.get_size();
        let mut next = grid.empty_like();
        let mut y: u32 = 0;
        while y < size.h
            invariant
                params.wf(),
                grid.wf(),
                cells_registered(params, grid@),
                size == grid.dims(),
                next.wf(),
                next.dims() == grid.dims(),
                next.wraps() == grid.wraps(),
                cells_registered(params, next@),
                y <= size.h,
                forall|a: int, b: int|
                    0 <= a < size.w && 0 <= b < y ==> simple_allowed(
                        params,
                        grid.cell_at(a, b),
                        grid.moore(a, b, 1, None),
                        #[trigger] next.cell_at(a, b),
                    ),
            decreases size.h - y,
        {
            let mut x: u32 = 0;
            while x < size.w
                invariant
                    params.wf(),
                    grid.wf(),
                    cells_registered(params, grid@),
                    size == grid.dims(),
                    next.wf(),
                    next.dims() == grid.dims(),
                    next.wraps() == grid.wraps(),
                    cells_registered(params, next@),
                    y < size.h,
                    x <= size.w,
                    forall|a: int, b: int|
                        0 <= a < size.w && 0 <= b < y ==> simple_allowed(
                            params,
                            grid.cell_at(a, b),
                            grid.moore(a, b, 1, None),
                            #[trigger] next.cell_at(a, b),
                        ),
                    forall|a: int|
                        0 <= a < x ==> simple_allowed(
                            params,
                            grid.cell_at(a, y as int),
                            grid.moore(a, y as int, 1, None),
                            #[trigger] next.cell_at(a, y as int),
                        ),
                decreases size.w - x,
            {
                let cell: Cell = *grid.get_cell_at(x, y);
                let neighbors = grid.moore_neighborhood(x, y, 1, None);
                assert(neighbors@.len() <= 9) by {
                    assert((2 * 1u32 + 1) * (2 * 1u32 + 1) == 9) by (nonlinear_arith);
                }
                let new_cell = SimpleModel::next_cell_state(params, rng, &cell, &neighbors);
                next.set_cell_at(x, y, new_cell);
                x = x + 1;
            }
            y = y + 1;
        }
        next
    }
}

impl Model for SimpleModel {
    closed spec fn the_grid(&self) -> Grid {
        self.grid
    }

    closed spec fn the_params(&self) -> ModelParams {
        self.params
    }

    /// The configuration is well formed, the grid has its size and closed
    /// edges, and every animal is of a species of the configuration.
    open spec fn wf(&self) -> bool {
        &&& self.the_params().wf()
        &&& self.the_grid().wf()
        &&& self.the_grid().dims() == self.the_params().grid_size
        &&& !self.the_grid().wraps()
        &&& cells_registered(&self.the_params(), self.the_grid()@)
    }

    open spec fn may_become(&self, next: Grid) -> bool {
        simple_tick_allowed(&self.the_params(), &self.the_grid(), &next)
    }

    fn populate(&mut self) -> (res: Result<(), ModelError>) {
        self.grid.populate(&self.params, &mut self.rng)
    }

    fn tick(&mut self) {
        let new_cells = SimpleModel::step(&self.grid, &self.params, &mut self.rng);
        self.grid = new_cells;
    }

    fn place(&mut self, x: u32, y: u32, cell: Cell) -> (placed: bool) {
        place_cell(&mut self.grid, &self.params, x, y, cell)
    }

    fn get_grid(&self) -> (grid: &Grid) {
        &self.grid
    }

    fn get_params(&self) -> (params: &ModelParams) {
        &self.params
    }
}

} // verus!
