use vstd::prelude::*;

use crate::analytics::{
    cell_registered, cells_registered, dominant, get_neighbor_herbivores, get_neighbor_predators,
    get_neighbor_prey, herbivores_in, leads, predators_in, prey_in,
};
use crate::chance::{any_of_happens, happens, trial, trial_any_of, SCALE};
use crate::grid::{count_of, lemma_count_positive, Cell, Grid, Quadrant};
use crate::model::{place_cell, Model, ModelError};
use crate::movement::{
    intent_allowed, intents_from, lemma_resolved_frame, move_allowed, moved_from, movement_allowed,
    movement_intents, picks_valid, resolve_competition, resolved, surviving, surviving_intents,
    survivor_filter,
};
use crate::params::ModelParams;
use crate::random::{draw_chance, seeded_rng, PRng};
use crate::simple_model::breeding_outcome;
use crate::util::time_ns;

verus! {

/// What feeding makes of prey of species `id` with `n_pred` threatening
/// neighbors under the draw `r`: killed, and the cell marked, when `r` makes
/// one of `n_pred` hunts succeed.
pub open spec fn prey_outcome(params: &ModelParams, id: u32, n_pred: nat, r: u32) -> (Cell, bool) {
    if any_of_happens(r as nat, params.specie(id).death_rate as nat, n_pred) {
        (Cell::Empty, true)
    } else {
        (Cell::Animal(id), false)
    }
}

/// What feeding makes of a predator of species `id` with `n_prey` edible
/// neighbors, the most frequent of them of species `dom_prey`, under the draw
/// `r`: it stays, and is marked as fed when `r` makes one of `n_prey` hunts
/// succeed.
pub open spec fn hunt_outcome(params: &ModelParams, id: u32, n_prey: nat, dom_prey: u32, r: u32) -> (
    Cell,
    bool,
) {
    let prey_death = if n_prey == 0 {
        0nat
    } else {
        params.specie(dom_prey).death_rate as nat
    };
    (Cell::Animal(id), any_of_happens(r as nat, prey_death, n_prey))
}

/// Whether feeding may turn `cell` among `neighbors` into `out` with the mark
/// `mark`.
pub open spec fn feeding_allowed(
    params: &ModelParams,
    cell: Cell,
    neighbors: Seq<Cell>,
    out: Cell,
    mark: bool,
) -> bool {
    match cell {
        Cell::Empty => out == Cell::Empty && !mark,
        Cell::Animal(id) => {
            let n_pred = predators_in(params, cell, neighbors).len();
            let prey = prey_in(params, cell, neighbors);
            if params.herbivore(id) || n_pred > 0 {
                exists|r: u32| r < SCALE && (out, mark) == #[trigger] prey_outcome(params, id, n_pred, r)
            } else {
                exists|dom_prey: u32, r: u32|
                    leads(prey, dom_prey) && r < SCALE && (out, mark) == #[trigger] hunt_outcome(
                        params,
                        id,
                        prey.len(),
                        dom_prey,
                        r,
                    )
            }
        },
    }
}

/// The cells whose mark is set, in their order.
pub open spec fn marked(cells: Seq<Cell>, marks: Seq<bool>) -> Seq<Cell>
    decreases cells.len(),
{
    if cells.len() == 0 || marks.len() != cells.len() {
        Seq::empty()
    } else {
        let rest = marked(cells.drop_last(), marks.drop_last());
        if marks.last() {
            rest.push(cells.last())
        } else {
            rest
        }
    }
}

/// What reproduction makes of a lone predator of species `id` under the draw
/// `r`: it dies on its death trial.
pub open spec fn mortality_outcome(params: &ModelParams, id: u32, r: u32) -> Cell {
    if happens(r as nat, params.specie(id).death_rate as nat) {
        Cell::Empty
    } else {
        Cell::Animal(id)
    }
}

/// What reproduction makes of a cell emptied by a kill, with `n_fed` fed
/// predators around it, the most frequent of species `dom`, under the draw
/// `r`: it goes to that predator when `r` makes one of `n_fed` births
/// succeed.
pub open spec fn succession_outcome(params: &ModelParams, n_fed: nat, dom: u32, r: u32) -> Cell {
    let birth = if n_fed == 0 {
        0nat
    } else {
        params.specie(dom).birth_rate as nat
    };
    if any_of_happens(r as nat, birth, n_fed) {
        Cell::Animal(dom)
    } else {
        Cell::Empty
    }
}

/// Whether reproduction may turn `cell`, with the mark `mark` from feeding,
/// into `out`, where `neighbors` are its neighbors before the tick and
/// `marks` their marks from feeding.
pub open spec fn reproduction_allowed(
    params: &ModelParams,
    cell: Cell,
    mark: bool,
    neighbors: Seq<Cell>,
    marks: Seq<bool>,
    out: Cell,
) -> bool {
    let n_pred = predators_in(params, cell, neighbors).len();
    match cell {
        Cell::Animal(id) => {
            if params.herbivore(id) || n_pred > 0 {
                out == cell
            } else {
                exists|r: u32| r < SCALE && out == #[trigger] mortality_outcome(params, id, r)
            }
        },
        Cell::Empty => {
            if !mark {
                exists|n_hrb: u32, dom_hrb: u32, r: u32|
                    dominant(herbivores_in(params, neighbors), n_hrb, dom_hrb) && r < SCALE && out
                        == #[trigger] breeding_outcome(params, n_pred, n_hrb as nat, dom_hrb, r)
            } else {
                let fed = predators_in(params, cell, marked(neighbors, marks));
                exists|dom: u32, r: u32|
                    leads(fed, dom) && r < SCALE && out == #[trigger] succession_outcome(
                        params,
                        fed.len(),
                        dom,
                        r,
                    )
            }
        },
    }
}

/// The mark of the neighbor one step in direction `q`, as a sequence of
/// length 0 or 1.
pub open spec fn neighbor_mark(grid: &Grid, marks: Seq<bool>, x: int, y: int, q: Quadrant) -> Seq<bool> {
    match grid.step(x, y, q) {
        Some((a, b)) => seq![marks[grid.index_of(a, b)]],
        None => Seq::empty(),
    }
}

/// The marks of the Von Neumann neighbors, in the neighbors' order.
pub open spec fn von_neumann_marks(grid: &Grid, marks: Seq<bool>, x: int, y: int) -> Seq<bool> {
    neighbor_mark(grid, marks, x, y, Quadrant::West) + neighbor_mark(grid, marks, x, y, Quadrant::North)
        + neighbor_mark(grid, marks, x, y, Quadrant::East) + neighbor_mark(
        grid,
        marks,
        x,
        y,
        Quadrant::South,
    )
}

/// Whether `fed` and `marks` may come out of the feeding phase on `pre`.
pub open spec fn fed_from(params: &ModelParams, pre: &Grid, fed: &Grid, marks: Seq<bool>) -> bool {
    &&& fed.wf()
    &&& fed.dims() == pre.dims()
    &&& fed.wraps() == pre.wraps()
    &&& marks.len() == pre@.len()
    &&& forall|x: int, y: int|
        pre.in_bounds(x, y) ==> feeding_allowed(
            params,
            pre.cell_at(x, y),
            pre.von_neumann(x, y),
            #[trigger] fed.cell_at(x, y),
            marks[pre.index_of(x, y)],
        )
}

/// Whether `bred` may come out of the reproduction phase on `fed` and
/// `marks`, in a tick that began with `pre`.
pub open spec fn bred_from(
    params: &ModelParams,
    pre: &Grid,
    fed: &Grid,
    marks: Seq<bool>,
    bred: &Grid,
) -> bool {
    &&& bred.wf()
    &&& bred.dims() == pre.dims()
    &&& bred.wraps() == pre.wraps()
    &&& forall|x: int, y: int|
        pre.in_bounds(x, y) ==> reproduction_allowed(
            params,
            fed.cell_at(x, y),
            marks[pre.index_of(x, y)],
            pre.von_neumann(x, y),
            von_neumann_marks(pre, marks, x, y),
            #[trigger] bred.cell_at(x, y),
        )
}

/// Whether `out` may come out of one tick on `pre`, by way of the grids
/// `fed` and `bred` and the feeding marks `marks`.
pub open spec fn tick_trace(
    params: &ModelParams,
    pre: &Grid,
    fed: &Grid,
    marks: Seq<bool>,
    bred: &Grid,
    out: &Grid,
) -> bool {
    &&& fed_from(params, pre, fed, marks)
    &&& bred_from(params, pre, fed, marks, bred)
    &&& movement_allowed(params, pre, bred, out)
}

/// Whether `out` may come out of one tick on `pre`.
pub open spec fn pppe_allowed(params: &ModelParams, pre: &Grid, out: &Grid) -> bool {
    exists|fed: Grid, marks: Seq<bool>, bred: Grid| #[trigger]
        tick_trace(params, pre, &fed, marks, &bred, out)
}

/// An empty cell whose Von Neumann neighbors are empty is empty after the
/// tick, whatever is drawn.
pub proof fn lemma_pppe_empty_stasis(params: &ModelParams, pre: &Grid, out: &Grid, x: int, y: int)
    requires
        pre.wf(),
        pre.in_bounds(x, y),
        pre.cell_at(x, y) == Cell::Empty,
        forall|k: int| 0 <= k < pre.von_neumann(x, y).len() ==> pre.von_neumann(x, y)[k] == Cell::Empty,
        pppe_allowed(params, pre, out),
    ensures
        out.cell_at(x, y) == Cell::Empty,
{
    let (fed, marks, bred) = choose|fed: Grid, marks: Seq<bool>, bred: Grid| #[trigger]
        tick_trace(params, pre, &fed, marks, &bred, out);
    let intents = choose|intents: Seq<(u32, u32, u32, u32)>|
        intents_from(params, pre, intents) && #[trigger] moved_from(
            &bred,
            surviving(pre, &bred, intents),
            out,
        );
    let moves = surviving(pre, &bred, intents);
    let picks = choose|picks: Seq<int>|
        picks_valid(&bred, moves, picks) && out@ == #[trigger] resolved(&bred, moves, picks, bred@.len());
    let around = pre.von_neumann(x, y);
    let index = pre.index_of(x, y);
    pre.lemma_indices(x, y, x, y);
    assert(fed.cell_at(x, y) == Cell::Empty && !marks[index]);
    let grazers = herbivores_in(params, around);
    if grazers.len() > 0 {
        around.lemma_filter_pred(crate::analytics::herbivore_filter(params), 0);
        around.lemma_filter_contains_rev(crate::analytics::herbivore_filter(params), grazers[0]);
        assert(grazers.contains(grazers[0]));
    }
    assert(!crate::analytics::has_animal(grazers));
    assert(bred.cell_at(x, y) == Cell::Empty);
    assert forall|m: int| 0 <= m < moves.len() implies bred.in_bounds(
        (#[trigger] moves[m]).0 as int,
        moves[m].1 as int,
    ) && bred.in_bounds(moves[m].2 as int, moves[m].3 as int) && bred.index_of(
        moves[m].0 as int,
        moves[m].1 as int,
    ) != index && bred.index_of(moves[m].2 as int, moves[m].3 as int) != index by {
        let mv = moves[m];
        assert(moves.contains(mv));
        intents.lemma_filter_contains_rev(survivor_filter(pre, &bred), mv);
        let at = choose|at: int| 0 <= at < intents.len() && intents[at] == mv;
        assert(move_allowed(params, pre, intents[at]));
        let q = choose|q: Quadrant|
            intent_allowed(params, pre, mv.0 as int, mv.1 as int, Some(q)) && #[trigger] pre.step(
                mv.0 as int,
                mv.1 as int,
                q,
            ) == Some((mv.2 as int, mv.3 as int));
        assert(pre.cell_at(mv.0 as int, mv.1 as int) != Cell::Empty);
        pre.lemma_indices(mv.0 as int, mv.1 as int, x, y);
        pre.lemma_indices(mv.2 as int, mv.3 as int, x, y);
        if mv.2 == x && mv.3 == y {
            pre.lemma_step_back(mv.0 as int, mv.1 as int, q, x, y);
            pre.lemma_neighbor_sensed(x, y, q.opposite(), mv.0 as int, mv.1 as int);
            let c = pre.cell_at(mv.0 as int, mv.1 as int);
            let k = choose|k: int| 0 <= k < around.len() && around[k] == c;
            assert(false);
        }
    }
    lemma_resolved_frame(&bred, moves, picks, bred@.len(), index);
}

/// Appends the mark of the neighbor one step in direction `q`, if there is
/// such a neighbor.
fn push_neighbor_mark(grid: &Grid, marks: &Vec<bool>, out: &mut Vec<bool>, x: u32, y: u32, q: Quadrant)
    requires
        grid.wf(),
        grid.in_bounds(x as int, y as int),
        marks@.len() == grid@.len(),
    ensures
        final(out)@ == old(out)@ + neighbor_mark(grid, marks@, x as int, y as int, q),
        final(out)@.len() == old(out)@.len() + grid.neighbor(x as int, y as int, q).len(),
{
    match grid.step_toward(x, y, q) {
        Some((a, b)) => {
            let index: usize = grid.cell_index(a, b);
            out.push(marks[index]);
        },
        None => {
        },
    }
}

/// The feeding marks of the Von Neumann neighbors of `(x, y)`.
pub fn neighbor_marks(grid: &Grid, marks: &Vec<bool>, x: u32, y: u32) -> (out: Vec<bool>)
    requires
        grid.wf(),
        grid.in_bounds(x as int, y as int),
        marks@.len() == grid@.len(),
    ensures
        out@ == von_neumann_marks(grid, marks@, x as int, y as int),
        out@.len() == grid.von_neumann(x as int, y as int).len(),
{
    let mut out: Vec<bool> = Vec::new();
    push_neighbor_mark(grid, marks, &mut out, x, y, Quadrant::West);
    push_neighbor_mark(grid, marks, &mut out, x, y, Quadrant::North);
    push_neighbor_mark(grid, marks, &mut out, x, y, Quadrant::East);
    push_neighbor_mark(grid, marks, &mut out, x, y, Quadrant::South);
    out
}

/// The model with the three-phase rule: feeding, reproduction and movement.
pub struct PPPEModel {
    grid: Grid,
    params: ModelParams,
    rng: PRng,
}

impl PPPEModel {
    /// A model with an empty grid. The generator is seeded with the
    /// configured seed, or with the clock where none is configured.
    pub fn new(params: ModelParams) -> (res: Result<PPPEModel, ModelError>)
        ensures
            res is Ok <==> params.wf(),
            res matches Ok(m) ==> m.wf() && m.the_params() == params && forall|k: int|
                0 <= k < m.the_grid()@.len() ==> m.the_grid()@[k] == Cell::Empty,
            res matches Err(e) ==> e matches ModelError::Config(fault) && params.has_fault(fault),
    {
        match params.validate() {
            Err(fault) => Err(ModelError::Config(fault)),
            Ok(()) => {
                let grid = Grid::with_edge_policy(params.grid_size, params.edge_wrap);
                let seed: u64 = match params.random_seed {
                    Some(seed) => seed,
                    None => (time_ns() % 0x1_0000_0000_0000_0000) as u64,
                };
                let rng = seeded_rng(seed);
                Ok(PPPEModel { grid, params, rng })
            },
        }
    }

    /// The next state of `cell` among `neighbors` in the feeding phase, and
    /// whether the cell was killed or fed.
    pub fn feeding_phase_next_cell_state(
        params: &ModelParams,
        rng: &mut PRng,
        cell: &Cell,
        neighbors: &Vec<Cell>,
    ) -> (res: (Cell, bool))
        requires
            params.wf(),
            neighbors@.len() <= u32::MAX,
            cell_registered(params, *cell),
            cells_registered(params, neighbors@),
        ensures
            feeding_allowed(params, *cell, neighbors@, res.0, res.1),
            cell_registered(params, res.0),
    {
        match *cell {
            Cell::Animal(specie_id) => {
                let (n_predators, _) = get_neighbor_predators(cell, neighbors, params, rng);
                if params.is_specie_herbivore(specie_id) || n_predators > 0 {
                    let prey_death_rate: u32 = params.get_specie_by_id(specie_id).death_rate;
                    let random: u32 = draw_chance(rng);
                    let res: (Cell, bool) = if trial_any_of(random, prey_death_rate, n_predators) {
                        (Cell::Empty, true)
                    } else {
                        (Cell::Animal(specie_id), false)
                    };
                    proof {
                        assert(res == prey_outcome(
                            params,
                            specie_id,
                            predators_in(params, *cell, neighbors@).len(),
                            random,
                        ));
                    }
                    res
                } else {
                    let (n_prey, most_occurring_prey_id) = get_neighbor_prey(cell, neighbors, params, rng);
                    let prey_death_rate: u32 = if n_prey == 0 {
                        0
                    } else {
                        params.get_specie_by_id(most_occurring_prey_id).death_rate
                    };
                    let random: u32 = draw_chance(rng);
                    let fed: bool = trial_any_of(random, prey_death_rate, n_prey);
                    proof {
                        assert((Cell::Animal(specie_id), fed) == hunt_outcome(
                            params,
                            specie_id,
                            prey_in(params, *cell, neighbors@).len(),
                            most_occurring_prey_id,
                            random,
                        ));
                    }
                    (Cell::Animal(specie_id), fed)
                }
            },
            Cell::Empty => (Cell::Empty, false),
        }
    }

    /// The next state, in the reproduction phase, of `cell` with its mark from
    /// feeding, where `neighbors` are the cell's neighbors before the tick and
    /// `neighbor_cells_fed_or_killed` their marks from feeding.
    pub fn reproduction_phase_next_cell_state(
        params: &ModelParams,
        rng: &mut PRng,
        cell: &Cell,
        fed_or_killed: bool,
        neighbors: &Vec<Cell>,
        neighbor_cells_fed_or_killed: &Vec<bool>,
    ) -> (out: Cell)
        requires
            params.wf(),
            neighbors@.len() <= u32::MAX,
            neighbor_cells_fed_or_killed@.len() == neighbors@.len(),
            cell_registered(params, *cell),
            cells_registered(params, neighbors@),
        ensures
            reproduction_allowed(
                params,
                *cell,
                fed_or_killed,
                neighbors@,
                neighbor_cells_fed_or_killed@,
                out,
            ),
            cell_registered(params, out),
    {
        match *cell {
            Cell::Animal(specie_id) => {
                let (n_predators, _) = get_neighbor_predators(cell, neighbors, params, rng);
                if params.is_specie_herbivore(specie_id) || n_predators > 0 {
                    Cell::Animal(specie_id)
                } else {
                    let random: u32 = draw_chance(rng);
                    let death_rate: u32 = params.get_specie_by_id(specie_id).death_rate;
                    let out: Cell = if trial(random, death_rate) {
                        Cell::Empty
                    } else {
                        Cell::Animal(specie_id)
                    };
                    proof {
                        assert(out == mortality_outcome(params, specie_id, random));
                    }
                    out
                }
            },
            Cell::Empty => {
                if !fed_or_killed {
                    let (n_herbivores, most_occurring_herbivore_id) = get_neighbor_herbivores(
                        neighbors,
                        params,
                        rng,
                    );
                    let (n_predators, _) = get_neighbor_predators(cell, neighbors, params, rng);
                    let mut random: u32 = 0;
                    let out: Cell = if n_herbivores == 0 || n_predators > 0 {
                        Cell::Empty
                    } else {
                        let prey_birth_rate: u32 = params.get_specie_by_id(most_occurring_herbivore_id).birth_rate;
                        random = draw_chance(rng);
                        if trial_any_of(random, prey_birth_rate, n_herbivores) {
                            Cell::Animal(most_occurring_herbivore_id)
                        } else {
                            Cell::Empty
                        }
                    };
                    proof {
                        assert(out == breeding_outcome(
                            params,
                            predators_in(params, *cell, neighbors@).len(),
                            n_herbivores as nat,
                            most_occurring_herbivore_id,
                            random,
                        ));
                    }
                    out
                } else {
                    let mut fed_or_killed_neighbors: Vec<Cell> = Vec::new();
                    let mut i: usize = 0;
                    while i < neighbors.len()
                        invariant
                            i <= neighbors@.len(),
                            neighbor_cells_fed_or_killed@.len() == neighbors@.len(),
                            fed_or_killed_neighbors@ == marked(
                                neighbors@.take(i as int),
                                neighbor_cells_fed_or_killed@.take(i as int),
                            ),
                            fed_or_killed_neighbors@.len() <= i,
                            forall|m: int|
                                0 <= m < fed_or_killed_neighbors@.len() ==> neighbors@.contains(
                                    #[trigger] fed_or_killed_neighbors@[m],
                                ),
                        decreases neighbors@.len() - i,
                    {
                        proof {
                            assert(neighbors@.take(i as int + 1).drop_last() =~= neighbors@.take(i as int));
                            assert(neighbor_cells_fed_or_killed@.take(i as int + 1).drop_last()
                                =~= neighbor_cells_fed_or_killed@.take(i as int));
                        }
                        if neighbor_cells_fed_or_killed[i] {
                            fed_or_killed_neighbors.push(neighbors[i]);
                        }
                        i = i + 1;
                    }
                    proof {
                        assert(neighbors@.take(i as int) =~= neighbors@);
                        assert(neighbor_cells_fed_or_killed@.take(i as int) =~= neighbor_cells_fed_or_killed@);
                    }
                    let (n_fed_predators, most_occurring_predator_id) = get_neighbor_predators(
                        cell,
                        &fed_or_killed_neighbors,
                        params,
                        rng,
                    );
                    let predator_birth_rate: u32 = if n_fed_predators == 0 {
                        0
                    } else {
                        params.get_specie_by_id(most_occurring_predator_id).birth_rate
                    };
                    let random: u32 = draw_chance(rng);
                    let out: Cell = if trial_any_of(random, predator_birth_rate, n_fed_predators) {
                        assert(n_fed_predators > 0);
                        Cell::Animal(most_occurring_predator_id)
                    } else {
                        Cell::Empty
                    };
                    proof {
                        assert(out == succession_outcome(
                            params,
                            predators_in(params, *cell, fed_or_killed_neighbors@).len(),
                            most_occurring_predator_id,
                            random,
                        ));
                    }
                    out
                }
            },
        }
    }

    /// The feeding phase: every cell advanced from `grid` and its Von Neumann
    /// neighborhood, row by row, with the mark of each cell at the cell's
    /// row-major index.
    pub fn feeding_phase(grid: &Grid, params: &ModelParams, rng: &mut PRng) -> (res: (Grid, Vec<bool>))
        requires
            params.wf(),
            grid.wf(),
            cells_registered(params, grid@),
        ensures
            fed_from(params, grid, &res.0, res.1@),
            cells_registered(params, res.0@),
    {
        let size = grid.get_size();
        let mut new_cells = grid.empty_like();
        let mut cells_fed_or_killed: Vec<bool> = Vec::new();
        let total: usize = grid.cell_count();
        let mut k: usize = 0;
        while k < total
            invariant
                k <= total,
                cells_fed_or_killed@.len() == k,
            decreases total - k,
        {
            cells_fed_or_killed.push(false);
            k = k + 1;
        }
        let mut y: u32 = 0;
        while y < size.h
            invariant
                params.wf(),
                grid.wf(),
                cells_registered(params, grid@),
                size == grid.dims(),
                new_cells.wf(),
                new_cells.dims() == grid.dims(),
                new_cells.wraps() == grid.wraps(),
                cells_registered(params, new_cells@),
                cells_fed_or_killed@.len() == grid@.len(),
                y <= size.h,
                forall|a: int, b: int|
                    0 <= a < size.w && 0 <= b < y ==> feeding_allowed(
                        params,
                        grid.cell_at(a, b),
                        grid.von_neumann(a, b),
                        #[trigger] new_cells.cell_at(a, b),
                        cells_fed_or_killed@[grid.index_of(a, b)],
                    ),
            decreases size.h - y,
        {
            let mut x: u32 = 0;
            while x < size.w
                invariant
                    params.wf(),
                    grid.wf(),
                    cells_registered(params, grid@),
                    size == grid.dims(),
                    new_cells.wf(),
                    new_cells.dims() == grid.dims(),
                    new_cells.wraps() == grid.wraps(),
                    cells_registered(params, new_cells@),
                    cells_fed_or_killed@.len() == grid@.len(),
                    y < size.h,
                    x <= size.w,
                    forall|a: int, b: int|
                        0 <= a < size.w && 0 <= b < y ==> feeding_allowed(
                            params,
                            grid.cell_at(a, b),
                            grid.von_neumann(a, b),
                            #[trigger] new_cells.cell_at(a, b),
                            cells_fed_or_killed@[grid.index_of(a, b)],
                        ),
                    forall|a: int|
                        0 <= a < x ==> feeding_allowed(
                            params,
                            grid.cell_at(a, y as int),
                            grid.von_neumann(a, y as int),
                            #[trigger] new_cells.cell_at(a, y as int),
                            cells_fed_or_killed@[grid.index_of(a, y as int)],
                        ),
                decreases size.w - x,
            {
                let cell: Cell = *grid.get_cell_at(x, y);
                let neighbors = grid.von_neumann_neighborhood_r1(x, y);
                let (new_cell, fed_or_killed) = PPPEModel::feeding_phase_next_cell_state(params, rng, &cell, &neighbors);
                let index: usize = grid.cell_index(x, y);
                new_cells.set_cell_at(x, y, new_cell);
                cells_fed_or_killed.set(index, fed_or_killed);
                proof {
                    assert forall|a: int, b: int| 0 <= a < size.w && 0 <= b < y implies feeding_allowed(
                        params,
                        grid.cell_at(a, b),
                        grid.von_neumann(a, b),
                        #[trigger] new_cells.cell_at(a, b),
                        cells_fed_or_killed@[grid.index_of(a, b)],
                    ) by {
                        grid.lemma_indices(a, b, x as int, y as int);
                    }
                }
                x = x + 1;
            }
            y = y + 1;
        }
        (new_cells, cells_fed_or_killed)
    }

    /// The reproduction phase on the outcome of feeding, `fed_cells` with the
    /// marks `cells_fed_or_killed`, in a tick that began with `grid`: every cell
    /// advanced row by row, with its neighbors taken from `grid`.
    pub fn reproduction_phase(
        grid: &Grid,
        params: &ModelParams,
        rng: &mut PRng,
        fed_cells: &Grid,
        cells_fed_or_killed: &Vec<bool>,
    ) -> (next: Grid)
        requires
            params.wf(),
            grid.wf(),
            fed_cells.wf(),
            fed_cells.dims() == grid.dims(),
            cells_fed_or_killed@.len() == grid@.len(),
            cells_registered(params, grid@),
            cells_registered(params, fed_cells@),
        ensures
            bred_from(params, grid, fed_cells, cells_fed_or_killed@, &next),
            cells_registered(params, next@),
    {
        let size = grid.get_size();
        let mut new_cells = grid.empty_like();
        let mut y: u32 = 0;
        while y < size.h
            invariant
                params.wf(),
                grid.wf(),
                fed_cells.wf(),
                fed_cells.dims() == grid.dims(),
                cells_fed_or_killed@.len() == grid@.len(),
                cells_registered(params, grid@),
                cells_registered(params, fed_cells@),
                size == grid.dims(),
                new_cells.wf(),
                new_cells.dims() == grid.dims(),
                new_cells.wraps() == grid.wraps(),
                cells_registered(params, new_cells@),
                y <= size.h,
                forall|a: int, b: int|
                    0 <= a < size.w && 0 <= b < y ==> reproduction_allowed(
                        params,
                        fed_cells.cell_at(a, b),
                        cells_fed_or_killed@[grid.index_of(a, b)],
                        grid.von_neumann(a, b),
                        von_neumann_marks(grid, cells_fed_or_killed@, a, b),
                        #[trigger] new_cells.cell_at(a, b),
                    ),
            decreases size.h - y,
        {
            let mut x: u32 = 0;
            while x < size.w
                invariant
                    params.wf(),
                    grid.wf(),
                    fed_cells.wf(),
                    fed_cells.dims() == grid.dims(),
                    cells_fed_or_killed@.len() == grid@.len(),
                    cells_registered(params, grid@),
                    cells_registered(params, fed_cells@),
                    size == grid.dims(),
                    new_cells.wf(),
                    new_cells.dims() == grid.dims(),
                    new_cells.wraps() == grid.wraps(),
                    cells_registered(params, new_cells@),
                    y < size.h,
                    x <= size.w,
                    forall|a: int, b: int|
                        0 <= a < size.w && 0 <= b < y ==> reproduction_allowed(
                            params,
                            fed_cells.cell_at(a, b),
                            cells_fed_or_killed@[grid.index_of(a, b)],
                            grid.von_neumann(a, b),
                            von_neumann_marks(grid, cells_fed_or_killed@, a, b),
                            #[trigger] new_cells.cell_at(a, b),
                        ),
                    forall|a: int|
                        0 <= a < x ==> reproduction_allowed(
                            params,
                            fed_cells.cell_at(a, y as int),
                            cells_fed_or_killed@[grid.index_of(a, y as int)],
                            grid.von_neumann(a, y as int),
                            von_neumann_marks(grid, cells_fed_or_killed@, a, y as int),
                            #[trigger] new_cells.cell_at(a, y as int),
                        ),
                decreases size.w - x,
            {
                let cell: Cell = *fed_cells.get_cell_at(x, y);
                let index: usize = grid.cell_index(x, y);
                let fed_or_killed: bool = cells_fed_or_killed[index];
                let neighbors = grid.von_neumann_neighborhood_r1(x, y);
                let neighbor_cells_fed_or_killed = neighbor_marks(grid, cells_fed_or_killed, x, y);
                let new_cell = PPPEModel::reproduction_phase_next_cell_state(
                    params,
                    rng,
                    &cell,
                    fed_or_killed,
                    &neighbors,
                    &neighbor_cells_fed_or_killed,
                );
                new_cells.set_cell_at(x, y, new_cell);
                x = x + 1;
            }
            y = y + 1;
        }
        new_cells
    }

    /// The movement phase on `cells`, in a tick that began with `grid`: the
    /// animals of `grid` form their intents, and the intents of those that
    /// are still in their cells are resolved on `cells`.
    pub fn movement_phase(grid: &Grid, params: &ModelParams, rng: &mut PRng, cells: &Grid) -> (new_cells: Grid)
        requires
            params.wf(),
            grid.wf(),
            cells.wf(),
            cells.dims() == grid.dims(),
            cells_registered(params, grid@),
            cells_registered(params, cells@),
        ensures
            movement_allowed(params, grid, cells, &new_cells),
            forall|c: Cell| count_of(new_cells@, c) == count_of(cells@, c),
            cells_registered(params, new_cells@),
    {
        let all_intents = movement_intents(grid, params, rng);
        proof {
            assert forall|k: int| 0 <= k < all_intents@.len() implies grid.in_bounds(
                (#[trigger] all_intents@[k]).0 as int,
                all_intents@[k].1 as int,
            ) && grid.in_bounds(all_intents@[k].2 as int, all_intents@[k].3 as int) by {
                assert(move_allowed(params, grid, all_intents@[k]));
            }
        }
        let competition_list = surviving_intents(grid, cells, &all_intents);
        let new_cells = resolve_competition(cells, &competition_list, rng);
        proof {
            assert(intents_from(params, grid, all_intents@));
            assert forall|k: int| 0 <= k < new_cells@.len() && (#[trigger] new_cells@[k])
                != Cell::Empty implies params.registered(new_cells@[k].specie()) by {
                let c = new_cells@[k];
                lemma_count_positive(new_cells@, c);
                lemma_count_positive(cells@, c);
            }
        }
        new_cells
    }
}

impl Model for PPPEModel {
    closed spec fn the_grid(&self) -> Grid {
        self.grid
    }

    closed spec fn the_params(&self) -> ModelParams {
        self.params
    }

    /// The configuration is well formed, the grid has its size and edge
    /// policy, and every animal is of a species of the configuration.
    open spec fn wf(&self) -> bool {
        &&& self.the_params().wf()
        &&& self.the_grid().wf()
        &&& self.the_grid().dims() == self.the_params().grid_size
        &&& self.the_grid().wraps() == self.the_params().edge_wrap
        &&& cells_registered(&self.the_params(), self.the_grid()@)
    }

    open spec fn may_become(&self, next: Grid) -> bool {
        pppe_allowed(&self.the_params(), &self.the_grid(), &next)
    }

    fn populate(&mut self) -> (res: Result<(), ModelError>) {
        self.grid.populate(&self.params, &mut self.rng)
    }

    /// One tick: feeding, reproduction, movement.
    fn tick(&mut self) {
        let (cells_after_feed, cells_fed_or_killed) = PPPEModel::feeding_phase(&self.grid, &self.params, &mut self.rng);
        let cells_after_reproduction = PPPEModel::reproduction_phase(
            &self.grid,
            &self.params,
            &mut self.rng,
            &cells_after_feed,
            &cells_fed_or_killed,
        );
        let cells_after_movement = PPPEModel::movement_phase(
            &self.grid,
            &self.params,
            &mut self.rng,
            &cells_after_reproduction,
        );
        proof {
            assert(tick_trace(
                &self.params,
                &self.grid,
                &cells_after_feed,
                cells_fed_or_killed@,
                &cells_after_reproduction,
                &cells_after_movement,
            ));
        }
        self.grid = cells_after_movement;
    }

    fn place(&mut self, x: u32, y: u32, cell: Cell) -> (placed: bool) {
        place_cell(&mut self.grid, &self.params, x, y, cell)
    }

    fn get_grid(&self) -> (grid: &Grid) {
        &self.grid
    }

    fn get_params(&self) -> (params: &ModelParams) {
        &self.params
    }
}

} // verus!
