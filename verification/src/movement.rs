use vstd::prelude::*;

use crate::analytics::{
    cell_registered, cells_registered, get_neighbor_predators, get_neighbor_prey, predator_filter,
    predators_in, prey_filter,
};
use crate::grid::{count_of, lemma_count_update, Cell, Grid, Quadrant};
use crate::params::ModelParams;
use crate::random::{draw_below, PRng};

verus! {

/// The place of a direction in the order in which directions are
/// considered: east, north, west, south.
pub open spec fn rank(q: Quadrant) -> int {
    match q {
        Quadrant::East => 0,
        Quadrant::North => 1,
        Quadrant::West => 2,
        Quadrant::South => 3,
    }
}

/// The direction at place `k` of that order.
pub open spec fn quadrant_at(k: int) -> Quadrant {
    if k == 0 {
        Quadrant::East
    } else if k == 1 {
        Quadrant::North
    } else if k == 2 {
        Quadrant::West
    } else {
        Quadrant::South
    }
}

pub fn nth_quadrant(k: usize) -> (q: Quadrant)
    requires
        k < 4,
    ensures
        q == quadrant_at(k as int),
        rank(q) == k,
{
    if k == 0 {
        Quadrant::East
    } else if k == 1 {
        Quadrant::North
    } else if k == 2 {
        Quadrant::West
    } else {
        Quadrant::South
    }
}

/// For each direction in order, how many of the neighbors sensed in its
/// wedge meet `pred`; nothing for a wedge without cells.
pub open spec fn quadrant_counts(grid: &Grid, x: int, y: int, r: int, pred: spec_fn(Cell) -> bool) -> Seq<
    Option<nat>,
> {
    Seq::new(
        4,
        |k: int|
            {
                let cells = grid.moore(x, y, r, Some(quadrant_at(k)));
                if cells.len() == 0 {
                    None
                } else {
                    Some(cells.filter(pred).len())
                }
            },
    )
}

pub open spec fn widened(counts: Seq<Option<u32>>) -> Seq<Option<nat>> {
    Seq::new(
        counts.len(),
        |k: int|
            match counts[k] {
                Some(c) => Some(c as nat),
                None => None,
            },
    )
}

/// Entry `k` holds the smallest count, and is the first that does.
pub open spec fn is_first_least(counts: Seq<Option<nat>>, k: int) -> bool {
    &&& 0 <= k < counts.len()
    &&& counts[k] is Some
    &&& forall|m: int|
        0 <= m < counts.len() && (#[trigger] counts[m]) is Some ==> counts[k]->0 <= counts[m]->0 && (m < k
            ==> counts[k]->0 < counts[m]->0)
}

/// Entry `k` holds the largest count, and is the last that does.
pub open spec fn is_last_most(counts: Seq<Option<nat>>, k: int) -> bool {
    &&& 0 <= k < counts.len()
    &&& counts[k] is Some
    &&& forall|m: int|
        0 <= m < counts.len() && (#[trigger] counts[m]) is Some ==> counts[m]->0 <= counts[k]->0 && (m > k
            ==> counts[m]->0 < counts[k]->0)
}

pub open spec fn none_available(counts: Seq<Option<nat>>) -> bool {
    forall|m: int| 0 <= m < counts.len() ==> (#[trigger] counts[m]) is None
}

pub open spec fn any_positive(counts: Seq<Option<nat>>) -> bool {
    exists|m: int| 0 <= m < counts.len() && (#[trigger] counts[m]) is Some && counts[m]->0 > 0
}

/// The counts alone decide where prey flees and where a predator chases:
/// equal counts are told apart by the order of the directions, and nothing
/// is drawn.
pub proof fn lemma_tie_policy(counts: Seq<Option<nat>>, a: int, b: int)
    ensures
        is_first_least(counts, a) && is_first_least(counts, b) ==> a == b,
        is_last_most(counts, a) && is_last_most(counts, b) ==> a == b,
{
    if is_first_least(counts, a) && is_first_least(counts, b) {
        assert(counts[a] is Some && counts[b] is Some);
    }
    if is_last_most(counts, a) && is_last_most(counts, b) {
        assert(counts[a] is Some && counts[b] is Some);
    }
}

/// The first entry with the smallest count.
pub fn first_least(counts: &Vec<Option<u32>>) -> (pick: Option<usize>)
    ensures
        match pick {
            Some(k) => is_first_least(widened(counts@), k as int),
            None => none_available(widened(counts@)),
        },
{
    let mut best: Option<usize> = None;
    let mut least: u32 = 0;
    let mut k: usize = 0;
    while k < counts.len()
        invariant
            k <= counts@.len(),
            match best {
                None => forall|m: int| 0 <= m < k ==> (#[trigger] counts@[m]) is None,
                Some(b) => b < k && counts@[b as int] == Some(least) && forall|m: int|
                    0 <= m < k && (#[trigger] counts@[m]) is Some ==> least <= counts@[m]->0 && (m < b
                        ==> least < counts@[m]->0),
            },
        decreases counts@.len() - k,
    {
        match counts[k] {
            None => {},
            Some(c) => {
                if best.is_none() || c < least {
                    best = Some(k);
                    least = c;
                }
            },
        }
        k = k + 1;
    }
    proof {
        let wide = widened(counts@);
        assert forall|m: int| 0 <= m < wide.len() implies (#[trigger] wide[m]) == match counts@[m] {
            Some(c) => Some(c as nat),
            None => None,
        } by {}
    }
    best
}

/// The last entry with the largest count.
pub fn last_most(counts: &Vec<Option<u32>>) -> (pick: Option<usize>)
    ensures
        match pick {
            Some(k) => is_last_most(widened(counts@), k as int),
            None => none_available(widened(counts@)),
        },
{
    let mut best: Option<usize> = None;
    let mut most: u32 = 0;
    let mut k: usize = 0;
    while k < counts.len()
        invariant
            k <= counts@.len(),
            match best {
                None => forall|m: int| 0 <= m < k ==> (#[trigger] counts@[m]) is None,
                Some(b) => b < k && counts@[b as int] == Some(most) && forall|m: int|
                    0 <= m < k && (#[trigger] counts@[m]) is Some ==> counts@[m]->0 <= most && (m > b
                        ==> counts@[m]->0 < most),
            },
        decreases counts@.len() - k,
    {
        match counts[k] {
            None => {},
            Some(c) => {
                if best.is_none() || c >= most {
                    best = Some(k);
                    most = c;
                }
            },
        }
        k = k + 1;
    }
    proof {
        let wide = widened(counts@);
        assert forall|m: int| 0 <= m < wide.len() implies (#[trigger] wide[m]) == match counts@[m] {
            Some(c) => Some(c as nat),
            None => None,
        } by {}
    }
    best
}

/// What an animal at `(x, y)` may intend in the movement phase. Prey that
/// senses a predator flees to the first wedge with the fewest predators. A
/// predator without such a threat goes to the last wedge with the most prey
/// if it senses prey, and to any wedge with cells if it senses none. A
/// herbivore without a threat, like an empty cell, intends nothing.
pub open spec fn intent_allowed(
    params: &ModelParams,
    grid: &Grid,
    x: int,
    y: int,
    intent: Option<Quadrant>,
) -> bool {
    let cell = grid.cell_at(x, y);
    let r = params.sense_radius as int;
    match cell {
        Cell::Empty => intent is None,
        Cell::Animal(id) => {
            let threats = quadrant_counts(grid, x, y, r, predator_filter(params, cell));
            let prey = quadrant_counts(grid, x, y, r, prey_filter(params, cell));
            if predators_in(params, cell, grid.moore(x, y, r, None)).len() > 0 {
                match intent {
                    Some(q) => is_first_least(threats, rank(q)),
                    None => none_available(threats),
                }
            } else if !params.herbivore(id) {
                match intent {
                    Some(q) => if any_positive(prey) {
                        is_last_most(prey, rank(q))
                    } else {
                        prey[rank(q)] is Some
                    },
                    None => none_available(prey),
                }
            } else {
                intent is None
            }
        },
    }
}

/// The counts of threatening neighbors, or with `chasing` of edible
/// neighbors, that the animal `cell` at `(x, y)` senses in each wedge.
fn sensed_counts(
    grid: &Grid,
    params: &ModelParams,
    rng: &mut PRng,
    x: u32,
    y: u32,
    cell: &Cell,
    chasing: bool,
) -> (counts: Vec<Option<u32>>)
    requires
        params.wf(),
        grid.wf(),
        grid.in_bounds(x as int, y as int),
        cells_registered(params, grid@),
        cell_registered(params, *cell),
    ensures
        counts@.len() == 4,
        widened(counts@) == quadrant_counts(
            grid,
            x as int,
            y as int,
            params.sense_radius as int,
            if chasing {
                prey_filter(params, *cell)
            } else {
                predator_filter(params, *cell)
            },
        ),
{
    let ghost pred = if chasing {
        prey_filter(params, *cell)
    } else {
        predator_filter(params, *cell)
    };
    let ghost wanted = quadrant_counts(grid, x as int, y as int, params.sense_radius as int, pred);
    let mut counts: Vec<Option<u32>> = Vec::new();
    let mut k: usize = 0;
    while k < 4
        invariant
            params.wf(),
            grid.wf(),
            grid.in_bounds(x as int, y as int),
            cells_registered(params, grid@),
            cell_registered(params, *cell),
            pred == if chasing {
                prey_filter(params, *cell)
            } else {
                predator_filter(params, *cell)
            },
            wanted == quadrant_counts(grid, x as int, y as int, params.sense_radius as int, pred),
            k <= 4,
            counts@.len() == k,
            forall|m: int|
                0 <= m < k ==> wanted[m] == match #[trigger] counts@[m] {
                    Some(c) => Some(c as nat),
                    None => None,
                },
        decreases 4 - k,
    {
        let wedge = nth_quadrant(k);
        let neighbors = grid.moore_neighborhood(x, y, params.sense_radius, Some(wedge));
        proof {
            let r = params.sense_radius as int;
            assert((2 * r + 1) * (2 * r + 1) <= 65_535 * 65_535) by (nonlinear_arith)
                requires
                    0 <= r <= 32_767,
            ;
        }
        if neighbors.len() == 0 {
            counts.push(None);
        } else if chasing {
            let (n, _) = get_neighbor_prey(cell, &neighbors, params, rng);
            counts.push(Some(n));
        } else {
            let (n, _) = get_neighbor_predators(cell, &neighbors, params, rng);
            counts.push(Some(n));
        }
        k = k + 1;
    }
    counts
}

/// The direction in which the animal at `(x, y)` intends to move, if any.
/// Where a predator senses no prey, the direction is drawn among the wedges
/// with cells, unless there is only one.
pub fn movement_intent(grid: &Grid, params: &ModelParams, rng: &mut PRng, x: u32, y: u32) -> (intent: Option<
    Quadrant,
>)
    requires
        params.wf(),
        grid.wf(),
        grid.in_bounds(x as int, y as int),
        cells_registered(params, grid@),
    ensures
        intent_allowed(params, grid, x as int, y as int, intent),
{
    let cell: Cell = *grid.get_cell_at(x, y);
    match cell {
        Cell::Empty => None,
        Cell::Animal(specie_id) => {
            let neighbors = grid.moore_neighborhood(x, y, params.sense_radius, None);
            proof {
                let r = params.sense_radius as int;
                assert((2 * r + 1) * (2 * r + 1) <= 65_535 * 65_535) by (nonlinear_arith)
                    requires
                        0 <= r <= 32_767,
                ;
            }
            let (n_predators, _) = get_neighbor_predators(&cell, &neighbors, params, rng);
            if n_predators > 0 {
                let n_predators_by_quadrant = sensed_counts(grid, params, rng, x, y, &cell, false);
                match first_least(&n_predators_by_quadrant) {
                    Some(k) => Some(nth_quadrant(k)),
                    None => None,
                }
            } else if !params.is_specie_herbivore(specie_id) {
                let n_prey_by_quadrant = sensed_counts(grid, params, rng, x, y, &cell, true);
                let ghost wide = widened(n_prey_by_quadrant@);
                let mut possible_quadrants: Vec<usize> = Vec::new();
                let mut senses_prey: bool = false;
                let mut k: usize = 0;
                while k < 4
                    invariant
                        k <= 4,
                        n_prey_by_quadrant@.len() == 4,
                        wide == widened(n_prey_by_quadrant@),
                        possible_quadrants@.len() <= k,
                        forall|m: int|
                            0 <= m < possible_quadrants@.len() ==> (#[trigger] possible_quadrants@[m]) < 4
                                && wide[possible_quadrants@[m] as int] is Some,
                        possible_quadrants@.len() == 0 ==> forall|m: int|
                            0 <= m < k ==> (#[trigger] wide[m]) is None,
                        senses_prey <==> exists|m: int|
                            0 <= m < k && (#[trigger] wide[m]) is Some && wide[m]->0 > 0,
                    decreases 4 - k,
                {
                    match n_prey_by_quadrant[k] {
                        None => {},
                        Some(n) => {
                            possible_quadrants.push(k);
                            if n > 0 {
                                senses_prey = true;
                                proof {
                                    assert(wide[k as int] is Some && wide[k as int]->0 > 0);
                                }
                            }
                        },
                    }
                    k = k + 1;
                }
                if senses_prey {
                    match last_most(&n_prey_by_quadrant) {
                        Some(k) => Some(nth_quadrant(k)),
                        None => None,
                    }
                } else if possible_quadrants.len() == 0 {
                    None
                } else {
                    let pick: usize = if possible_quadrants.len() == 1 {
                        0
                    } else {
                        draw_below(rng, 0, possible_quadrants.len() as u32) as usize
                    };
                    Some(nth_quadrant(possible_quadrants[pick]))
                }
            } else {
                None
            }
        },
    }
}

/// Whether the intent `(x_from, y_from, x_to, y_to)` may come out of the
/// grid `pre`: an animal at the source may intend a direction, and the
/// target lies one step in it under the grid's edge policy.
pub open spec fn move_allowed(params: &ModelParams, pre: &Grid, m: (u32, u32, u32, u32)) -> bool {
    &&& pre.in_bounds(m.0 as int, m.1 as int)
    &&& pre.in_bounds(m.2 as int, m.3 as int)
    &&& exists|q: Quadrant|
        intent_allowed(params, pre, m.0 as int, m.1 as int, Some(q)) && #[trigger] pre.step(
            m.0 as int,
            m.1 as int,
            q,
        ) == Some((m.2 as int, m.3 as int))
}

/// Whether the cell at `(x, y)` may go without an intent in the list: it may
/// intend nothing, or a direction in which the edge policy gives no cell.
pub open spec fn may_rest(params: &ModelParams, grid: &Grid, x: int, y: int) -> bool {
    exists|intent: Option<Quadrant>| #[trigger]
        intent_allowed(params, grid, x, y, intent) && match intent {
            None => true,
            Some(q) => grid.step(x, y, q) is None,
        }
}

/// Whether the list holds an intent with the source `(x, y)`.
pub open spec fn listed(moves: Seq<(u32, u32, u32, u32)>, x: int, y: int) -> bool {
    exists|k: int| 0 <= k < moves.len() && (#[trigger] moves[k]).0 == x && moves[k].1 == y
}

/// Whether every listed intent may come out of the grid `pre`.
pub open spec fn intents_allowed(params: &ModelParams, pre: &Grid, moves: Seq<(u32, u32, u32, u32)>) -> bool {
    forall|k: int| 0 <= k < moves.len() ==> move_allowed(params, pre, #[trigger] moves[k])
}

/// Whether the sources of the list come in row-major order, each once.
pub open spec fn sources_ascend(pre: &Grid, moves: Seq<(u32, u32, u32, u32)>) -> bool {
    forall|i: int, j: int|
        0 <= i < j < moves.len() ==> pre.index_of(moves[i].0 as int, moves[i].1 as int) < pre.index_of(
            moves[j].0 as int,
            moves[j].1 as int,
        )
}

/// Whether `moves` may be the list of the intents that the animals of `pre`
/// form: every listed intent is allowed, the sources come in row-major
/// order, and a cell without an intent in the list may go without one.
pub open spec fn intents_from(params: &ModelParams, pre: &Grid, moves: Seq<(u32, u32, u32, u32)>) -> bool {
    &&& intents_allowed(params, pre, moves)
    &&& sources_ascend(pre, moves)
    &&& forall|x: int, y: int| pre.in_bounds(x, y) ==> #[trigger] listed(moves, x, y) || may_rest(params, pre, x, y)
}

/// The intents of all animals of `grid`, by source in row-major order. An
/// intent whose target lies beyond a closed edge is left out.
pub fn movement_intents(grid: &Grid, params: &ModelParams, rng: &mut PRng) -> (competition_list: Vec<
    (u32, u32, u32, u32),
>)
    requires
        params.wf(),
        grid.wf(),
        cells_registered(params, grid@),
    ensures
        intents_from(params, grid, competition_list@),
{
    let size = grid.get_size();
    let mut competition_list: Vec<(u32, u32, u32, u32)> = Vec::new();
    let mut y: u32 = 0;
    while y < size.h
        invariant
            params.wf(),
            grid.wf(),
            cells_registered(params, grid@),
            size == grid.dims(),
            y <= size.h,
            forall|k: int|
                0 <= k < competition_list@.len() ==> move_allowed(
                    params,
                    grid,
                    #[trigger] competition_list@[k],
                ),
            forall|k: int|
                0 <= k < competition_list@.len() ==> (#[trigger] competition_list@[k]).1 < y,
            forall|a: int, b: int|
                0 <= a < size.w && 0 <= b < y ==> #[trigger] listed(competition_list@, a, b) || may_rest(
                    params,
                    grid,
                    a,
                    b,
                ),
            forall|i: int, j: int|
                0 <= i < j < competition_list@.len() ==> grid.index_of(
                    competition_list@[i].0 as int,
                    competition_list@[i].1 as int,
                ) < grid.index_of(competition_list@[j].0 as int, competition_list@[j].1 as int),
        decreases size.h - y,
    {
        let mut x: u32 = 0;
        while x < size.w
            invariant
                params.wf(),
                grid.wf(),
                cells_registered(params, grid@),
                size == grid.dims(),
                y < size.h,
                x <= size.w,
                forall|k: int|
                    0 <= k < competition_list@.len() ==> move_allowed(
                        params,
                        grid,
                        #[trigger] competition_list@[k],
                    ),
                forall|k: int|
                    0 <= k < competition_list@.len() ==> (#[trigger] competition_list@[k]).1 < y || (
                    competition_list@[k].1 == y && competition_list@[k].0 < x),
                forall|a: int, b: int|
                    0 <= a < size.w && (0 <= b < y || (b == y && a < x)) ==> #[trigger] listed(
                        competition_list@,
                        a,
                        b,
                    ) || may_rest(params, grid, a, b),
                forall|i: int, j: int|
                    0 <= i < j < competition_list@.len() ==> grid.index_of(
                        competition_list@[i].0 as int,
                        competition_list@[i].1 as int,
                    ) < grid.index_of(competition_list@[j].0 as int, competition_list@[j].1 as int),
            decreases size.w - x,
        {
            let ghost before = competition_list@;
            let intent = movement_intent(grid, params, rng, x, y);
            match intent {
                None => {},
                Some(wedge) => {
                    match grid.step_toward(x, y, wedge) {
                        None => {},
                        Some((x_to, y_to)) => {
                            competition_list.push((x, y, x_to, y_to));
                            proof {
                                assert forall|i: int| 0 <= i < before.len() implies grid.index_of(
                                    before[i].0 as int,
                                    before[i].1 as int,
                                ) < grid.index_of(x as int, y as int) by {
                                    lemma_row_major(
                                        size.w as int,
                                        before[i].0 as int,
                                        before[i].1 as int,
                                        x as int,
                                        y as int,
                                    );
                                }
                                assert(competition_list@[before.len() as int].0 == x);
                            }
                        },
                    }
                },
            }
            proof {
                assert forall|a: int, b: int|
                    0 <= a < size.w && (0 <= b < y || (b == y && a < x + 1)) implies #[trigger] listed(
                    competition_list@,
                    a,
                    b,
                ) || may_rest(params, grid, a, b) by {
                    if (a != x || b != y) && listed(before, a, b) {
                        let k = choose|k: int|
                            0 <= k < before.len() && (#[trigger] before[k]).0 == a && before[k].1 == b;
                        assert(competition_list@[k] == before[k]);
                    }
                }
            }
            x = x + 1;
        }
        y = y + 1;
    }
    competition_list
}

/// A coordinate that comes earlier in row-major order has the smaller index.
pub proof fn lemma_row_major(w: int, a: int, b: int, x: int, y: int)
    requires
        0 <= a < w,
        0 <= x < w,
        b < y || (b == y && a < x),
    ensures
        a + b * w < x + y * w,
{
    if b < y {
        assert(y * w - b * w >= w) by (nonlinear_arith)
            requires
                b < y,
                0 < w,
        ;
    }
}

/// Whether source and target of every intent lie on the grid.
pub open spec fn moves_in_bounds(grid: &Grid, moves: Seq<(u32, u32, u32, u32)>) -> bool {
    forall|k: int|
        0 <= k < moves.len() ==> grid.in_bounds((#[trigger] moves[k]).0 as int, moves[k].1 as int)
            && grid.in_bounds(moves[k].2 as int, moves[k].3 as int)
}

/// The candidates for the target with index `t`: the indices of the sources
/// of the intents with that target, in the order of the list.
pub open spec fn sources_of(grid: &Grid, moves: Seq<(u32, u32, u32, u32)>, t: int) -> Seq<int>
    decreases moves.len(),
{
    if moves.len() == 0 {
        Seq::empty()
    } else {
        let rest = sources_of(grid, moves.drop_last(), t);
        let m = moves.last();
        if grid.index_of(m.2 as int, m.3 as int) == t {
            rest.push(grid.index_of(m.0 as int, m.1 as int))
        } else {
            rest
        }
    }
}

/// The cells after the competition for the target `t` is settled: if the
/// target is still empty and candidate `pick` exists, the target takes what
/// that candidate's cell holds and that cell is cleared.
pub open spec fn settle(before: Seq<Cell>, sources: Seq<int>, t: int, pick: int) -> Seq<Cell> {
    if before[t] == Cell::Empty && 0 <= pick < sources.len() {
        before.update(t, before[sources[pick]]).update(sources[pick], Cell::Empty)
    } else {
        before
    }
}

/// The cells after the competitions for the first `k` targets in row-major
/// order are settled with the given picks. Only the targets that `grid`
/// holds empty are competed for.
pub open spec fn resolved(grid: &Grid, moves: Seq<(u32, u32, u32, u32)>, picks: Seq<int>, k: nat) -> Seq<
    Cell,
>
    decreases k,
{
    if k == 0 {
        grid@
    } else {
        let before = resolved(grid, moves, picks, (k - 1) as nat);
        let t = k - 1;
        if grid@[t] == Cell::Empty {
            settle(before, sources_of(grid, moves, t), t, picks[t])
        } else {
            before
        }
    }
}

/// One pick for each cell, which names a candidate wherever there is one.
pub open spec fn picks_valid(grid: &Grid, moves: Seq<(u32, u32, u32, u32)>, picks: Seq<int>) -> bool {
    &&& picks.len() == grid@.len()
    &&& forall|t: int|
        0 <= t < picks.len() ==> 0 <= #[trigger] picks[t] && (sources_of(grid, moves, t).len() > 0
            ==> picks[t] < sources_of(grid, moves, t).len())
}

/// Whether `out` may come out of resolving the intents `moves` on `cells`:
/// it is what the competitions give under some valid picks.
pub open spec fn moved_from(cells: &Grid, moves: Seq<(u32, u32, u32, u32)>, out: &Grid) -> bool {
    &&& out.wf()
    &&& out.dims() == cells.dims()
    &&& out.wraps() == cells.wraps()
    &&& exists|picks: Seq<int>|
        picks_valid(cells, moves, picks) && out@ == #[trigger] resolved(cells, moves, picks, cells@.len())
}

/// Every candidate is the source of a listed intent with that target.
pub proof fn lemma_sources_listed(grid: &Grid, moves: Seq<(u32, u32, u32, u32)>, t: int, j: int)
    requires
        0 <= j < sources_of(grid, moves, t).len(),
    ensures
        exists|m: int|
            0 <= m < moves.len() && sources_of(grid, moves, t)[j] == grid.index_of(
                (#[trigger] moves[m]).0 as int,
                moves[m].1 as int,
            ) && grid.index_of(moves[m].2 as int, moves[m].3 as int) == t,
    decreases moves.len(),
{
    let last = moves.len() - 1;
    let rest = sources_of(grid, moves.drop_last(), t);
    if j < rest.len() {
        lemma_sources_listed(grid, moves.drop_last(), t, j);
        let m = choose|m: int|
            0 <= m < moves.drop_last().len() && rest[j] == grid.index_of(
                (#[trigger] moves.drop_last()[m]).0 as int,
                moves.drop_last()[m].1 as int,
            ) && grid.index_of(moves.drop_last()[m].2 as int, moves.drop_last()[m].3 as int) == t;
        assert(moves[m] == moves.drop_last()[m]);
    } else {
        assert(sources_of(grid, moves, t)[j] == grid.index_of(moves[last].0 as int, moves[last].1 as int));
    }
}

/// Every candidate is the index of a cell.
pub proof fn lemma_sources_in_range(grid: &Grid, moves: Seq<(u32, u32, u32, u32)>, t: int, j: int)
    requires
        grid.wf(),
        moves_in_bounds(grid, moves),
        0 <= j < sources_of(grid, moves, t).len(),
    ensures
        0 <= sources_of(grid, moves, t)[j] < grid@.len(),
{
    lemma_sources_listed(grid, moves, t, j);
    let m = choose|m: int|
        0 <= m < moves.len() && sources_of(grid, moves, t)[j] == grid.index_of(
            (#[trigger] moves[m]).0 as int,
            moves[m].1 as int,
        ) && grid.index_of(moves[m].2 as int, moves[m].3 as int) == t;
    grid.lemma_indices(moves[m].0 as int, moves[m].1 as int, moves[m].0 as int, moves[m].1 as int);
}

/// Settling a competition moves cells about and changes none: every value
/// occurs as often as before.
pub proof fn lemma_settle_conserves(before: Seq<Cell>, sources: Seq<int>, t: int, pick: int, c: Cell)
    requires
        0 <= t < before.len(),
        forall|j: int| 0 <= j < sources.len() ==> 0 <= #[trigger] sources[j] < before.len(),
    ensures
        settle(before, sources, t, pick).len() == before.len(),
        count_of(settle(before, sources, t, pick), c) == count_of(before, c),
{
    if before[t] == Cell::Empty && 0 <= pick < sources.len() {
        let s = sources[pick];
        let moved = before.update(t, before[s]);
        lemma_count_update(before, t, before[s], c);
        lemma_count_update(moved, s, Cell::Empty, c);
    }
}

/// The competitions keep the number of cells, and every value occurs after
/// them as often as before: movement neither makes nor loses an animal.
pub proof fn lemma_resolved_conserves(
    grid: &Grid,
    moves: Seq<(u32, u32, u32, u32)>,
    picks: Seq<int>,
    k: nat,
    c: Cell,
)
    requires
        grid.wf(),
        moves_in_bounds(grid, moves),
        k <= grid@.len(),
    ensures
        resolved(grid, moves, picks, k).len() == grid@.len(),
        count_of(resolved(grid, moves, picks, k), c) == count_of(grid@, c),
    decreases k,
{
    if k > 0 {
        lemma_resolved_conserves(grid, moves, picks, (k - 1) as nat, c);
        let before = resolved(grid, moves, picks, (k - 1) as nat);
        let t = k - 1;
        let sources = sources_of(grid, moves, t);
        assert forall|j: int| 0 <= j < sources.len() implies 0 <= #[trigger] sources[j] < before.len() by {
            lemma_sources_in_range(grid, moves, t, j);
        }
        lemma_settle_conserves(before, sources, t, picks[t], c);
    }
}

/// The outcome of the first `k` competitions depends on the first `k` picks
/// alone.
pub proof fn lemma_resolved_prefix(
    grid: &Grid,
    moves: Seq<(u32, u32, u32, u32)>,
    picks: Seq<int>,
    others: Seq<int>,
    k: nat,
)
    requires
        forall|t: int| 0 <= t < k ==> picks[t] == others[t],
    ensures
        resolved(grid, moves, picks, k) == resolved(grid, moves, others, k),
    decreases k,
{
    if k > 0 {
        lemma_resolved_prefix(grid, moves, picks, others, (k - 1) as nat);
    }
}

/// A cell that is neither source nor target of a listed intent holds after
/// the competitions what it held before.
pub proof fn lemma_resolved_frame(
    grid: &Grid,
    moves: Seq<(u32, u32, u32, u32)>,
    picks: Seq<int>,
    k: nat,
    i: int,
)
    requires
        grid.wf(),
        moves_in_bounds(grid, moves),
        k <= grid@.len(),
        0 <= i < grid@.len(),
        forall|m: int|
            0 <= m < moves.len() ==> grid.index_of((#[trigger] moves[m]).0 as int, moves[m].1 as int) != i
                && grid.index_of(moves[m].2 as int, moves[m].3 as int) != i,
    ensures
        resolved(grid, moves, picks, k)[i] == grid@[i],
    decreases k,
{
    if k > 0 {
        lemma_resolved_frame(grid, moves, picks, (k - 1) as nat, i);
        lemma_resolved_conserves(grid, moves, picks, (k - 1) as nat, Cell::Empty);
        let before = resolved(grid, moves, picks, (k - 1) as nat);
        let t = k - 1;
        let sources = sources_of(grid, moves, t);
        let pick = picks[t];
        if grid@[t] == Cell::Empty && before[t] == Cell::Empty && 0 <= pick < sources.len() {
            lemma_sources_listed(grid, moves, t, pick);
            lemma_sources_in_range(grid, moves, t, pick);
        }
    }
}

/// The candidates for the target with index `t`.
pub fn sources_for(grid: &Grid, moves: &Vec<(u32, u32, u32, u32)>, t: usize) -> (candidates: Vec<usize>)
    requires
        grid.wf(),
        moves_in_bounds(grid, moves@),
    ensures
        candidates@.len() == sources_of(grid, moves@, t as int).len(),
        forall|j: int|
            0 <= j < candidates@.len() ==> (#[trigger] candidates@[j]) as int == sources_of(
                grid,
                moves@,
                t as int,
            )[j],
        forall|j: int| 0 <= j < candidates@.len() ==> (#[trigger] candidates@[j]) < grid@.len(),
{
    let mut candidates: Vec<usize> = Vec::new();
    let mut k: usize = 0;
    while k < moves.len()
        invariant
            grid.wf(),
            moves_in_bounds(grid, moves@),
            k <= moves@.len(),
            candidates@.len() == sources_of(grid, moves@.take(k as int), t as int).len(),
            forall|j: int|
                0 <= j < candidates@.len() ==> (#[trigger] candidates@[j]) as int == sources_of(
                    grid,
                    moves@.take(k as int),
                    t as int,
                )[j],
            forall|j: int| 0 <= j < candidates@.len() ==> (#[trigger] candidates@[j]) < grid@.len(),
        decreases moves@.len() - k,
    {
        proof {
            assert(moves@.take(k as int + 1).drop_last() =~= moves@.take(k as int));
        }
        let (x_from, y_from, x_to, y_to) = moves[k];
        if grid.cell_index(x_to, y_to) == t {
            candidates.push(grid.cell_index(x_from, y_from));
        }
        k = k + 1;
    }
    proof {
        assert(moves@.take(k as int) =~= moves@);
    }
    candidates
}

/// Resolves the intents on `cells`: for each empty target in row-major
/// order, one candidate moves there, drawn among several, and leaves its own
/// cell empty. Intents whose target holds an animal are dropped.
pub fn resolve_competition(cells: &Grid, competition_list: &Vec<(u32, u32, u32, u32)>, rng: &mut PRng) -> (new_cells:
    Grid)
    requires
        cells.wf(),
        moves_in_bounds(cells, competition_list@),
    ensures
        moved_from(cells, competition_list@, &new_cells),
        forall|c: Cell| count_of(new_cells@, c) == count_of(cells@, c),
{
    let mut new_cells = cells.copy();
    let total: usize = cells.cell_count();
    let ghost mut picks: Seq<int> = Seq::empty();
    let mut t: usize = 0;
    while t < total
        invariant
            cells.wf(),
            moves_in_bounds(cells, competition_list@),
            total == cells@.len(),
            t <= total,
            new_cells.dims() == cells.dims(),
            new_cells.wraps() == cells.wraps(),
            new_cells@.len() == total,
            picks.len() == t,
            forall|i: int|
                0 <= i < t ==> 0 <= #[trigger] picks[i] && (sources_of(cells, competition_list@, i).len() > 0
                    ==> picks[i] < sources_of(cells, competition_list@, i).len()),
            new_cells@ == resolved(cells, competition_list@, picks, t as nat),
        decreases total - t,
    {
        let ghost before = new_cells@;
        let ghost earlier = picks;
        let mut random: usize = 0;
        if cells.get_cell(t) == Cell::Empty {
            let candidates = sources_for(cells, competition_list, t);
            if candidates.len() > 0 {
                if candidates.len() > 1 {
                    let bound: u32 = if candidates.len() > u32::MAX as usize {
                        u32::MAX
                    } else {
                        candidates.len() as u32
                    };
                    random = draw_below(rng, 0, bound) as usize;
                }
                if new_cells.get_cell(t) == Cell::Empty {
                    let from: usize = candidates[random];
                    let cell: Cell = new_cells.get_cell(from);
                    new_cells.set_cell(t, cell);
                    new_cells.set_cell(from, Cell::Empty);
                }
            }
        }
        proof {
            picks = earlier.push(random as int);
            lemma_resolved_prefix(cells, competition_list@, earlier, picks, t as nat);
        }
        t = t + 1;
    }
    proof {
        assert forall|c: Cell| count_of(new_cells@, c) == count_of(cells@, c) by {
            lemma_resolved_conserves(cells, competition_list@, picks, total as nat, c);
        }
    }
    new_cells
}

/// Whether the animal that formed the intent is still in its cell after the
/// earlier phases, which made `cells` of `pre`.
pub open spec fn survived(pre: &Grid, cells: &Grid, m: (u32, u32, u32, u32)) -> bool {
    cells.cell_at(m.0 as int, m.1 as int) == pre.cell_at(m.0 as int, m.1 as int)
}

pub open spec fn survivor_filter(pre: &Grid, cells: &Grid) -> spec_fn((u32, u32, u32, u32)) -> bool {
    |m: (u32, u32, u32, u32)| survived(pre, cells, m)
}

/// The intents of the animals that are still in their cells, in the order
/// of the list. The intent of an animal that was killed or died is void.
pub open spec fn surviving(pre: &Grid, cells: &Grid, moves: Seq<(u32, u32, u32, u32)>) -> Seq<
    (u32, u32, u32, u32),
> {
    moves.filter(survivor_filter(pre, cells))
}

/// Computes `surviving`.
pub fn surviving_intents(pre: &Grid, cells: &Grid, moves: &Vec<(u32, u32, u32, u32)>) -> (live: Vec<
    (u32, u32, u32, u32),
>)
    requires
        pre.wf(),
        cells.wf(),
        cells.dims() == pre.dims(),
        moves_in_bounds(pre, moves@),
    ensures
        live@ == surviving(pre, cells, moves@),
        moves_in_bounds(cells, live@),
{
    let ghost keep = survivor_filter(pre, cells);
    let mut live: Vec<(u32, u32, u32, u32)> = Vec::new();
    let mut k: usize = 0;
    while k < moves.len()
        invariant
            pre.wf(),
            cells.wf(),
            cells.dims() == pre.dims(),
            moves_in_bounds(pre, moves@),
            keep == survivor_filter(pre, cells),
            k <= moves@.len(),
            live@ == moves@.take(k as int).filter(keep),
            moves_in_bounds(cells, live@),
        decreases moves@.len() - k,
    {
        proof {
            assert(moves@.take(k as int + 1) =~= moves@.take(k as int).push(moves@[k as int]));
            moves@.take(k as int).lemma_filter_push(moves@[k as int], keep);
        }
        let (x_from, y_from, x_to, y_to) = moves[k];
        if *cells.get_cell_at(x_from, y_from) == *pre.get_cell_at(x_from, y_from) {
            live.push(moves[k]);
        }
        k = k + 1;
    }
    proof {
        assert(moves@.take(k as int) =~= moves@);
    }
    live
}

/// Whether `out` may come out of the movement phase on `cells`, in a tick
/// that began with `pre`: the animals of `pre` form intents, and those of
/// the animals that are still there are resolved on `cells`.
pub open spec fn movement_allowed(params: &ModelParams, pre: &Grid, cells: &Grid, out: &Grid) -> bool {
    exists|moves: Seq<(u32, u32, u32, u32)>|
        intents_from(params, pre, moves) && #[trigger] moved_from(cells, surviving(pre, cells, moves), out)
}

/// In the movement phase every value occurs after the phase as often as
/// before it, whatever is drawn.
pub proof fn lemma_movement_conserves(cells: &Grid, moves: Seq<(u32, u32, u32, u32)>, out: &Grid, c: Cell)
    requires
        cells.wf(),
        moves_in_bounds(cells, moves),
        moved_from(cells, moves, out),
    ensures
        count_of(out@, c) == count_of(cells@, c),
{
    let picks = choose|picks: Seq<int>|
        picks_valid(cells, moves, picks) && out@ == #[trigger] resolved(cells, moves, picks, cells@.len());
    lemma_resolved_conserves(cells, moves, picks, cells@.len(), c);
}

} // verus!
