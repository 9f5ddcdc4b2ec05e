use vstd::prelude::*;

use crate::grid::{count_of, lemma_count_bounded, lemma_count_positive, lemma_count_push, Cell};
use crate::params::ModelParams;
use crate::random::{draw_below, PRng};

verus! {

/// Whether some cell of the sequence holds an animal.
pub open spec fn has_animal(cells: Seq<Cell>) -> bool {
    exists|k: int| 0 <= k < cells.len() && #[trigger] cells[k] != Cell::Empty
}

/// Whether the species `id` occurs in `cells` and no species occurs more often.
pub open spec fn top_id(cells: Seq<Cell>, id: u32) -> bool {
    &&& cells.contains(Cell::Animal(id))
    &&& forall|other: u32| count_of(cells, Cell::Animal(other)) <= count_of(cells, Cell::Animal(id))
}

/// Whether `id` may be named as the most frequent species of `cells`: one of
/// the species that occur most often, or 0 where no animal occurs.
pub open spec fn leads(cells: Seq<Cell>, id: u32) -> bool {
    if has_animal(cells) {
        top_id(cells, id)
    } else {
        id == 0
    }
}

/// Whether `(count, id)` names a most frequent species of `cells` and how
/// often it occurs; `(0, 0)` where no animal occurs.
pub open spec fn dominant(cells: Seq<Cell>, count: u32, id: u32) -> bool {
    &&& leads(cells, id)
    &&& count == if has_animal(cells) {
        count_of(cells, Cell::Animal(id))
    } else {
        0
    }
}

pub open spec fn strictly_increasing(ids: Seq<u32>) -> bool {
    forall|i: int, j: int| 0 <= i < j < ids.len() ==> ids[i] < ids[j]
}

/// Every animal of the sequence belongs to a species of `params`.
pub open spec fn cells_registered(params: &ModelParams, cells: Seq<Cell>) -> bool {
    forall|k: int|
        0 <= k < cells.len() && (#[trigger] cells[k]) != Cell::Empty ==> params.registered(
            cells[k].specie(),
        )
}

/// Whether `cell` is empty or holds an animal of a species of `params`.
pub open spec fn cell_registered(params: &ModelParams, cell: Cell) -> bool {
    cell != Cell::Empty ==> params.registered(cell.specie())
}

/// Whether `neighbor` threatens `cell`: an animal that eats the species in
/// `cell`, or beside an empty cell any animal that is no herbivore.
pub open spec fn is_predator_of(params: &ModelParams, cell: Cell, neighbor: Cell) -> bool {
    match neighbor {
        Cell::Empty => false,
        Cell::Animal(n) => match cell {
            Cell::Animal(id) => params.predator_for(n, id),
            Cell::Empty => !params.herbivore(n),
        },
    }
}

/// Whether `neighbor` is an animal that the species in `cell` eats.
pub open spec fn is_prey_of(params: &ModelParams, cell: Cell, neighbor: Cell) -> bool {
    match neighbor {
        Cell::Empty => false,
        Cell::Animal(n) => match cell {
            Cell::Animal(id) => params.predator_for(id, n),
            Cell::Empty => false,
        },
    }
}

/// Whether `neighbor` is an animal of a herbivore species.
pub open spec fn is_herbivore(params: &ModelParams, neighbor: Cell) -> bool {
    match neighbor {
        Cell::Empty => false,
        Cell::Animal(n) => params.herbivore(n),
    }
}

pub open spec fn predator_filter(params: &ModelParams, cell: Cell) -> spec_fn(Cell) -> bool {
    |c: Cell| is_predator_of(params, cell, c)
}

pub open spec fn prey_filter(params: &ModelParams, cell: Cell) -> spec_fn(Cell) -> bool {
    |c: Cell| is_prey_of(params, cell, c)
}

pub open spec fn herbivore_filter(params: &ModelParams) -> spec_fn(Cell) -> bool {
    |c: Cell| is_herbivore(params, c)
}

/// The neighbors that threaten `cell`, in their order.
pub open spec fn predators_in(params: &ModelParams, cell: Cell, neighbors: Seq<Cell>) -> Seq<Cell> {
    neighbors.filter(predator_filter(params, cell))
}

/// The neighbors that the species in `cell` eats, in their order.
pub open spec fn prey_in(params: &ModelParams, cell: Cell, neighbors: Seq<Cell>) -> Seq<Cell> {
    neighbors.filter(prey_filter(params, cell))
}

/// The herbivores among the neighbors, in their order.
pub open spec fn herbivores_in(params: &ModelParams, neighbors: Seq<Cell>) -> Seq<Cell> {
    neighbors.filter(herbivore_filter(params))
}

/// A sequence of animals alone holds an animal exactly when it is not empty.
pub proof fn lemma_animals_only(cells: Seq<Cell>)
    requires
        forall|k: int| 0 <= k < cells.len() ==> cells[k] != Cell::Empty,
    ensures
        has_animal(cells) <==> cells.len() > 0,
{
    if cells.len() > 0 {
        assert(cells[0] != Cell::Empty);
    }
}

/// How often the species `id` occurs.
pub fn count_species(cells: &Vec<Cell>, id: u32) -> (n: usize)
    ensures
        n == count_of(cells@, Cell::Animal(id)),
{
    let mut n: usize = 0;
    let mut k: usize = 0;
    while k < cells.len()
        invariant
            k <= cells@.len(),
            n == count_of(cells@.take(k as int), Cell::Animal(id)),
            n <= k,
        decreases cells@.len() - k,
    {
        proof {
            assert(cells@.take(k as int + 1) =~= cells@.take(k as int).push(cells@[k as int]));
            lemma_count_push(cells@.take(k as int), cells@[k as int], Cell::Animal(id));
        }
        if cells[k] == Cell::Animal(id) {
            n = n + 1;
        }
        k = k + 1;
    }
    proof {
        assert(cells@.take(k as int) =~= cells@);
    }
    n
}

/// Adds `id` to an increasing list of ids, unless it is there already.
pub fn insert_id(ids: &mut Vec<u32>, id: u32)
    requires
        strictly_increasing(old(ids)@),
    ensures
        strictly_increasing(final(ids)@),
        forall|x: u32| final(ids)@.contains(x) <==> (old(ids)@.contains(x) || x == id),
{
    let mut p: usize = 0;
    while p < ids.len() && ids[p] < id
        invariant
            p <= ids@.len(),
            ids@ == old(ids)@,
            strictly_increasing(ids@),
            forall|m: int| 0 <= m < p ==> ids@[m] < id,
        decreases ids@.len() - p,
    {
        p = p + 1;
    }
    if p >= ids.len() || ids[p] != id {
        ids.insert(p, id);
        proof {
            let before = old(ids)@;
            let after = ids@;
            assert(after.len() == before.len() + 1);
            assert(forall|m: int| 0 <= m < p ==> after[m] == before[m]);
            assert(after[p as int] == id);
            assert(forall|m: int| p < m < after.len() ==> after[m] == before[m - 1]);
            assert forall|x: u32| after.contains(x) <==> (before.contains(x) || x == id) by {
                if after.contains(x) {
                    let m = choose|m: int| 0 <= m < after.len() && after[m] == x;
                    if m < p {
                        assert(before[m] == x);
                    } else if m > p {
                        assert(before[m - 1] == x);
                    }
                }
                if before.contains(x) {
                    let m = choose|m: int| 0 <= m < before.len() && before[m] == x;
                    if m < p {
                        assert(after[m] == x);
                    } else {
                        assert(after[m + 1] == x);
                    }
                }
                if x == id {
                    assert(after[p as int] == x);
                }
            }
        }
    }
}

/// The species that occur most often among `cells`, in increasing order of
/// id, and how often each of them occurs; no species and 0 where no animal
/// occurs.
pub fn top_species(cells: &Vec<Cell>) -> (res: (usize, Vec<u32>))
    ensures
        strictly_increasing(res.1@),
        forall|id: u32| res.1@.contains(id) <==> top_id(cells@, id),
        forall|id: u32| res.1@.contains(id) ==> res.0 == count_of(cells@, Cell::Animal(id)),
        res.1@.len() == 0 <==> !has_animal(cells@),
        res.1@.len() == 0 ==> res.0 == 0,
        res.1@.len() <= cells@.len(),
{
    let mut best: usize = 0;
    let mut k: usize = 0;
    while k < cells.len()
        invariant
            k <= cells@.len(),
            forall|m: int|
                0 <= m < k && cells@[m] != Cell::Empty ==> count_of(cells@, #[trigger] cells@[m]) <= best,
            best == 0 ==> forall|m: int| 0 <= m < k ==> #[trigger] cells@[m] == Cell::Empty,
            best > 0 ==> exists|m: int|
                0 <= m < k && #[trigger] cells@[m] != Cell::Empty && count_of(cells@, cells@[m]) == best,
        decreases cells@.len() - k,
    {
        match cells[k] {
            Cell::Empty => {},
            Cell::Animal(id) => {
                let n: usize = count_species(cells, id);
                proof {
                    lemma_count_positive(cells@, Cell::Animal(id));
                    assert(cells@[k as int] == Cell::Animal(id));
                }
                if n > best {
                    best = n;
                }
            },
        }
        k = k + 1;
    }
    let mut ids: Vec<u32> = Vec::new();
    let mut k: usize = 0;
    while k < cells.len()
        invariant
            k <= cells@.len(),
            strictly_increasing(ids@),
            ids@.len() <= k,
            forall|id: u32|
                ids@.contains(id) <==> exists|m: int|
                    0 <= m < k && #[trigger] cells@[m] == Cell::Animal(id) && count_of(
                        cells@,
                        Cell::Animal(id),
                    ) == best,
        decreases cells@.len() - k,
    {
        let ghost before = ids@;
        match cells[k] {
            Cell::Empty => {},
            Cell::Animal(id) => {
                let n: usize = count_species(cells, id);
                if n == best {
                    let len_before: usize = ids.len();
                    insert_id(&mut ids, id);
                    proof {
                        assert(ids@.len() <= len_before + 1) by {
                            lemma_increasing_len(before, ids@, id);
                        }
                    }
                }
            },
        }
        proof {
            assert forall|id: u32|
                ids@.contains(id) <==> exists|m: int|
                    0 <= m < k + 1 && #[trigger] cells@[m] == Cell::Animal(id) && count_of(
                        cells@,
                        Cell::Animal(id),
                    ) == best by {
                if ids@.contains(id) {
                    if before.contains(id) {
                        let m = choose|m: int|
                            0 <= m < k && #[trigger] cells@[m] == Cell::Animal(id) && count_of(
                                cells@,
                                Cell::Animal(id),
                            ) == best;
                        assert(0 <= m < k + 1 && cells@[m] == Cell::Animal(id));
                    } else {
                        assert(cells@[k as int] == Cell::Animal(id));
                    }
                }
                if exists|m: int|
                    0 <= m < k + 1 && #[trigger] cells@[m] == Cell::Animal(id) && count_of(
                        cells@,
                        Cell::Animal(id),
                    ) == best {
                    let m = choose|m: int|
                        0 <= m < k + 1 && #[trigger] cells@[m] == Cell::Animal(id) && count_of(
                            cells@,
                            Cell::Animal(id),
                        ) == best;
                    if m < k {
                        assert(before.contains(id));
                    }
                }
            }
        }
        k = k + 1;
    }
    proof {
        assert forall|id: u32| ids@.contains(id) <==> top_id(cells@, id) by {
            lemma_count_positive(cells@, Cell::Animal(id));
            if ids@.contains(id) {
                let m = choose|m: int|
                    0 <= m < cells@.len() && #[trigger] cells@[m] == Cell::Animal(id) && count_of(
                        cells@,
                        Cell::Animal(id),
                    ) == best;
                assert forall|other: u32| count_of(cells@, Cell::Animal(other)) <= best by {
                    lemma_count_positive(cells@, Cell::Animal(other));
                    if cells@.contains(Cell::Animal(other)) {
                        let j = choose|j: int| 0 <= j < cells@.len() && cells@[j] == Cell::Animal(other);
                        assert(cells@[j] != Cell::Empty);
                    }
                }
            }
            if top_id(cells@, id) {
                let j = choose|j: int| 0 <= j < cells@.len() && cells@[j] == Cell::Animal(id);
                assert(cells@[j] != Cell::Empty);
                assert(best > 0);
                let m = choose|m: int|
                    0 <= m < cells@.len() && #[trigger] cells@[m] != Cell::Empty && count_of(
                        cells@,
                        cells@[m],
                    ) == best;
                assert(cells@[m] == Cell::Animal(cells@[m].specie()));
                assert(cells@[j] == Cell::Animal(id) && count_of(cells@, Cell::Animal(id)) == best);
            }
        }
        if has_animal(cells@) {
            let j = choose|j: int| 0 <= j < cells@.len() && #[trigger] cells@[j] != Cell::Empty;
            assert(best > 0);
            let m = choose|m: int|
                0 <= m < cells@.len() && #[trigger] cells@[m] != Cell::Empty && count_of(cells@, cells@[m])
                    == best;
            let top: u32 = cells@[m].specie();
            assert(cells@[m] == Cell::Animal(top));
            assert(ids@.contains(top));
        }
        if ids@.len() > 0 {
            let first: u32 = ids@[0];
            assert(ids@.contains(first));
            assert(top_id(cells@, first));
            let j = choose|j: int| 0 <= j < cells@.len() && cells@[j] == Cell::Animal(first);
            assert(cells@[j] != Cell::Empty);
        }
    }
    (best, ids)
}

/// Adding one id to an increasing list makes it longer by one at most.
proof fn lemma_increasing_len(before: Seq<u32>, after: Seq<u32>, id: u32)
    requires
        strictly_increasing(before),
        strictly_increasing(after),
        forall|x: u32| after.contains(x) <==> (before.contains(x) || x == id),
    ensures
        after.len() <= before.len() + 1,
    decreases after.len(),
{
    if after.len() > 0 {
        let last: u32 = after.last();
        assert(after.contains(last));
        let shorter = after.drop_last();
        assert(strictly_increasing(shorter));
        assert forall|x: u32| shorter.contains(x) <==> (after.contains(x) && x != last) by {
            if shorter.contains(x) {
                let m = choose|m: int| 0 <= m < shorter.len() && shorter[m] == x;
                assert(after[m] == x);
            }
            if after.contains(x) && x != last {
                let m = choose|m: int| 0 <= m < after.len() && after[m] == x;
                assert(shorter[m] == x);
            }
        }
        if last == id {
            if before.contains(id) {
                lemma_same_members(before, after);
            } else {
                lemma_same_members(before, shorter);
            }
        } else {
            assert(before.contains(last));
            assert(before.len() > 0);
            let m = choose|m: int| 0 <= m < before.len() && before[m] == last;
            if m != before.len() - 1 {
                let x: u32 = before.last();
                assert(before.contains(x));
                assert(after.contains(x));
                let j = choose|j: int| 0 <= j < after.len() && after[j] == x;
                assert(false);
            }
            let rest = before.drop_last();
            assert(strictly_increasing(rest));
            assert forall|x: u32| shorter.contains(x) <==> (rest.contains(x) || x == id) by {
                if rest.contains(x) {
                    let j = choose|j: int| 0 <= j < rest.len() && rest[j] == x;
                    assert(before[j] == x);
                    assert(before.contains(x));
                }
                if shorter.contains(x) && x != id {
                    assert(before.contains(x));
                    let j = choose|j: int| 0 <= j < before.len() && before[j] == x;
                    assert(rest[j] == x);
                }
            }
            lemma_increasing_len(rest, shorter, id);
        }
    }
}

/// Two increasing lists with the same members have the same length.
proof fn lemma_same_members(a: Seq<u32>, b: Seq<u32>)
    requires
        strictly_increasing(a),
        strictly_increasing(b),
        forall|x: u32| a.contains(x) <==> b.contains(x),
    ensures
        a.len() == b.len(),
    decreases a.len(),
{
    if a.len() == 0 {
        if b.len() > 0 {
            assert(b.contains(b[0]));
        }
    } else {
        let last: u32 = a.last();
        assert(a.contains(last));
        assert(b.contains(last));
        let m = choose|m: int| 0 <= m < b.len() && b[m] == last;
        if m != b.len() - 1 {
            let x: u32 = b.last();
            assert(b.contains(x));
            let j = choose|j: int| 0 <= j < a.len() && a[j] == x;
            assert(false);
        }
        let ra = a.drop_last();
        let rb = b.drop_last();
        assert forall|x: u32| ra.contains(x) <==> rb.contains(x) by {
            if ra.contains(x) {
                let j = choose|j: int| 0 <= j < ra.len() && ra[j] == x;
                assert(a[j] == x);
                assert(a.contains(x));
                let i = choose|i: int| 0 <= i < b.len() && b[i] == x;
                assert(rb[i] == x);
            }
            if rb.contains(x) {
                let j = choose|j: int| 0 <= j < rb.len() && rb[j] == x;
                assert(b[j] == x);
                assert(b.contains(x));
                let i = choose|i: int| 0 <= i < a.len() && a[i] == x;
                assert(ra[i] == x);
            }
        }
        lemma_same_members(ra, rb);
    }
}

/// The most frequent species among the neighbors and how often it occurs.
/// Where several species occur most often, one of them is drawn; where only
/// one does, nothing is drawn.
pub fn most_occurring_neighbor(neighbors: &Vec<Cell>, rng: &mut PRng) -> (res: (u32, u32))
    requires
        neighbors@.len() <= u32::MAX,
    ensures
        dominant(neighbors@, res.0, res.1),
{
    let (count, ids) = top_species(neighbors);
    if ids.len() == 0 {
        (0, 0)
    } else {
        let pick: usize = if ids.len() == 1 {
            0
        } else {
            draw_below(rng, 0, ids.len() as u32) as usize
        };
        let id: u32 = ids[pick];
        proof {
            assert(ids@.contains(id));
            lemma_count_bounded(neighbors@, Cell::Animal(id));
        }
        (count as u32, id)
    }
}

/// How many neighbors threaten `cell`, and the most frequent species among
/// them (0 where there is none).
pub fn get_neighbor_predators(cell: &Cell, neighbors: &Vec<Cell>, params: &ModelParams, rng: &mut PRng) -> (res:
    (u32, u32))
    requires
        neighbors@.len() <= u32::MAX,
        cell_registered(params, *cell),
        cells_registered(params, neighbors@),
    ensures
        res.0 == predators_in(params, *cell, neighbors@).len(),
        leads(predators_in(params, *cell, neighbors@), res.1),
        res.0 > 0 ==> params.registered(res.1) && is_predator_of(params, *cell, Cell::Animal(res.1)),
        res.0 == 0 ==> res.1 == 0,
{
    let ghost pred = predator_filter(params, *cell);
    let mut found: Vec<Cell> = Vec::new();
    let mut k: usize = 0;
    while k < neighbors.len()
        invariant
            k <= neighbors@.len(),
            cell_registered(params, *cell),
            cells_registered(params, neighbors@),
            pred == predator_filter(params, *cell),
            found@ == neighbors@.take(k as int).filter(pred),
            found@.len() <= k,
        decreases neighbors@.len() - k,
    {
        proof {
            assert(neighbors@.take(k as int + 1) =~= neighbors@.take(k as int).push(neighbors@[k as int]));
            neighbors@.take(k as int).lemma_filter_push(neighbors@[k as int], pred);
        }
        let threatens: bool = match neighbors[k] {
            Cell::Empty => false,
            Cell::Animal(n) => match cell {
                Cell::Animal(id) => params.is_specie_predator_for(n, *id),
                Cell::Empty => !params.is_specie_herbivore(n),
            },
        };
        if threatens {
            found.push(neighbors[k]);
        }
        k = k + 1;
    }
    proof {
        assert(neighbors@.take(k as int) =~= neighbors@);
        lemma_animals_only(found@);
    }
    let (_, id) = most_occurring_neighbor(&found, rng);
    proof {
        if found@.len() > 0 {
            lemma_leader_is_member(neighbors@, pred, id);
        }
    }
    (found.len() as u32, id)
}

/// How many neighbors the species in `cell` eats, and the most frequent
/// species among them (0 where there is none, and for an empty cell).
pub fn get_neighbor_prey(cell: &Cell, neighbors: &Vec<Cell>, params: &ModelParams, rng: &mut PRng) -> (res: (
    u32,
    u32,
))
    requires
        neighbors@.len() <= u32::MAX,
        cell_registered(params, *cell),
        cells_registered(params, neighbors@),
    ensures
        res.0 == prey_in(params, *cell, neighbors@).len(),
        leads(prey_in(params, *cell, neighbors@), res.1),
        res.0 > 0 ==> params.registered(res.1) && is_prey_of(params, *cell, Cell::Animal(res.1)),
        res.0 == 0 ==> res.1 == 0,
{
    let ghost pred = prey_filter(params, *cell);
    let mut found: Vec<Cell> = Vec::new();
    let mut k: usize = 0;
    while k < neighbors.len()
        invariant
            k <= neighbors@.len(),
            cell_registered(params, *cell),
            cells_registered(params, neighbors@),
            pred == prey_filter(params, *cell),
            found@ == neighbors@.take(k as int).filter(pred),
            found@.len() <= k,
        decreases neighbors@.len() - k,
    {
        proof {
            assert(neighbors@.take(k as int + 1) =~= neighbors@.take(k as int).push(neighbors@[k as int]));
            neighbors@.take(k as int).lemma_filter_push(neighbors@[k as int], pred);
        }
        let eaten: bool = match neighbors[k] {
            Cell::Empty => false,
            Cell::Animal(n) => match cell {
                Cell::Animal(id) => params.is_specie_predator_for(*id, n),
                Cell::Empty => false,
            },
        };
        if eaten {
            found.push(neighbors[k]);
        }
        k = k + 1;
    }
    proof {
        assert(neighbors@.take(k as int) =~= neighbors@);
        lemma_animals_only(found@);
    }
    let (_, id) = most_occurring_neighbor(&found, rng);
    proof {
        if found@.len() > 0 {
            lemma_leader_is_member(neighbors@, pred, id);
        }
    }
    (found.len() as u32, id)
}

/// The most frequent herbivore species among the neighbors and how many
/// neighbors are of it; `(0, 0)` where no neighbor is a herbivore.
pub fn get_neighbor_herbivores(neighbors: &Vec<Cell>, params: &ModelParams, rng: &mut PRng) -> (res: (u32, u32))
    requires
        neighbors@.len() <= u32::MAX,
        cells_registered(params, neighbors@),
    ensures
        dominant(herbivores_in(params, neighbors@), res.0, res.1),
        res.0 > 0 <==> herbivores_in(params, neighbors@).len() > 0,
        res.0 > 0 ==> params.registered(res.1) && params.herbivore(res.1),
        res.0 == 0 ==> res.1 == 0,
{
    let ghost pred = herbivore_filter(params);
    let mut found: Vec<Cell> = Vec::new();
    let mut k: usize = 0;
    while k < neighbors.len()
        invariant
            k <= neighbors@.len(),
            cells_registered(params, neighbors@),
            pred == herbivore_filter(params),
            found@ == neighbors@.take(k as int).filter(pred),
            found@.len() <= k,
        decreases neighbors@.len() - k,
    {
        proof {
            assert(neighbors@.take(k as int + 1) =~= neighbors@.take(k as int).push(neighbors@[k as int]));
            neighbors@.take(k as int).lemma_filter_push(neighbors@[k as int], pred);
        }
        let grazes: bool = match neighbors[k] {
            Cell::Empty => false,
            Cell::Animal(n) => params.is_specie_herbivore(n),
        };
        if grazes {
            found.push(neighbors[k]);
        }
        k = k + 1;
    }
    proof {
        assert(neighbors@.take(k as int) =~= neighbors@);
    }
    let res = most_occurring_neighbor(&found, rng);
    proof {
        if found@.len() > 0 {
            lemma_leader_is_member(neighbors@, pred, res.1);
            lemma_count_positive(found@, Cell::Animal(res.1));
        }
    }
    res
}

/// A species that leads a filtered sequence occurs in the unfiltered one and
/// meets the filter.
proof fn lemma_leader_is_member(cells: Seq<Cell>, pred: spec_fn(Cell) -> bool, id: u32)
    requires
        top_id(cells.filter(pred), id),
    ensures
        cells.contains(Cell::Animal(id)),
        pred(Cell::Animal(id)),
{
    let found = cells.filter(pred);
    let k = choose|k: int| 0 <= k < found.len() && found[k] == Cell::Animal(id);
    cells.lemma_filter_pred(pred, k);
    cells.lemma_filter_contains_rev(pred, Cell::Animal(id));
}

} // verus!
