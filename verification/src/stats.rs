use vstd::prelude::*;

use crate::grid::{count_of, Cell, Grid};
use crate::params::ModelParams;

verus! {

/// The population of every species, in the order of the ids: the numbers of
/// one statistics row.
pub fn specie_counts(grid: &Grid, params: &ModelParams) -> (counts: Vec<usize>)
    requires
        params.count_ok(),
    ensures
        counts@.len() == params.species@.len(),
        forall|i: int|
            0 <= i < counts@.len() ==> #[trigger] counts@[i] == count_of(grid@, Cell::Animal((i + 1) as u32)),
{
    let mut counts: Vec<usize> = Vec::new();
    let mut i: usize = 0;
    while i < params.species.len()
        invariant
            params.count_ok(),
            i <= params.species@.len(),
            counts@.len() == i,
            forall|m: int|
                0 <= m < i ==> #[trigger] counts@[m] == count_of(grid@, Cell::Animal((m + 1) as u32)),
        decreases params.species@.len() - i,
    {
        let specie_id: u32 = (i + 1) as u32;
        counts.push(grid.count_cells(Cell::Animal(specie_id)));
        i = i + 1;
    }
    counts
}

} // verus!
