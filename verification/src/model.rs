use vstd::prelude::*;

use crate::analytics::{cell_registered, cells_registered};
use crate::grid::{seeded_from, Cell, Grid};
use crate::params::{ConfigError, ModelParams, ModelType};
use crate::pppe_model::PPPEModel;
use crate::simple_model::SimpleModel;

verus! {

/// Why a model could not be built or seeded.
#[derive(Clone, Debug, PartialEq, Eq)]
pub enum ModelError {
    /// The configuration is refused.
    Config(ConfigError),
    /// The requested population could not be placed within the retry budget.
    Seeding,
    /// The rule set is reserved and has no implementation.
    NotImplemented(ModelType),
}

/// What every model offers: seeding, one tick, and read access to its grid
/// and configuration. The generator stays inside the model.
pub trait Model {
    /// The grid that the model holds.
    spec fn the_grid(&self) -> Grid;

    /// The configuration that the model holds.
    spec fn the_params(&self) -> ModelParams;

    /// The grid fits the configuration, which is well formed.
    spec fn wf(&self) -> bool;

    /// Whether one tick may turn the model's grid into `next`.
    spec fn may_become(&self, next: Grid) -> bool;

    /// Seeds the grid with the configured populations.
    fn populate(&mut self) -> (res: Result<(), ModelError>)
        requires
            old(self).wf(),
        ensures
            final(self).wf(),
            final(self).the_params() == old(self).the_params(),
            seeded_from(&old(self).the_params(), &old(self).the_grid(), &final(self).the_grid(), res),
    ;

    /// Advances the grid by one tick.
    fn tick(&mut self)
        requires
            old(self).wf(),
        ensures
            final(self).wf(),
            final(self).the_params() == old(self).the_params(),
            final(self).the_grid().dims() == old(self).the_grid().dims(),
            old(self).may_become(final(self).the_grid()),
    ;

    /// Writes one cell, unless the coordinate lies outside the grid or the
    /// cell holds an animal of no species of the configuration.
    fn place(&mut self, x: u32, y: u32, cell: Cell) -> (placed: bool)
        requires
            old(self).wf(),
        ensures
            final(self).wf(),
            final(self).the_params() == old(self).the_params(),
            final(self).the_grid().dims() == old(self).the_grid().dims(),
            placed <==> old(self).the_grid().in_bounds(x as int, y as int) && cell_registered(
                &old(self).the_params(),
                cell,
            ),
            final(self).the_grid()@ == if placed {
                old(self).the_grid()@.update(old(self).the_grid().index_of(x as int, y as int), cell)
            } else {
                old(self).the_grid()@
            },
    ;

    fn get_grid(&self) -> (grid: &Grid)
        ensures
            *grid == self.the_grid(),
    ;

    fn get_params(&self) -> (params: &ModelParams)
        ensures
            *params == self.the_params(),
    ;
}

/// Whether the cell is empty or of a species of the configuration.
pub fn is_registered(params: &ModelParams, cell: Cell) -> (b: bool)
    ensures
        b == cell_registered(params, cell),
{
    match cell {
        Cell::Empty => true,
        Cell::Animal(id) => 1 <= id && id as usize <= params.species.len(),
    }
}

/// Writes `cell` into `grid` under the conditions of `Model::place`.
pub fn place_cell(grid: &mut Grid, params: &ModelParams, x: u32, y: u32, cell: Cell) -> (placed: bool)
    requires
        old(grid).wf(),
        cells_registered(params, old(grid)@),
    ensures
        final(grid).wf(),
        final(grid).dims() == old(grid).dims(),
        final(grid).wraps() == old(grid).wraps(),
        cells_registered(params, final(grid)@),
        placed <==> old(grid).in_bounds(x as int, y as int) && cell_registered(params, cell),
        final(grid)@ == if placed {
            old(grid)@.update(old(grid).index_of(x as int, y as int), cell)
        } else {
            old(grid)@
        },
{
    let size = grid.get_size();
    if x < size.w && y < size.h && is_registered(params, cell) {
        grid.set_cell_at(x, y, cell);
        true
    } else {
        false
    }
}

/// A model of either rule set behind the one interface.
pub enum AnyModel {
    Simple(SimpleModel),
    PPPE(PPPEModel),
}

impl Model for AnyModel {
    open spec fn the_grid(&self) -> Grid {
        match self {
            AnyModel::Simple(m) => m.the_grid(),
            AnyModel::PPPE(m) => m.the_grid(),
        }
    }

    open spec fn the_params(&self) -> ModelParams {
        match self {
            AnyModel::Simple(m) => m.the_params(),
            AnyModel::PPPE(m) => m.the_params(),
        }
    }

    open spec fn wf(&self) -> bool {
        match self {
            AnyModel::Simple(m) => m.wf(),
            AnyModel::PPPE(m) => m.wf(),
        }
    }

    open spec fn may_become(&self, next: Grid) -> bool {
        match self {
            AnyModel::Simple(m) => m.may_become(next),
            AnyModel::PPPE(m) => m.may_become(next),
        }
    }

    fn populate(&mut self) -> (res: Result<(), ModelError>) {
        match self {
            AnyModel::Simple(m) => m.populate(),
            AnyModel::PPPE(m) => m.populate(),
        }
    }

    fn tick(&mut self) {
        match self {
            AnyModel::Simple(m) => m.tick(),
            AnyModel::PPPE(m) => m.tick(),
        }
    }

    fn place(&mut self, x: u32, y: u32, cell: Cell) -> (placed: bool) {
        match self {
            AnyModel::Simple(m) => m.place(x, y, cell),
            AnyModel::PPPE(m) => m.place(x, y, cell),
        }
    }

    fn get_grid(&self) -> (grid: &Grid) {
        match self {
            AnyModel::Simple(m) => m.get_grid(),
            AnyModel::PPPE(m) => m.get_grid(),
        }
    }

    fn get_params(&self) -> (params: &ModelParams) {
        match self {
            AnyModel::Simple(m) => m.get_params(),
            AnyModel::PPPE(m) => m.get_params(),
        }
    }
}

/// A model never holds more animals than its grid has cells, and every
/// animal is of a species of its configuration. Seeding and every tick keep
/// this, as they keep `wf`.
pub proof fn lemma_mass_bounded(m: &AnyModel)
    requires
        m.wf(),
    ensures
        0 <= m.the_grid().animal_count() <= m.the_params().grid_size.area(),
        cells_registered(&m.the_params(), m.the_grid()@),
{
    m.the_grid().lemma_mass_bounded();
}

/// Whether a rule set has an implementation.
pub open spec fn implemented(model: ModelType) -> bool {
    model is Simple || model is PPPE
}

/// Builds the model that the configuration names, with an empty grid. A
/// reserved rule set is refused before the configuration is looked at.
pub fn create_model(params: ModelParams) -> (res: Result<AnyModel, ModelError>)
    ensures
        res is Ok <==> implemented(params.model) && params.wf(),
        !implemented(params.model) ==> (res matches Err(ModelError::NotImplemented(model)) && model
            == params.model),
        implemented(params.model) ==> (res matches Err(e) ==> e matches ModelError::Config(fault)
            && params.has_fault(fault)),
        res matches Ok(m) ==> m.wf() && m.the_params() == params && (m is Simple <==> params.model is Simple)
            && forall|k: int| 0 <= k < m.the_grid()@.len() ==> m.the_grid()@[k] == Cell::Empty,
{
    match params.model {
        ModelType::Simple => match SimpleModel::new(params) {
            Ok(m) => Ok(AnyModel::Simple(m)),
            Err(e) => Err(e),
        },
        ModelType::PPPE => match PPPEModel::new(params) {
            Ok(m) => Ok(AnyModel::PPPE(m)),
            Err(e) => Err(e),
        },
        ModelType::DSAM => Err(ModelError::NotImplemented(ModelType::DSAM)),
        ModelType::Custom => Err(ModelError::NotImplemented(ModelType::Custom)),
    }
}

} // verus!
