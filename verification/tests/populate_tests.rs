use ecogrid::grid::{population_target, Cell, Grid, SEEDING_ATTEMPTS};
use ecogrid::model::{Model, ModelError};
use ecogrid::params::{ConfigError, ModelParams, ModelType, SpecieParams};
use ecogrid::random::PRng;
use ecogrid::simple_model::SimpleModel;
use ecogrid::stats::specie_counts;
use ecogrid::util::Size;
use rand::SeedableRng;

fn specie(population: u32) -> SpecieParams {
    SpecieParams {
        color: Some("FF0000".to_string()),
        initial_population: population,
        birth_rate: 0,
        death_rate: 0,
        energy_sources: None,
    }
}

fn params(shares: &[(&str, u32)], w: u32, h: u32, seed: u64) -> ModelParams {
    ModelParams {
        model: ModelType::Simple,
        species: shares.iter().map(|(name, share)| (name.to_string(), specie(*share))).collect(),
        grid_size: Size::new(w, h),
        random_seed: Some(seed),
        sense_radius: 1,
        edge_wrap: false,
    }
}

#[test]
fn the_target_is_the_share_of_the_cells_rounded_down() {
    assert_eq!(population_target(200_000, Size::new(10, 10)), 20);
    assert_eq!(population_target(333_333, Size::new(7, 5)), 11);
    assert_eq!(population_target(1_000_000, Size::new(7, 5)), 35);
    assert_eq!(population_target(999_999, Size::new(7, 5)), 34);
    assert_eq!(population_target(0, Size::new(7, 5)), 0);
    assert_eq!(population_target(500_000, Size::new(0, 5)), 0);
    assert_eq!(population_target(250_000, Size::new(100_000, 100_000)), 2_500_000_000);
    assert_eq!(SEEDING_ATTEMPTS, 16);
}

#[test]
fn deterministic_reseed() {
    let mut first = SimpleModel::new(params(&[("A", 200_000)], 10, 10, 42)).unwrap();
    let mut second = SimpleModel::new(params(&[("A", 200_000)], 10, 10, 42)).unwrap();
    assert_eq!(first.populate(), Ok(()));
    assert_eq!(second.populate(), Ok(()));
    assert_eq!(first.get_grid().get_cell_specie_ids(), second.get_grid().get_cell_specie_ids());
    assert_eq!(first.get_grid().count_cells(Cell::Animal(1)), 20);
    let mut other = SimpleModel::new(params(&[("A", 200_000)], 10, 10, 43)).unwrap();
    assert_eq!(other.populate(), Ok(()));
    assert_ne!(first.get_grid().get_cell_specie_ids(), other.get_grid().get_cell_specie_ids());
}

#[test]
fn every_species_is_seeded_with_its_target() {
    let p = params(&[("ant", 333_333), ("bee", 100_000), ("cow", 0), ("doe", 250_000)], 7, 5, 8);
    let mut grid = Grid::new(Size::new(7, 5));
    let mut rng = PRng::seed_from_u64(8);
    assert_eq!(grid.populate(&p, &mut rng), Ok(()));
    assert_eq!(grid.count_cells(Cell::Animal(1)), 11);
    assert_eq!(grid.count_cells(Cell::Animal(2)), 3);
    assert_eq!(grid.count_cells(Cell::Animal(3)), 0);
    assert_eq!(grid.count_cells(Cell::Animal(4)), 8);
    assert_eq!(grid.count_cells(Cell::Empty), 13);
    assert_eq!(grid.count_animals(), 22);
    assert_eq!(specie_counts(&grid, &p), vec![11, 3, 0, 8]);
}

#[test]
fn seeding_keeps_the_animals_that_are_there() {
    let p = params(&[("ant", 500_000)], 4, 2, 1);
    let mut grid = Grid::new(Size::new(4, 2));
    grid.set_cell_at(0, 0, Cell::Animal(1));
    grid.set_cell_at(3, 1, Cell::Animal(1));
    let mut rng = PRng::seed_from_u64(1);
    assert_eq!(grid.populate(&p, &mut rng), Ok(()));
    assert_eq!(*grid.get_cell_at(0, 0), Cell::Animal(1));
    assert_eq!(*grid.get_cell_at(3, 1), Cell::Animal(1));
    assert_eq!(grid.count_cells(Cell::Animal(1)), 6);
}

#[test]
fn a_full_grid_can_be_asked_for() {
    let p = params(&[("ant", 500_000), ("bee", 500_000)], 2, 2, 5);
    let mut grid = Grid::new(Size::new(2, 2));
    let mut rng = PRng::seed_from_u64(5);
    let res = grid.populate(&p, &mut rng);
    assert!(res == Ok(()) || res == Err(ModelError::Seeding));
    if res == Ok(()) {
        assert_eq!(grid.count_cells(Cell::Animal(1)), 2);
        assert_eq!(grid.count_cells(Cell::Animal(2)), 2);
    }
}

#[test]
fn more_demand_than_free_cells_is_refused_and_places_nothing() {
    let p = params(&[("ant", 600_000), ("bee", 600_000)], 10, 10, 5);
    let mut model = SimpleModel::new(p.clone()).unwrap();
    assert_eq!(model.populate(), Err(ModelError::Config(ConfigError::Overpopulated)));
    assert_eq!(model.get_grid().count_animals(), 0);
    let mut grid = Grid::new(Size::new(10, 10));
    grid.set_cell_at(0, 0, Cell::Animal(1));
    let exact = params(&[("ant", 1_000_000)], 10, 10, 5);
    let mut rng = PRng::seed_from_u64(5);
    assert_eq!(grid.populate(&exact, &mut rng), Err(ModelError::Config(ConfigError::Overpopulated)));
    assert_eq!(grid.count_animals(), 1);
}

#[test]
fn no_demand_succeeds_and_changes_nothing() {
    let p = params(&[("ant", 0), ("bee", 9_999)], 10, 10, 5);
    let mut grid = Grid::new(Size::new(10, 10));
    grid.set_cell_at(4, 4, Cell::Animal(2));
    let before = grid.get_cell_specie_ids();
    let mut rng = PRng::seed_from_u64(5);
    assert_eq!(grid.populate(&p, &mut rng), Ok(()));
    assert_eq!(grid.get_cell_specie_ids(), before);
}

#[test]
fn an_exhausted_retry_budget_is_a_seeding_error() {
    let p = params(&[("ant", 100)], 100, 100, 5);
    let mut grid = Grid::new(Size::new(100, 100));
    for y in 0..100 {
        for x in 0..100 {
            if x != 57 || y != 31 {
                grid.set_cell_at(x, y, Cell::Animal(1));
            }
        }
    }
    let mut rng = PRng::seed_from_u64(5);
    assert_eq!(grid.populate(&p, &mut rng), Err(ModelError::Seeding));
    assert_eq!(grid.count_cells(Cell::Empty), 1);
}

#[test]
fn statistics_count_each_species_by_id() {
    let p = params(&[("ant", 0), ("bee", 0), ("cow", 0)], 3, 2, 1);
    let mut grid = Grid::new(Size::new(3, 2));
    grid.set_cell_at(0, 0, Cell::Animal(3));
    grid.set_cell_at(1, 0, Cell::Animal(1));
    grid.set_cell_at(2, 1, Cell::Animal(3));
    assert_eq!(specie_counts(&grid, &p), vec![1, 0, 2]);
    assert_eq!(specie_counts(&grid, &params(&[], 3, 2, 1)), Vec::<usize>::new());
}

#[test]
fn one_animal_on_an_empty_grid_is_always_placed() {
    for seed in 0..64 {
        let mut single = Grid::new(Size::new(1, 1));
        let mut rng = PRng::seed_from_u64(seed);
        assert_eq!(single.populate(&params(&[("ant", 1_000_000)], 1, 1, seed), &mut rng), Ok(()));
        assert_eq!(*single.get_cell_at(0, 0), Cell::Animal(1));
        let mut wide = Grid::new(Size::new(3, 3));
        let p = params(&[("ant", 0), ("bee", 111_112), ("cow", 100_000)], 3, 3, seed);
        assert_eq!(wide.populate(&p, &mut rng), Ok(()));
        assert_eq!(specie_counts(&wide, &p), vec![0, 1, 0]);
    }
}

#[test]
fn an_empty_grid_takes_at_least_the_first_animal() {
    for seed in 0..64 {
        let p = params(&[("ant", 500_000), ("bee", 500_000)], 2, 1, seed);
        let mut grid = Grid::new(Size::new(2, 1));
        let mut rng = PRng::seed_from_u64(seed);
        let res = grid.populate(&p, &mut rng);
        assert!(grid.count_cells(Cell::Animal(1)) == 1);
        assert!(res == Ok(()) || res == Err(ModelError::Seeding));
        assert_eq!(res == Ok(()), grid.count_cells(Cell::Animal(2)) == 1);
    }
}

#[test]
fn a_failed_seeding_stops_at_the_species_that_fell_short() {
    let p = params(&[("ant", 100), ("bee", 100)], 100, 100, 5);
    let mut grid = Grid::new(Size::new(100, 100));
    for y in 0..100 {
        for x in 0..100 {
            if (x, y) != (57, 31) && (x, y) != (3, 99) {
                grid.set_cell_at(x, y, Cell::Animal(1));
            }
        }
    }
    let before = grid.get_cell_specie_ids();
    let mut rng = PRng::seed_from_u64(5);
    assert_eq!(grid.populate(&p, &mut rng), Err(ModelError::Seeding));
    assert_eq!(grid.get_cell_specie_ids(), before);
    assert_eq!(grid.count_cells(Cell::Animal(2)), 0);
}

#[test]
fn the_retry_budget_is_sixteen_draws_for_each_animal() {
    // One free cell among 10_000 and one animal asked for: seeding succeeds
    // exactly when one of the 16 draws hits the free cell.
    let p = params(&[("ant", 100)], 100, 100, 0);
    let mut hits = 0;
    for seed in 0..40 {
        let mut grid = Grid::new(Size::new(100, 100));
        for y in 0..100 {
            for x in 0..100 {
                if (x, y) != (0, 0) {
                    grid.set_cell_at(x, y, Cell::Animal(1));
                }
            }
        }
        let mut rng = PRng::seed_from_u64(seed);
        let mut replay = PRng::seed_from_u64(seed);
        let mut expected = false;
        for _ in 0..SEEDING_ATTEMPTS {
            let x: u32 = rand::Rng::gen_range(&mut replay, 0, 100);
            let y: u32 = rand::Rng::gen_range(&mut replay, 0, 100);
            if (x, y) == (0, 0) {
                expected = true;
                break;
            }
        }
        let res = grid.populate(&p, &mut rng);
        assert_eq!(res == Ok(()), expected);
        assert_eq!(res == Err(ModelError::Seeding), !expected);
        if expected {
            hits += 1;
        }
    }
    assert!(hits < 40);
}
