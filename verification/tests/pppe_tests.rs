use ecogrid::grid::{Cell, Grid, Quadrant};
use ecogrid::model::Model;
use ecogrid::params::{ModelParams, ModelType, SpecieParams};
use ecogrid::movement::{
    first_least, last_most, movement_intent, movement_intents, nth_quadrant, resolve_competition,
    sources_for, surviving_intents,
};
use ecogrid::pppe_model::{neighbor_marks, PPPEModel};
use ecogrid::random::PRng;
use ecogrid::util::Size;
use rand::SeedableRng;

const ONE: u32 = 1_000_000;

fn specie(population: u32, birth: u32, death: u32, sources: &[&str]) -> SpecieParams {
    SpecieParams {
        color: None,
        initial_population: population,
        birth_rate: birth,
        death_rate: death,
        energy_sources: if sources.is_empty() {
            None
        } else {
            Some(sources.iter().map(|s| s.to_string()).collect())
        },
    }
}

fn params(species: Vec<(&str, SpecieParams)>, w: u32, h: u32, radius: u32, seed: u64) -> ModelParams {
    ModelParams {
        model: ModelType::PPPE,
        species: species.into_iter().map(|(name, p)| (name.to_string(), p)).collect(),
        grid_size: Size::new(w, h),
        random_seed: Some(seed),
        sense_radius: radius,
        edge_wrap: false,
    }
}

// ids: C 1, H 2
fn hunters(c_birth: u32, c_death: u32, h_birth: u32, h_death: u32) -> Vec<(&'static str, SpecieParams)> {
    vec![("C", specie(0, c_birth, c_death, &["H"])), ("H", specie(0, h_birth, h_death, &[]))]
}

const E: Cell = Cell::Empty;
const C: Cell = Cell::Animal(1);
const H: Cell = Cell::Animal(2);

fn grid_of(w: u32, h: u32, cells: &[(u32, u32, Cell)]) -> Grid {
    let mut grid = Grid::new(Size::new(w, h));
    for (x, y, cell) in cells {
        grid.set_cell_at(*x, *y, *cell);
    }
    grid
}

#[test]
fn empty_grid_one_tick_pppe() {
    let mut model = PPPEModel::new(params(vec![], 4, 4, 1, 1)).unwrap();
    model.tick();
    assert_eq!(model.get_grid().get_cell_specie_ids(), vec![0; 16]);
}

#[test]
fn feeding_kills_prey_and_marks_the_cell() {
    let p = params(hunters(0, 0, 0, ONE), 3, 3, 1, 1);
    let mut rng = PRng::seed_from_u64(1);
    assert_eq!(PPPEModel::feeding_phase_next_cell_state(&p, &mut rng, &H, &vec![C, E]), (E, true));
    let tough = params(hunters(0, 0, 0, 0), 3, 3, 1, 1);
    assert_eq!(PPPEModel::feeding_phase_next_cell_state(&tough, &mut rng, &H, &vec![C, C]), (H, false));
    assert_eq!(PPPEModel::feeding_phase_next_cell_state(&p, &mut rng, &H, &vec![H, E]), (H, false));
    assert_eq!(PPPEModel::feeding_phase_next_cell_state(&p, &mut rng, &E, &vec![H, C]), (E, false));
}

#[test]
fn feeding_marks_a_predator_whose_hunt_succeeds() {
    let p = params(hunters(0, 0, 0, ONE), 3, 3, 1, 1);
    let mut rng = PRng::seed_from_u64(1);
    assert_eq!(PPPEModel::feeding_phase_next_cell_state(&p, &mut rng, &C, &vec![H, E]), (C, true));
    assert_eq!(PPPEModel::feeding_phase_next_cell_state(&p, &mut rng, &C, &vec![E, C]), (C, false));
    let tough = params(hunters(0, 0, 0, 0), 3, 3, 1, 1);
    assert_eq!(PPPEModel::feeding_phase_next_cell_state(&tough, &mut rng, &C, &vec![H, H]), (C, false));
}

#[test]
fn reproduction_fills_a_killed_cell_from_fed_predators_only() {
    let p = params(hunters(ONE, 0, 0, ONE), 3, 3, 1, 1);
    let mut rng = PRng::seed_from_u64(1);
    let around = vec![C, E, H];
    assert_eq!(
        PPPEModel::reproduction_phase_next_cell_state(&p, &mut rng, &E, true, &around, &vec![true, false, false]),
        C
    );
    assert_eq!(
        PPPEModel::reproduction_phase_next_cell_state(&p, &mut rng, &E, true, &around, &vec![false, false, true]),
        E
    );
    assert_eq!(
        PPPEModel::reproduction_phase_next_cell_state(&p, &mut rng, &E, true, &around, &vec![false, true, false]),
        E
    );
}

#[test]
fn reproduction_breeds_herbivores_into_cells_that_were_empty() {
    let fertile = params(hunters(0, 0, ONE, 0), 3, 3, 1, 1);
    let mut rng = PRng::seed_from_u64(1);
    let none = vec![false, false];
    assert_eq!(PPPEModel::reproduction_phase_next_cell_state(&fertile, &mut rng, &E, false, &vec![H, E], &none), H);
    assert_eq!(PPPEModel::reproduction_phase_next_cell_state(&fertile, &mut rng, &E, false, &vec![H, C], &none), E);
    assert_eq!(PPPEModel::reproduction_phase_next_cell_state(&fertile, &mut rng, &E, false, &vec![E, E], &none), E);
    let barren = params(hunters(0, 0, 0, 0), 3, 3, 1, 1);
    assert_eq!(PPPEModel::reproduction_phase_next_cell_state(&barren, &mut rng, &E, false, &vec![H, H], &none), E);
}

#[test]
fn reproduction_lets_a_lone_predator_die() {
    let mortal = params(hunters(0, ONE, 0, 0), 3, 3, 1, 1);
    let mut rng = PRng::seed_from_u64(1);
    let none = vec![false, false];
    assert_eq!(PPPEModel::reproduction_phase_next_cell_state(&mortal, &mut rng, &C, false, &vec![H, E], &none), E);
    assert_eq!(PPPEModel::reproduction_phase_next_cell_state(&mortal, &mut rng, &H, false, &vec![C, E], &none), H);
    let immortal = params(hunters(0, 0, 0, 0), 3, 3, 1, 1);
    assert_eq!(PPPEModel::reproduction_phase_next_cell_state(&immortal, &mut rng, &C, true, &vec![H, E], &none), C);
}

#[test]
fn neighbor_marks_follow_the_von_neumann_order() {
    let grid = Grid::new(Size::new(3, 3));
    let mut marks = vec![false; 9];
    marks[3] = true;
    marks[7] = true;
    assert_eq!(neighbor_marks(&grid, &marks, 1, 1), vec![true, false, false, true]);
    assert_eq!(neighbor_marks(&grid, &marks, 0, 0), vec![false, true]);
    assert_eq!(neighbor_marks(&grid, &marks, 0, 2), vec![true, true]);
    assert_eq!(neighbor_marks(&grid, &marks, 2, 0), vec![false, false]);
}

#[test]
fn pppe_fed_predator_breeds_into_the_killed_cell() {
    for seed in 0..10 {
        let p = params(hunters(ONE, 0, 0, ONE), 3, 3, 1, seed);
        let pre = grid_of(3, 3, &[(1, 1, C), (1, 0, H)]);
        let mut rng = PRng::seed_from_u64(seed);
        let (fed, marks) = PPPEModel::feeding_phase(&pre, &p, &mut rng);
        assert_eq!(fed.get_cell_specie_ids(), vec![0, 0, 0, 0, 1, 0, 0, 0, 0]);
        assert_eq!(marks, vec![false, true, false, false, true, false, false, false, false]);
        let bred = PPPEModel::reproduction_phase(&pre, &p, &mut rng, &fed, &marks);
        assert_eq!(*bred.get_cell_at(1, 0), C);
        assert_eq!(bred.get_cell_specie_ids(), vec![0, 1, 0, 0, 1, 0, 0, 0, 0]);
    }
}

#[test]
fn pppe_tick_leaves_the_newborn_predator_in_the_killed_cell() {
    for seed in 0..10 {
        let p = params(hunters(ONE, 0, 0, ONE), 3, 3, 1, seed);
        let mut model = PPPEModel::new(p).unwrap();
        assert!(model.place(1, 1, C));
        assert!(model.place(1, 0, H));
        model.tick();
        assert_eq!(*model.get_grid().get_cell_at(1, 0), C);
        assert_eq!(model.get_grid().get_cell_specie_ids(), vec![0, 1, 0, 0, 1, 0, 0, 0, 0]);
    }
}

#[test]
fn the_intent_of_an_animal_that_is_gone_is_void() {
    let pre = grid_of(3, 1, &[(0, 0, H), (1, 0, H), (2, 0, C)]);
    let after = grid_of(3, 1, &[(0, 0, H), (1, 0, C), (2, 0, E)]);
    let moves = vec![(0, 0, 1, 0), (1, 0, 0, 0), (2, 0, 1, 0)];
    assert_eq!(surviving_intents(&pre, &after, &moves), vec![(0, 0, 1, 0)]);
    assert_eq!(surviving_intents(&pre, &pre, &moves), moves);
    assert_eq!(surviving_intents(&pre, &after, &vec![]), vec![]);
}

#[test]
fn escaped_prey_flees_in_the_movement_phase() {
    let p = params(hunters(0, 0, 0, 0), 3, 3, 1, 1);
    let mut model = PPPEModel::new(p).unwrap();
    assert!(model.place(1, 1, C));
    assert!(model.place(1, 0, H));
    model.tick();
    assert_eq!(model.get_grid().get_cell_specie_ids(), vec![0, 0, 2, 0, 1, 0, 0, 0, 0]);
}

#[test]
fn the_first_least_and_the_last_most_entry() {
    assert_eq!(first_least(&vec![Some(1), None, Some(1), Some(2)]), Some(0));
    assert_eq!(first_least(&vec![Some(3), Some(2), None, Some(2)]), Some(1));
    assert_eq!(first_least(&vec![None, None, None, Some(0)]), Some(3));
    assert_eq!(first_least(&vec![None, None, None, None]), None);
    assert_eq!(last_most(&vec![Some(1), Some(3), Some(3), None]), Some(2));
    assert_eq!(last_most(&vec![Some(0), Some(0), Some(0), Some(0)]), Some(3));
    assert_eq!(last_most(&vec![Some(4), None, Some(1), Some(2)]), Some(0));
    assert_eq!(last_most(&vec![None, None, None, None]), None);
    assert_eq!(nth_quadrant(0), Quadrant::East);
    assert_eq!(nth_quadrant(1), Quadrant::North);
    assert_eq!(nth_quadrant(2), Quadrant::West);
    assert_eq!(nth_quadrant(3), Quadrant::South);
}

#[test]
fn prey_flees_to_the_first_wedge_with_the_fewest_predators() {
    let p = params(hunters(0, 0, 0, 0), 5, 5, 2, 1);
    let mut rng = PRng::seed_from_u64(1);
    let east_and_north = grid_of(5, 5, &[(2, 2, H), (4, 2, C), (2, 0, C)]);
    assert_eq!(movement_intent(&east_and_north, &p, &mut rng, 2, 2), Some(Quadrant::West));
    let west_only = grid_of(5, 5, &[(2, 2, H), (0, 2, C)]);
    assert_eq!(movement_intent(&west_only, &p, &mut rng, 2, 2), Some(Quadrant::East));
    let diagonal = grid_of(5, 5, &[(2, 2, H), (3, 1, C)]);
    assert_eq!(movement_intent(&diagonal, &p, &mut rng, 2, 2), Some(Quadrant::West));
    let corner = grid_of(5, 5, &[(0, 0, H), (1, 0, C)]);
    assert_eq!(movement_intent(&corner, &p, &mut rng, 0, 0), Some(Quadrant::South));
}

#[test]
fn a_predator_chases_to_the_last_wedge_with_the_most_prey() {
    let p = params(hunters(0, 0, 0, 0), 5, 5, 2, 1);
    let mut rng = PRng::seed_from_u64(1);
    let one_east = grid_of(5, 5, &[(2, 2, C), (4, 2, H)]);
    assert_eq!(movement_intent(&one_east, &p, &mut rng, 2, 2), Some(Quadrant::East));
    let tie = grid_of(5, 5, &[(2, 2, C), (4, 2, H), (0, 2, H)]);
    assert_eq!(movement_intent(&tie, &p, &mut rng, 2, 2), Some(Quadrant::West));
    let more_north = grid_of(5, 5, &[(2, 2, C), (4, 2, H), (2, 0, H), (2, 1, H), (2, 4, H)]);
    assert_eq!(movement_intent(&more_north, &p, &mut rng, 2, 2), Some(Quadrant::North));
}

#[test]
fn herbivores_without_threat_and_empty_cells_intend_nothing() {
    let p = params(hunters(0, 0, 0, 0), 5, 5, 2, 1);
    let mut rng = PRng::seed_from_u64(1);
    let grid = grid_of(5, 5, &[(2, 2, H), (1, 1, H)]);
    assert_eq!(movement_intent(&grid, &p, &mut rng, 2, 2), None);
    assert_eq!(movement_intent(&grid, &p, &mut rng, 3, 3), None);
    let alone = params(hunters(0, 0, 0, 0), 1, 1, 2, 1);
    let single = grid_of(1, 1, &[(0, 0, C)]);
    assert_eq!(movement_intent(&single, &alone, &mut rng, 0, 0), None);
}

#[test]
fn a_predator_without_prey_roams_reproducibly() {
    let p = params(hunters(0, 0, 0, 0), 3, 3, 1, 1);
    let grid = grid_of(3, 3, &[(1, 1, C)]);
    let mut seen = Vec::new();
    for seed in 0..64 {
        let first = movement_intent(&grid, &p, &mut PRng::seed_from_u64(seed), 1, 1);
        let second = movement_intent(&grid, &p, &mut PRng::seed_from_u64(seed), 1, 1);
        assert_eq!(first, second);
        assert!(first.is_some());
        if !seen.contains(&first) {
            seen.push(first);
        }
    }
    assert_eq!(seen.len(), 4);
    let corner = grid_of(3, 3, &[(0, 0, C)]);
    for seed in 0..32 {
        let intent = movement_intent(&corner, &p, &mut PRng::seed_from_u64(seed), 0, 0);
        assert!(intent == Some(Quadrant::East) || intent == Some(Quadrant::South));
    }
}

#[test]
fn intents_are_listed_by_source_and_stop_at_closed_edges() {
    let p = params(hunters(0, 0, 0, 0), 5, 1, 2, 1);
    let mut rng = PRng::seed_from_u64(1);
    let grid = grid_of(5, 1, &[(1, 0, C), (2, 0, H), (3, 0, C)]);
    assert_eq!(movement_intents(&grid, &p, &mut rng), vec![(1, 0, 2, 0), (2, 0, 3, 0), (3, 0, 2, 0)]);
    let edge = grid_of(5, 1, &[(3, 0, C), (4, 0, H)]);
    assert_eq!(movement_intents(&edge, &p, &mut rng), vec![(3, 0, 4, 0), (4, 0, 3, 0)]);
    let cornered = grid_of(5, 1, &[(4, 0, C)]);
    assert_eq!(movement_intents(&cornered, &p, &mut rng), vec![(4, 0, 3, 0)]);
    let lone = params(hunters(0, 0, 0, 0), 1, 3, 1, 1);
    let top = grid_of(1, 3, &[(0, 0, C)]);
    assert_eq!(movement_intents(&top, &lone, &mut rng), vec![(0, 0, 0, 1)]);
    let torus_params = ModelParams { edge_wrap: true, ..params(hunters(0, 0, 0, 0), 5, 1, 1, 1) };
    let mut torus = Grid::with_edge_policy(Size::new(5, 1), true);
    torus.set_cell_at(3, 0, C);
    torus.set_cell_at(4, 0, H);
    assert_eq!(movement_intents(&torus, &torus_params, &mut rng), vec![(3, 0, 4, 0), (4, 0, 0, 0)]);
}

#[test]
fn candidates_are_the_sources_of_the_intents_with_that_target() {
    let grid = Grid::new(Size::new(3, 2));
    let moves = vec![(0, 0, 1, 0), (2, 0, 1, 0), (1, 1, 1, 0), (0, 1, 0, 0)];
    assert_eq!(sources_for(&grid, &moves, 1), vec![0, 2, 4]);
    assert_eq!(sources_for(&grid, &moves, 0), vec![3]);
    assert_eq!(sources_for(&grid, &moves, 5), Vec::<usize>::new());
}

#[test]
fn a_single_candidate_moves_and_leaves_its_cell_empty() {
    let cells = grid_of(3, 1, &[(0, 0, C)]);
    let mut rng = PRng::seed_from_u64(1);
    let moved = resolve_competition(&cells, &vec![(0, 0, 1, 0)], &mut rng);
    assert_eq!(moved.get_cell_specie_ids(), vec![0, 1, 0]);
    assert_eq!(cells.get_cell_specie_ids(), vec![1, 0, 0]);
}

#[test]
fn an_occupied_target_is_not_competed_for() {
    let cells = grid_of(3, 1, &[(0, 0, C), (1, 0, H)]);
    let mut rng = PRng::seed_from_u64(1);
    let moved = resolve_competition(&cells, &vec![(0, 0, 1, 0), (1, 0, 2, 0)], &mut rng);
    assert_eq!(moved.get_cell_specie_ids(), vec![1, 0, 2]);
    let blocked = resolve_competition(&cells, &vec![(0, 0, 1, 0)], &mut rng);
    assert_eq!(blocked.get_cell_specie_ids(), vec![1, 2, 0]);
}

#[test]
fn movement_competition_has_exactly_one_winner() {
    let mut left_wins = 0;
    let mut right_wins = 0;
    for seed in 0..64 {
        let p = params(hunters(0, 0, 0, ONE), 5, 1, 2, seed);
        let mut model = PPPEModel::new(p.clone()).unwrap();
        assert!(model.place(1, 0, C));
        assert!(model.place(2, 0, H));
        assert!(model.place(3, 0, C));
        model.tick();
        let after = model.get_grid().get_cell_specie_ids();
        assert!(after == vec![0, 0, 1, 1, 0] || after == vec![0, 1, 1, 0, 0]);
        if after[1] == 0 {
            left_wins += 1;
        } else {
            right_wins += 1;
        }
        let mut again = PPPEModel::new(p).unwrap();
        assert!(again.place(1, 0, C));
        assert!(again.place(2, 0, H));
        assert!(again.place(3, 0, C));
        again.tick();
        assert_eq!(again.get_grid().get_cell_specie_ids(), after);
    }
    assert!(left_wins > 0 && right_wins > 0);
}

#[test]
fn movement_conserves_every_species() {
    let species = vec![
        ("fox", specie(150_000, 0, 0, &["hare"])),
        ("hare", specie(300_000, 0, 0, &[])),
        ("lynx", specie(50_000, 0, 0, &["fox", "hare"])),
    ];
    for seed in 0..8 {
        let p = params(species.clone(), 12, 10, 2, seed);
        let mut rng = PRng::seed_from_u64(seed);
        let mut pre = Grid::new(Size::new(12, 10));
        assert_eq!(pre.populate(&p, &mut rng), Ok(()));
        let moved = PPPEModel::movement_phase(&pre, &p, &mut rng, &pre);
        assert_ne!(moved.get_cell_specie_ids(), pre.get_cell_specie_ids());
        for id in 0..4 {
            let cell = if id == 0 { E } else { Cell::Animal(id) };
            assert_eq!(moved.count_cells(cell), pre.count_cells(cell));
        }
    }
}

#[test]
fn empty_cell_with_empty_neighbors_stays_empty_in_pppe() {
    let species = hunters(ONE, 0, ONE, ONE);
    for seed in 0..16 {
        let p = params(species.clone(), 7, 7, 3, seed);
        let mut model = PPPEModel::new(p).unwrap();
        assert!(model.place(0, 0, C));
        assert!(model.place(1, 0, H));
        assert!(model.place(6, 6, H));
        assert!(model.place(5, 5, C));
        assert!(model.place(3, 1, C));
        model.tick();
        assert_eq!(*model.get_grid().get_cell_at(3, 3), E);
        assert_eq!(*model.get_grid().get_cell_at(3, 5), E);
    }
}

#[test]
fn equal_seeds_give_equal_grids_pppe() {
    let species = vec![
        ("fox", specie(60_000, 300_000, 200_000, &["hare", "vole"])),
        ("hare", specie(200_000, 500_000, 300_000, &[])),
        ("vole", specie(200_000, 400_000, 400_000, &[])),
    ];
    let torus = |seed: u64| ModelParams { edge_wrap: true, ..params(species.clone(), 16, 12, 2, seed) };
    let mut a = PPPEModel::new(torus(5)).unwrap();
    let mut b = PPPEModel::new(torus(5)).unwrap();
    let mut c = PPPEModel::new(torus(6)).unwrap();
    assert_eq!(a.populate(), Ok(()));
    assert_eq!(b.populate(), Ok(()));
    assert_eq!(c.populate(), Ok(()));
    let mut differs = false;
    for _ in 0..10 {
        a.tick();
        b.tick();
        c.tick();
        assert_eq!(a.get_grid().get_cell_specie_ids(), b.get_grid().get_cell_specie_ids());
        differs = differs || a.get_grid().get_cell_specie_ids() != c.get_grid().get_cell_specie_ids();
        assert!(a.get_grid().count_animals() <= 16 * 12);
        assert!(a.get_grid().get_cell_specie_ids().iter().all(|id| *id <= 3));
    }
    assert!(differs);
}
