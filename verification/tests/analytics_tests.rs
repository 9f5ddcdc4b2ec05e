use ecogrid::analytics::{
    count_species, get_neighbor_herbivores, get_neighbor_predators, get_neighbor_prey, insert_id,
    most_occurring_neighbor, top_species,
};
use ecogrid::grid::Cell;
use ecogrid::params::{ModelParams, ModelType, SpecieParams};
use ecogrid::random::PRng;
use rand::SeedableRng;
use ecogrid::util::Size;

fn specie(sources: &[&str]) -> SpecieParams {
    SpecieParams {
        color: None,
        initial_population: 0,
        birth_rate: 0,
        death_rate: 0,
        energy_sources: if sources.is_empty() {
            None
        } else {
            Some(sources.iter().map(|s| s.to_string()).collect())
        },
    }
}

// ids: cat 1, grass_eater 2, hawk 3, mouse 4
fn chain() -> ModelParams {
    ModelParams {
        model: ModelType::Simple,
        species: vec![
            ("cat".to_string(), specie(&["mouse"])),
            ("grass_eater".to_string(), specie(&[])),
            ("hawk".to_string(), specie(&["mouse", "cat"])),
            ("mouse".to_string(), specie(&[])),
        ],
        grid_size: Size::new(3, 3),
        random_seed: Some(0),
        sense_radius: 1,
        edge_wrap: false,
    }
}

const E: Cell = Cell::Empty;

fn a(id: u32) -> Cell {
    Cell::Animal(id)
}

#[test]
fn counting_one_species() {
    let cells = vec![a(1), E, a(2), a(1), a(1)];
    assert_eq!(count_species(&cells, 1), 3);
    assert_eq!(count_species(&cells, 2), 1);
    assert_eq!(count_species(&cells, 3), 0);
}

#[test]
fn ids_are_inserted_in_order_and_once() {
    let mut ids = vec![];
    for id in [5, 2, 9, 2, 7, 5, 1] {
        insert_id(&mut ids, id);
    }
    assert_eq!(ids, vec![1, 2, 5, 7, 9]);
}

#[test]
fn top_species_lists_all_leaders_by_id() {
    assert_eq!(top_species(&vec![a(3), a(1), E, a(3), a(1), a(2)]), (2, vec![1, 3]));
    assert_eq!(top_species(&vec![a(4), a(4), a(1)]), (2, vec![4]));
    assert_eq!(top_species(&vec![E, E]), (0, vec![]));
    assert_eq!(top_species(&vec![]), (0, vec![]));
}

#[test]
fn the_most_occurring_neighbor_wins_without_a_tie() {
    let mut rng = PRng::seed_from_u64(3);
    assert_eq!(most_occurring_neighbor(&vec![a(1), a(1), a(2), E], &mut rng), (2, 1));
    assert_eq!(most_occurring_neighbor(&vec![a(7)], &mut rng), (1, 7));
}

#[test]
fn no_animal_gives_zero_and_zero() {
    let mut rng = PRng::seed_from_u64(3);
    assert_eq!(most_occurring_neighbor(&vec![], &mut rng), (0, 0));
    assert_eq!(most_occurring_neighbor(&vec![E, E, E], &mut rng), (0, 0));
}

#[test]
fn a_tie_is_broken_among_the_leaders_only() {
    let mut seen_one = false;
    let mut seen_three = false;
    for seed in 0..64 {
        let mut rng = PRng::seed_from_u64(seed);
        let (count, id) = most_occurring_neighbor(&vec![a(3), a(1), a(2), a(2), a(1), a(3), a(9)], &mut rng);
        assert_eq!(count, 2);
        assert!(id == 1 || id == 2 || id == 3);
        seen_one = seen_one || id == 1;
        seen_three = seen_three || id == 3;
    }
    assert!(seen_one && seen_three);
}

#[test]
fn a_tie_break_is_reproducible() {
    let cells = vec![a(1), a(2), a(3), a(4)];
    for seed in 0..16 {
        let first = most_occurring_neighbor(&cells, &mut PRng::seed_from_u64(seed));
        let second = most_occurring_neighbor(&cells, &mut PRng::seed_from_u64(seed));
        assert_eq!(first, second);
    }
}

#[test]
fn without_a_tie_nothing_is_drawn() {
    let mut used = PRng::seed_from_u64(11);
    let mut fresh = PRng::seed_from_u64(11);
    most_occurring_neighbor(&vec![a(1), a(1), a(2)], &mut used);
    most_occurring_neighbor(&vec![a(5)], &mut used);
    most_occurring_neighbor(&vec![E], &mut used);
    assert_eq!(ecogrid::random::draw_chance(&mut used), ecogrid::random::draw_chance(&mut fresh));
}

#[test]
fn predators_of_an_animal_are_those_that_eat_it() {
    let p = chain();
    let mut rng = PRng::seed_from_u64(0);
    let around = vec![a(1), a(3), a(3), a(2), E, a(4)];
    assert_eq!(get_neighbor_predators(&a(4), &around, &p, &mut rng), (3, 3));
    assert_eq!(get_neighbor_predators(&a(1), &around, &p, &mut rng), (2, 3));
    assert_eq!(get_neighbor_predators(&a(3), &around, &p, &mut rng), (0, 0));
    assert_eq!(get_neighbor_predators(&a(2), &around, &p, &mut rng), (0, 0));
}

#[test]
fn predators_beside_an_empty_cell_are_all_that_are_no_herbivores() {
    let p = chain();
    let mut rng = PRng::seed_from_u64(0);
    let around = vec![a(1), a(3), a(1), a(2), E, a(4), a(1)];
    assert_eq!(get_neighbor_predators(&E, &around, &p, &mut rng), (4, 1));
    assert_eq!(get_neighbor_predators(&E, &vec![a(2), a(4), E], &p, &mut rng), (0, 0));
}

#[test]
fn prey_is_what_the_animal_eats() {
    let p = chain();
    let mut rng = PRng::seed_from_u64(0);
    let around = vec![a(1), a(4), a(4), a(2), E, a(1), a(1)];
    assert_eq!(get_neighbor_prey(&a(3), &around, &p, &mut rng), (5, 1));
    assert_eq!(get_neighbor_prey(&a(1), &around, &p, &mut rng), (2, 4));
    assert_eq!(get_neighbor_prey(&a(4), &around, &p, &mut rng), (0, 0));
    assert_eq!(get_neighbor_prey(&E, &around, &p, &mut rng), (0, 0));
}

#[test]
fn herbivores_are_counted_by_their_leading_species() {
    let p = chain();
    let mut rng = PRng::seed_from_u64(0);
    let around = vec![a(4), a(2), a(4), a(1), E, a(4), a(3)];
    assert_eq!(get_neighbor_herbivores(&around, &p, &mut rng), (3, 4));
    assert_eq!(get_neighbor_herbivores(&vec![a(1), a(3), E], &p, &mut rng), (0, 0));
}
