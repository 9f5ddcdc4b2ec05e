use ecogrid::params::{
    name_precedes, names_equal, sort_species, ConfigError, ModelParams, ModelType, SpecieParams,
    MAX_SENSE_RADIUS,
};
use ecogrid::util::Size;

fn specie(population: u32, birth: u32, death: u32, sources: &[&str]) -> SpecieParams {
    SpecieParams {
        color: None,
        initial_population: population,
        birth_rate: birth,
        death_rate: death,
        energy_sources: if sources.is_empty() {
            None
        } else {
            Some(sources.iter().map(|s| s.to_string()).collect())
        },
    }
}

fn params(species: Vec<(&str, SpecieParams)>) -> ModelParams {
    ModelParams {
        model: ModelType::Simple,
        species: species.into_iter().map(|(name, p)| (name.to_string(), p)).collect(),
        grid_size: Size::new(10, 10),
        random_seed: Some(1),
        sense_radius: 1,
        edge_wrap: false,
    }
}

fn food_chain() -> ModelParams {
    params(vec![
        ("fox", specie(50_000, 300_000, 100_000, &["rabbit", "mouse"])),
        ("mouse", specie(200_000, 500_000, 200_000, &[])),
        ("owl", specie(10_000, 100_000, 50_000, &["mouse"])),
        ("rabbit", specie(100_000, 400_000, 150_000, &[])),
    ])
}

#[test]
fn names_are_ordered_by_code_point() {
    assert!(name_precedes("A", "B"));
    assert!(!name_precedes("B", "A"));
    assert!(!name_precedes("A", "A"));
    assert!(name_precedes("A", "Ab"));
    assert!(!name_precedes("Ab", "A"));
    assert!(name_precedes("B", "a"));
    assert!(name_precedes("", "a"));
    assert!(!name_precedes("", ""));
    assert!(name_precedes("fox", "mouse"));
    assert!(name_precedes("z", "\u{e9}"));
}

#[test]
fn names_are_equal_char_by_char() {
    assert!(names_equal("fox", "fox"));
    assert!(!names_equal("fox", "fo"));
    assert!(!names_equal("fox", "fax"));
    assert!(names_equal("", ""));
}

#[test]
fn a_sound_configuration_is_accepted() {
    assert_eq!(food_chain().validate(), Ok(()));
    assert_eq!(params(vec![]).validate(), Ok(()));
}

#[test]
fn ids_follow_the_order_of_the_names() {
    let p = food_chain();
    assert_eq!(p.specie_id_from_name("fox"), 1);
    assert_eq!(p.specie_id_from_name("mouse"), 2);
    assert_eq!(p.specie_id_from_name("owl"), 3);
    assert_eq!(p.specie_id_from_name("rabbit"), 4);
    assert_eq!(p.specie_name_from_id(1), "fox");
    assert_eq!(p.specie_name_from_id(4), "rabbit");
    assert_eq!(p.position_of("owl"), Some(2));
    assert_eq!(p.position_of("wolf"), None);
    assert_eq!(p.get_specie_by_id(3).birth_rate, 100_000);
}

#[test]
fn the_bimap_pairs_each_name_with_its_id() {
    let p = food_chain();
    let ids = p.specie_ids();
    assert_eq!(ids.len(), 4);
    assert_eq!(ids.get_by_left(&"fox".to_string()), Some(&1));
    assert_eq!(ids.get_by_left(&"mouse".to_string()), Some(&2));
    assert_eq!(ids.get_by_left(&"owl".to_string()), Some(&3));
    assert_eq!(ids.get_by_left(&"rabbit".to_string()), Some(&4));
    assert_eq!(ids.get_by_right(&3), Some(&"owl".to_string()));
    assert_eq!(ids.get_by_right(&0), None);
    assert_eq!(ids.get_by_right(&5), None);
    assert_eq!(ids.get_by_left(&"wolf".to_string()), None);
    assert_eq!(params(vec![]).specie_ids().len(), 0);
}

#[test]
fn a_species_without_energy_sources_is_a_herbivore() {
    let mut p = food_chain();
    assert!(!p.is_specie_herbivore(1));
    assert!(p.is_specie_herbivore(2));
    assert!(!p.is_specie_herbivore(3));
    assert!(p.is_specie_herbivore(4));
    p.species[1].1.energy_sources = Some(vec![]);
    assert!(p.is_specie_herbivore(2));
}

#[test]
fn a_predator_eats_what_it_lists() {
    let p = food_chain();
    assert!(p.is_specie_predator_for(1, 2));
    assert!(p.is_specie_predator_for(1, 4));
    assert!(!p.is_specie_predator_for(1, 3));
    assert!(!p.is_specie_predator_for(1, 1));
    assert!(p.is_specie_predator_for(3, 2));
    assert!(!p.is_specie_predator_for(3, 4));
    assert!(!p.is_specie_predator_for(2, 1));
    assert!(p.get_specie_by_id(1).feeds_on("rabbit"));
    assert!(!p.get_specie_by_id(1).feeds_on("owl"));
}

#[test]
fn an_empty_grid_size_is_refused() {
    let mut p = food_chain();
    p.grid_size = Size::new(0, 10);
    assert_eq!(p.validate(), Err(ConfigError::GridSize));
    p.grid_size = Size::new(10, 0);
    assert_eq!(p.validate(), Err(ConfigError::GridSize));
}

#[test]
fn a_sense_radius_out_of_range_is_refused() {
    let mut p = food_chain();
    p.sense_radius = 0;
    assert_eq!(p.validate(), Err(ConfigError::SenseRadius));
    p.sense_radius = MAX_SENSE_RADIUS + 1;
    assert_eq!(p.validate(), Err(ConfigError::SenseRadius));
    p.sense_radius = MAX_SENSE_RADIUS;
    assert_eq!(p.validate(), Ok(()));
}

#[test]
fn species_out_of_order_are_refused() {
    let p = params(vec![("b", specie(0, 0, 0, &[])), ("a", specie(0, 0, 0, &[]))]);
    assert_eq!(p.validate(), Err(ConfigError::SpeciesOrder { specie: "a".to_string() }));
    let twice = params(vec![("a", specie(0, 0, 0, &[])), ("a", specie(0, 0, 0, &[]))]);
    assert_eq!(twice.validate(), Err(ConfigError::SpeciesOrder { specie: "a".to_string() }));
}

#[test]
fn a_rate_above_one_whole_is_refused() {
    let cases = vec![specie(1_000_001, 0, 0, &[]), specie(0, 1_000_001, 0, &[]), specie(0, 0, 1_000_001, &[])];
    for case in cases {
        assert!(!case.rates_in_range());
        let p = params(vec![("a", specie(1_000_000, 1_000_000, 1_000_000, &[])), ("b", case)]);
        assert_eq!(p.validate(), Err(ConfigError::RateOutOfRange { specie: "b".to_string() }));
    }
}

#[test]
fn an_unknown_energy_source_is_refused_with_both_names() {
    let p = params(vec![("fox", specie(0, 0, 0, &["mouse", "hare"])), ("mouse", specie(0, 0, 0, &[]))]);
    assert_eq!(
        p.validate(),
        Err(ConfigError::UnknownEnergySource {
            energy_source: "hare".to_string(),
            specie: "fox".to_string(),
        })
    );
}

#[test]
fn the_first_fault_in_order_is_reported() {
    let mut p = params(vec![("b", specie(0, 2_000_000, 0, &["x"])), ("a", specie(0, 0, 0, &[]))]);
    p.sense_radius = 0;
    p.grid_size = Size::new(0, 0);
    assert_eq!(p.validate(), Err(ConfigError::GridSize));
    p.grid_size = Size::new(3, 3);
    assert_eq!(p.validate(), Err(ConfigError::SenseRadius));
    p.sense_radius = 2;
    assert_eq!(p.validate(), Err(ConfigError::SpeciesOrder { specie: "a".to_string() }));
    p.species.swap(0, 1);
    assert_eq!(p.validate(), Err(ConfigError::RateOutOfRange { specie: "b".to_string() }));
    p.species[1].1.birth_rate = 5;
    assert_eq!(
        p.validate(),
        Err(ConfigError::UnknownEnergySource { energy_source: "x".to_string(), specie: "b".to_string() })
    );
}

#[test]
fn species_are_sorted_by_name() {
    let shuffled = vec![
        ("owl".to_string(), specie(1, 0, 0, &[])),
        ("Fox".to_string(), specie(2, 0, 0, &[])),
        ("rabbit".to_string(), specie(3, 0, 0, &[])),
        ("fox".to_string(), specie(4, 0, 0, &["rabbit"])),
        ("".to_string(), specie(5, 0, 0, &[])),
        ("mouse".to_string(), specie(6, 0, 0, &[])),
    ];
    let sorted = sort_species(shuffled);
    let names: Vec<&str> = sorted.iter().map(|(name, _)| name.as_str()).collect();
    assert_eq!(names, vec!["", "Fox", "fox", "mouse", "owl", "rabbit"]);
    let shares: Vec<u32> = sorted.iter().map(|(_, p)| p.initial_population).collect();
    assert_eq!(shares, vec![5, 2, 4, 6, 1, 3]);
    assert_eq!(sorted[2].1.energy_sources, Some(vec!["rabbit".to_string()]));
    assert!(sort_species(vec![]).is_empty());
}

#[test]
fn sorted_species_pass_the_order_check() {
    let mut p = params(vec![("b", specie(0, 0, 0, &[])), ("c", specie(0, 0, 0, &["a"])), ("a", specie(0, 0, 0, &[]))]);
    assert_eq!(p.validate(), Err(ConfigError::SpeciesOrder { specie: "a".to_string() }));
    p.species = sort_species(p.species);
    assert_eq!(p.validate(), Ok(()));
    assert_eq!(p.specie_id_from_name("a"), 1);
    assert_eq!(p.specie_id_from_name("c"), 3);
    assert!(p.is_specie_predator_for(3, 1));
}
