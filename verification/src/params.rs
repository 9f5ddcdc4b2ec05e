use vstd::prelude::*;
use vstd::string::StrSliceExecFns;

use crate::chance::SCALE;
use crate::registry::{bimap_insert, bimap_new, bimap_pairs};
use crate::util::Size;

verus! {

/// The largest sensing radius: with it the number of sensed neighbors, at
/// most `(2 r + 1)^2 - 1`, still fits a `u32`.
pub const MAX_SENSE_RADIUS: u32 = 32_767;

/// The rule set that advances the grid.
#[derive(Copy, Clone, Debug, PartialEq, Eq, Structural)]
pub enum ModelType {
    Simple,
    PPPE,
    DSAM,
    Custom,
}

/// The attributes of one species. The three rates are probabilities in
/// millionths, from 0 to `SCALE`.
#[derive(Clone, Debug)]
pub struct SpecieParams {
    /// Cell color for rendering, six hexadecimal digits; the engine ignores it.
    pub color: Option<String>,
    /// Share of the cells that is seeded with this species.
    pub initial_population: u32,
    /// Probability of one birth event.
    pub birth_rate: u32,
    /// Probability of one death event.
    pub death_rate: u32,
    /// Names of the species that this species eats; none for a herbivore.
    pub energy_sources: Option<Vec<String>>,
}

/// The configuration of a model. `species` is ordered by name; the species at
/// index `i` has the id `i + 1`.
#[derive(Clone, Debug)]
pub struct ModelParams {
    pub model: ModelType,
    pub species: Vec<(String, SpecieParams)>,
    pub grid_size: Size,
    pub random_seed: Option<u64>,
    pub sense_radius: u32,
    pub edge_wrap: bool,
}

/// Why a configuration is refused.
#[derive(Clone, Debug, PartialEq, Eq)]
pub enum ConfigError {
    /// The grid has no cells, or more than the machine can address.
    GridSize,
    /// The sensing radius is 0 or above `MAX_SENSE_RADIUS`.
    SenseRadius,
    /// The species do not all get an id that fits a `u32`.
    TooManySpecies,
    /// The named species does not come after all species listed before it.
    SpeciesOrder { specie: String },
    /// A rate of the named species exceeds one whole.
    RateOutOfRange { specie: String },
    /// The named species lists an energy source that is no species.
    UnknownEnergySource { energy_source: String, specie: String },
    /// The species ask for more cells than the grid has free.
    Overpopulated,
}

/// Whether `a` comes before `b` from position `k` on, given that they agree
/// before `k`.
pub open spec fn name_before_from(a: Seq<char>, b: Seq<char>, k: int) -> bool
    decreases a.len() - k,
{
    if k < 0 || k >= b.len() {
        false
    } else if k >= a.len() {
        true
    } else if a[k] == b[k] {
        name_before_from(a, b, k + 1)
    } else {
        (a[k] as u32) < (b[k] as u32)
    }
}

/// The order of species names: lexicographic by code point.
pub open spec fn name_before(a: Seq<char>, b: Seq<char>) -> bool {
    name_before_from(a, b, 0)
}

/// No name comes before itself.
pub proof fn lemma_name_before_irreflexive(a: Seq<char>, k: int)
    requires
        0 <= k,
    ensures
        !name_before_from(a, a, k),
    decreases a.len() - k,
{
    if k < a.len() {
        lemma_name_before_irreflexive(a, k + 1);
    }
}

/// The order of names is transitive.
pub proof fn lemma_name_before_transitive(a: Seq<char>, b: Seq<char>, c: Seq<char>, k: int)
    requires
        0 <= k,
        name_before_from(a, b, k),
        name_before_from(b, c, k),
    ensures
        name_before_from(a, c, k),
    decreases a.len() - k,
{
    if k < a.len() && k < b.len() && k < c.len() && a[k] == b[k] && b[k] == c[k] {
        lemma_name_before_transitive(a, b, c, k + 1);
    }
}

/// Two characters with the same code point are the same character.
pub proof fn lemma_code_point_decides(a: char, b: char)
    requires
        a as u32 == b as u32,
    ensures
        a == b,
{
}

/// Two names of which neither comes before the other are the same name.
pub proof fn lemma_names_comparable(a: Seq<char>, b: Seq<char>, k: int)
    requires
        0 <= k <= a.len(),
        k <= b.len(),
        forall|i: int| 0 <= i < k ==> a[i] == b[i],
        !name_before_from(a, b, k),
        !name_before_from(b, a, k),
    ensures
        a == b,
    decreases a.len() - k,
{
    if k < a.len() && k < b.len() {
        if (a[k] as u32) == (b[k] as u32) {
            lemma_code_point_decides(a[k], b[k]);
        }
        lemma_names_comparable(a, b, k + 1);
    }
}

/// Whether the species come in the order of their names, equal names side
/// by side.
pub open spec fn in_name_order(species: Seq<(String, SpecieParams)>) -> bool {
    forall|i: int, j: int| 0 <= i < j < species.len() ==> !name_before(species[j].0@, species[i].0@)
}

/// Brings the species into the order of their names. Species of one name
/// stay side by side, in no stated order.
pub fn sort_species(species: Vec<(String, SpecieParams)>) -> (sorted: Vec<(String, SpecieParams)>)
    ensures
        in_name_order(sorted@),
        sorted@.to_multiset() == species@.to_multiset(),
{
    let mut rest = species;
    let mut sorted: Vec<(String, SpecieParams)> = Vec::new();
    proof {
        assert(sorted@.to_multiset().add(rest@.to_multiset()) =~= species@.to_multiset()) by {
            sorted@.to_multiset_ensures();
        }
    }
    while rest.len() > 0
        invariant
            in_name_order(sorted@),
            sorted@.to_multiset().add(rest@.to_multiset()) == species@.to_multiset(),
        decreases rest@.len(),
    {
        let ghost rest_before = rest@;
        let ghost sorted_before = sorted@;
        let entry = rest.pop().unwrap();
        let mut p: usize = 0;
        let mut found: bool = false;
        while p < sorted.len() && !found
            invariant
                p <= sorted@.len(),
                sorted@ == sorted_before,
                forall|m: int| 0 <= m < p ==> !name_before(entry.0@, (#[trigger] sorted@[m]).0@),
                found ==> p < sorted@.len() && name_before(entry.0@, sorted@[p as int].0@),
            decreases sorted@.len() - p + if found {
                0int
            } else {
                1int
            },
        {
            if name_precedes(entry.0.as_str(), sorted[p].0.as_str()) {
                found = true;
            } else {
                p = p + 1;
            }
        }
        let ghost placed = entry;
        sorted.insert(p, entry);
        proof {
            let after = sorted@;
            assert(after.len() == sorted_before.len() + 1);
            assert(forall|m: int| 0 <= m < p ==> after[m] == sorted_before[m]);
            assert(after[p as int] == placed);
            assert(forall|m: int| p < m < after.len() ==> after[m] == sorted_before[m - 1]);
            assert forall|i: int, j: int| 0 <= i < j < after.len() implies !name_before(
                after[j].0@,
                after[i].0@,
            ) by {
                if i == p {
                    let later = sorted_before[j - 1];
                    if p < j - 1 {
                        assert(!name_before(later.0@, sorted_before[p as int].0@));
                    }
                    if name_before(later.0@, placed.0@) {
                        lemma_name_before_transitive(later.0@, placed.0@, sorted_before[p as int].0@, 0);
                        lemma_name_before_irreflexive(later.0@, 0);
                    }
                } else if j == p {
                    assert(!name_before(placed.0@, sorted_before[i].0@));
                } else {
                    let a = if i < p {
                        i
                    } else {
                        i - 1
                    };
                    let b = if j < p {
                        j
                    } else {
                        j - 1
                    };
                    assert(!name_before(sorted_before[b].0@, sorted_before[a].0@));
                }
            }
            assert(rest_before =~= rest@.push(placed));
            vstd::seq_lib::to_multiset_build(rest@, placed);
            assert(after.remove(p as int) =~= sorted_before);
            vstd::seq_lib::to_multiset_remove(after, p as int);
            after.to_multiset_ensures();
            assert(after.contains(placed));
            assert(after.to_multiset() =~= sorted_before.to_multiset().insert(placed));
            assert(after.to_multiset().add(rest@.to_multiset()) =~= sorted_before.to_multiset().add(
                rest_before.to_multiset(),
            ));
        }
    }
    proof {
        rest@.to_multiset_ensures();
        assert(rest@.to_multiset() =~= vstd::multiset::Multiset::empty());
        assert(sorted@.to_multiset().add(rest@.to_multiset()) =~= sorted@.to_multiset());
    }
    sorted
}

/// Decides the order of two names.
pub fn name_precedes(a: &str, b: &str) -> (r: bool)
    ensures
        r == name_before(a@, b@),
{
    let len_a: usize = a.unicode_len();
    let len_b: usize = b.unicode_len();
    let mut k: usize = 0;
    loop
        invariant
            len_a == a@.len(),
            len_b == b@.len(),
            k <= len_a,
            k <= len_b,
            name_before(a@, b@) == name_before_from(a@, b@, k as int),
        decreases len_a - k,
    {
        if k >= len_b {
            return false;
        }
        if k >= len_a {
            return true;
        }
        let ca: char = a.get_char(k);
        let cb: char = b.get_char(k);
        if ca != cb {
            return (ca as u32) < (cb as u32);
        }
        k = k + 1;
    }
}

/// Decides whether two names are the same.
pub fn names_equal(a: &str, b: &str) -> (r: bool)
    ensures
        r == (a@ == b@),
{
    let len_a: usize = a.unicode_len();
    let len_b: usize = b.unicode_len();
    if len_a != len_b {
        return false;
    }
    let mut k: usize = 0;
    while k < len_a
        invariant
            len_a == a@.len(),
            len_b == b@.len(),
            len_a == len_b,
            k <= len_a,
            forall|m: int| 0 <= m < k ==> a@[m] == b@[m],
        decreases len_a - k,
    {
        let ca: char = a.get_char(k);
        let cb: char = b.get_char(k);
        if ca != cb {
            return false;
        }
        k = k + 1;
    }
    proof {
        assert(a@ =~= b@);
    }
    true
}

impl SpecieParams {
    /// The energy sources as a sequence, empty where none are given.
    pub open spec fn sources(&self) -> Seq<String> {
        match self.energy_sources {
            Some(list) => list@,
            None => Seq::empty(),
        }
    }

    pub open spec fn rates_ok(&self) -> bool {
        &&& self.initial_population <= SCALE
        &&& self.birth_rate <= SCALE
        &&& self.death_rate <= SCALE
    }

    pub fn rates_in_range(&self) -> (ok: bool)
        ensures
            ok == self.rates_ok(),
    {
        self.initial_population <= SCALE && self.birth_rate <= SCALE && self.death_rate <= SCALE
    }

    /// Whether `name` is among the energy sources.
    pub fn feeds_on(&self, name: &str) -> (found: bool)
        ensures
            found == exists|k: int| 0 <= k < self.sources().len() && (#[trigger] self.sources()[k])@ == name@,
    {
        match &self.energy_sources {
            None => false,
            Some(list) => {
                let mut k: usize = 0;
                while k < list.len()
                    invariant
                        k <= list@.len(),
                        self.sources() == list@,
                        forall|m: int| 0 <= m < k ==> (#[trigger] list@[m])@ != name@,
                    decreases list@.len() - k,
                {
                    if names_equal(list[k].as_str(), name) {
                        return true;
                    }
                    k = k + 1;
                }
                false
            },
        }
    }
}

impl ModelParams {
    /// The name of the species at index `i`.
    pub open spec fn name(&self, i: int) -> Seq<char> {
        self.species@[i].0@
    }

    /// Whether some species has this name.
    pub open spec fn known(&self, name: Seq<char>) -> bool {
        exists|i: int| 0 <= i < self.species@.len() && #[trigger] self.name(i) == name
    }

    /// Whether `id` names a species. The id 0 is never assigned.
    pub open spec fn registered(&self, id: u32) -> bool {
        1 <= id <= self.species@.len()
    }

    /// The attributes of the species with the given id.
    pub open spec fn specie(&self, id: u32) -> SpecieParams {
        self.species@[id - 1].1
    }

    /// A species without energy sources is a herbivore.
    pub open spec fn herbivore(&self, id: u32) -> bool {
        self.specie(id).sources().len() == 0
    }

    /// Whether the species `id` lists the species `other` as an energy source.
    pub open spec fn predator_for(&self, id: u32, other: u32) -> bool {
        exists|k: int|
            0 <= k < self.specie(id).sources().len() && (#[trigger] self.specie(id).sources()[k])@
                == self.name(other - 1)
    }

    pub open spec fn grid_ok(&self) -> bool {
        &&& self.grid_size.w >= 1
        &&& self.grid_size.h >= 1
        &&& self.grid_size.area() <= usize::MAX
    }

    pub open spec fn radius_ok(&self) -> bool {
        1 <= self.sense_radius <= MAX_SENSE_RADIUS
    }

    pub open spec fn count_ok(&self) -> bool {
        self.species@.len() < u32::MAX
    }

    /// The species at `j` comes after every species listed before it.
    pub open spec fn ordered_at(&self, j: int) -> bool {
        forall|i: int| 0 <= i < j ==> name_before(#[trigger] self.name(i), self.name(j))
    }

    pub open spec fn names_ordered(&self) -> bool {
        forall|j: int| 0 <= j < self.species@.len() ==> #[trigger] self.ordered_at(j)
    }

    pub open spec fn rates_ok(&self) -> bool {
        forall|i: int| 0 <= i < self.species@.len() ==> (#[trigger] self.species@[i]).1.rates_ok()
    }

    /// Every energy source of the species at `i` is a species.
    pub open spec fn sources_known_at(&self, i: int) -> bool {
        forall|k: int|
            0 <= k < self.species@[i].1.sources().len() ==> self.known(
                (#[trigger] self.species@[i].1.sources()[k])@,
            )
    }

    pub open spec fn sources_known(&self) -> bool {
        forall|i: int| 0 <= i < self.species@.len() ==> #[trigger] self.sources_known_at(i)
    }

    /// What every model asks of its configuration.
    pub open spec fn wf(&self) -> bool {
        &&& self.grid_ok()
        &&& self.radius_ok()
        &&& self.count_ok()
        &&& self.names_ordered()
        &&& self.rates_ok()
        &&& self.sources_known()
    }

    /// The species at `j` is the first that does not come after all species
    /// before it.
    pub open spec fn first_unordered(&self, j: int) -> bool {
        &&& 0 <= j < self.species@.len()
        &&& !self.ordered_at(j)
        &&& forall|m: int| 0 <= m < j ==> #[trigger] self.ordered_at(m)
    }

    /// The species at `i` is the first with a rate above one whole.
    pub open spec fn first_out_of_range(&self, i: int) -> bool {
        &&& 0 <= i < self.species@.len()
        &&& !self.species@[i].1.rates_ok()
        &&& forall|m: int| 0 <= m < i ==> (#[trigger] self.species@[m]).1.rates_ok()
    }

    /// Energy source `k` of the species at `i` is the first, in the order of
    /// the species and then of their lists, that is no species.
    pub open spec fn first_unknown_source(&self, i: int, k: int) -> bool {
        &&& 0 <= i < self.species@.len()
        &&& 0 <= k < self.species@[i].1.sources().len()
        &&& !self.known(self.species@[i].1.sources()[k]@)
        &&& forall|m: int| 0 <= m < i ==> #[trigger] self.sources_known_at(m)
        &&& forall|n: int| 0 <= n < k ==> self.known((#[trigger] self.species@[i].1.sources()[n])@)
    }

    /// Whether the error names a fault of the configuration, and where it
    /// names a species or an energy source, the first one at fault.
    pub open spec fn has_fault(&self, e: ConfigError) -> bool {
        match e {
            ConfigError::GridSize => !self.grid_ok(),
            ConfigError::SenseRadius => !self.radius_ok(),
            ConfigError::TooManySpecies => !self.count_ok(),
            ConfigError::SpeciesOrder { specie } => exists|j: int| #[trigger]
                self.first_unordered(j) && specie@ == self.name(j),
            ConfigError::RateOutOfRange { specie } => exists|i: int| #[trigger]
                self.first_out_of_range(i) && specie@ == self.name(i),
            ConfigError::UnknownEnergySource { energy_source, specie } => exists|i: int, k: int| #[trigger]
                self.first_unknown_source(i, k) && energy_source@ == self.species@[i].1.sources()[k]@
                    && specie@ == self.name(i),
            ConfigError::Overpopulated => false,
        }
    }

    /// Two species of an ordered list have different names.
    pub proof fn lemma_names_distinct(&self, i: int, j: int)
        requires
            self.names_ordered(),
            0 <= i < j < self.species@.len(),
        ensures
            self.name(i) != self.name(j),
    {
        assert(self.ordered_at(j));
        lemma_name_before_irreflexive(self.name(j), 0);
    }

    /// Species that come in the order of their names and have no name twice
    /// pass the order check of `validate`.
    pub proof fn lemma_sorted_and_distinct(&self)
        requires
            in_name_order(self.species@),
            forall|i: int, j: int| 0 <= i < j < self.species@.len() ==> self.name(i) != self.name(j),
        ensures
            self.names_ordered(),
    {
        assert forall|j: int| 0 <= j < self.species@.len() implies #[trigger] self.ordered_at(j) by {
            assert forall|i: int| 0 <= i < j implies name_before(#[trigger] self.name(i), self.name(j)) by {
                assert(!name_before(self.species@[j].0@, self.species@[i].0@));
                if !name_before(self.name(i), self.name(j)) {
                    lemma_names_comparable(self.name(i), self.name(j), 0);
                }
            }
        }
    }

    /// The index of the first species with the given name.
    pub fn position_of(&self, name: &str) -> (found: Option<usize>)
        ensures
            match found {
                Some(i) => i < self.species@.len() && self.name(i as int) == name@ && forall|m: int|
                    0 <= m < i ==> #[trigger] self.name(m) != name@,
                None => !self.known(name@),
            },
    {
        let mut i: usize = 0;
        while i < self.species.len()
            invariant
                i <= self.species@.len(),
                forall|m: int| 0 <= m < i ==> #[trigger] self.name(m) != name@,
            decreases self.species@.len() - i,
        {
            if names_equal(self.species[i].0.as_str(), name) {
                return Some(i);
            }
            i = i + 1;
        }
        None
    }

    fn check_grid(&self) -> (ok: bool)
        ensures
            ok == self.grid_ok(),
    {
        if self.grid_size.w == 0 || self.grid_size.h == 0 {
            return false;
        }
        proof {
            assert((self.grid_size.w as int) * (self.grid_size.h as int) <= 0xffff_ffff * 0xffff_ffff)
                by (nonlinear_arith)
                requires
                    0 <= self.grid_size.w <= 0xffff_ffff,
                    0 <= self.grid_size.h <= 0xffff_ffff,
            ;
        }
        let cells: u64 = self.grid_size.w as u64 * self.grid_size.h as u64;
        cells <= usize::MAX as u64
    }

    /// The first species that does not come after all species before it.
    fn check_order(&self) -> (bad: Option<usize>)
        ensures
            match bad {
                Some(j) => self.first_unordered(j as int),
                None => self.names_ordered(),
            },
    {
        let mut j: usize = 0;
        while j < self.species.len()
            invariant
                j <= self.species@.len(),
                forall|m: int| 0 <= m < j ==> #[trigger] self.ordered_at(m),
            decreases self.species@.len() - j,
        {
            let mut i: usize = 0;
            while i < j
                invariant
                    i <= j,
                    j < self.species@.len(),
                    forall|m: int| 0 <= m < j ==> #[trigger] self.ordered_at(m),
                    forall|m: int| 0 <= m < i ==> name_before(#[trigger] self.name(m), self.name(j as int)),
                decreases j - i,
            {
                if !name_precedes(self.species[i].0.as_str(), self.species[j].0.as_str()) {
                    proof {
                        assert(!name_before(self.name(i as int), self.name(j as int)));
                    }
                    return Some(j);
                }
                i = i + 1;
            }
            j = j + 1;
        }
        None
    }

    /// The first species with a rate above one whole.
    fn check_rates(&self) -> (bad: Option<usize>)
        ensures
            match bad {
                Some(i) => self.first_out_of_range(i as int),
                None => self.rates_ok(),
            },
    {
        let mut i: usize = 0;
        while i < self.species.len()
            invariant
                i <= self.species@.len(),
                forall|m: int| 0 <= m < i ==> (#[trigger] self.species@[m]).1.rates_ok(),
            decreases self.species@.len() - i,
        {
            if !self.species[i].1.rates_in_range() {
                return Some(i);
            }
            i = i + 1;
        }
        None
    }

    /// The first species and energy source of it that names no species.
    fn check_sources(&self) -> (bad: Option<(usize, usize)>)
        ensures
            match bad {
                Some((i, k)) => self.first_unknown_source(i as int, k as int),
                None => self.sources_known(),
            },
    {
        let mut i: usize = 0;
        while i < self.species.len()
            invariant
                i <= self.species@.len(),
                forall|m: int| 0 <= m < i ==> #[trigger] self.sources_known_at(m),
            decreases self.species@.len() - i,
        {
            match &self.species[i].1.energy_sources {
                None => {},
                Some(list) => {
                    let mut k: usize = 0;
                    while k < list.len()
                        invariant
                            i < self.species@.len(),
                            k <= list@.len(),
                            self.species@[i as int].1.sources() == list@,
                            forall|m: int| 0 <= m < i ==> #[trigger] self.sources_known_at(m),
                            forall|m: int| 0 <= m < k ==> self.known((#[trigger] list@[m])@),
                        decreases list@.len() - k,
                    {
                        if self.position_of(list[k].as_str()).is_none() {
                            return Some((i, k));
                        }
                        k = k + 1;
                    }
                },
            }
            i = i + 1;
        }
        None
    }

    /// Accepts the configuration exactly when it is well formed. The faults
    /// are looked for in the order of the clauses below, and the first one
    /// found is reported.
    pub fn validate(&self) -> (res: Result<(), ConfigError>)
        ensures
            res is Ok <==> self.wf(),
            res matches Err(e) ==> self.has_fault(e),
            res matches Err(e) ==> (e is GridSize <==> !self.grid_ok()),
            res matches Err(e) ==> (e is SenseRadius <==> self.grid_ok() && !self.radius_ok()),
            res matches Err(e) ==> (e is TooManySpecies <==> self.grid_ok() && self.radius_ok()
                && !self.count_ok()),
            res matches Err(e) ==> (e is SpeciesOrder <==> self.grid_ok() && self.radius_ok()
                && self.count_ok() && !self.names_ordered()),
            res matches Err(e) ==> (e is RateOutOfRange <==> self.grid_ok() && self.radius_ok()
                && self.count_ok() && self.names_ordered() && !self.rates_ok()),
            res matches Err(e) ==> (e is UnknownEnergySource <==> self.grid_ok() && self.radius_ok()
                && self.count_ok() && self.names_ordered() && self.rates_ok()),
    {
        if !self.check_grid() {
            return Err(ConfigError::GridSize);
        }
        if self.sense_radius < 1 || self.sense_radius > MAX_SENSE_RADIUS {
            return Err(ConfigError::SenseRadius);
        }
        if self.species.len() >= u32::MAX as usize {
            return Err(ConfigError::TooManySpecies);
        }
        match self.check_order() {
            Some(j) => {
                return Err(ConfigError::SpeciesOrder { specie: self.species[j].0.clone() });
            },
            None => {},
        }
        match self.check_rates() {
            Some(i) => {
                return Err(ConfigError::RateOutOfRange { specie: self.species[i].0.clone() });
            },
            None => {},
        }
        match self.check_sources() {
            Some((i, k)) => {
                proof {
                    assert(!self.sources_known_at(i as int));
                }
                let list: &Vec<String> = self.species[i].1.energy_sources.as_ref().unwrap();
                return Err(
                    ConfigError::UnknownEnergySource {
                        energy_source: list[k].clone(),
                        specie: self.species[i].0.clone(),
                    },
                );
            },
            None => {},
        }
        Ok(())
    }

    /// The bijection between the species names and their ids: the species at
    /// index `i` of the name-ordered list has the id `i + 1`.
    pub fn specie_ids(&self) -> (ids: bimap::BiMap<String, u32>)
        requires
            self.count_ok(),
            self.names_ordered(),
        ensures
            forall|name: Seq<char>| bimap_pairs(ids).contains_key(name) <==> self.known(name),
            forall|i: int|
                0 <= i < self.species@.len() ==> bimap_pairs(ids)[#[trigger] self.name(i)] == i + 1,
    {
        let mut ids: bimap::BiMap<String, u32> = bimap_new();
        let mut i: usize = 0;
        while i < self.species.len()
            invariant
                self.count_ok(),
                self.names_ordered(),
                i <= self.species@.len(),
                forall|name: Seq<char>|
                    bimap_pairs(ids).contains_key(name) <==> exists|m: int|
                        0 <= m < i && #[trigger] self.name(m) == name,
                forall|m: int| 0 <= m < i ==> bimap_pairs(ids)[#[trigger] self.name(m)] == m + 1,
            decreases self.species@.len() - i,
        {
            let ghost before = bimap_pairs(ids);
            bimap_insert(&mut ids, self.species[i].0.clone(), (i + 1) as u32);
            proof {
                let after = bimap_pairs(ids);
                assert forall|m: int| 0 <= m < i implies self.name(m) != self.name(i as int) && before[self.name(
                    m,
                )] != i + 1 by {
                    self.lemma_names_distinct(m, i as int);
                }
                assert forall|name: Seq<char>| after.contains_key(name) <==> exists|m: int|
                    0 <= m < i + 1 && #[trigger] self.name(m) == name by {
                    if after.contains_key(name) && name != self.name(i as int) {
                        assert(before.contains_key(name));
                        let m = choose|m: int| 0 <= m < i && #[trigger] self.name(m) == name;
                        assert(0 <= m < i + 1 && self.name(m) == name);
                    }
                    if exists|m: int| 0 <= m < i + 1 && #[trigger] self.name(m) == name {
                        let m = choose|m: int| 0 <= m < i + 1 && #[trigger] self.name(m) == name;
                        if m < i {
                            assert(before.contains_key(name));
                        }
                    }
                }
            }
            i = i + 1;
        }
        ids
    }

    /// The id of the species with the given name.
    pub fn specie_id_from_name(&self, specie_name: &str) -> (id: u32)
        requires
            self.count_ok(),
            self.known(specie_name@),
        ensures
            self.registered(id),
            self.name(id - 1) == specie_name@,
            forall|m: int| 0 <= m < id - 1 ==> #[trigger] self.name(m) != specie_name@,
    {
        match self.position_of(specie_name) {
            Some(i) => (i + 1) as u32,
            None => 0,
        }
    }

    /// The name of the species with the given id.
    pub fn specie_name_from_id(&self, specie_id: u32) -> (name: &str)
        requires
            self.registered(specie_id),
        ensures
            name@ == self.name(specie_id - 1),
    {
        self.species[(specie_id - 1) as usize].0.as_str()
    }

    /// The attributes of the species with the given id.
    pub fn get_specie_by_id(&self, specie_id: u32) -> (specie: &SpecieParams)
        requires
            self.registered(specie_id),
        ensures
            *specie == self.specie(specie_id),
    {
        &self.species[(specie_id - 1) as usize].1
    }

    /// Whether the species eats no other species.
    pub fn is_specie_herbivore(&self, specie_id: u32) -> (b: bool)
        requires
            self.registered(specie_id),
        ensures
            b == self.herbivore(specie_id),
    {
        match &self.species[(specie_id - 1) as usize].1.energy_sources {
            None => true,
            Some(list) => list.len() == 0,
        }
    }

    /// Whether the species `specie_id` eats the species `other_specie_id`.
    pub fn is_specie_predator_for(&self, specie_id: u32, other_specie_id: u32) -> (b: bool)
        requires
            self.registered(specie_id),
            self.registered(other_specie_id),
        ensures
            b == self.predator_for(specie_id, other_specie_id),
    {
        let prey_name: &str = self.species[(other_specie_id - 1) as usize].0.as_str();
        self.species[(specie_id - 1) as usize].1.feeds_on(prey_name)
    }
}

} // verus!
