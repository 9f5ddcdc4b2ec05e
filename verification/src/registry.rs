use vstd::prelude::*;

verus! {

/// `bimap::BiHashMap`, a map between left and right values that can be read
/// in both directions. `bimap::BiMap` is its name with the default hashers.
#[verifier::external_type_specification]
#[verifier::external_body]
#[verifier::reject_recursive_types(L)]
#[verifier::reject_recursive_types(R)]
#[verifier::reject_recursive_types(LS)]
#[verifier::reject_recursive_types(RS)]
pub struct ExBiHashMap<L, R, LS, RS>(bimap::BiHashMap<L, R, LS, RS>);

/// The pairs that a bimap from names to ids holds, as the map from each left
/// value to its right value.
pub uninterp spec fn bimap_pairs(m: bimap::BiMap<String, u32>) -> Map<Seq<char>, u32>;

/// The pairs of an empty bimap.
pub open spec fn no_pairs() -> Map<Seq<char>, u32> {
    Map::empty()
}

/// What inserting the pair `(left, right)` makes of the pairs `pairs`: the
/// pair with that left value and the pair with that right value leave, and the
/// new pair enters.
pub open spec fn with_pair(pairs: Map<Seq<char>, u32>, left: Seq<char>, right: u32) -> Map<
    Seq<char>,
    u32,
> {
    Map::new(
        |k: Seq<char>| k == left || (pairs.contains_key(k) && pairs[k] != right),
        |k: Seq<char>|
            if k == left {
                right
            } else {
                pairs[k]
            },
    )
}

/// `BiMap::new` makes a bimap without pairs.
#[verifier::external_body]
pub(crate) fn bimap_new() -> (m: bimap::BiMap<String, u32>)
    ensures
        bimap_pairs(m) == no_pairs(),
{
    bimap::BiMap::new()
}

/// `BiMap::insert` removes the pair with the given left value and the pair
/// with the given right value, if there are such, and then adds the given
/// pair. What it returns, the pairs that left, is dropped.
#[verifier::external_body]
pub(crate) fn bimap_insert(m: &mut bimap::BiMap<String, u32>, left: String, right: u32)
    ensures
        bimap_pairs(*final(m)) == with_pair(bimap_pairs(*old(m)), left@, right),
{
    m.insert(left, right);
}

} // verus!
