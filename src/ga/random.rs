//! The random draws of the genetic algorithm, made with `rand`'s seeded
//! standard generator so that a run is reproducible from its seed.
use vstd::prelude::*;
use rand::rngs::StdRng;
use rand::seq::SliceRandom;
use rand::Rng;

verus! {

/// rand's seeded standard generator (`rand::rngs::StdRng`), carried through
/// the library as an opaque value.
#[verifier::external_type_specification]
#[verifier::external_body]
pub struct ExStdRng(StdRng);

/// The views of a list of strings.
pub open spec fn views(s: Seq<String>) -> Seq<Seq<char>> {
    s.map_values(|x: String| x@)
}

/// Each entry of `r` is the entry of `v` at its own position, no position
/// taken twice.
pub open spec fn picked_apart(v: Seq<String>, r: Seq<String>) -> bool {
    exists|pos: Seq<int>| #[trigger] pos.len() == r.len()
        && (forall|a: int, b: int| 0 <= a < b < r.len() ==> pos[a] != pos[b])
        && (forall|j: int| 0 <= j < r.len() ==> 0 <= #[trigger] pos[j] < v.len() && r[j]@ == v[pos[j]]@)
}

/// Relies on rand::Rng::gen_range: a value of the half-open range `0..n`,
/// which is not empty.
#[verifier::external_body]
pub(crate) fn draw_below(rng: &mut StdRng, n: usize) -> (r: usize)
    requires
        n > 0,
    ensures
        r < n,
{
    rng.gen_range(0..n)
}

/// Relies on rand::seq::SliceRandom::shuffle: the items are permuted.
#[verifier::external_body]
pub(crate) fn shuffle_strings(v: &mut Vec<String>, rng: &mut StdRng)
    ensures
        views(final(v)@).to_multiset() == views(old(v)@).to_multiset(),
{
    v.shuffle(rng)
}

/// Relies on rand::seq::SliceRandom::choose: one item of a non-empty slice.
#[verifier::external_body]
pub(crate) fn choose_string(v: &Vec<String>, rng: &mut StdRng) -> (r: String)
    requires
        v@.len() > 0,
    ensures
        views(v@).contains(r@),
{
    v.choose(rng).unwrap().clone()
}

/// Relies on rand::seq::SliceRandom::choose_multiple (through
/// `index::sample`): `k` items taken from distinct positions of the slice,
/// with `k` at most its length.
#[verifier::external_body]
pub(crate) fn choose_strings(v: &Vec<String>, k: usize, rng: &mut StdRng) -> (r: Vec<String>)
    requires
        k <= v@.len(),
    ensures
        r@.len() == k,
        forall|j: int| 0 <= j < r@.len() ==> views(v@).contains(#[trigger] r@[j]@),
        picked_apart(v@, r@),
{
    v.choose_multiple(rng, k).cloned().collect()
}

} // verus!
