//! The double-array Aho-Corasick automaton of daachorse, as the compiler and
//! the matcher see it: a map from patterns to kind words.

use crate::bytes::occurs_at;
use daachorse::DoubleArrayAhoCorasick;
use vstd::prelude::*;

verus! {

#[verifier::external_type_specification]
#[verifier::external_body]
#[verifier::reject_recursive_types(V)]
pub struct ExDoubleArrayAhoCorasick<V>(DoubleArrayAhoCorasick<V>);

/// The patterns an automaton was built from, each with its value.
pub uninterp spec fn dac_patterns(d: DoubleArrayAhoCorasick<u32>) -> Map<Seq<u8>, u32>;

/// The automaton was built for standard (all-occurrences) matching.
pub uninterp spec fn dac_standard(d: DoubleArrayAhoCorasick<u32>) -> bool;

/// Whether daachorse's builder accepts these pattern-value pairs (it refuses
/// an empty list, an empty or repeated pattern, and lists too large for it).
pub uninterp spec fn dac_fits(pats: Seq<(Seq<u8>, u32)>) -> bool;

/// The serialized form of an automaton.
pub uninterp spec fn dac_bytes(d: DoubleArrayAhoCorasick<u32>) -> Seq<u8>;

/// The pairs of a list, as byte sequences.
pub open spec fn pair_seqs(v: Seq<(Vec<u8>, u32)>) -> Seq<(Seq<u8>, u32)> {
    v.map_values(|e: (Vec<u8>, u32)| (e.0@, e.1))
}

/// The map that a list of distinct patterns with values stands for.
pub open spec fn map_of(v: Seq<(Vec<u8>, u32)>) -> Map<Seq<u8>, u32> {
    Map::new(
        |k: Seq<u8>| exists|i: int| 0 <= i < v.len() && (#[trigger] v[i]).0@ == k,
        |k: Seq<u8>| v[choose|i: int| 0 <= i < v.len() && (#[trigger] v[i]).0@ == k].1,
    )
}

/// No pattern occurs twice and none is empty.
pub open spec fn distinct_patterns(v: Seq<(Vec<u8>, u32)>) -> bool {
    &&& forall|i: int, j: int| 0 <= i < j < v.len() ==> (#[trigger] v[i]).0@ != (#[trigger] v[j]).0@
    &&& forall|i: int| 0 <= i < v.len() ==> (#[trigger] v[i]).0@.len() > 0
}

/// Relies on daachorse's `DoubleArrayAhoCorasick::with_values`: on success
/// the automaton holds exactly the given pattern-value pairs and matches in
/// the standard way (the builder's default). Whether it succeeds depends on
/// the pairs alone; it fails on an empty list.
#[verifier::external_body]
pub(crate) fn build_dac(pats: &Vec<(Vec<u8>, u32)>) -> (r: Option<DoubleArrayAhoCorasick<u32>>)
    ensures
        r is Some == dac_fits(pair_seqs(pats@)),
        r is Some ==> pats@.len() > 0,
        r matches Some(d) ==> dac_patterns(d) == map_of(pats@) && dac_standard(d),
{
    DoubleArrayAhoCorasick::with_values(pats.iter().map(|p| (p.0.as_slice(), p.1))).ok()
}

/// Relies on daachorse's `find_overlapping_iter`: every occurrence of every
/// pattern of the automaton in `hay`, as `(start, end, value)`, and nothing
/// else. It panics unless the automaton matches in the standard way.
#[verifier::external_body]
pub(crate) fn find_overlapping(d: &DoubleArrayAhoCorasick<u32>, hay: &[u8]) -> (r: Vec<(usize, usize, u32)>)
    requires
        dac_standard(*d),
    ensures
        forall|i: int|
            0 <= i < r@.len() ==> {
                let (s, e, v) = #[trigger] r@[i];
                &&& s <= e <= hay@.len()
                &&& dac_patterns(*d).contains_key(hay@.subrange(s as int, e as int))
                &&& dac_patterns(*d)[hay@.subrange(s as int, e as int)] == v
            },
        forall|q: Seq<u8>, at: int|
            dac_patterns(*d).contains_key(q) && #[trigger] occurs_at(hay@, q, at) ==> exists|i: int|
                0 <= i < r@.len() && (#[trigger] r@[i]) == (at as usize, (at + q.len()) as usize, dac_patterns(*d)[q]),
{
    d.find_overlapping_iter(hay).map(|m| (m.start(), m.end(), m.value())).collect()
}

/// Relies on daachorse's `serialize`: the automaton's byte form, which
/// depends on the automaton alone.
#[verifier::external_body]
pub(crate) fn serialize_dac(d: &DoubleArrayAhoCorasick<u32>) -> (r: Vec<u8>)
    ensures
        r@ == dac_bytes(*d),
{
    d.serialize()
}

/// The automaton of distinct patterns with their kind words; none when the
/// list is empty or too large for the automaton.
pub fn build_automaton(pats: &Vec<(Vec<u8>, u32)>) -> (r: Option<DoubleArrayAhoCorasick<u32>>)
    ensures
        r is Some == dac_fits(pair_seqs(pats@)),
        r matches Some(d) ==> dac_patterns(d) == map_of(pats@) && dac_standard(d),
{
    build_dac(pats)
}

/// Every occurrence of every pattern of the automaton in `hay`, as
/// `(start, end, kind word)`.
pub fn overlapping_hits(d: &DoubleArrayAhoCorasick<u32>, hay: &[u8]) -> (r: Vec<(usize, usize, u32)>)
    requires
        dac_standard(*d),
    ensures
        forall|i: int|
            0 <= i < r@.len() ==> {
                let (s, e, v) = #[trigger] r@[i];
                &&& s <= e <= hay@.len()
                &&& dac_patterns(*d).contains_key(hay@.subrange(s as int, e as int))
                &&& dac_patterns(*d)[hay@.subrange(s as int, e as int)] == v
            },
        forall|q: Seq<u8>, at: int|
            dac_patterns(*d).contains_key(q) && #[trigger] occurs_at(hay@, q, at) ==> exists|i: int|
                0 <= i < r@.len() && (#[trigger] r@[i]) == (at as usize, (at + q.len()) as usize, dac_patterns(*d)[q]),
{
    find_overlapping(d, hay)
}

} // verus!
