//! The finite-state-transducer maps of the `fst` crate, which hold the
//! compose sequences and answer prefix searches over them.
//!
//! Keys go in and come out as text. The order of `fst` keys is the order of
//! their UTF-8 bytes, which for text is the order of the characters by code
//! point (`seq_lt`), and a text is a byte prefix of another exactly when it is
//! a character prefix of it.
use vstd::prelude::*;
use crate::compose::sorted_keys;
use crate::order::seq_lt;
use fst::{Automaton, IntoStreamer};

verus! {

#[verifier::external_type_specification]
#[verifier::external_body]
#[verifier::reject_recursive_types(D)]
pub struct ExFstMap<D>(fst::Map<D>);

#[verifier::external_type_specification]
#[verifier::external_body]
#[verifier::reject_recursive_types(W)]
pub struct ExFstMapBuilder<W>(fst::MapBuilder<W>);

#[verifier::external_type_specification]
#[verifier::external_body]
pub struct ExFstError(fst::Error);

/// The text keys of an `fst` map with their values.
pub uninterp spec fn fst_map_contents(m: fst::Map<Vec<u8>>) -> Map<Seq<char>, u64>;

/// Every key of an `fst` map is valid UTF-8 text.
pub uninterp spec fn fst_map_is_text(m: fst::Map<Vec<u8>>) -> bool;

/// The keys given to an `fst` map builder so far, in order, with their
/// values.
pub uninterp spec fn fst_builder_entries(b: fst::MapBuilder<Vec<u8>>) -> Seq<(Seq<char>, u64)>;

/// Every key given to an `fst` map builder so far is valid UTF-8 text.
pub uninterp spec fn fst_builder_is_text(b: fst::MapBuilder<Vec<u8>>) -> bool;

/// The map that a list of key-value pairs describes.
pub open spec fn entries_map(e: Seq<(Seq<char>, u64)>) -> Map<Seq<char>, u64>
    decreases e.len(),
{
    if e.len() == 0 {
        Map::empty()
    } else {
        entries_map(e.drop_last()).insert(e.last().0, e.last().1)
    }
}

/// `p` is a prefix of `k`.
pub open spec fn has_prefix(k: Seq<char>, p: Seq<char>) -> bool {
    p.len() <= k.len() && k.subrange(0, p.len() as int) == p
}

/// `r` lists, in increasing order, exactly the keys of `contents` that start
/// with `p`, each with its value.
pub open spec fn prefix_listing(
    contents: Map<Seq<char>, u64>,
    p: Seq<char>,
    r: Seq<(Seq<char>, u64)>,
) -> bool {
    &&& sorted_keys(r)
    &&& forall|i: int|
        0 <= i < r.len() ==> contents.contains_key(#[trigger] r[i].0) && contents[r[i].0]
            == r[i].1 && has_prefix(r[i].0, p)
    &&& forall|k: Seq<char>|
        contents.contains_key(k) && has_prefix(k, p) ==> exists|i: int|
            0 <= i < r.len() && #[trigger] r[i].0 == k
}

/// `Map::default()` for `fst`: the empty map.
#[verifier::external_body]
pub(crate) fn fst_empty_map() -> (m: fst::Map<Vec<u8>>)
    ensures
        forall|k: Seq<char>| !fst_map_contents(m).contains_key(k),
        fst_map_is_text(m),
{
    fst::Map::default()
}

/// `MapBuilder::memory()`: a builder, in memory, that has been given nothing.
#[verifier::external_body]
pub(crate) fn fst_builder_memory() -> (b: fst::MapBuilder<Vec<u8>>)
    ensures
        fst_builder_entries(b) == Seq::<(Seq<char>, u64)>::empty(),
        fst_builder_is_text(b),
{
    fst::MapBuilder::memory()
}

/// `MapBuilder::insert`: succeeds exactly when `key` comes after every key
/// given before; then the builder holds the pair as its last entry, and on
/// failure it is left as it was. An in-memory builder has no other failure.
#[verifier::external_body]
pub(crate) fn fst_builder_insert(b: &mut fst::MapBuilder<Vec<u8>>, key: &str, val: u64) -> (r: Result<
    (),
    fst::Error,
>)
    ensures
        r is Ok <==> (fst_builder_entries(*old(b)).len() == 0 || seq_lt(
            fst_builder_entries(*old(b)).last().0,
            key@,
        )),
        r is Ok ==> fst_builder_entries(*final(b)) == fst_builder_entries(*old(b)).push(
            (key@, val),
        ),
        r is Err ==> fst_builder_entries(*final(b)) == fst_builder_entries(*old(b)),
        fst_builder_is_text(*final(b)) == fst_builder_is_text(*old(b)),
{
    b.insert(key, val)
}

/// `MapBuilder::into_map`: the map of the pairs given to the builder.
#[verifier::external_body]
pub(crate) fn fst_builder_into_map(b: fst::MapBuilder<Vec<u8>>) -> (m: fst::Map<Vec<u8>>)
    ensures
        fst_map_contents(m) == entries_map(fst_builder_entries(b)),
        fst_map_is_text(m) == fst_builder_is_text(b),
{
    b.into_map()
}

/// `Map::get`: the value bound to `key`.
#[verifier::external_body]
pub(crate) fn fst_get(m: &fst::Map<Vec<u8>>, key: &str) -> (r: Option<u64>)
    ensures
        match r {
            Some(v) => fst_map_contents(*m).contains_key(key@) && fst_map_contents(*m)[key@] == v,
            None => !fst_map_contents(*m).contains_key(key@),
        },
{
    m.get(key)
}

/// A search of the map with `Str::new(prefix).starts_with()`, streamed to
/// its end and collected with `into_str_vec`: the keys that start with
/// `prefix`, in order, with their values.
#[verifier::external_body]
pub(crate) fn fst_prefix_entries(m: &fst::Map<Vec<u8>>, prefix: &str) -> (r: Vec<(String, u64)>)
    requires
        fst_map_is_text(*m),
    ensures
        prefix_listing(
            fst_map_contents(*m),
            prefix@,
            r@.map_values(|e: (String, u64)| (e.0@, e.1)),
        ),
{
    m.search(fst::automaton::Str::new(prefix).starts_with()).into_stream().into_str_vec().unwrap()
}

} // verus!
