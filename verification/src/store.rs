use crate::handler::{Block, BlockView};
use dashmap::DashMap;
use std::hash::RandomState;
use vstd::prelude::*;

verus! {

/// The concurrent map of the crate `dashmap`, of which nothing is looked into.
#[verifier::external_type_specification]
#[verifier::external_body]
#[verifier::reject_recursive_types(K)]
#[verifier::reject_recursive_types(V)]
#[verifier::reject_recursive_types(S)]
pub struct ExDashMap<K, V, S>(DashMap<K, V, S>);

/// Keyword lists by digest.
pub type KeywordMap = DashMap<[u8; 32], Vec<String>, RandomState>;

/// Summaries by digest.
pub type SummaryMap = DashMap<[u8; 32], String, RandomState>;

/// Embeddings by digest, each number as the bits of a 32-bit float.
pub type EmbeddingMap = DashMap<[u8; 32], Vec<u32>, RandomState>;

/// The block last seen under each digest.
pub type LiveMap = DashMap<[u8; 32], Block, RandomState>;

/// What a map of keyword lists holds under each digest.
pub uninterp spec fn keywords_entries(map: KeywordMap) -> Map<Seq<u8>, Seq<Seq<char>>>;

/// Calls `DashMap::new`. Trusted: the new map holds nothing.
#[verifier::external_body]
pub(crate) fn keywords_new() -> (fresh: KeywordMap)
    ensures
        keywords_entries(fresh).dom() == Set::<Seq<u8>>::empty(),
{
    DashMap::new()
}

/// Calls `DashMap::contains_key`. Trusted: it tells whether the map holds `key`.
#[verifier::external_body]
pub(crate) fn keywords_has(map: &KeywordMap, key: &[u8; 32]) -> (held: bool)
    ensures
        held == keywords_entries(*map).contains_key(key@),
{
    map.contains_key(key)
}

/// Calls `DashMap::insert`. Trusted: afterwards the map holds `value` under `key`, in
/// place of what it held there, and everything else as before.
#[verifier::external_body]
pub(crate) fn keywords_insert(map: &mut KeywordMap, key: [u8; 32], value: Vec<String>)
    ensures
        keywords_entries(*final(map)) == keywords_entries(*old(map)).insert(key@, value.deep_view()),
{
    map.insert(key, value);
}

/// Calls `DashMap::get` and clones the value found. Trusted: it finds what the map holds
/// under `key`, and nothing where the map holds nothing.
#[verifier::external_body]
pub(crate) fn keywords_get(map: &KeywordMap, key: &[u8; 32]) -> (found: Option<Vec<String>>)
    ensures
        found is Some <==> keywords_entries(*map).contains_key(key@),
        found matches Some(value) ==> value.deep_view() == keywords_entries(*map)[key@],
{
    map.get(key).map(|entry| entry.value().clone())
}

/// Calls `DashMap::iter` and copies each key out. Trusted: the keys handed out are the
/// keys of the map, each at least once, in no stated order.
#[verifier::external_body]
pub(crate) fn keywords_keys(map: &KeywordMap) -> (keys: Vec<[u8; 32]>)
    ensures
        forall|i: int| 0 <= i < keys@.len() ==> keywords_entries(*map).contains_key(#[trigger] keys@[i]@),
        forall|key: Seq<u8>| #[trigger]
            keywords_entries(*map).contains_key(key) ==> exists|i: int|
                0 <= i < keys@.len() && #[trigger] keys@[i]@ == key,
{
    map.iter().map(|entry| *entry.key()).collect()
}

/// Calls `DashMap::remove`. Trusted: afterwards the map holds nothing under `key`, and
/// everything else as before.
#[verifier::external_body]
pub(crate) fn keywords_remove(map: &mut KeywordMap, key: &[u8; 32])
    ensures
        keywords_entries(*final(map)) == keywords_entries(*old(map)).remove(key@),
{
    map.remove(key);
}

/// What a map of summaries holds under each digest.
pub uninterp spec fn summaries_entries(map: SummaryMap) -> Map<Seq<u8>, Seq<char>>;

/// Calls `DashMap::new`. Trusted: the new map holds nothing.
#[verifier::external_body]
pub(crate) fn summaries_new() -> (fresh: SummaryMap)
    ensures
        summaries_entries(fresh).dom() == Set::<Seq<u8>>::empty(),
{
    DashMap::new()
}

/// Calls `DashMap::contains_key`. Trusted: it tells whether the map holds `key`.
#[verifier::external_body]
pub(crate) fn summaries_has(map: &SummaryMap, key: &[u8; 32]) -> (held: bool)
    ensures
        held == summaries_entries(*map).contains_key(key@),
{
    map.contains_key(key)
}

/// Calls `DashMap::insert`. Trusted: afterwards the map holds `value` under `key`, in
/// place of what it held there, and everything else as before.
#[verifier::external_body]
pub(crate) fn summaries_insert(map: &mut SummaryMap, key: [u8; 32], value: String)
    ensures
        summaries_entries(*final(map)) == summaries_entries(*old(map)).insert(key@, value@),
{
    map.insert(key, value);
}

/// Calls `DashMap::get` and clones the value found. Trusted: it finds what the map holds
/// under `key`, and nothing where the map holds nothing.
#[verifier::external_body]
pub(crate) fn summaries_get(map: &SummaryMap, key: &[u8; 32]) -> (found: Option<String>)
    ensures
        found is Some <==> summaries_entries(*map).contains_key(key@),
        found matches Some(value) ==> value@ == summaries_entries(*map)[key@],
{
    map.get(key).map(|entry| entry.value().clone())
}

/// Calls `DashMap::iter` and copies each key out. Trusted: the keys handed out are the
/// keys of the map, each at least once, in no stated order.
#[verifier::external_body]
pub(crate) fn summaries_keys(map: &SummaryMap) -> (keys: Vec<[u8; 32]>)
    ensures
        forall|i: int| 0 <= i < keys@.len() ==> summaries_entries(*map).contains_key(#[trigger] keys@[i]@),
        forall|key: Seq<u8>| #[trigger]
            summaries_entries(*map).contains_key(key) ==> exists|i: int|
                0 <= i < keys@.len() && #[trigger] keys@[i]@ == key,
{
    map.iter().map(|entry| *entry.key()).collect()
}

/// Calls `DashMap::remove`. Trusted: afterwards the map holds nothing under `key`, and
/// everything else as before.
#[verifier::external_body]
pub(crate) fn summaries_remove(map: &mut SummaryMap, key: &[u8; 32])
    ensures
        summaries_entries(*final(map)) == summaries_entries(*old(map)).remove(key@),
{
    map.remove(key);
}

/// What a map of embeddings holds under each digest.
pub uninterp spec fn embeddings_entries(map: EmbeddingMap) -> Map<Seq<u8>, Seq<u32>>;

/// Calls `DashMap::new`. Trusted: the new map holds nothing.
#[verifier::external_body]
pub(crate) fn embeddings_new() -> (fresh: EmbeddingMap)
    ensures
        embeddings_entries(fresh).dom() == Set::<Seq<u8>>::empty(),
{
    DashMap::new()
}

/// Calls `DashMap::contains_key`. Trusted: it tells whether the map holds `key`.
#[verifier::external_body]
pub(crate) fn embeddings_has(map: &EmbeddingMap, key: &[u8; 32]) -> (held: bool)
    ensures
        held == embeddings_entries(*map).contains_key(key@),
{
    map.contains_key(key)
}

/// Calls `DashMap::insert`. Trusted: afterwards the map holds `value` under `key`, in
/// place of what it held there, and everything else as before.
#[verifier::external_body]
pub(crate) fn embeddings_insert(map: &mut EmbeddingMap, key: [u8; 32], value: Vec<u32>)
    ensures
        embeddings_entries(*final(map)) == embeddings_entries(*old(map)).insert(key@, value@),
{
    map.insert(key, value);
}

/// Calls `DashMap::iter` and copies each key out. Trusted: the keys handed out are the
/// keys of the map, each at least once, in no stated order.
#[verifier::external_body]
pub(crate) fn embeddings_keys(map: &EmbeddingMap) -> (keys: Vec<[u8; 32]>)
    ensures
        forall|i: int| 0 <= i < keys@.len() ==> embeddings_entries(*map).contains_key(#[trigger] keys@[i]@),
        forall|key: Seq<u8>| #[trigger]
            embeddings_entries(*map).contains_key(key) ==> exists|i: int|
                0 <= i < keys@.len() && #[trigger] keys@[i]@ == key,
{
    map.iter().map(|entry| *entry.key()).collect()
}

/// Calls `DashMap::remove`. Trusted: afterwards the map holds nothing under `key`, and
/// everything else as before.
#[verifier::external_body]
pub(crate) fn embeddings_remove(map: &mut EmbeddingMap, key: &[u8; 32])
    ensures
        embeddings_entries(*final(map)) == embeddings_entries(*old(map)).remove(key@),
{
    map.remove(key);
}

/// What a map of blocks last seen holds under each digest.
pub uninterp spec fn live_entries(map: LiveMap) -> Map<Seq<u8>, BlockView>;

/// Calls `DashMap::new`. Trusted: the new map holds nothing.
#[verifier::external_body]
pub(crate) fn live_new() -> (fresh: LiveMap)
    ensures
        live_entries(fresh).dom() == Set::<Seq<u8>>::empty(),
{
    DashMap::new()
}

/// Calls `DashMap::contains_key`. Trusted: it tells whether the map holds `key`.
#[verifier::external_body]
pub(crate) fn live_has(map: &LiveMap, key: &[u8; 32]) -> (held: bool)
    ensures
        held == live_entries(*map).contains_key(key@),
{
    map.contains_key(key)
}

/// Calls `DashMap::insert`. Trusted: afterwards the map holds `value` under `key`, in
/// place of what it held there, and everything else as before.
#[verifier::external_body]
pub(crate) fn live_insert(map: &mut LiveMap, key: [u8; 32], value: Block)
    ensures
        live_entries(*final(map)) == live_entries(*old(map)).insert(key@, value@),
{
    map.insert(key, value);
}

} // verus!
