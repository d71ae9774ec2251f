//! The bounded least-recently-used store of the `lru` crate, as far as the
//! memo uses it: what it holds, and what each call does to that.
//!
//! Nothing in this file is proved. Each item states what the `lru` crate
//! does, and the rest of the library is proved from these statements.

use lru::LruCache;
use std::num::NonZeroUsize;
use vstd::prelude::*;

verus! {

/// `lru::LruCache`, a store of keys and values whose inside is not looked
/// into: what it holds is named by `cache_entries` and `cache_limit`.
#[verifier::external_type_specification]
#[verifier::external_body]
#[verifier::reject_recursive_types(K)]
#[verifier::reject_recursive_types(V)]
#[verifier::reject_recursive_types(S)]
pub struct ExLruCache<K, V, S>(LruCache<K, V, S>);

/// `lru::DefaultHasher`, the hasher of a store that is built without one.
#[verifier::external_type_specification]
#[verifier::external_body]
pub struct ExDefaultHasher(lru::DefaultHasher);

/// The pairs of key and value that a store holds, the pair used last
/// standing first and the pair that would be evicted next standing last.
pub uninterp spec fn cache_entries(cache: LruCache<String, String>) -> Seq<(Seq<char>, Seq<char>)>;

/// The number of pairs that a store was made to hold at most.
pub uninterp spec fn cache_limit(cache: LruCache<String, String>) -> nat;

/// `LruCache::sparse`: an empty store that will hold at most `limit` pairs.
/// It reserves no room in advance, so that any positive limit can be had.
#[verifier::external_body]
pub(crate) fn cache_with_limit(limit: usize) -> (cache: LruCache<String, String>)
    requires
        limit > 0,
    ensures
        cache_entries(cache) == Seq::<(Seq<char>, Seq<char>)>::empty(),
        cache_limit(cache) == limit,
{
    LruCache::sparse(NonZeroUsize::new(limit).unwrap())
}

/// Some pair of `entries` stands under `key`.
pub open spec fn has_key(entries: Seq<(Seq<char>, Seq<char>)>, key: Seq<char>) -> bool {
    exists|i: int| 0 <= i < entries.len() && (#[trigger] entries[i]).0 == key
}

/// `LruCache::get`: the value stored under `key`, if there is one, and then
/// that pair has become the one used last, while the other pairs keep their
/// order. Without such a pair nothing changes.
#[verifier::external_body]
pub(crate) fn cache_get(cache: &mut LruCache<String, String>, key: &str) -> (found: Option<String>)
    ensures
        cache_limit(*final(cache)) == cache_limit(*old(cache)),
        found matches Some(value) ==> (exists|i: int|
            0 <= i < cache_entries(*old(cache)).len()
                && #[trigger] cache_entries(*old(cache))[i] == (key@, value@)
                && cache_entries(*final(cache))
                    == seq![(key@, value@)] + cache_entries(*old(cache)).remove(i)),
        found is None ==> !has_key(cache_entries(*old(cache)), key@),
        found is None ==> cache_entries(*final(cache)) == cache_entries(*old(cache)),
{
    cache.get(key).cloned()
}

/// `LruCache::put`: the pair of `key` and `value` has become the one used
/// last. A pair that was stored under `key` is replaced, and its value
/// returned. Otherwise nothing is returned, and where the store was full
/// the pair that stood last has left it.
#[verifier::external_body]
pub(crate) fn cache_put(cache: &mut LruCache<String, String>, key: String, value: String) -> (replaced:
    Option<String>)
    ensures
        cache_limit(*final(cache)) == cache_limit(*old(cache)),
        replaced matches Some(previous) ==> (exists|i: int|
            0 <= i < cache_entries(*old(cache)).len()
                && #[trigger] cache_entries(*old(cache))[i] == (key@, previous@)
                && cache_entries(*final(cache))
                    == seq![(key@, value@)] + cache_entries(*old(cache)).remove(i)),
        replaced is None ==> !has_key(cache_entries(*old(cache)), key@),
        replaced is None && cache_entries(*old(cache)).len() == cache_limit(*old(cache))
            ==> cache_entries(*final(cache))
                == seq![(key@, value@)] + cache_entries(*old(cache)).drop_last(),
        replaced is None && cache_entries(*old(cache)).len() != cache_limit(*old(cache))
            ==> cache_entries(*final(cache)) == seq![(key@, value@)] + cache_entries(*old(cache)),
{
    cache.put(key, value)
}

/// `LruCache::contains`: whether a pair is stored under `key`. The order of
/// the pairs is not touched.
#[verifier::external_body]
pub(crate) fn cache_contains(cache: &LruCache<String, String>, key: &str) -> (present: bool)
    ensures
        present == has_key(cache_entries(*cache), key@),
{
    cache.contains(key)
}

/// `LruCache::len`: the number of pairs stored.
#[verifier::external_body]
pub(crate) fn cache_len(cache: &LruCache<String, String>) -> (n: usize)
    ensures
        n == cache_entries(*cache).len(),
{
    cache.len()
}

} // verus!
