//! Memoized widths: bounded least-recently-used caches in front of the
//! width computations.

use vstd::prelude::*;
use vstd::string::StringSliceAdditionalSpecFns;
use lru::LruCache;
use crate::cells::cell_width;
use crate::cells::text_width;

verus! {

/// `lru::DefaultHasher`, the hasher of a cache that is given none: nothing
/// is said of it.
#[verifier::external_type_specification]
#[verifier::external_body]
pub struct ExDefaultHasher(lru::DefaultHasher);

/// `lru::LruCache`, a bounded cache that lets go of the entry that was used
/// least recently: what it holds is known through `cached_lengths` only.
#[verifier::external_type_specification]
#[verifier::external_body]
#[verifier::reject_recursive_types(K)]
#[verifier::reject_recursive_types(V)]
#[verifier::reject_recursive_types(S)]
pub struct ExLruCache<K, V, S>(LruCache<K, V, S>);

/// The texts that a cell-length cache holds, each with the width kept for it.
pub uninterp spec fn cached_lengths(cache: LruCache<String, usize>) -> Map<Seq<char>, usize>;

/// The number of entries that a cell-length cache holds at most.
pub uninterp spec fn length_cache_limit(cache: LruCache<String, usize>) -> nat;

/// `LruCache::new`: an empty cache that holds at most `cap` entries. The
/// cache sets room aside for `cap` entries at once, so `cap` stays small.
#[verifier::external_body]
fn length_cache_new(cap: usize) -> (cache: LruCache<String, usize>)
    requires
        cap <= 0x10_0000,
    ensures
        cached_lengths(cache) == (Map::<Seq<char>, usize>::empty()),
        length_cache_limit(cache) == cap,
{
    LruCache::new(cap)
}

/// `LruCache::get`: the value kept for `key`, if any. The entries stay as
/// they are; only their order of use changes.
#[verifier::external_body]
fn length_cache_get(cache: &mut LruCache<String, usize>, key: &str) -> (found: Option<usize>)
    ensures
        cached_lengths(*final(cache)) == cached_lengths(*old(cache)),
        length_cache_limit(*final(cache)) == length_cache_limit(*old(cache)),
        found == (if cached_lengths(*old(cache)).contains_key(key@) {
            Some(cached_lengths(*old(cache))[key@])
        } else {
            None
        }),
{
    cache.get(key).copied()
}

/// `LruCache::put`: with a limit of zero nothing changes. Otherwise `key` is
/// kept with `value` afterwards. No other key comes in and no other value
/// changes. At most one other entry leaves, and none where the key was
/// there already or the cache had room. Which entry leaves is not said.
#[verifier::external_body]
fn length_cache_put(cache: &mut LruCache<String, usize>, key: String, value: usize)
    ensures
        length_cache_limit(*final(cache)) == length_cache_limit(*old(cache)),
        length_cache_limit(*old(cache)) == 0 ==> cached_lengths(*final(cache)) == cached_lengths(
            *old(cache),
        ),
        length_cache_limit(*old(cache)) > 0 ==> cached_lengths(*final(cache)).contains_key(key@)
            && cached_lengths(*final(cache))[key@] == value,
        forall|k: Seq<char>| #[trigger]
            cached_lengths(*final(cache)).contains_key(k) && k != key@ ==> cached_lengths(
                *old(cache),
            ).contains_key(k) && cached_lengths(*final(cache))[k] == cached_lengths(*old(cache))[k],
        forall|k1: Seq<char>, k2: Seq<char>|
            cached_lengths(*old(cache)).contains_key(k1) && !(#[trigger] cached_lengths(
                *final(cache),
            ).contains_key(k1)) && cached_lengths(*old(cache)).contains_key(k2)
                && !(#[trigger] cached_lengths(*final(cache)).contains_key(k2)) ==> k1 == k2,
        cached_lengths(*old(cache)).contains_key(key@) || cached_lengths(*old(cache)).dom().len()
            < length_cache_limit(*old(cache)) ==> forall|k: Seq<char>| #[trigger]
            cached_lengths(*old(cache)).contains_key(k) ==> cached_lengths(
                *final(cache),
            ).contains_key(k),
{
    cache.put(key, value);
}

/// A cell-length cache is coherent when every width it holds is the width of
/// its text.
pub open spec fn lengths_coherent(entries: Map<Seq<char>, usize>) -> bool {
    forall|k: Seq<char>| #[trigger] entries.contains_key(k) ==> entries[k] == cell_width(k)
}

/// Texts whose UTF-8 encoding is longer than this are measured but not kept.
pub const MAX_CACHED_LEN: usize = 64;

/// The number of entries of a cell-length cache made by
/// `default_cell_len_cache`.
pub const DEFAULT_CACHE_SIZE: usize = 4096;

/// An empty, and so coherent, cell-length cache of the default size.
pub fn default_cell_len_cache() -> (cache: LruCache<String, usize>)
    ensures
        cached_lengths(cache) == (Map::<Seq<char>, usize>::empty()),
        length_cache_limit(cache) == DEFAULT_CACHE_SIZE,
        lengths_coherent(cached_lengths(cache)),
{
    length_cache_new(DEFAULT_CACHE_SIZE)
}

/// The number of cells that `text` takes, by way of `cache`: a width that the
/// cache holds for `text` is returned as it is; otherwise the width is
/// computed, and kept where the text is at most `MAX_CACHED_LEN` bytes long.
pub fn cell_len(text: &str, cache: &mut LruCache<String, usize>) -> (width: usize)
    ensures
        width == (if cached_lengths(*old(cache)).contains_key(text@) {
            cached_lengths(*old(cache))[text@]
        } else {
            cell_width(text@) as usize
        }),
        lengths_coherent(cached_lengths(*old(cache))) ==> width == cell_width(text@)
            && lengths_coherent(cached_lengths(*final(cache))),
        length_cache_limit(*final(cache)) == length_cache_limit(*old(cache)),
        cached_lengths(*old(cache)).contains_key(text@) || text.spec_bytes().len() > MAX_CACHED_LEN
            ==> cached_lengths(*final(cache)) == cached_lengths(*old(cache)),
        !cached_lengths(*old(cache)).contains_key(text@) && text.spec_bytes().len()
            <= MAX_CACHED_LEN && length_cache_limit(*old(cache)) > 0 ==> cached_lengths(
            *final(cache),
        ).contains_key(text@),
        cached_lengths(*final(cache)).contains_key(text@) ==> cached_lengths(*final(cache))[text@]
            == width,
        forall|k: Seq<char>| #[trigger]
            cached_lengths(*final(cache)).contains_key(k) && k != text@ ==> cached_lengths(
                *old(cache),
            ).contains_key(k) && cached_lengths(*final(cache))[k] == cached_lengths(*old(cache))[k],
{
    if let Some(cached_result) = length_cache_get(cache, text) {
        return cached_result;
    }
    let total_size = text_width(text);
    if text.as_bytes().len() <= MAX_CACHED_LEN {
        length_cache_put(cache, text.to_owned(), total_size);
    }
    total_size
}

} // verus!
