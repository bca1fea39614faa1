use vstd::prelude::*;

use crate::keyed::KeyedList;
use crate::types::CacheEntry;

verus! {

/// How long a cached response stays fresh, in milliseconds.
pub const CACHE_TTL_MS: i64 = 300000;

/// Cached responses keyed by request URL.
pub type RequestCache = KeyedList<CacheEntry>;

/// The body that a lookup of `url` at time `now` answers with: present only
/// for an entry captured less than `CACHE_TTL_MS` before `now`.
pub open spec fn cached_body(cache: Map<Seq<char>, CacheEntry>, url: Seq<char>, now: i64) -> Option<
    Seq<char>,
> {
    if cache.contains_key(url) && now - cache[url].timestamp < CACHE_TTL_MS {
        Some(cache[url].response@)
    } else {
        None
    }
}

pub fn get_cached_response(cache: &RequestCache, url: &str, current_time: i64) -> (r: Option<
    String,
>)
    ensures
        match r {
            Some(body) => cached_body(cache@, url@, current_time) == Some(body@),
            None => cached_body(cache@, url@, current_time) is None,
        },
{
    match cache.get(url) {
        Some(entry) => {
            if (current_time as i128) - (entry.timestamp as i128) < CACHE_TTL_MS as i128 {
                Some(entry.response.clone())
            } else {
                None
            }
        },
        None => None,
    }
}

pub fn set_cached_response(cache: &mut RequestCache, url: String, response: String, current_time: i64)
    ensures
        final(cache)@ == old(cache)@.insert(url@, CacheEntry { response, timestamp: current_time }),
{
    cache.insert(url, CacheEntry { response, timestamp: current_time });
}

/// An entry stored at time `t` is still answered `CACHE_TTL_MS - 1` ms later,
/// and is absent from `CACHE_TTL_MS` ms later on.
pub proof fn lemma_ttl_boundary(
    cache: Map<Seq<char>, CacheEntry>,
    url: Seq<char>,
    response: String,
    t: i64,
    later: i64,
)
    requires
        t + CACHE_TTL_MS - 1 <= i64::MAX,
    ensures
        cached_body(cache.insert(url, CacheEntry { response, timestamp: t }), url, (t
            + CACHE_TTL_MS - 1) as i64) == Some(response@),
        later >= t + CACHE_TTL_MS ==> cached_body(
            cache.insert(url, CacheEntry { response, timestamp: t }),
            url,
            later,
        ) is None,
{
}

} // verus!
