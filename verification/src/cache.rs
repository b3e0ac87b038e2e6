//! The response cache: snapshots of origin responses, kept under their
//! cache keys until the whole cache is cleared.

use crate::headers::{
    clone_headers, end_to_end, end_to_end_headers, free_of_hop_by_hop, Headers,
};
use dashmap::DashMap;
use vstd::prelude::*;
use vstd::slice::slice_to_vec;

verus! {

/// What a cached response holds, as mathematical values.
pub struct ResponseView {
    pub status: u16,
    pub headers: Map<Seq<char>, Seq<u8>>,
    pub body: Seq<u8>,
}

/// A snapshot of an origin response: status, headers and body. It never
/// holds a hop-by-hop header, and nothing changes it once it is made.
pub struct CachedResponse {
    status: u16,
    headers: Headers,
    body: Vec<u8>,
}

impl View for CachedResponse {
    type V = ResponseView;

    closed spec fn view(&self) -> ResponseView {
        ResponseView { status: self.status, headers: self.headers@, body: self.body@ }
    }
}

impl CachedResponse {
    #[verifier::type_invariant]
    spec fn well_formed(&self) -> bool {
        free_of_hop_by_hop(self.headers@)
    }

    /// The snapshot of a response with the given status and body, and with
    /// those of the given headers that travel end to end.
    pub fn new(status: u16, headers: &Headers, body: &[u8]) -> (response: CachedResponse)
        ensures
            response@ == (ResponseView {
                status,
                headers: end_to_end(headers@),
                body: body@,
            }),
    {
        CachedResponse {
            status,
            headers: end_to_end_headers(headers),
            body: slice_to_vec(body),
        }
    }

    /// The status code.
    pub fn status(&self) -> (status: u16)
        ensures
            status == self@.status,
    {
        self.status
    }

    /// The headers; none of them is a hop-by-hop header.
    pub fn headers(&self) -> (headers: &Headers)
        ensures
            headers@ == self@.headers,
            free_of_hop_by_hop(headers@),
    {
        proof {
            use_type_invariant(self);
        }
        &self.headers
    }

    /// The body.
    pub fn body(&self) -> (body: &Vec<u8>)
        ensures
            body@ == self@.body,
    {
        &self.body
    }

    /// A copy that shares nothing with `self`.
    pub fn snapshot(&self) -> (copy: CachedResponse)
        ensures
            copy@ == self@,
    {
        proof {
            use_type_invariant(self);
        }
        CachedResponse {
            status: self.status,
            headers: clone_headers(&self.headers),
            body: slice_to_vec(self.body.as_slice()),
        }
    }
}

/// The concurrent map of the `dashmap` crate. Nothing of its inside is
/// known here: what it holds is told by `stored_entries`.
#[verifier::external_type_specification]
#[verifier::external_body]
#[verifier::reject_recursive_types(K)]
#[verifier::reject_recursive_types(V)]
#[verifier::reject_recursive_types(S)]
pub struct ExDashMap<K, V, S>(DashMap<K, V, S>);

/// The entries of a map of cached responses: each key with what the response
/// stored under it holds.
pub uninterp spec fn stored_entries(map: DashMap<String, CachedResponse>) -> Map<
    Seq<char>,
    ResponseView,
>;

/// The cache contents without any entry.
pub open spec fn no_entries() -> Map<Seq<char>, ResponseView> {
    Map::empty()
}

/// `DashMap::new`: the new map has no entries.
#[verifier::external_body]
fn map_new() -> (map: DashMap<String, CachedResponse>)
    ensures
        stored_entries(map) == no_entries(),
{
    DashMap::new()
}

/// `DashMap::view`: where the map has an entry for `key`, the result is what
/// the closure makes of the stored value, here a copy of it; where it has
/// none, the result is `None`.
#[verifier::external_body]
fn map_view(map: &DashMap<String, CachedResponse>, key: &str) -> (found: Option<CachedResponse>)
    ensures
        match found {
            Some(response) => stored_entries(*map).contains_key(key@) && response@
                == stored_entries(*map)[key@],
            None => !stored_entries(*map).contains_key(key@),
        },
{
    map.view(key, |_key, response| response.snapshot())
}

/// `DashMap::insert`: afterwards the map holds `response` under `key`, in
/// place of what it held there, and its other entries are as before.
#[verifier::external_body]
fn map_insert(map: &mut DashMap<String, CachedResponse>, key: String, response: CachedResponse)
    ensures
        stored_entries(*final(map)) == stored_entries(*old(map)).insert(key@, response@),
{
    map.insert(key, response);
}

/// `DashMap::clear`: afterwards the map has no entries.
#[verifier::external_body]
fn map_clear(map: &mut DashMap<String, CachedResponse>)
    ensures
        stored_entries(*final(map)) == no_entries(),
{
    map.clear();
}

/// The store of cached responses, one per cache key. Storing and clearing
/// take the cache by `&mut`: a program that shares one cache among its tasks
/// keeps it behind a lock.
pub struct ResponseCache {
    entries: DashMap<String, CachedResponse>,
}

impl View for ResponseCache {
    type V = Map<Seq<char>, ResponseView>;

    /// The mapping from each cache key to what is stored under it.
    closed spec fn view(&self) -> Map<Seq<char>, ResponseView> {
        stored_entries(self.entries)
    }
}

impl ResponseCache {
    /// An empty cache.
    pub fn new() -> (cache: ResponseCache)
        ensures
            cache@ == no_entries(),
    {
        ResponseCache { entries: map_new() }
    }
}

/// Looks `key` up: a copy of the response stored under it, or `None` where
/// nothing is stored under it. A response that comes out of the cache holds
/// no hop-by-hop header.
pub fn get_cached_response(cache: &ResponseCache, key: &str) -> (found: Option<CachedResponse>)
    ensures
        match found {
            Some(response) => cache@.contains_key(key@) && response@ == cache@[key@]
                && free_of_hop_by_hop(response@.headers),
            None => !cache@.contains_key(key@),
        },
{
    match map_view(&cache.entries, key) {
        Some(response) => {
            proof {
                use_type_invariant(&response);
            }
            Some(response)
        },
        None => None,
    }
}

/// Stores under `key` the snapshot of a response with the given status and
/// body and with the end-to-end headers among `headers`, in place of
/// whatever was stored under `key`. Every other entry stays as it is.
pub fn store_response(
    cache: &mut ResponseCache,
    key: &str,
    status: u16,
    headers: &Headers,
    body: &[u8],
)
    ensures
        final(cache)@ == old(cache)@.insert(
            key@,
            ResponseView { status, headers: end_to_end(headers@), body: body@ },
        ),
        free_of_hop_by_hop(final(cache)@[key@].headers),
{
    let cached = CachedResponse::new(status, headers, body);
    map_insert(&mut cache.entries, key.to_owned(), cached);
}

/// Removes every entry.
pub fn clear_cache(cache: &mut ResponseCache)
    ensures
        final(cache)@ == no_entries(),
{
    map_clear(&mut cache.entries);
}

} // verus!
