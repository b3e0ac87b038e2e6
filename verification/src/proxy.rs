//! The decisions of the proxy for one request: the cache key, the lookup,
//! the request that goes to the origin, and the reply.
//!
//! The transport is not part of this module. A caller hands each inbound
//! request to [`proxy_handler`]; where that asks for a forward, the caller
//! sends the request to the origin and hands what came of it to
//! [`complete_forward`].

use crate::cache::{
    get_cached_response, no_entries, store_response, ResponseCache, ResponseView,
};
use crate::headers::{
    end_to_end, end_to_end_headers, forwardable, forwardable_headers, free_of_hop_by_hop,
    free_of_host, is_hop_by_hop, is_host, lemma_end_to_end_excludes, lemma_forwardable_excludes,
    Headers,
};
use crate::text::{
    ascii_uppercase, find_first, first_index_of, lemma_first_index_unique, to_lower, to_upper,
    upper_char,
};
use crate::utils::{convert_reqwest_headers_to_warp, normalize_path, normalized, relayable};
use vstd::prelude::*;
use vstd::slice::slice_to_vec;
use vstd::string::*;

verus! {

/// A request: the method, the target (a path with its query for an inbound
/// request, an absolute URL for an outbound one), the headers and the body.
pub struct Request {
    pub method: String,
    pub target: String,
    pub headers: Headers,
    pub body: Vec<u8>,
}

/// What a request holds, as mathematical values.
pub struct RequestView {
    pub method: Seq<char>,
    pub target: Seq<char>,
    pub headers: Map<Seq<char>, Seq<u8>>,
    pub body: Seq<u8>,
}

impl View for Request {
    type V = RequestView;

    open spec fn view(&self) -> RequestView {
        RequestView {
            method: self.method@,
            target: self.target@,
            headers: self.headers@,
            body: self.body@,
        }
    }
}

/// A response: the status code, the headers and the body.
pub struct Response {
    pub status: u16,
    pub headers: Headers,
    pub body: Vec<u8>,
}

impl View for Response {
    type V = ResponseView;

    open spec fn view(&self) -> ResponseView {
        ResponseView { status: self.status, headers: self.headers@, body: self.body@ }
    }
}

/// What came of sending a request to the origin.
pub enum OriginOutcome {
    /// The origin answered.
    Responded(Response),
    /// The origin could not be reached, or the exchange failed.
    Unreachable,
}

impl View for OriginOutcome {
    type V = Option<ResponseView>;

    open spec fn view(&self) -> Option<ResponseView> {
        match self {
            OriginOutcome::Responded(response) => Some(response@),
            OriginOutcome::Unreachable => None,
        }
    }
}

/// What the proxy does with an inbound request.
pub enum ProxyStep {
    /// The cache held a response: this is the reply.
    Reply(Response),
    /// The cache held none: `request` goes to the origin, and what comes
    /// back belongs under `key`.
    Forward { key: String, request: Request },
}

/// A step of the proxy, as mathematical values.
pub enum StepView {
    Reply(ResponseView),
    Forward { key: Seq<char>, request: RequestView },
}

impl View for ProxyStep {
    type V = StepView;

    open spec fn view(&self) -> StepView {
        match self {
            ProxyStep::Reply(response) => StepView::Reply(response@),
            ProxyStep::Forward { key, request } => StepView::Forward {
                key: key@,
                request: request@,
            },
        }
    }
}

/// The bytes of a text of ASCII characters.
pub open spec fn ascii_bytes(text: Seq<char>) -> Seq<u8> {
    Seq::new(text.len(), |i: int| text[i] as u8)
}

/// The name of the header that tells a hit from a miss, in lower case.
pub open spec fn cache_marker_name() -> Seq<char> {
    "x-cache"@
}

/// The value of that header on a reply from the cache.
pub open spec fn hit_marker() -> Seq<u8> {
    ascii_bytes("HIT"@)
}

/// The value of that header on a reply that the origin was asked for.
pub open spec fn miss_marker() -> Seq<u8> {
    ascii_bytes("MISS"@)
}

/// The body of the reply where the origin could not be reached.
pub open spec fn bad_gateway_body() -> Seq<u8> {
    ascii_bytes("Bad Gateway"@)
}

/// The target with its path in normal form: the part before the first `?`
/// is normalised, the rest, which is the query, is kept as it is.
pub open spec fn normalized_target(target: Seq<char>) -> Seq<char> {
    let at = first_index_of(target, '?');
    normalized(target.subrange(0, at)) + target.subrange(at, target.len() as int)
}

/// The URL at the origin that a target stands for.
pub open spec fn target_url(origin: Seq<char>, target: Seq<char>) -> Seq<char> {
    origin + normalized_target(target)
}

/// The cache key of a request: the method in upper case, a colon, and the
/// URL at the origin.
pub open spec fn cache_key(method: Seq<char>, origin: Seq<char>, target: Seq<char>) -> Seq<char> {
    to_upper(method) + seq![':'] + target_url(origin, target)
}

/// The reply that is made of a stored response: its status, body and
/// relayable headers, marked as a hit.
pub open spec fn hit_reply(stored: ResponseView) -> ResponseView {
    ResponseView {
        status: stored.status,
        headers: relayable(stored.headers).insert(cache_marker_name(), hit_marker()),
        body: stored.body,
    }
}

/// The reply that is made of a response from the origin: its status, its
/// body, and those of its headers that travel end to end and can be
/// relayed, marked as a miss.
pub open spec fn miss_reply(received: ResponseView) -> ResponseView {
    ResponseView {
        status: received.status,
        headers: relayable(end_to_end(received.headers)).insert(
            cache_marker_name(),
            miss_marker(),
        ),
        body: received.body,
    }
}

/// The reply where the origin could not be reached: status 502, no headers,
/// and a fixed body.
pub open spec fn bad_gateway_reply() -> ResponseView {
    ResponseView { status: 502, headers: Map::empty(), body: bad_gateway_body() }
}

/// The request that goes to the origin for an inbound request: the same
/// method and body, the URL at the origin, and the headers without the
/// hop-by-hop ones and `host`.
pub open spec fn outbound_request(origin: Seq<char>, request: RequestView) -> RequestView {
    RequestView {
        method: request.method,
        target: target_url(origin, request.target),
        headers: forwardable(request.headers),
        body: request.body,
    }
}

/// What the proxy does with an inbound request, given what the cache holds:
/// it replies from the cache where the key of the request is stored, and
/// asks for a forward where it is not.
pub open spec fn proxy_step(
    cache: Map<Seq<char>, ResponseView>,
    origin: Seq<char>,
    request: RequestView,
) -> StepView {
    let key = cache_key(request.method, origin, request.target);
    if cache.contains_key(key) {
        StepView::Reply(hit_reply(cache[key]))
    } else {
        StepView::Forward { key, request: outbound_request(origin, request) }
    }
}

/// What is stored of a response from the origin: its status, its body and
/// its end-to-end headers.
pub open spec fn stored_form(received: ResponseView) -> ResponseView {
    ResponseView {
        status: received.status,
        headers: end_to_end(received.headers),
        body: received.body,
    }
}

/// What the cache holds after a forward for `key` has ended: the response
/// is stored under `key` where the origin answered, and nothing changes
/// where it did not.
pub open spec fn cache_after(
    cache: Map<Seq<char>, ResponseView>,
    key: Seq<char>,
    outcome: Option<ResponseView>,
) -> Map<Seq<char>, ResponseView> {
    match outcome {
        Some(received) => cache.insert(key, stored_form(received)),
        None => cache,
    }
}

/// The reply after a forward has ended.
pub open spec fn reply_after(outcome: Option<ResponseView>) -> ResponseView {
    match outcome {
        Some(received) => miss_reply(received),
        None => bad_gateway_reply(),
    }
}

/// The bytes of a text of ASCII characters.
fn bytes_of(text: &str) -> (bytes: &[u8])
    requires
        is_ascii(text),
    ensures
        bytes@ == ascii_bytes(text@),
{
    broadcast use is_ascii_spec_bytes;

    text.as_bytes()
}

/// Marks the headers of a reply with `marker`, in place of any mark that
/// they came with.
fn mark(headers: &mut Headers, marker: &str)
    requires
        is_ascii(marker),
    ensures
        final(headers)@ == old(headers)@.insert(cache_marker_name(), ascii_bytes(marker@)),
{
    proof {
        reveal_strlit("X-Cache");
        reveal_strlit("x-cache");
        assert(to_lower("X-Cache"@) =~= "x-cache"@);
    }
    headers.insert("X-Cache", bytes_of(marker));
}

/// Returns the target with its path in normal form.
pub fn normalize_target(target: &str) -> (normal: String)
    ensures
        normal@ == normalized_target(target@),
{
    let n: usize = target.unicode_len();
    let at: usize = find_first(target, '?');
    let mut normal = normalize_path(target.substring_char(0, at));
    normal.append(target.substring_char(at, n));
    normal
}

/// Returns the URL at `origin` that `target` stands for.
pub fn origin_url(origin: &str, target: &str) -> (url: String)
    ensures
        url@ == target_url(origin@, target@),
{
    let mut url = origin.to_owned();
    let normal = normalize_target(target);
    url.append(normal.as_str());
    url
}

/// Returns the cache key of a request with the given method and target,
/// for the given origin. The key depends on these three and on nothing
/// else: neither headers nor body have a part in it.
pub fn derive_cache_key(method: &str, origin: &str, target: &str) -> (key: String)
    ensures
        key@ == cache_key(method@, origin@, target@),
{
    let mut key = ascii_uppercase(method);
    proof {
        reveal_strlit(":");
        assert(":"@ =~= seq![':']);
    }
    key.append(":");
    let url = origin_url(origin, target);
    key.append(url.as_str());
    key
}

/// Takes an inbound request for the given origin and decides what to do
/// with it. The cache is only read.
pub fn proxy_handler(cache: &ResponseCache, origin: &str, request: Request) -> (step: ProxyStep)
    ensures
        step@ == proxy_step(cache@, origin@, request@),
        step matches ProxyStep::Forward { request: outbound, .. } ==> free_of_hop_by_hop(
            outbound.headers@,
        ) && free_of_host(outbound.headers@),
{
    let key = derive_cache_key(request.method.as_str(), origin, request.target.as_str());
    match get_cached_response(cache, key.as_str()) {
        Some(stored) => {
            let mut headers = convert_reqwest_headers_to_warp(stored.headers());
            proof {
                reveal_strlit("HIT");
            }
            mark(&mut headers, "HIT");
            let body = slice_to_vec(stored.body().as_slice());
            ProxyStep::Reply(Response { status: stored.status(), headers, body })
        },
        None => {
            let url = origin_url(origin, request.target.as_str());
            let headers = forwardable_headers(&request.headers);
            ProxyStep::Forward {
                key,
                request: Request {
                    method: request.method,
                    target: url,
                    headers,
                    body: request.body,
                },
            }
        },
    }
}

/// Takes what came of the forward for `key` and makes the reply. Where the
/// origin answered, its response is stored under `key`; where it did not,
/// the cache is left as it is.
pub fn complete_forward(cache: &mut ResponseCache, key: &str, outcome: OriginOutcome) -> (reply:
    Response)
    ensures
        final(cache)@ == cache_after(old(cache)@, key@, outcome@),
        reply@ == reply_after(outcome@),
{
    match outcome {
        OriginOutcome::Responded(received) => {
            store_response(
                cache,
                key,
                received.status,
                &received.headers,
                received.body.as_slice(),
            );
            let kept = end_to_end_headers(&received.headers);
            let mut headers = convert_reqwest_headers_to_warp(&kept);
            proof {
                reveal_strlit("MISS");
            }
            mark(&mut headers, "MISS");
            Response { status: received.status, headers, body: received.body }
        },
        OriginOutcome::Unreachable => {
            proof {
                reveal_strlit("Bad Gateway");
            }
            let body = slice_to_vec(bytes_of("Bad Gateway"));
            Response { status: 502, headers: Headers::new(), body }
        },
    }
}

/// Two requests for the same origin and target whose methods differ, case
/// aside, have different cache keys.
pub proof fn lemma_cache_key_method(
    first: Seq<char>,
    second: Seq<char>,
    origin: Seq<char>,
    target: Seq<char>,
)
    requires
        to_upper(first) != to_upper(second),
    ensures
        cache_key(first, origin, target) != cache_key(second, origin, target),
{
    let rest = seq![':'] + target_url(origin, target);
    let a = to_upper(first);
    let b = to_upper(second);
    assert(cache_key(first, origin, target) =~= a + rest);
    assert(cache_key(second, origin, target) =~= b + rest);
    if a + rest == b + rest {
        assert((a + rest).len() == (b + rest).len());
        assert forall|i: int| 0 <= i < a.len() implies a[i] == b[i] by {
            assert((a + rest)[i] == a[i]);
            assert((b + rest)[i] == b[i]);
        }
        assert(a =~= b);
    }
}

/// In the cache key of a method without a colon, the method ends at the
/// first colon.
proof fn lemma_method_ends_at_colon(method: Seq<char>, origin: Seq<char>, target: Seq<char>)
    requires
        !method.contains(':'),
    ensures
        first_index_of(cache_key(method, origin, target), ':') == method.len(),
{
    let key = cache_key(method, origin, target);
    assert forall|i: int| 0 <= i < method.len() implies key[i] != ':' by {
        assert(key[i] == upper_char(method[i]));
        assert(method.contains(method[i]));
    }
    assert(key[method.len() as int] == ':');
    lemma_first_index_unique(key, ':', method.len() as int);
}

/// Two requests whose methods hold no colon and differ, case aside, have
/// different cache keys, whatever their origins and targets are.
pub proof fn lemma_cache_key_names_method(
    first: Seq<char>,
    first_origin: Seq<char>,
    first_target: Seq<char>,
    second: Seq<char>,
    second_origin: Seq<char>,
    second_target: Seq<char>,
)
    requires
        !first.contains(':'),
        !second.contains(':'),
        to_upper(first) != to_upper(second),
    ensures
        cache_key(first, first_origin, first_target) != cache_key(
            second,
            second_origin,
            second_target,
        ),
{
    let a = cache_key(first, first_origin, first_target);
    let b = cache_key(second, second_origin, second_target);
    lemma_method_ends_at_colon(first, first_origin, first_target);
    lemma_method_ends_at_colon(second, second_origin, second_target);
    if a == b {
        assert(first.len() == second.len());
        assert forall|i: int| 0 <= i < first.len() implies to_upper(first)[i] == to_upper(
            second,
        )[i] by {
            assert(a[i] == to_upper(first)[i]);
            assert(b[i] == to_upper(second)[i]);
        }
        assert(to_upper(first) =~= to_upper(second));
    }
}

/// Two requests with the same method for the same origin whose targets
/// differ in normal form have different cache keys.
pub proof fn lemma_cache_key_target(
    method: Seq<char>,
    origin: Seq<char>,
    first: Seq<char>,
    second: Seq<char>,
)
    requires
        normalized_target(first) != normalized_target(second),
    ensures
        cache_key(method, origin, first) != cache_key(method, origin, second),
{
    let front = to_upper(method) + seq![':'] + origin;
    let a = normalized_target(first);
    let b = normalized_target(second);
    assert(cache_key(method, origin, first) =~= front + a);
    assert(cache_key(method, origin, second) =~= front + b);
    if front + a == front + b {
        assert((front + a).len() == (front + b).len());
        assert forall|i: int| 0 <= i < a.len() implies a[i] == b[i] by {
            assert((front + a)[front.len() + i] == a[i]);
            assert((front + b)[front.len() + i] == b[i]);
        }
        assert(a =~= b);
    }
}

/// Requests whose targets have the same normal form share a cache key, and
/// a target in normal form has the cache key of the target it came from.
pub proof fn lemma_cache_key_shared(
    method: Seq<char>,
    origin: Seq<char>,
    first: Seq<char>,
    second: Seq<char>,
)
    requires
        normalized_target(first) == normalized_target(second),
    ensures
        cache_key(method, origin, first) == cache_key(method, origin, second),
{
}

/// Neither the request that goes to the origin nor what is stored of a
/// response holds a hop-by-hop header, however its name is written; the
/// request holds no `host` header either.
pub proof fn lemma_hop_by_hop_never_passes(
    origin: Seq<char>,
    request: RequestView,
    received: ResponseView,
    name: Seq<char>,
)
    requires
        is_hop_by_hop(name),
    ensures
        !outbound_request(origin, request).headers.contains_key(to_lower(name)),
        !outbound_request(origin, request).headers.contains_key(name),
        !outbound_request(origin, request).headers.contains_key("host"@),
        !stored_form(received).headers.contains_key(to_lower(name)),
        !stored_form(received).headers.contains_key(name),
        !miss_reply(received).headers.contains_key(to_lower(name)),
{
    lemma_forwardable_excludes(request.headers, name);
    lemma_end_to_end_excludes(received.headers, name);
    assert(is_host("host"@)) by {
        reveal_strlit("host");
        assert(to_lower("host"@) =~= "host"@);
    }
    lemma_forwardable_excludes(request.headers, "host"@);
    lemma_marker_is_end_to_end();
}

/// The header that tells a hit from a miss is no hop-by-hop header.
pub proof fn lemma_marker_is_end_to_end()
    ensures
        !is_hop_by_hop(cache_marker_name()),
        to_lower(cache_marker_name()) == cache_marker_name(),
{
    reveal_strlit("x-cache");
    reveal_strlit("connection");
    reveal_strlit("proxy-connection");
    reveal_strlit("keep-alive");
    reveal_strlit("proxy-authenticate");
    reveal_strlit("proxy-authorization");
    reveal_strlit("te");
    reveal_strlit("trailers");
    reveal_strlit("transfer-encoding");
    reveal_strlit("upgrade");
    assert(to_lower(cache_marker_name()) =~= cache_marker_name());
    assert(cache_marker_name()[0] == 'x');
}

/// After a forward with an answer, the same request is replied to from the
/// cache: the reply is marked as a hit and has the status and the body that
/// the origin sent.
pub proof fn lemma_hit_after_miss(
    cache: Map<Seq<char>, ResponseView>,
    origin: Seq<char>,
    request: RequestView,
    received: ResponseView,
)
    ensures
        ({
            let key = cache_key(request.method, origin, request.target);
            let later = cache_after(cache, key, Some(received));
            &&& reply_after(Some(received)).headers[cache_marker_name()] == miss_marker()
            &&& proxy_step(later, origin, request) == StepView::Reply(
                hit_reply(stored_form(received)),
            )
            &&& hit_reply(stored_form(received)).status == received.status
            &&& hit_reply(stored_form(received)).body == received.body
            &&& hit_reply(stored_form(received)).headers[cache_marker_name()] == hit_marker()
        }),
{
}

/// After the cache is cleared every request is forwarded again, whatever
/// was stored before.
pub proof fn lemma_clear_resets(origin: Seq<char>, request: RequestView)
    ensures
        proxy_step(no_entries(), origin, request) == (StepView::Forward {
            key: cache_key(request.method, origin, request.target),
            request: outbound_request(origin, request),
        }),
{
}

/// A forward that fails is replied to with status 502 and a fixed body,
/// without the header that tells a hit from a miss, and leaves the cache as
/// it was: the proxy then does with every request what it did before, so a
/// request that was forwarded is forwarded again.
pub proof fn lemma_failure_is_isolated(
    cache: Map<Seq<char>, ResponseView>,
    origin: Seq<char>,
    request: RequestView,
)
    ensures
        ({
            let key = cache_key(request.method, origin, request.target);
            let later = cache_after(cache, key, None);
            &&& reply_after(None).status == 502
            &&& reply_after(None).body == bad_gateway_body()
            &&& !reply_after(None).headers.contains_key(cache_marker_name())
            &&& later == cache
            &&& proxy_step(later, origin, request) == proxy_step(cache, origin, request)
            &&& proxy_step(cache, origin, request) is Forward ==> proxy_step(
                later,
                origin,
                request,
            ) is Forward
        }),
{
}

} // verus!
