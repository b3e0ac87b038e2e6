//! Path normalisation and the headers that can be relayed.

use crate::headers::{lemma_listed, marked_part, Headers};
use vstd::prelude::*;
use vstd::string::*;
use warp::http::header::{HeaderName, HeaderValue};

verus! {

/// The normal form of a request path: one trailing slash is removed from any
/// path longer than the root `/`; every other path is its own normal form.
pub open spec fn normalized(path: Seq<char>) -> Seq<char> {
    if path.len() > 1 && path.last() == '/' {
        path.drop_last()
    } else {
        path
    }
}

/// Returns the normal form of `path`.
pub fn normalize_path(path: &str) -> (normal: String)
    ensures
        normal@ == normalized(path@),
{
    let n: usize = path.unicode_len();
    if n > 1 && path.get_char(n - 1) == '/' {
        path.substring_char(0, n - 1).to_owned()
    } else {
        path.to_owned()
    }
}

/// Normalising is idempotent on every path that does not end in two
/// slashes after some other character: there the second pass would remove
/// the slash that the first one left.
pub proof fn lemma_normalize_idempotent(path: Seq<char>)
    requires
        !(path.len() > 2 && path[path.len() - 1] == '/' && path[path.len() - 2] == '/'),
    ensures
        normalized(normalized(path)) == normalized(path),
{
}

/// Whether `HeaderName::from_bytes` accepts the bytes of `name` as a header
/// name.
pub uninterp spec fn accepted_header_name(name: Seq<char>) -> bool;

/// Whether a byte may occur in a header value: the tab, and every byte from
/// 32 on but 127.
pub open spec fn is_value_byte(byte: u8) -> bool {
    (byte >= 32 && byte != 127) || byte == 9
}

/// Whether `HeaderValue::from_bytes` accepts `value`: it does where every
/// byte may occur in a header value.
pub open spec fn accepted_header_value(value: Seq<u8>) -> bool {
    forall|i: int| 0 <= i < value.len() ==> is_value_byte(#[trigger] value[i])
}

/// `HeaderName::from_bytes` of the `http` crate that `warp` serves with:
/// says whether it takes the bytes of `name` for a header name.
#[verifier::external_body]
fn header_name_accepted(name: &str) -> (accepted: bool)
    ensures
        accepted == accepted_header_name(name@),
{
    HeaderName::from_bytes(name.as_bytes()).is_ok()
}

/// `HeaderValue::from_bytes` of the `http` crate that `warp` serves with:
/// says whether it takes `value` for a header value, which it does where
/// each byte is a tab or at least 32 and not 127.
#[verifier::external_body]
fn header_value_accepted(value: &[u8]) -> (accepted: bool)
    ensures
        accepted == accepted_header_value(value@),
{
    HeaderValue::from_bytes(value).is_ok()
}

/// The part of a header mapping that can be relayed: the headers whose name
/// and value are both accepted.
pub open spec fn relayable(headers: Map<Seq<char>, Seq<u8>>) -> Map<Seq<char>, Seq<u8>> {
    Map::new(
        |name: Seq<char>|
            headers.contains_key(name) && accepted_header_name(name) && accepted_header_value(
                headers[name],
            ),
        |name: Seq<char>| headers[name],
    )
}

/// The headers of `headers` that can be relayed. A header whose name or
/// value is not accepted is left out; the others are kept as they are.
pub fn convert_reqwest_headers_to_warp(headers: &Headers) -> (relayed: Headers)
    ensures
        relayed@ == relayable(headers@),
{
    let n: usize = headers.len();
    let mut marks: Vec<bool> = Vec::new();
    let mut i: usize = 0;
    while i < n
        invariant
            i <= n,
            n == headers.names().len(),
            marks@.len() == i,
            forall|j: int|
                0 <= j < i ==> marks@[j] == (accepted_header_name(headers.names()[j])
                    && accepted_header_value(headers@[headers.names()[j]])),
        decreases n - i,
    {
        let name_accepted = header_name_accepted(headers.name_at(i));
        let value_accepted = header_value_accepted(headers.value_at(i).as_slice());
        marks.push(name_accepted && value_accepted);
        i = i + 1;
    }
    let relayed = headers.retain_marked(&marks);
    proof {
        let names = headers.names();
        headers.lemma_names_are_keys();
        lemma_listed(names, headers@);
        assert forall|name: Seq<char>| relayable(headers@).contains_key(name) implies
            relayed@.contains_key(name) by {
            let j = names.index_of(name);
            assert(names[j] == name && marks@[j]);
        }
        assert forall|name: Seq<char>| relayed@.contains_key(name) implies relayable(
            headers@,
        ).contains_key(name) by {
            let j = choose|j: int|
                0 <= j < names.len() && j < marks@.len() && #[trigger] names[j] == name
                    && marks@[j];
            assert(names.contains(names[j]));
        }
        assert(relayed@ =~= relayable(headers@));
    }
    relayed
}

} // verus!
