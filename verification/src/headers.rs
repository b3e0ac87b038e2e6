//! Header names, the hop-by-hop policy, and the header mapping that requests
//! and responses carry.

use crate::text::{ascii_lowercase, str_equal, to_lower};
use vstd::prelude::*;
use vstd::slice::slice_to_vec;
use vstd::string::*;

verus! {

/// Whether a header name, compared without regard to ASCII case, is one of
/// the hop-by-hop headers, which concern a single connection and are never
/// forwarded or stored.
pub open spec fn is_hop_by_hop(name: Seq<char>) -> bool {
    let lower = to_lower(name);
    ||| lower == "connection"@
    ||| lower == "proxy-connection"@
    ||| lower == "keep-alive"@
    ||| lower == "proxy-authenticate"@
    ||| lower == "proxy-authorization"@
    ||| lower == "te"@
    ||| lower == "trailers"@
    ||| lower == "transfer-encoding"@
    ||| lower == "upgrade"@
}

/// Whether a header name, compared without regard to ASCII case, is `host`.
pub open spec fn is_host(name: Seq<char>) -> bool {
    to_lower(name) == "host"@
}

/// Decides whether `name` is a hop-by-hop header.
pub fn is_hop_by_hop_header(name: &str) -> (hop: bool)
    ensures
        hop == is_hop_by_hop(name@),
{
    let lower = ascii_lowercase(name);
    let lower = lower.as_str();
    str_equal(lower, "connection")
        || str_equal(lower, "proxy-connection")
        || str_equal(lower, "keep-alive")
        || str_equal(lower, "proxy-authenticate")
        || str_equal(lower, "proxy-authorization")
        || str_equal(lower, "te")
        || str_equal(lower, "trailers")
        || str_equal(lower, "transfer-encoding")
        || str_equal(lower, "upgrade")
}

/// Decides whether `name` is the `host` header.
pub fn is_host_header(name: &str) -> (host: bool)
    ensures
        host == is_host(name@),
{
    let lower = ascii_lowercase(name);
    str_equal(lower.as_str(), "host")
}

/// What is left of a header mapping once the hop-by-hop headers are taken
/// out: the headers that travel end to end.
pub open spec fn end_to_end(headers: Map<Seq<char>, Seq<u8>>) -> Map<Seq<char>, Seq<u8>> {
    Map::new(
        |name: Seq<char>| headers.contains_key(name) && !is_hop_by_hop(name),
        |name: Seq<char>| headers[name],
    )
}

/// What is left of a header mapping once the hop-by-hop headers and `host`
/// are taken out: the headers that are sent on to another host.
pub open spec fn forwardable(headers: Map<Seq<char>, Seq<u8>>) -> Map<Seq<char>, Seq<u8>> {
    Map::new(
        |name: Seq<char>| headers.contains_key(name) && !is_hop_by_hop(name) && !is_host(name),
        |name: Seq<char>| headers[name],
    )
}

/// Whether a header mapping is free of hop-by-hop headers.
pub open spec fn free_of_hop_by_hop(headers: Map<Seq<char>, Seq<u8>>) -> bool {
    forall|name: Seq<char>| headers.contains_key(name) ==> !is_hop_by_hop(name)
}

/// Whether a header mapping is free of the `host` header.
pub open spec fn free_of_host(headers: Map<Seq<char>, Seq<u8>>) -> bool {
    forall|name: Seq<char>| headers.contains_key(name) ==> !is_host(name)
}

/// No hop-by-hop header, however its name is written, is among the
/// end-to-end headers of a mapping.
pub proof fn lemma_end_to_end_excludes(headers: Map<Seq<char>, Seq<u8>>, name: Seq<char>)
    requires
        is_hop_by_hop(name),
    ensures
        !end_to_end(headers).contains_key(name),
        !end_to_end(headers).contains_key(to_lower(name)),
{
    crate::text::lemma_to_lower_idempotent(name);
}

/// No hop-by-hop header and no `host` header, however its name is written,
/// is among the forwardable headers of a mapping.
pub proof fn lemma_forwardable_excludes(headers: Map<Seq<char>, Seq<u8>>, name: Seq<char>)
    requires
        is_hop_by_hop(name) || is_host(name),
    ensures
        !forwardable(headers).contains_key(name),
        !forwardable(headers).contains_key(to_lower(name)),
{
    crate::text::lemma_to_lower_idempotent(name);
}

/// The part of a header mapping whose names are listed in `names` at a
/// position that `marks` marks with `true`.
pub open spec fn marked_part(
    names: Seq<Seq<char>>,
    headers: Map<Seq<char>, Seq<u8>>,
    marks: Seq<bool>,
) -> Map<Seq<char>, Seq<u8>> {
    Map::new(
        |name: Seq<char>|
            exists|i: int|
                0 <= i < names.len() && i < marks.len() && #[trigger] names[i] == name && marks[i],
        |name: Seq<char>| headers[name],
    )
}

/// Where a listing names exactly the keys of a mapping, each key is found
/// at some position of the listing.
pub proof fn lemma_listed(names: Seq<Seq<char>>, headers: Map<Seq<char>, Seq<u8>>)
    requires
        forall|name: Seq<char>| headers.contains_key(name) <==> names.contains(name),
    ensures
        forall|name: Seq<char>| #[trigger]
            headers.contains_key(name) ==> 0 <= names.index_of(name) < names.len()
                && names[names.index_of(name)] == name,
{
    assert forall|name: Seq<char>| #[trigger] headers.contains_key(name) implies 0
        <= names.index_of(name) < names.len() && names[names.index_of(name)] == name by {
        assert(names.contains(name));
        let i = choose|i: int| 0 <= i < names.len() && names[i] == name;
        assert(0 <= i < names.len() && names[i] == name);
    }
}

/// One header: a name in lower case and the bytes of its value.
struct HeaderEntry {
    name: String,
    value: Vec<u8>,
}

/// The names of a list of entries, in order.
spec fn names_of(entries: Seq<HeaderEntry>) -> Seq<Seq<char>> {
    Seq::new(entries.len(), |i: int| entries[i].name@)
}

/// The values of a list of entries, in order.
spec fn values_of(entries: Seq<HeaderEntry>) -> Seq<Seq<u8>> {
    Seq::new(entries.len(), |i: int| entries[i].value@)
}

/// A list of names is tidy when every name is in lower case and no name
/// occurs twice.
spec fn tidy(names: Seq<Seq<char>>) -> bool {
    &&& forall|i: int| 0 <= i < names.len() ==> to_lower(#[trigger] names[i]) == names[i]
    &&& forall|i: int, j: int|
        0 <= i < j < names.len() ==> #[trigger] names[i] != #[trigger] names[j]
}

/// The mapping that a list of names and a list of values stand for.
spec fn mapping(names: Seq<Seq<char>>, values: Seq<Seq<u8>>) -> Map<Seq<char>, Seq<u8>> {
    Map::new(|name: Seq<char>| names.contains(name), |name: Seq<char>| values[names.index_of(name)])
}

/// In a tidy list each name is found at its own position.
proof fn lemma_index_of(names: Seq<Seq<char>>, at: int)
    requires
        tidy(names),
        0 <= at < names.len(),
    ensures
        names.contains(names[at]),
        names.index_of(names[at]) == at,
{
    let found = names.index_of(names[at]);
    assert(0 <= found < names.len() && names[found] == names[at]);
}

/// Replacing the value of a listed name is an insertion into the mapping.
proof fn lemma_mapping_update(names: Seq<Seq<char>>, values: Seq<Seq<u8>>, at: int, value: Seq<u8>)
    requires
        tidy(names),
        names.len() == values.len(),
        0 <= at < names.len(),
    ensures
        mapping(names, values.update(at, value)) == mapping(names, values).insert(names[at], value),
{
    lemma_index_of(names, at);
    assert forall|k: Seq<char>| names.contains(k) implies {
        let j = names.index_of(k);
        0 <= j < names.len() && names[j] == k
    } by {}
    assert(mapping(names, values.update(at, value)) =~= mapping(names, values).insert(
        names[at],
        value,
    ));
}

/// Listing a new name in lower case keeps the list tidy and is an insertion
/// into the mapping.
proof fn lemma_mapping_push(
    names: Seq<Seq<char>>,
    values: Seq<Seq<u8>>,
    name: Seq<char>,
    value: Seq<u8>,
)
    requires
        tidy(names),
        names.len() == values.len(),
        !names.contains(name),
        to_lower(name) == name,
    ensures
        tidy(names.push(name)),
        mapping(names.push(name), values.push(value)) == mapping(names, values).insert(name, value),
{
    let longer = names.push(name);
    assert forall|i: int, j: int| 0 <= i < j < longer.len() implies #[trigger] longer[i]
        != #[trigger] longer[j] by {
        if j == names.len() {
            assert(names[i] == longer[i]);
            assert(names.contains(names[i]));
        } else {
            assert(names[i] == longer[i] && names[j] == longer[j]);
        }
    }
    assert(tidy(longer));
    lemma_index_of(longer, names.len() as int);
    assert forall|k: Seq<char>| names.contains(k) implies longer.contains(k) && longer.index_of(k)
        == names.index_of(k) by {
        let j = names.index_of(k);
        assert(0 <= j < names.len() && names[j] == k);
        assert(longer[j] == k);
        lemma_index_of(longer, j);
    }
    assert forall|k: Seq<char>| longer.contains(k) && k != name implies names.contains(k) by {
        let j = longer.index_of(k);
        assert(0 <= j < longer.len() && longer[j] == k);
        assert(names[j] == k);
    }
    assert(mapping(longer, values.push(value)) =~= mapping(names, values).insert(name, value));
}

/// A mapping from header names to header values. Names are compared without
/// regard to ASCII case and kept in lower case; a name has at most one value,
/// and a later value for the same name takes the place of the earlier one.
pub struct Headers {
    entries: Vec<HeaderEntry>,
}

impl View for Headers {
    type V = Map<Seq<char>, Seq<u8>>;

    /// The mapping from each name, in lower case, to its value.
    closed spec fn view(&self) -> Map<Seq<char>, Seq<u8>> {
        mapping(self.names(), self.values())
    }
}

impl Headers {
    /// The names in the order in which the mapping lists them.
    pub closed spec fn names(&self) -> Seq<Seq<char>> {
        names_of(self.entries@)
    }

    /// The values in the order in which the mapping lists them.
    pub closed spec fn values(&self) -> Seq<Seq<u8>> {
        values_of(self.entries@)
    }

    #[verifier::type_invariant]
    spec fn well_formed(&self) -> bool {
        tidy(names_of(self.entries@))
    }

    /// Whether the mapping has a value for `name`, whatever its case.
    pub open spec fn has(&self, name: Seq<char>) -> bool {
        self@.contains_key(to_lower(name))
    }

    /// The empty mapping.
    pub fn new() -> (headers: Headers)
        ensures
            headers@ == Map::<Seq<char>, Seq<u8>>::empty(),
            headers.names().len() == 0,
    {
        let headers = Headers { entries: Vec::new() };
        assert(headers@ =~= Map::<Seq<char>, Seq<u8>>::empty());
        headers
    }

    /// The position of `key` among the names, or the number of names where
    /// it is not among them.
    fn position(&self, key: &str) -> (at: usize)
        ensures
            at <= self.names().len(),
            at < self.names().len() ==> self.names()[at as int] == key@,
            at == self.names().len() ==> !self.names().contains(key@),
    {
        let n: usize = self.entries.len();
        let mut i: usize = 0;
        while i < n
            invariant
                i <= n,
                n == self.entries@.len(),
                forall|j: int| 0 <= j < i ==> self.names()[j] != key@,
            decreases n - i,
        {
            if str_equal(self.entries[i].name.as_str(), key) {
                return i;
            }
            i = i + 1;
        }
        i
    }

    /// Gives `name` the value `value`, in place of any value it had.
    pub fn insert(&mut self, name: &str, value: &[u8])
        ensures
            final(self)@ == old(self)@.insert(to_lower(name@), value@),
    {
        proof {
            use_type_invariant(&*self);
            crate::text::lemma_to_lower_idempotent(name@);
        }
        let key = ascii_lowercase(name);
        let at = self.position(key.as_str());
        let ghost names = self.names();
        let ghost values = self.values();
        let entry = HeaderEntry { name: key, value: slice_to_vec(value) };
        let mut entries: Vec<HeaderEntry> = Vec::new();
        core::mem::swap(&mut self.entries, &mut entries);
        if at < entries.len() {
            entries.set(at, entry);
            proof {
                assert(names_of(entries@) =~= names);
                assert(values_of(entries@) =~= values.update(at as int, value@));
                lemma_mapping_update(names, values, at as int, value@);
            }
        } else {
            entries.push(entry);
            proof {
                assert(names_of(entries@) =~= names.push(to_lower(name@)));
                assert(values_of(entries@) =~= values.push(value@));
                lemma_mapping_push(names, values, to_lower(name@), value@);
            }
        }
        self.entries = entries;
    }

    /// The value of `name`, whatever its case, if it has one.
    pub fn get(&self, name: &str) -> (value: Option<&Vec<u8>>)
        ensures
            match value {
                Some(bytes) => self.has(name@) && bytes@ == self@[to_lower(name@)],
                None => !self.has(name@),
            },
    {
        proof {
            use_type_invariant(self);
        }
        let key = ascii_lowercase(name);
        let at = self.position(key.as_str());
        if at < self.entries.len() {
            proof {
                lemma_index_of(self.names(), at as int);
            }
            Some(&self.entries[at].value)
        } else {
            None
        }
    }

    /// The names that the mapping lists are the names that have a value.
    pub proof fn lemma_names_are_keys(self)
        ensures
            forall|name: Seq<char>| self@.contains_key(name) <==> self.names().contains(name),
    {
    }

    /// The number of names that have a value. Each is listed once.
    pub fn len(&self) -> (count: usize)
        ensures
            count == self.names().len(),
            self.names().no_duplicates(),
    {
        proof {
            use_type_invariant(self);
        }
        self.entries.len()
    }

    /// The name listed at position `at`; it is in lower case.
    pub fn name_at(&self, at: usize) -> (name: &str)
        requires
            at < self.names().len(),
        ensures
            name@ == self.names()[at as int],
            to_lower(name@) == name@,
            self@.contains_key(name@),
    {
        proof {
            use_type_invariant(self);
            lemma_index_of(self.names(), at as int);
        }
        self.entries[at].name.as_str()
    }

    /// The value of the name listed at position `at`.
    pub fn value_at(&self, at: usize) -> (value: &Vec<u8>)
        requires
            at < self.names().len(),
        ensures
            value@ == self@[self.names()[at as int]],
    {
        proof {
            use_type_invariant(self);
            lemma_index_of(self.names(), at as int);
        }
        &self.entries[at].value
    }

    /// The headers listed at the positions that `marks` marks with `true`.
    /// A position beyond the end of `marks` counts as not marked.
    pub fn retain_marked(&self, marks: &Vec<bool>) -> (kept: Headers)
        ensures
            kept@ == marked_part(self.names(), self@, marks@),
    {
        proof {
            use_type_invariant(self);
        }
        let ghost names = self.names();
        let ghost values = self.values();
        let mut entries: Vec<HeaderEntry> = Vec::new();
        let n: usize = self.entries.len();
        let mut i: usize = 0;
        assert(mapping(names_of(entries@), values_of(entries@)) =~= Map::<
            Seq<char>,
            Seq<u8>,
        >::empty());
        while i < n
            invariant
                i <= n,
                n == self.entries@.len(),
                names == names_of(self.entries@),
                values == values_of(self.entries@),
                tidy(names),
                tidy(names_of(entries@)),
                forall|k: Seq<char>| #[trigger]
                    mapping(names_of(entries@), values_of(entries@)).contains_key(k) ==> {
                        &&& mapping(names, values).contains_key(k)
                        &&& mapping(names_of(entries@), values_of(entries@))[k] == mapping(
                            names,
                            values,
                        )[k]
                    },
                forall|j: int|
                    0 <= j < n ==> (mapping(names_of(entries@), values_of(entries@)).contains_key(
                        #[trigger] names[j],
                    ) <==> j < i && j < marks@.len() && marks@[j]),
            decreases n - i,
        {
            if i < marks.len() && marks[i] {
                let entry = &self.entries[i];
                let ghost kept_names = names_of(entries@);
                let ghost kept_values = values_of(entries@);
                proof {
                    lemma_index_of(names, i as int);
                    assert(!mapping(kept_names, kept_values).contains_key(names[i as int]));
                    lemma_mapping_push(kept_names, kept_values, names[i as int], values[i as int]);
                }
                entries.push(
                    HeaderEntry {
                        name: entry.name.clone(),
                        value: slice_to_vec(entry.value.as_slice()),
                    },
                );
                proof {
                    assert(names_of(entries@) =~= kept_names.push(names[i as int]));
                    assert(values_of(entries@) =~= kept_values.push(values[i as int]));
                }
            }
            i = i + 1;
        }
        let kept = Headers { entries };
        proof {
            assert forall|k: Seq<char>| kept@.contains_key(k) implies marked_part(
                names,
                self@,
                marks@,
            ).contains_key(k) by {
                let j = names.index_of(k);
                assert(0 <= j < n && names[j] == k);
            }
            assert(kept@ =~= marked_part(names, self@, marks@));
        }
        kept
    }

    /// Marks each listed header that the policy lets pass: every header but
    /// the hop-by-hop ones and, where `drop_host` is set, `host`.
    fn policy_marks(&self, drop_host: bool) -> (marks: Vec<bool>)
        ensures
            marks@.len() == self.names().len(),
            forall|i: int|
                0 <= i < marks@.len() ==> marks@[i] == (!is_hop_by_hop(self.names()[i]) && !(
                drop_host && is_host(self.names()[i]))),
    {
        let mut marks: Vec<bool> = Vec::new();
        let n: usize = self.entries.len();
        let mut i: usize = 0;
        while i < n
            invariant
                i <= n,
                n == self.entries@.len(),
                marks@.len() == i,
                forall|j: int|
                    0 <= j < i ==> marks@[j] == (!is_hop_by_hop(self.names()[j]) && !(drop_host
                        && is_host(self.names()[j]))),
            decreases n - i,
        {
            let name = self.entries[i].name.as_str();
            marks.push(!is_hop_by_hop_header(name) && !(drop_host && is_host_header(name)));
            i = i + 1;
        }
        marks
    }
}

/// A copy of `headers`.
pub fn clone_headers(headers: &Headers) -> (copy: Headers)
    ensures
        copy@ == headers@,
        copy.names() == headers.names(),
{
    proof {
        use_type_invariant(headers);
    }
    let mut entries: Vec<HeaderEntry> = Vec::new();
    let n: usize = headers.entries.len();
    let mut i: usize = 0;
    while i < n
        invariant
            i <= n,
            n == headers.entries@.len(),
            entries@.len() == i,
            names_of(entries@) == names_of(headers.entries@).take(i as int),
            values_of(entries@) == values_of(headers.entries@).take(i as int),
        decreases n - i,
    {
        let entry = &headers.entries[i];
        entries.push(
            HeaderEntry { name: entry.name.clone(), value: slice_to_vec(entry.value.as_slice()) },
        );
        i = i + 1;
        proof {
            assert(names_of(entries@) =~= names_of(headers.entries@).take(i as int));
            assert(values_of(entries@) =~= values_of(headers.entries@).take(i as int));
        }
    }
    proof {
        assert(names_of(entries@) =~= names_of(headers.entries@));
        assert(values_of(entries@) =~= values_of(headers.entries@));
    }
    Headers { entries }
}

/// The headers of `headers` that travel end to end: all but the hop-by-hop
/// headers.
pub fn end_to_end_headers(headers: &Headers) -> (kept: Headers)
    ensures
        kept@ == end_to_end(headers@),
        free_of_hop_by_hop(kept@),
{
    let marks = headers.policy_marks(false);
    let kept = headers.retain_marked(&marks);
    proof {
        headers.lemma_names_are_keys();
        lemma_listed(headers.names(), headers@);
        assert(kept@ =~= end_to_end(headers@));
    }
    kept
}

/// The headers of `headers` that are sent on to another host: all but the
/// hop-by-hop headers and `host`.
pub fn forwardable_headers(headers: &Headers) -> (kept: Headers)
    ensures
        kept@ == forwardable(headers@),
        free_of_hop_by_hop(kept@),
        free_of_host(kept@),
{
    let marks = headers.policy_marks(true);
    let kept = headers.retain_marked(&marks);
    proof {
        headers.lemma_names_are_keys();
        lemma_listed(headers.names(), headers@);
        assert(kept@ =~= forwardable(headers@));
    }
    kept
}

} // verus!
