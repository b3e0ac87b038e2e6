//! ASCII case mapping and comparison of strings.

use vstd::prelude::*;
use vstd::string::*;
use vstd::utf8::*;

verus! {

/// The ASCII lower-case form of a character: `A` to `Z` become `a` to `z`,
/// every other character is left as it is.
pub open spec fn lower_char(c: char) -> char {
    if 'A' <= c && c <= 'Z' {
        (c as u32 + 32) as char
    } else {
        c
    }
}

/// The ASCII upper-case form of a character: `a` to `z` become `A` to `Z`,
/// every other character is left as it is.
pub open spec fn upper_char(c: char) -> char {
    if 'a' <= c && c <= 'z' {
        (c as u32 - 32) as char
    } else {
        c
    }
}

/// A text with every character in its ASCII lower-case form.
pub open spec fn to_lower(text: Seq<char>) -> Seq<char> {
    Seq::new(text.len(), |i: int| lower_char(text[i]))
}

/// A text with every character in its ASCII upper-case form.
pub open spec fn to_upper(text: Seq<char>) -> Seq<char> {
    Seq::new(text.len(), |i: int| upper_char(text[i]))
}

/// Lower-casing a text that is already in lower case changes nothing.
pub proof fn lemma_to_lower_idempotent(text: Seq<char>)
    ensures
        to_lower(to_lower(text)) == to_lower(text),
{
    assert(to_lower(to_lower(text)) =~= to_lower(text));
}

/// `str::to_ascii_lowercase` of the standard library: the result is a copy of
/// the text in which `A` to `Z` are replaced by `a` to `z` and nothing else
/// is changed.
#[verifier::external_body]
pub(crate) fn ascii_lowercase(text: &str) -> (lower: String)
    ensures
        lower@ == to_lower(text@),
{
    text.to_ascii_lowercase()
}

/// `str::to_ascii_uppercase` of the standard library: the result is a copy of
/// the text in which `a` to `z` are replaced by `A` to `Z` and nothing else
/// is changed.
#[verifier::external_body]
pub(crate) fn ascii_uppercase(text: &str) -> (upper: String)
    ensures
        upper@ == to_upper(text@),
{
    text.to_ascii_uppercase()
}

/// Whether two strings hold the same characters.
pub fn str_equal(a: &str, b: &str) -> (same: bool)
    ensures
        same == (a@ == b@),
{
    let x = a.as_bytes();
    let y = b.as_bytes();
    proof {
        encode_utf8_decode_utf8(a@);
        encode_utf8_decode_utf8(b@);
    }
    if x.len() != y.len() {
        return false;
    }
    let n: usize = x.len();
    let mut i: usize = 0;
    while i < n
        invariant
            i <= n,
            n == x@.len(),
            n == y@.len(),
            x@ == encode_utf8(a@),
            y@ == encode_utf8(b@),
            forall|j: int| 0 <= j < i ==> x@[j] == y@[j],
        decreases n - i,
    {
        if x[i] != y[i] {
            return false;
        }
        i = i + 1;
    }
    assert(x@ =~= y@);
    true
}

/// The position of the first occurrence of `needle` in `text`, or the length
/// of `text` where `needle` does not occur in it.
pub open spec fn first_index_of(text: Seq<char>, needle: char) -> int
    decreases text.len(),
{
    if text.len() == 0 || text[0] == needle {
        0
    } else {
        1 + first_index_of(text.drop_first(), needle)
    }
}

/// `first_index_of` lies within the text, no earlier position holds the
/// needle, and the position itself holds it unless it is the end.
pub proof fn lemma_first_index_of(text: Seq<char>, needle: char)
    ensures
        0 <= first_index_of(text, needle) <= text.len(),
        forall|i: int| 0 <= i < first_index_of(text, needle) ==> text[i] != needle,
        first_index_of(text, needle) < text.len() ==> text[first_index_of(text, needle)] == needle,
    decreases text.len(),
{
    if text.len() == 0 || text[0] == needle {
    } else {
        let rest = text.drop_first();
        lemma_first_index_of(rest, needle);
        assert forall|i: int| 0 <= i < first_index_of(text, needle) implies text[i] != needle by {
            if i > 0 {
                assert(text[i] == rest[i - 1]);
            }
        }
        assert(first_index_of(rest, needle) < rest.len() ==> rest[first_index_of(rest, needle)]
            == text[first_index_of(text, needle)]);
    }
}

/// A position that holds the needle, with no earlier one that does, is the
/// first occurrence; so is the end of a text without the needle.
pub proof fn lemma_first_index_unique(text: Seq<char>, needle: char, at: int)
    requires
        0 <= at <= text.len(),
        forall|i: int| 0 <= i < at ==> text[i] != needle,
        at < text.len() ==> text[at] == needle,
    ensures
        first_index_of(text, needle) == at,
{
    lemma_first_index_of(text, needle);
    let first = first_index_of(text, needle);
    if first < at {
        assert(text[first] != needle);
    }
}

/// Finds the first occurrence of `needle` in `text`, counted in characters.
pub fn find_first(text: &str, needle: char) -> (at: usize)
    ensures
        at == first_index_of(text@, needle),
        at <= text@.len(),
{
    let n: usize = text.unicode_len();
    let mut k: usize = 0;
    for c in it: text.chars()
        invariant
            k == it.index(),
            it.seq() == text@,
            n == text@.len(),
            k <= n,
            forall|i: int| 0 <= i < k ==> text@[i] != needle,
    {
        if c == needle {
            proof {
                lemma_first_index_unique(text@, needle, k as int);
            }
            return k;
        }
        k = k + 1;
    }
    proof {
        lemma_first_index_unique(text@, needle, k as int);
    }
    k
}

} // verus!
