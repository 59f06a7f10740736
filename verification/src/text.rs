//! Strings as sequences of characters: comparison, UTF-8, case folding.

use vstd::prelude::*;
use vstd::string::*;
use vstd::utf8::*;

verus! {

/// Whether two byte strings hold the same bytes.
pub fn bytes_eq(a: &[u8], b: &[u8]) -> (same: bool)
    ensures
        same == (a@ == b@),
{
    if a.len() != b.len() {
        return false;
    }
    let mut i: usize = 0;
    while i < a.len()
        invariant
            i <= a@.len(),
            a@.len() == b@.len(),
            forall|j: int| 0 <= j < i ==> a@[j] == b@[j],
        decreases a@.len() - i,
    {
        if a[i] != b[i] {
            return false;
        }
        i += 1;
    }
    assert(a@ =~= b@);
    true
}

/// Two strings have the same UTF-8 bytes only if they hold the same characters.
pub proof fn lemma_utf8_injective(a: Seq<char>, b: Seq<char>)
    requires
        encode_utf8(a) == encode_utf8(b),
    ensures
        a == b,
{
    encode_utf8_decode_utf8(a);
    encode_utf8_decode_utf8(b);
}

/// Whether two strings hold the same characters.
pub fn str_eq(a: &str, b: &str) -> (same: bool)
    ensures
        same == (a@ == b@),
{
    let same = bytes_eq(a.as_bytes(), b.as_bytes());
    proof {
        if same {
            lemma_utf8_injective(a@, b@);
        }
    }
    same
}

/// Whether two character vectors hold the same characters.
pub fn chars_eq(a: &Vec<char>, b: &Vec<char>) -> (same: bool)
    ensures
        same == (a@ == b@),
{
    if a.len() != b.len() {
        return false;
    }
    let mut i: usize = 0;
    while i < a.len()
        invariant
            i <= a@.len(),
            a@.len() == b@.len(),
            forall|j: int| 0 <= j < i ==> a@[j] == b@[j],
        decreases a@.len() - i,
    {
        if a[i] != b[i] {
            return false;
        }
        i += 1;
    }
    assert(a@ =~= b@);
    true
}

/// Calls `std::str::from_utf8` and copies the string out. std documents that
/// it succeeds exactly on well-formed UTF-8 and that the string then is those
/// bytes read as UTF-8.
#[verifier::external_body]
pub(crate) fn string_from_utf8(bytes: &[u8]) -> (found: Option<String>)
    ensures
        found is Some <==> valid_utf8(bytes@),
        found matches Some(s) ==> s@ == decode_utf8(bytes@),
{
    match std::str::from_utf8(bytes) {
        Ok(s) => Some(s.to_string()),
        Err(_) => None,
    }
}

/// Collects characters into a `String` with `String::from_iter`, which std
/// documents as the string made of exactly those characters, in order.
#[verifier::external_body]
pub(crate) fn string_from_chars(chars: &Vec<char>) -> (s: String)
    ensures
        s@ == chars@,
{
    String::from_iter(chars.iter())
}

/// What `str::to_lowercase` returns for a string: its lowercase form under
/// the Unicode character database that std carries.
pub uninterp spec fn lowercase_of(s: Seq<char>) -> Seq<char>;

/// Calls `str::to_lowercase`. The result depends on the characters alone; the
/// contract gives it its name and claims nothing else.
#[verifier::external_body]
pub(crate) fn lowercase(s: &str) -> (lower: String)
    ensures
        lower@ == lowercase_of(s@),
{
    s.to_lowercase()
}

/// Whether a character is white space as Unicode defines it, by the
/// property `White_Space`: the controls U+0009 to U+000D and U+0085, the
/// space, and the spaces and separators U+00A0, U+1680, U+2000 to U+200A,
/// U+2028, U+2029, U+202F, U+205F and U+3000.
pub open spec fn white_space(c: char) -> bool {
    let n = c as u32;
    ||| 0x0009 <= n <= 0x000D
    ||| n == 0x0020
    ||| n == 0x0085
    ||| n == 0x00A0
    ||| n == 0x1680
    ||| 0x2000 <= n <= 0x200A
    ||| n == 0x2028
    ||| n == 0x2029
    ||| n == 0x202F
    ||| n == 0x205F
    ||| n == 0x3000
}

/// A text without the white space at its start.
pub open spec fn trimmed_start(s: Seq<char>) -> Seq<char>
    decreases s.len(),
{
    if s.len() > 0 && white_space(s[0]) {
        trimmed_start(s.subrange(1, s.len() as int))
    } else {
        s
    }
}

/// A text without the white space at its end.
pub open spec fn trimmed_end(s: Seq<char>) -> Seq<char>
    decreases s.len(),
{
    if s.len() > 0 && white_space(s.last()) {
        trimmed_end(s.drop_last())
    } else {
        s
    }
}

/// A text without the white space at its two ends.
pub open spec fn trimmed_of(s: Seq<char>) -> Seq<char> {
    trimmed_end(trimmed_start(s))
}

/// Calls `str::trim` and copies the result out. std documents the result as
/// the string without its leading and trailing white space, white space
/// being what the Unicode property `White_Space` says.
#[verifier::external_body]
pub(crate) fn trimmed(s: &str) -> (rest: String)
    ensures
        rest@ == trimmed_of(s@),
{
    s.trim().to_string()
}

/// Whether a byte string comes before another, or is the same: at the first
/// place where they differ the first has the smaller byte, or the first is
/// the start of the second.
pub open spec fn bytes_le(a: Seq<u8>, b: Seq<u8>) -> bool
    decreases a.len(),
{
    if a.len() == 0 {
        true
    } else if b.len() == 0 {
        false
    } else if a[0] != b[0] {
        a[0] < b[0]
    } else {
        bytes_le(a.subrange(1, a.len() as int), b.subrange(1, b.len() as int))
    }
}

/// Whether the texts of a list stand in ascending order of their UTF-8
/// bytes.
pub open spec fn ascending(names: Seq<String>) -> bool {
    forall|i: int, j: int|
        0 <= i < j < names.len() ==> bytes_le(
            encode_utf8((#[trigger] names[i])@),
            encode_utf8((#[trigger] names[j])@),
        )
}

/// The texts of a list as a multiset of character sequences.
pub open spec fn name_bag(names: Seq<String>) -> vstd::multiset::Multiset<Seq<char>> {
    Seq::new(names.len(), |i: int| names[i]@).to_multiset()
}

/// Sorts texts with `<[String]>::sort`, which std documents as putting the
/// slice in ascending order, strings being ordered by their byte values;
/// what is in the list stays the same.
#[verifier::external_body]
pub(crate) fn sort_texts(names: &mut Vec<String>)
    ensures
        ascending(final(names)@),
        name_bag(final(names)@) == name_bag(old(names)@),
        final(names)@.len() == old(names)@.len(),
{
    names.sort();
}

} // verus!
