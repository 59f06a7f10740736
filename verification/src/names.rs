//! Which names a database and a table may have.

use vstd::prelude::*;
use vstd::string::*;

verus! {

/// The longest name of a database or a table, in bytes.
pub const MAX_NAME_LEN: usize = 128;

/// Whether a byte is an ASCII letter.
pub open spec fn ascii_letter(b: u8) -> bool {
    (0x41 <= b <= 0x5A) || (0x61 <= b <= 0x7A)
}

/// Whether a byte is an ASCII digit.
pub open spec fn ascii_digit(b: u8) -> bool {
    0x30 <= b <= 0x39
}

/// Whether the UTF-8 bytes of a text spell an identifier: a letter or `_`,
/// and then up to 127 letters, digits or `_`, all ASCII.
pub open spec fn ident_bytes(bytes: Seq<u8>) -> bool {
    &&& 1 <= bytes.len() <= MAX_NAME_LEN
    &&& ascii_letter(bytes[0]) || bytes[0] == 0x5F
    &&& forall|i: int|
        1 <= i < bytes.len() ==> ascii_letter(#[trigger] bytes[i]) || ascii_digit(bytes[i])
            || bytes[i] == 0x5F
}

/// Whether the UTF-8 bytes of a text spell the name of a database: 1 to 128
/// letters, digits, `_` or `-`, all ASCII.
pub open spec fn database_name_bytes(bytes: Seq<u8>) -> bool {
    &&& 1 <= bytes.len() <= MAX_NAME_LEN
    &&& forall|i: int|
        0 <= i < bytes.len() ==> ascii_letter(#[trigger] bytes[i]) || ascii_digit(bytes[i])
            || bytes[i] == 0x5F || bytes[i] == 0x2D
}

/// Whether a text is an identifier, as the name of a table must be.
pub fn is_valid_ident(name: &str) -> (ok: bool)
    ensures
        ok == ident_bytes(name.spec_bytes()),
{
    let bytes = name.as_bytes();
    let n = bytes.len();
    if n == 0 || n > MAX_NAME_LEN {
        return false;
    }
    let first = bytes[0];
    if !((first >= 0x41 && first <= 0x5A) || (first >= 0x61 && first <= 0x7A) || first == 0x5F) {
        return false;
    }
    let mut i: usize = 1;
    while i < n
        invariant
            1 <= i <= n,
            n == bytes@.len(),
            bytes@ == name.spec_bytes(),
            n <= MAX_NAME_LEN,
            ascii_letter(bytes@[0]) || bytes@[0] == 0x5F,
            forall|j: int|
                1 <= j < i ==> ascii_letter(#[trigger] bytes@[j]) || ascii_digit(bytes@[j])
                    || bytes@[j] == 0x5F,
        decreases n - i,
    {
        let b = bytes[i];
        if !((b >= 0x41 && b <= 0x5A) || (b >= 0x61 && b <= 0x7A) || (b >= 0x30 && b <= 0x39) || b
            == 0x5F) {
            assert(!(ascii_letter(bytes@[i as int]) || ascii_digit(bytes@[i as int]) || bytes@[i as int]
                == 0x5F));
            return false;
        }
        i += 1;
    }
    true
}

/// Whether a text can be the name of a database.
pub fn is_valid_database_name(name: &str) -> (ok: bool)
    ensures
        ok == database_name_bytes(name.spec_bytes()),
{
    let bytes = name.as_bytes();
    let n = bytes.len();
    if n == 0 || n > MAX_NAME_LEN {
        return false;
    }
    let mut i: usize = 0;
    while i < n
        invariant
            i <= n,
            n == bytes@.len(),
            bytes@ == name.spec_bytes(),
            n <= MAX_NAME_LEN,
            forall|j: int|
                0 <= j < i ==> ascii_letter(#[trigger] bytes@[j]) || ascii_digit(bytes@[j])
                    || bytes@[j] == 0x5F || bytes@[j] == 0x2D,
        decreases n - i,
    {
        let b = bytes[i];
        if !((b >= 0x41 && b <= 0x5A) || (b >= 0x61 && b <= 0x7A) || (b >= 0x30 && b <= 0x39) || b
            == 0x5F || b == 0x2D) {
            assert(!(ascii_letter(bytes@[i as int]) || ascii_digit(bytes@[i as int]) || bytes@[i as int]
                == 0x5F || bytes@[i as int] == 0x2D));
            return false;
        }
        i += 1;
    }
    true
}

} // verus!
