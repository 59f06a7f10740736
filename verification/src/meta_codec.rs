//! The database metadata blob:
//! `magic "MDB0" | version u32 | created_at u64 | name_len u16 | name |
//! tables_count u32 | reserved u32 | crc32 u32`, all little-endian, the
//! checksum over every byte before it.

use vstd::prelude::*;
use vstd::bytes::*;
use vstd::slice::*;
use vstd::utf8::*;
use crate::checksum::{crc32, crc32_of};
use crate::error::CatalogError;
use crate::le::{
    lemma_middle, lemma_u16_at, lemma_u32_at, lemma_u64_at, push_bytes, push_u16, push_u32,
    push_u64, read_u16, read_u32, read_u64, u16_at, u32_at, u64_at,
};
use crate::text::string_from_utf8;

verus! {

/// The version that `encode_meta` writes.
pub const META_VERSION: u32 = 1;

/// The length of a metadata blob with an empty name.
pub const META_MIN_LEN: usize = 30;

/// What a metadata blob holds.
#[derive(Debug, Clone)]
pub struct MetaDecoded {
    pub name: String,
    pub created_at: u64,
    pub version: u32,
    pub tables_count: u32,
}

/// Decoded metadata as a mathematical value.
pub struct MetaView {
    pub name: Seq<char>,
    pub created_at: u64,
    pub version: u32,
    pub tables_count: u32,
}

impl View for MetaDecoded {
    type V = MetaView;

    open spec fn view(&self) -> MetaView {
        MetaView {
            name: self.name@,
            created_at: self.created_at,
            version: self.version,
            tables_count: self.tables_count,
        }
    }
}

/// The four bytes `MDB0`.
pub open spec fn meta_magic() -> Seq<u8> {
    seq![0x4Du8, 0x44u8, 0x42u8, 0x30u8]
}

/// The value of a 16-bit length field for a text of `len` bytes: the length,
/// or 65535 where it does not fit.
pub open spec fn len16(len: nat) -> u16 {
    if len <= 0xFFFF {
        len as u16
    } else {
        0xFFFFu16
    }
}

/// A metadata blob up to, and without, its checksum.
pub open spec fn meta_body(name: Seq<char>, created_at: u64, tables_count: u32) -> Seq<u8> {
    meta_magic() + spec_u32_to_le_bytes(META_VERSION) + spec_u64_to_le_bytes(created_at)
        + spec_u16_to_le_bytes(len16(encode_utf8(name).len())) + encode_utf8(name)
        + spec_u32_to_le_bytes(tables_count) + spec_u32_to_le_bytes(0)
}

/// The metadata blob for a database.
pub open spec fn meta_blob(name: Seq<char>, created_at: u64, tables_count: u32) -> Seq<u8> {
    meta_body(name, created_at, tables_count) + spec_u32_to_le_bytes(
        crc32_of(meta_body(name, created_at, tables_count)),
    )
}

/// What reading a metadata blob gives: the checks in the order in which they
/// are made, each with its error.
pub open spec fn meta_decoding(bytes: Seq<u8>) -> Result<MetaView, CatalogError> {
    let name_len = u16_at(bytes, 16) as int;
    let name_bytes = bytes.subrange(18, 18 + name_len);
    let expected = crc32_of(bytes.subrange(0, bytes.len() - 4));
    let got = u32_at(bytes, 18 + name_len + 8);
    if bytes.len() < META_MIN_LEN {
        Err(CatalogError::MetaTooShort { min: META_MIN_LEN, actual: bytes.len() as usize })
    } else if bytes.subrange(0, 4) != meta_magic() {
        Err(CatalogError::BadMagic)
    } else if u32_at(bytes, 4) != META_VERSION {
        Err(CatalogError::BadVersion { version: u32_at(bytes, 4) })
    } else if bytes.len() - 18 < name_len + 12 {
        Err(CatalogError::Truncated)
    } else if !valid_utf8(name_bytes) {
        Err(CatalogError::BadUtf8)
    } else if expected != got {
        Err(CatalogError::ChecksumMismatch { expected, got })
    } else {
        Ok(
            MetaView {
                name: decode_utf8(name_bytes),
                created_at: u64_at(bytes, 8),
                version: u32_at(bytes, 4),
                tables_count: u32_at(bytes, 18 + name_len),
            },
        )
    }
}

/// Whether what `decode_meta` returned is what `meta_decoding` prescribes.
pub open spec fn meta_result_is(
    found: Result<MetaDecoded, CatalogError>,
    wanted: Result<MetaView, CatalogError>,
) -> bool {
    match found {
        Ok(meta) => wanted == Ok::<MetaView, CatalogError>(meta@),
        Err(e) => wanted == Err::<MetaView, CatalogError>(e),
    }
}

/// Writes the metadata blob of a database.
pub fn encode_meta(name: &str, created_at: u64, tables_count: u32) -> (blob: Vec<u8>)
    ensures
        blob@ == meta_blob(name@, created_at, tables_count),
{
    let mut buf: Vec<u8> = Vec::new();
    buf.push(0x4D);
    buf.push(0x44);
    buf.push(0x42);
    buf.push(0x30);
    assert(buf@ == meta_magic());
    push_u32(&mut buf, META_VERSION);
    push_u64(&mut buf, created_at);
    let name_bytes = name.as_bytes();
    let n = name_bytes.len();
    let name_len: u16 = if n <= 0xFFFF {
        n as u16
    } else {
        u16::MAX
    };
    push_u16(&mut buf, name_len);
    push_bytes(&mut buf, name_bytes);
    push_u32(&mut buf, tables_count);
    push_u32(&mut buf, 0);
    assert(buf@ == meta_body(name@, created_at, tables_count));
    let checksum = crc32(buf.as_slice());
    push_u32(&mut buf, checksum);
    buf
}

/// Reads a metadata blob, or says what is wrong with it.
pub fn decode_meta(bytes: &[u8]) -> (found: Result<MetaDecoded, CatalogError>)
    ensures
        meta_result_is(found, meta_decoding(bytes@)),
{
    let len = bytes.len();
    if len < META_MIN_LEN {
        return Err(CatalogError::MetaTooShort { min: META_MIN_LEN, actual: len });
    }
    if !(bytes[0] == 0x4D && bytes[1] == 0x44 && bytes[2] == 0x42 && bytes[3] == 0x30) {
        assert(bytes@.subrange(0, 4) != meta_magic()) by {
            let m = bytes@.subrange(0, 4);
            assert(m[0] == bytes@[0] && m[1] == bytes@[1] && m[2] == bytes@[2] && m[3] == bytes@[3]);
        }
        return Err(CatalogError::BadMagic);
    }
    assert(bytes@.subrange(0, 4) =~= meta_magic());
    let version = read_u32(bytes, 4);
    if version != META_VERSION {
        return Err(CatalogError::BadVersion { version });
    }
    let created_at = read_u64(bytes, 8);
    let name_len = read_u16(bytes, 16) as usize;
    if len - 18 < name_len + 12 {
        return Err(CatalogError::Truncated);
    }
    let name_bytes = slice_subrange(bytes, 18, 18 + name_len);
    let name = match string_from_utf8(name_bytes) {
        Some(name) => name,
        None => {
            return Err(CatalogError::BadUtf8);
        },
    };
    let tables_count = read_u32(bytes, 18 + name_len);
    let checksum = read_u32(bytes, 18 + name_len + 8);
    let expect = crc32(slice_subrange(bytes, 0, len - 4));
    if expect != checksum {
        return Err(CatalogError::ChecksumMismatch { expected: expect, got: checksum });
    }
    Ok(MetaDecoded { name, created_at, version, tables_count })
}

/// Reading back what `encode_meta` wrote gives the name, the creation time
/// and the table count that went in, with the version that it writes. The
/// name must fit the 16-bit length field.
pub proof fn lemma_meta_round_trip(name: Seq<char>, created_at: u64, tables_count: u32)
    requires
        encode_utf8(name).len() <= 0xFFFF,
    ensures
        meta_decoding(meta_blob(name, created_at, tables_count)) == Ok::<MetaView, CatalogError>(
            MetaView { name, created_at, version: META_VERSION, tables_count },
        ),
{
    let nb = encode_utf8(name);
    let n = nb.len() as int;
    let v = spec_u32_to_le_bytes(META_VERSION);
    let c = spec_u64_to_le_bytes(created_at);
    let l = spec_u16_to_le_bytes(len16(nb.len()));
    let t = spec_u32_to_le_bytes(tables_count);
    let r = spec_u32_to_le_bytes(0);
    let body = meta_body(name, created_at, tables_count);
    let k = spec_u32_to_le_bytes(crc32_of(body));
    let blob = meta_blob(name, created_at, tables_count);
    lemma_auto_spec_u16_to_from_le_bytes();
    lemma_auto_spec_u32_to_from_le_bytes();
    lemma_auto_spec_u64_to_from_le_bytes();
    assert(blob.len() == 30 + n);
    assert(blob =~= Seq::<u8>::empty() + meta_magic() + (v + c + l + nb + t + r + k));
    lemma_middle(Seq::<u8>::empty(), meta_magic(), v + c + l + nb + t + r + k);
    assert(blob =~= meta_magic() + v + (c + l + nb + t + r + k));
    lemma_u32_at(meta_magic(), META_VERSION, c + l + nb + t + r + k);
    assert(blob =~= (meta_magic() + v) + c + (l + nb + t + r + k));
    lemma_u64_at(meta_magic() + v, created_at, l + nb + t + r + k);
    assert(blob =~= (meta_magic() + v + c) + l + (nb + t + r + k));
    lemma_u16_at(meta_magic() + v + c, len16(nb.len()), nb + t + r + k);
    assert(blob =~= (meta_magic() + v + c + l) + nb + (t + r + k));
    lemma_middle(meta_magic() + v + c + l, nb, t + r + k);
    assert(blob =~= (meta_magic() + v + c + l + nb) + t + (r + k));
    lemma_u32_at(meta_magic() + v + c + l + nb, tables_count, r + k);
    assert(blob =~= body + k + Seq::<u8>::empty());
    lemma_u32_at(body, crc32_of(body), Seq::<u8>::empty());
    assert(blob.subrange(0, blob.len() - 4) =~= body);
    encode_utf8_valid_utf8(name);
    encode_utf8_decode_utf8(name);
}

/// A change to any of the last four bytes of an encoded blob, the checksum
/// field, is reported as a checksum mismatch.
pub proof fn lemma_meta_checksum_field_guarded(
    name: Seq<char>,
    created_at: u64,
    tables_count: u32,
    at: int,
    byte: u8,
)
    requires
        encode_utf8(name).len() <= 0xFFFF,
        meta_blob(name, created_at, tables_count).len() - 4 <= at < meta_blob(
            name,
            created_at,
            tables_count,
        ).len(),
        byte != meta_blob(name, created_at, tables_count)[at],
    ensures
        meta_decoding(meta_blob(name, created_at, tables_count).update(at, byte))
            matches Err(CatalogError::ChecksumMismatch { expected, got }) && expected == crc32_of(
            meta_body(name, created_at, tables_count),
        ) && got != expected,
{
    let blob = meta_blob(name, created_at, tables_count);
    let bad = blob.update(at, byte);
    let body = meta_body(name, created_at, tables_count);
    let n = encode_utf8(name).len() as int;
    lemma_meta_round_trip(name, created_at, tables_count);
    lemma_auto_spec_u16_to_from_le_bytes();
    lemma_auto_spec_u32_to_from_le_bytes();
    lemma_auto_spec_u64_to_from_le_bytes();
    assert(blob.len() == 30 + n);
    assert(blob.subrange(0, blob.len() - 4) =~= body);
    assert(bad.subrange(0, 4) =~= blob.subrange(0, 4));
    assert(bad.subrange(4, 8) =~= blob.subrange(4, 8));
    assert(bad.subrange(8, 16) =~= blob.subrange(8, 16));
    assert(bad.subrange(16, 18) =~= blob.subrange(16, 18));
    let name_len = u16_at(blob, 16) as int;
    assert(name_len == n) by {
        let v = spec_u32_to_le_bytes(META_VERSION);
        let c = spec_u64_to_le_bytes(created_at);
        let l = spec_u16_to_le_bytes(len16(n as nat));
        let rest = encode_utf8(name) + spec_u32_to_le_bytes(tables_count) + spec_u32_to_le_bytes(0)
            + spec_u32_to_le_bytes(crc32_of(body));
        assert(blob =~= (meta_magic() + v + c) + l + rest);
        lemma_u16_at(meta_magic() + v + c, len16(n as nat), rest);
    }
    assert(bad.subrange(18, 18 + name_len) =~= blob.subrange(18, 18 + name_len));
    assert(bad.subrange(0, bad.len() - 4) =~= body);
    let stored = blob.subrange(26 + n, 30 + n);
    let seen = bad.subrange(26 + n, 30 + n);
    assert(stored =~= spec_u32_to_le_bytes(crc32_of(body)));
    assert(seen != stored) by {
        assert(seen[at - (26 + n)] == byte);
        assert(stored[at - (26 + n)] == blob[at]);
    }
    assert(spec_u32_from_le_bytes(seen) != crc32_of(body)) by {
        if spec_u32_from_le_bytes(seen) == crc32_of(body) {
            assert(spec_u32_to_le_bytes(spec_u32_from_le_bytes(seen)) == seen);
        }
    }
}

/// A change to a byte before the checksum field, the two bytes of the name
/// length apart, is accepted only where the changed bytes have the checksum
/// of the unchanged: whether a blob with one byte changed is refused then
/// rests on the checksum alone.
pub proof fn lemma_meta_change_needs_collision(
    name: Seq<char>,
    created_at: u64,
    tables_count: u32,
    at: int,
    byte: u8,
)
    requires
        encode_utf8(name).len() <= 0xFFFF,
        0 <= at < meta_blob(name, created_at, tables_count).len() - 4,
        !(16 <= at < 18),
        byte != meta_blob(name, created_at, tables_count)[at],
    ensures
        ({
            let blob = meta_blob(name, created_at, tables_count);
            let bad = blob.update(at, byte);
            meta_decoding(bad) is Ok ==> bad.subrange(0, bad.len() - 4) != meta_body(
                name,
                created_at,
                tables_count,
            ) && crc32_of(bad.subrange(0, bad.len() - 4)) == crc32_of(
                meta_body(name, created_at, tables_count),
            )
        }),
{
    let blob = meta_blob(name, created_at, tables_count);
    let bad = blob.update(at, byte);
    let body = meta_body(name, created_at, tables_count);
    let n = encode_utf8(name).len() as int;
    lemma_meta_round_trip(name, created_at, tables_count);
    lemma_auto_spec_u16_to_from_le_bytes();
    lemma_auto_spec_u32_to_from_le_bytes();
    lemma_auto_spec_u64_to_from_le_bytes();
    assert(blob.len() == 30 + n);
    assert(blob.subrange(0, blob.len() - 4) =~= body);
    assert(bad.subrange(16, 18) =~= blob.subrange(16, 18));
    assert(u16_at(blob, 16) as int == n) by {
        let v = spec_u32_to_le_bytes(META_VERSION);
        let c = spec_u64_to_le_bytes(created_at);
        let l = spec_u16_to_le_bytes(len16(n as nat));
        let rest = encode_utf8(name) + spec_u32_to_le_bytes(tables_count) + spec_u32_to_le_bytes(0)
            + spec_u32_to_le_bytes(crc32_of(body));
        assert(blob =~= (meta_magic() + v + c) + l + rest);
        lemma_u16_at(meta_magic() + v + c, len16(n as nat), rest);
    }
    assert(bad.subrange(26 + n, 30 + n) =~= blob.subrange(26 + n, 30 + n));
    assert(blob.subrange(26 + n, 30 + n) =~= spec_u32_to_le_bytes(crc32_of(body)));
    assert(u32_at(bad, 26 + n) == crc32_of(body));
    assert(bad.subrange(0, bad.len() - 4)[at] == byte);
    assert(body[at] == blob[at]);
}

/// A change to any of the first eight bytes of an encoded blob, the magic
/// and the version, is refused: as a bad magic or as a bad version.
pub proof fn lemma_meta_header_guarded(
    name: Seq<char>,
    created_at: u64,
    tables_count: u32,
    at: int,
    byte: u8,
)
    requires
        encode_utf8(name).len() <= 0xFFFF,
        0 <= at < 8,
        byte != meta_blob(name, created_at, tables_count)[at],
    ensures
        meta_decoding(meta_blob(name, created_at, tables_count).update(at, byte)) == if at < 4 {
            Err::<MetaView, CatalogError>(CatalogError::BadMagic)
        } else {
            Err::<MetaView, CatalogError>(
                CatalogError::BadVersion {
                    version: u32_at(meta_blob(name, created_at, tables_count).update(at, byte), 4),
                },
            )
        },
{
    let blob = meta_blob(name, created_at, tables_count);
    let bad = blob.update(at, byte);
    let n = encode_utf8(name).len() as int;
    lemma_meta_round_trip(name, created_at, tables_count);
    lemma_auto_spec_u16_to_from_le_bytes();
    lemma_auto_spec_u32_to_from_le_bytes();
    lemma_auto_spec_u64_to_from_le_bytes();
    assert(blob.len() == 30 + n);
    if at < 4 {
        assert(bad.subrange(0, 4)[at] == byte);
        assert(blob.subrange(0, 4)[at] == blob[at]);
    } else {
        assert(bad.subrange(0, 4) =~= blob.subrange(0, 4));
        let seen = bad.subrange(4, 8);
        let stored = blob.subrange(4, 8);
        assert(seen[at - 4] == byte);
        assert(stored[at - 4] == blob[at]);
        assert(spec_u32_from_le_bytes(stored) == META_VERSION);
        if spec_u32_from_le_bytes(seen) == META_VERSION {
            assert(spec_u32_to_le_bytes(spec_u32_from_le_bytes(seen)) == seen);
            assert(spec_u32_to_le_bytes(spec_u32_from_le_bytes(stored)) == stored);
        }
    }
}

} // verus!
