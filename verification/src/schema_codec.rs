//! The table schema blob:
//! `magic "TBL0" | version u32 | name_len u16 | name | column_count u16 |
//! columns | table_flags u32 | crc32 u32`, each column being
//! `name_len u16 | name | type_code u16 | nullable u8 | reserved u8`; all
//! little-endian, the checksum over every byte before it.

use vstd::prelude::*;
use vstd::bytes::*;
use vstd::slice::*;
use vstd::utf8::*;
use crate::checksum::{crc32, crc32_of};
use crate::error::CatalogError;
use crate::le::{
    lemma_middle, lemma_u16_at, lemma_u32_at, push_bytes, push_u16, push_u32, read_u16, read_u32,
    u16_at, u32_at,
};
use crate::meta_codec::len16;
use crate::text::string_from_utf8;
use crate::types::{column_views, Column, ColumnView, DataType};

verus! {

/// The only version of the schema blob.
pub const SCHEMA_VERSION: u32 = 1;

/// The length of a schema blob with an empty name and no columns.
pub const SCHEMA_MIN_LEN: usize = 20;

/// The four bytes `TBL0`.
pub open spec fn schema_magic() -> Seq<u8> {
    seq![0x54u8, 0x42u8, 0x4Cu8, 0x30u8]
}

/// The number that stands for a column type in a schema blob. `Null` has
/// none and is written as 0, which no reader accepts.
pub open spec fn type_code(dt: DataType) -> u16 {
    match dt {
        DataType::Integer => 1,
        DataType::Float => 2,
        DataType::Text => 3,
        DataType::Boolean => 4,
        DataType::Date => 5,
        DataType::Time => 6,
        DataType::Timestamp => 7,
        DataType::DateTime => 8,
        DataType::Char => 9,
        DataType::Blob => 10,
        DataType::Json => 11,
        DataType::Decimal => 12,
        DataType::Double => 13,
        DataType::Real => 14,
        DataType::Numeric => 15,
        DataType::TinyInt => 16,
        DataType::SmallInt => 17,
        DataType::MediumInt => 18,
        DataType::BigInt => 19,
        DataType::Null => 0,
    }
}

/// The column type that a number stands for, if it stands for one.
pub open spec fn type_of_code(code: u16) -> Option<DataType> {
    if code == 1 {
        Some(DataType::Integer)
    } else if code == 2 {
        Some(DataType::Float)
    } else if code == 3 {
        Some(DataType::Text)
    } else if code == 4 {
        Some(DataType::Boolean)
    } else if code == 5 {
        Some(DataType::Date)
    } else if code == 6 {
        Some(DataType::Time)
    } else if code == 7 {
        Some(DataType::Timestamp)
    } else if code == 8 {
        Some(DataType::DateTime)
    } else if code == 9 {
        Some(DataType::Char)
    } else if code == 10 {
        Some(DataType::Blob)
    } else if code == 11 {
        Some(DataType::Json)
    } else if code == 12 {
        Some(DataType::Decimal)
    } else if code == 13 {
        Some(DataType::Double)
    } else if code == 14 {
        Some(DataType::Real)
    } else if code == 15 {
        Some(DataType::Numeric)
    } else if code == 16 {
        Some(DataType::TinyInt)
    } else if code == 17 {
        Some(DataType::SmallInt)
    } else if code == 18 {
        Some(DataType::MediumInt)
    } else if code == 19 {
        Some(DataType::BigInt)
    } else {
        None
    }
}

/// The number that stands for a column type in a schema blob.
pub fn data_type_to_code(dt: &DataType) -> (code: u16)
    ensures
        code == type_code(*dt),
{
    match dt {
        DataType::Integer => 1,
        DataType::Float => 2,
        DataType::Text => 3,
        DataType::Boolean => 4,
        DataType::Date => 5,
        DataType::Time => 6,
        DataType::Timestamp => 7,
        DataType::DateTime => 8,
        DataType::Char => 9,
        DataType::Blob => 10,
        DataType::Json => 11,
        DataType::Decimal => 12,
        DataType::Double => 13,
        DataType::Real => 14,
        DataType::Numeric => 15,
        DataType::TinyInt => 16,
        DataType::SmallInt => 17,
        DataType::MediumInt => 18,
        DataType::BigInt => 19,
        DataType::Null => 0,
    }
}

/// The column type that a number stands for, or `UnknownTypeCode`.
pub fn data_type_from_code(code: u16) -> (found: Result<DataType, CatalogError>)
    ensures
        match found {
            Ok(dt) => type_of_code(code) == Some(dt),
            Err(e) => type_of_code(code) is None && e == (CatalogError::UnknownTypeCode { code }),
        },
{
    match code {
        1 => Ok(DataType::Integer),
        2 => Ok(DataType::Float),
        3 => Ok(DataType::Text),
        4 => Ok(DataType::Boolean),
        5 => Ok(DataType::Date),
        6 => Ok(DataType::Time),
        7 => Ok(DataType::Timestamp),
        8 => Ok(DataType::DateTime),
        9 => Ok(DataType::Char),
        10 => Ok(DataType::Blob),
        11 => Ok(DataType::Json),
        12 => Ok(DataType::Decimal),
        13 => Ok(DataType::Double),
        14 => Ok(DataType::Real),
        15 => Ok(DataType::Numeric),
        16 => Ok(DataType::TinyInt),
        17 => Ok(DataType::SmallInt),
        18 => Ok(DataType::MediumInt),
        19 => Ok(DataType::BigInt),
        _ => Err(CatalogError::UnknownTypeCode { code }),
    }
}

/// Every type but `Null` is found again from its code.
pub proof fn lemma_type_code_round_trip(dt: DataType)
    requires
        dt != DataType::Null,
    ensures
        type_of_code(type_code(dt)) == Some(dt),
{
}

/// The byte of the nullable flag.
pub open spec fn flag_byte(nullable: bool) -> u8 {
    if nullable {
        1
    } else {
        0
    }
}

/// One column as it stands in a schema blob.
pub open spec fn column_bytes(c: ColumnView) -> Seq<u8> {
    spec_u16_to_le_bytes(len16(encode_utf8(c.name).len())) + encode_utf8(c.name)
        + spec_u16_to_le_bytes(type_code(c.data_type)) + seq![flag_byte(c.nullable), 0u8]
}

/// The columns of a schema as they stand in its blob, one after the other.
pub open spec fn columns_bytes(cols: Seq<ColumnView>) -> Seq<u8>
    decreases cols.len(),
{
    if cols.len() == 0 {
        Seq::<u8>::empty()
    } else {
        columns_bytes(cols.drop_last()) + column_bytes(cols.last())
    }
}

/// A schema blob up to, and without, its checksum.
pub open spec fn schema_body(table_name: Seq<char>, cols: Seq<ColumnView>) -> Seq<u8> {
    schema_magic() + spec_u32_to_le_bytes(SCHEMA_VERSION) + spec_u16_to_le_bytes(
        len16(encode_utf8(table_name).len()),
    ) + encode_utf8(table_name) + spec_u16_to_le_bytes(len16(cols.len())) + columns_bytes(cols)
        + spec_u32_to_le_bytes(0)
}

/// The schema blob of a table.
pub open spec fn schema_blob(table_name: Seq<char>, cols: Seq<ColumnView>) -> Seq<u8> {
    schema_body(table_name, cols) + spec_u32_to_le_bytes(crc32_of(schema_body(table_name, cols)))
}

/// What reading one column at `pos` gives: the column and the position after
/// it, or the first thing wrong with it.
pub open spec fn column_decoding(bytes: Seq<u8>, pos: int) -> Result<(ColumnView, int), CatalogError> {
    let name_len = u16_at(bytes, pos) as int;
    let name_bytes = bytes.subrange(pos + 2, pos + 2 + name_len);
    let code = u16_at(bytes, pos + 2 + name_len);
    if bytes.len() - pos < 2 {
        Err(CatalogError::Truncated)
    } else if bytes.len() - (pos + 2) < name_len + 4 {
        Err(CatalogError::Truncated)
    } else if !valid_utf8(name_bytes) {
        Err(CatalogError::BadUtf8)
    } else if type_of_code(code) is None {
        Err(CatalogError::UnknownTypeCode { code })
    } else {
        Ok(
            (
                ColumnView {
                    name: decode_utf8(name_bytes),
                    data_type: type_of_code(code)->0,
                    nullable: bytes[pos + 2 + name_len + 2] != 0,
                },
                pos + 2 + name_len + 4,
            ),
        )
    }
}

/// What reading `count` columns from `pos` on gives: the columns and the
/// position after the last, or the first thing wrong with the first column
/// that has something wrong.
pub open spec fn columns_decoding(bytes: Seq<u8>, pos: int, count: nat) -> Result<
    (Seq<ColumnView>, int),
    CatalogError,
>
    decreases count,
{
    if count == 0 {
        Ok((Seq::<ColumnView>::empty(), pos))
    } else {
        match columns_decoding(bytes, pos, (count - 1) as nat) {
            Err(e) => Err(e),
            Ok((cols, at)) => match column_decoding(bytes, at) {
                Err(e) => Err(e),
                Ok((col, next)) => Ok((cols.push(col), next)),
            },
        }
    }
}

/// What reading a schema blob gives: the checks in the order in which they
/// are made, each with its error.
pub open spec fn schema_decoding(bytes: Seq<u8>) -> Result<(Seq<char>, Seq<ColumnView>), CatalogError> {
    let name_len = u16_at(bytes, 8) as int;
    let name_bytes = bytes.subrange(10, 10 + name_len);
    let count = u16_at(bytes, 10 + name_len) as nat;
    let columns = columns_decoding(bytes, 12 + name_len, count);
    let expected = crc32_of(bytes.subrange(0, bytes.len() - 4));
    if bytes.len() < SCHEMA_MIN_LEN {
        Err(CatalogError::MetaTooShort { min: SCHEMA_MIN_LEN, actual: bytes.len() as usize })
    } else if bytes.subrange(0, 4) != schema_magic() {
        Err(CatalogError::BadMagic)
    } else if u32_at(bytes, 4) != SCHEMA_VERSION {
        Err(CatalogError::BadVersion { version: u32_at(bytes, 4) })
    } else if bytes.len() - 10 < name_len + 2 {
        Err(CatalogError::Truncated)
    } else if !valid_utf8(name_bytes) {
        Err(CatalogError::BadUtf8)
    } else {
        match columns {
            Err(e) => Err(e),
            Ok((cols, end)) => if bytes.len() - end < 8 {
                Err(CatalogError::Truncated)
            } else if expected != u32_at(bytes, end + 4) {
                Err(CatalogError::ChecksumMismatch { expected, got: u32_at(bytes, end + 4) })
            } else {
                Ok((decode_utf8(name_bytes), cols))
            },
        }
    }
}

/// Whether what `decode_schema` returned is what `schema_decoding` prescribes.
pub open spec fn schema_result_is(
    found: Result<(String, Vec<Column>), CatalogError>,
    wanted: Result<(Seq<char>, Seq<ColumnView>), CatalogError>,
) -> bool {
    match found {
        Ok((name, columns)) => wanted == Ok::<(Seq<char>, Seq<ColumnView>), CatalogError>(
            (name@, column_views(columns@)),
        ),
        Err(e) => wanted == Err::<(Seq<char>, Seq<ColumnView>), CatalogError>(e),
    }
}

/// Once reading columns has failed, reading more of them fails the same way.
pub proof fn lemma_column_error_stays(bytes: Seq<u8>, pos: int, failed: nat, count: nat)
    requires
        failed <= count,
        columns_decoding(bytes, pos, failed) is Err,
    ensures
        columns_decoding(bytes, pos, count) == columns_decoding(bytes, pos, failed),
    decreases count,
{
    if failed < count {
        lemma_column_error_stays(bytes, pos, failed, (count - 1) as nat);
    }
}

/// The first columns of a list, written out, with the next one after them.
pub proof fn lemma_columns_bytes_step(cols: Seq<ColumnView>, i: int)
    requires
        0 <= i < cols.len(),
    ensures
        columns_bytes(cols.take(i + 1)) == columns_bytes(cols.take(i)) + column_bytes(cols[i]),
{
    assert(cols.take(i + 1).drop_last() =~= cols.take(i));
    assert(cols.take(i + 1).last() == cols[i]);
}

/// Writes the schema blob of a table.
pub fn encode_schema(table_name: &str, columns: &[Column]) -> (blob: Vec<u8>)
    ensures
        blob@ == schema_blob(table_name@, column_views(columns@)),
{
    let mut buf: Vec<u8> = Vec::new();
    buf.push(0x54);
    buf.push(0x42);
    buf.push(0x4C);
    buf.push(0x30);
    assert(buf@ == schema_magic());
    push_u32(&mut buf, SCHEMA_VERSION);
    let table_name_bytes = table_name.as_bytes();
    let n = table_name_bytes.len();
    let table_name_len: u16 = if n <= 0xFFFF {
        n as u16
    } else {
        u16::MAX
    };
    push_u16(&mut buf, table_name_len);
    push_bytes(&mut buf, table_name_bytes);
    let total = columns.len();
    let col_count: u16 = if total <= 0xFFFF {
        total as u16
    } else {
        u16::MAX
    };
    push_u16(&mut buf, col_count);
    let ghost head = buf@;
    let ghost cols = column_views(columns@);
    let mut i: usize = 0;
    assert(cols.take(0) =~= Seq::<ColumnView>::empty());
    while i < total
        invariant
            i <= total,
            total == columns@.len(),
            cols == column_views(columns@),
            buf@ == head + columns_bytes(cols.take(i as int)),
        decreases total - i,
    {
        let col = &columns[i];
        let name_bytes = col.name.as_str().as_bytes();
        let m = name_bytes.len();
        let name_len: u16 = if m <= 0xFFFF {
            m as u16
        } else {
            u16::MAX
        };
        let ghost before = buf@;
        push_u16(&mut buf, name_len);
        push_bytes(&mut buf, name_bytes);
        let dt_code = data_type_to_code(&col.data_type);
        push_u16(&mut buf, dt_code);
        let nullable: u8 = if col.nullable {
            1u8
        } else {
            0u8
        };
        buf.push(nullable);
        buf.push(0u8);
        proof {
            assert(cols[i as int] == columns@[i as int]@);
            assert(buf@ =~= before + column_bytes(cols[i as int]));
            lemma_columns_bytes_step(cols, i as int);
        }
        i += 1;
    }
    assert(cols.take(total as int) =~= cols);
    push_u32(&mut buf, 0);
    assert(buf@ =~= schema_body(table_name@, cols));
    let checksum = crc32(buf.as_slice());
    push_u32(&mut buf, checksum);
    buf
}

/// Reads a schema blob, or says what is wrong with it.
#[verifier::loop_isolation(false)]
pub fn decode_schema(bytes: &[u8]) -> (found: Result<(String, Vec<Column>), CatalogError>)
    ensures
        schema_result_is(found, schema_decoding(bytes@)),
{
    let len = bytes.len();
    if len < SCHEMA_MIN_LEN {
        return Err(CatalogError::MetaTooShort { min: SCHEMA_MIN_LEN, actual: len });
    }
    if !(bytes[0] == 0x54 && bytes[1] == 0x42 && bytes[2] == 0x4C && bytes[3] == 0x30) {
        assert(bytes@.subrange(0, 4) != schema_magic()) by {
            let m = bytes@.subrange(0, 4);
            assert(m[0] == bytes@[0] && m[1] == bytes@[1] && m[2] == bytes@[2] && m[3] == bytes@[3]);
        }
        return Err(CatalogError::BadMagic);
    }
    assert(bytes@.subrange(0, 4) =~= schema_magic());
    let version = read_u32(bytes, 4);
    if version != SCHEMA_VERSION {
        return Err(CatalogError::BadVersion { version });
    }
    let tname_len = read_u16(bytes, 8) as usize;
    if len - 10 < tname_len + 2 {
        return Err(CatalogError::Truncated);
    }
    let table_name = match string_from_utf8(slice_subrange(bytes, 10, 10 + tname_len)) {
        Some(name) => name,
        None => {
            return Err(CatalogError::BadUtf8);
        },
    };
    let col_cnt = read_u16(bytes, 10 + tname_len) as usize;
    let mut columns: Vec<Column> = Vec::new();
    let mut pos: usize = 12 + tname_len;
    let mut i: usize = 0;
    let ghost start = pos as int;
    assert(column_views(columns@) =~= Seq::<ColumnView>::empty());
    while i < col_cnt
        invariant
            i <= col_cnt,
            len == bytes@.len(),
            pos <= len,
            columns_decoding(bytes@, start, i as nat) == Ok::<(Seq<ColumnView>, int), CatalogError>(
                (column_views(columns@), pos as int),
            ),
        decreases col_cnt - i,
    {
        let ghost step = column_decoding(bytes@, pos as int);
        if len - pos < 2 {
            proof {
                lemma_column_error_stays(bytes@, start, (i + 1) as nat, col_cnt as nat);
            }
            return Err(CatalogError::Truncated);
        }
        let name_len = read_u16(bytes, pos) as usize;
        if len - (pos + 2) < name_len + 4 {
            proof {
                lemma_column_error_stays(bytes@, start, (i + 1) as nat, col_cnt as nat);
            }
            return Err(CatalogError::Truncated);
        }
        let name = match string_from_utf8(slice_subrange(bytes, pos + 2, pos + 2 + name_len)) {
            Some(name) => name,
            None => {
                proof {
                    lemma_column_error_stays(bytes@, start, (i + 1) as nat, col_cnt as nat);
                }
                return Err(CatalogError::BadUtf8);
            },
        };
        let code = read_u16(bytes, pos + 2 + name_len);
        let dt = match data_type_from_code(code) {
            Ok(dt) => dt,
            Err(e) => {
                proof {
                    lemma_column_error_stays(bytes@, start, (i + 1) as nat, col_cnt as nat);
                }
                return Err(e);
            },
        };
        let nullable = bytes[pos + 2 + name_len + 2] != 0;
        let ghost done = column_views(columns@);
        columns.push(Column::new(name, dt, nullable));
        proof {
            assert(column_views(columns@) =~= done.push(step->Ok_0.0));
        }
        pos = pos + 2 + name_len + 4;
        i += 1;
    }
    if len - pos < 8 {
        return Err(CatalogError::Truncated);
    }
    let checksum = read_u32(bytes, pos + 4);
    let expect = crc32(slice_subrange(bytes, 0, len - 4));
    if expect != checksum {
        return Err(CatalogError::ChecksumMismatch { expected: expect, got: checksum });
    }
    Ok((table_name, columns))
}

/// Whether a column can be written to a schema blob and read back: its name
/// fits the 16-bit length field and its type has a code.
pub open spec fn encodable_column(c: ColumnView) -> bool {
    encode_utf8(c.name).len() <= 0xFFFF && c.data_type != DataType::Null
}

/// Whether a schema can be written to a blob and read back: the table name
/// and the column count fit their 16-bit fields and every column is
/// encodable.
pub open spec fn encodable_schema(table_name: Seq<char>, cols: Seq<ColumnView>) -> bool {
    &&& encode_utf8(table_name).len() <= 0xFFFF
    &&& cols.len() <= 0xFFFF
    &&& forall|i: int| 0 <= i < cols.len() ==> encodable_column(#[trigger] cols[i])
}

/// An encodable column that stands at `pos` is read back from there.
pub proof fn lemma_column_round_trip(bytes: Seq<u8>, pos: int, c: ColumnView)
    requires
        encodable_column(c),
        0 <= pos,
        pos + column_bytes(c).len() <= bytes.len(),
        bytes.subrange(pos, pos + column_bytes(c).len()) == column_bytes(c),
    ensures
        column_decoding(bytes, pos) == Ok::<(ColumnView, int), CatalogError>(
            (c, pos + column_bytes(c).len()),
        ),
        column_bytes(c).len() == encode_utf8(c.name).len() + 6,
{
    let nb = encode_utf8(c.name);
    let n = nb.len() as int;
    let l = spec_u16_to_le_bytes(len16(nb.len()));
    let t = spec_u16_to_le_bytes(type_code(c.data_type));
    let f = seq![flag_byte(c.nullable), 0u8];
    let cb = column_bytes(c);
    lemma_auto_spec_u16_to_from_le_bytes();
    assert(cb.len() == n + 6);
    assert(cb =~= Seq::<u8>::empty() + l + (nb + t + f));
    lemma_u16_at(Seq::<u8>::empty(), len16(nb.len()), nb + t + f);
    assert(bytes.subrange(pos, pos + 2) =~= cb.subrange(0, 2));
    assert(cb =~= l + nb + (t + f));
    lemma_middle(l, nb, t + f);
    assert(bytes.subrange(pos + 2, pos + 2 + n) =~= cb.subrange(2, 2 + n));
    assert(cb =~= (l + nb) + t + f);
    lemma_u16_at(l + nb, type_code(c.data_type), f);
    assert(bytes.subrange(pos + 2 + n, pos + 2 + n + 2) =~= cb.subrange(2 + n, 2 + n + 2));
    assert(bytes[pos + 2 + n + 2] == cb[2 + n + 2]);
    assert(cb[2 + n + 2] == flag_byte(c.nullable));
    lemma_type_code_round_trip(c.data_type);
    encode_utf8_valid_utf8(c.name);
    encode_utf8_decode_utf8(c.name);
}

/// Encodable columns that stand one after the other from `pos` on are read
/// back from there.
pub proof fn lemma_columns_round_trip(bytes: Seq<u8>, pos: int, cols: Seq<ColumnView>)
    requires
        forall|i: int| 0 <= i < cols.len() ==> encodable_column(#[trigger] cols[i]),
        0 <= pos,
        pos + columns_bytes(cols).len() <= bytes.len(),
        bytes.subrange(pos, pos + columns_bytes(cols).len()) == columns_bytes(cols),
    ensures
        columns_decoding(bytes, pos, cols.len()) == Ok::<(Seq<ColumnView>, int), CatalogError>(
            (cols, pos + columns_bytes(cols).len()),
        ),
    decreases cols.len(),
{
    if cols.len() == 0 {
        assert(cols =~= Seq::<ColumnView>::empty());
    } else {
        let front = cols.drop_last();
        let last = cols.last();
        let fb = columns_bytes(front);
        let lb = column_bytes(last);
        assert(columns_bytes(cols) == fb + lb);
        assert(bytes.subrange(pos, pos + fb.len()) =~= columns_bytes(cols).subrange(
            0,
            fb.len() as int,
        ));
        assert(columns_bytes(cols).subrange(0, fb.len() as int) =~= fb);
        lemma_columns_round_trip(bytes, pos, front);
        let at = pos + fb.len();
        assert(bytes.subrange(at, at + lb.len()) =~= columns_bytes(cols).subrange(
            fb.len() as int,
            (fb.len() + lb.len()) as int,
        ));
        assert(columns_bytes(cols).subrange(fb.len() as int, (fb.len() + lb.len()) as int) =~= lb);
        lemma_column_round_trip(bytes, at, last);
        assert(front.push(last) =~= cols);
    }
}

/// Reading back what `encode_schema` wrote gives the table name and the
/// columns that went in, provided the schema is encodable.
pub proof fn lemma_schema_round_trip(table_name: Seq<char>, cols: Seq<ColumnView>)
    requires
        encodable_schema(table_name, cols),
    ensures
        schema_decoding(schema_blob(table_name, cols)) == Ok::<
            (Seq<char>, Seq<ColumnView>),
            CatalogError,
        >((table_name, cols)),
{
    let nb = encode_utf8(table_name);
    let n = nb.len() as int;
    let v = spec_u32_to_le_bytes(SCHEMA_VERSION);
    let l = spec_u16_to_le_bytes(len16(nb.len()));
    let k = spec_u16_to_le_bytes(len16(cols.len()));
    let cb = columns_bytes(cols);
    let f = spec_u32_to_le_bytes(0);
    let body = schema_body(table_name, cols);
    let crc = spec_u32_to_le_bytes(crc32_of(body));
    let blob = schema_blob(table_name, cols);
    let m = schema_magic();
    lemma_auto_spec_u16_to_from_le_bytes();
    lemma_auto_spec_u32_to_from_le_bytes();
    assert(blob.len() == 20 + n + cb.len());
    assert(blob =~= Seq::<u8>::empty() + m + (v + l + nb + k + cb + f + crc));
    lemma_middle(Seq::<u8>::empty(), m, v + l + nb + k + cb + f + crc);
    assert(blob =~= m + v + (l + nb + k + cb + f + crc));
    lemma_u32_at(m, SCHEMA_VERSION, l + nb + k + cb + f + crc);
    assert(blob =~= (m + v) + l + (nb + k + cb + f + crc));
    lemma_u16_at(m + v, len16(nb.len()), nb + k + cb + f + crc);
    assert(blob =~= (m + v + l) + nb + (k + cb + f + crc));
    lemma_middle(m + v + l, nb, k + cb + f + crc);
    assert(blob =~= (m + v + l + nb) + k + (cb + f + crc));
    lemma_u16_at(m + v + l + nb, len16(cols.len()), cb + f + crc);
    assert(blob =~= (m + v + l + nb + k) + cb + (f + crc));
    lemma_middle(m + v + l + nb + k, cb, f + crc);
    lemma_columns_round_trip(blob, 12 + n, cols);
    assert(blob =~= body + crc + Seq::<u8>::empty());
    lemma_u32_at(body, crc32_of(body), Seq::<u8>::empty());
    assert(blob.subrange(0, blob.len() - 4) =~= body);
    assert(body.len() == 16 + n + cb.len());
    encode_utf8_valid_utf8(table_name);
    encode_utf8_decode_utf8(table_name);
}

} // verus!
