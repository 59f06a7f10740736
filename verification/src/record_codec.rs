//! A row as the payload of a page:
//! `row_id u64 | null bitmap | the values of the columns that are not NULL`,
//! in schema order. INTEGER and FLOAT take eight bytes, BOOLEAN one, TEXT,
//! CHAR, BLOB and JSON a `u32` length and that many bytes of UTF-8; all
//! little-endian.

use vstd::prelude::*;
use vstd::bytes::*;
use vstd::slice::*;
use vstd::utf8::*;
use crate::bitmap::{
    bit_of, bitmap_byte, bitmap_len, bitmap_of, lemma_bitmap_bit, lemma_bitmap_step, null_bitmap,
    pow2, test_bit, with_bit,
};
use crate::error::RecordError;
use crate::le::{
    lemma_middle, lemma_u32_at, lemma_u64_at, push_bytes, push_u32, push_u64, read_u32, read_u64,
    u32_at, u64_at,
};
use crate::record::{lookup, put, Entries, Record};
use crate::text::string_from_utf8;
use crate::types::{column_views, Column, ColumnView, DataType};
use crate::value::{ASTValue, ValueView};

verus! {

/// Whether a column type holds text: TEXT, CHAR, BLOB or JSON.
pub open spec fn is_text_type(dt: DataType) -> bool {
    dt == DataType::Text || dt == DataType::Char || dt == DataType::Blob || dt == DataType::Json
}

/// The value of a row for a column: what stands under the column's name,
/// NULL where nothing does.
pub open spec fn value_for(entries: Entries, name: Seq<char>) -> ValueView {
    match lookup(entries, name) {
        Some(v) => v,
        None => ValueView::Null,
    }
}

/// The values of a row for the columns of a schema, in schema order.
pub open spec fn row_values(entries: Entries, cols: Seq<ColumnView>) -> Seq<ValueView> {
    Seq::new(cols.len(), |i: int| value_for(entries, cols[i].name))
}

/// For each value, whether it is NULL.
pub open spec fn null_flags(values: Seq<ValueView>) -> Seq<bool> {
    Seq::new(values.len(), |i: int| values[i] is Null)
}

/// The bytes of one value in a column of the given type: none for NULL, or
/// `TypeMismatch` where the value is of another kind than the column or a
/// text is too long for its length field.
pub open spec fn value_bytes(v: ValueView, dt: DataType) -> Result<Seq<u8>, RecordError> {
    match v {
        ValueView::Null => Ok(Seq::<u8>::empty()),
        ValueView::Int(i) => if dt == DataType::Integer {
            Ok(spec_u64_to_le_bytes(i as u64))
        } else {
            Err(RecordError::TypeMismatch)
        },
        ValueView::Float(bits) => if dt == DataType::Float {
            Ok(spec_u64_to_le_bytes(bits))
        } else {
            Err(RecordError::TypeMismatch)
        },
        ValueView::Boolean(b) => if dt == DataType::Boolean {
            Ok(
                seq![if b {
                    1u8
                } else {
                    0u8
                }],
            )
        } else {
            Err(RecordError::TypeMismatch)
        },
        ValueView::String(s) => if is_text_type(dt) && encode_utf8(s).len() <= u32::MAX {
            Ok(spec_u32_to_le_bytes(encode_utf8(s).len() as u32) + encode_utf8(s))
        } else {
            Err(RecordError::TypeMismatch)
        },
    }
}

/// The bytes of the first `k` values of a row, one after the other, or the
/// error of the first value that has one.
pub open spec fn values_bytes(values: Seq<ValueView>, cols: Seq<ColumnView>, k: nat) -> Result<
    Seq<u8>,
    RecordError,
>
    decreases k,
{
    if k == 0 {
        Ok(Seq::<u8>::empty())
    } else {
        match values_bytes(values, cols, (k - 1) as nat) {
            Err(e) => Err(e),
            Ok(front) => match value_bytes(values[k - 1], cols[k - 1].data_type) {
                Err(e) => Err(e),
                Ok(bytes) => Ok(front + bytes),
            },
        }
    }
}

/// The payload of a row under a schema.
pub open spec fn record_payload(row_id: u64, entries: Entries, cols: Seq<ColumnView>) -> Result<
    Seq<u8>,
    RecordError,
> {
    let values = row_values(entries, cols);
    match values_bytes(values, cols, cols.len()) {
        Err(e) => Err(e),
        Ok(bytes) => Ok(spec_u64_to_le_bytes(row_id) + null_bitmap(null_flags(values)) + bytes),
    }
}

/// Once writing values has failed, writing more of them fails the same way.
pub proof fn lemma_value_error_stays(
    values: Seq<ValueView>,
    cols: Seq<ColumnView>,
    failed: nat,
    k: nat,
)
    requires
        failed <= k,
        values_bytes(values, cols, failed) is Err,
    ensures
        values_bytes(values, cols, k) == values_bytes(values, cols, failed),
    decreases k,
{
    if failed < k {
        lemma_value_error_stays(values, cols, failed, (k - 1) as nat);
    }
}

/// The number of bytes of a bitmap for `n` columns.
pub fn bitmap_bytes(n: usize) -> (len: usize)
    ensures
        len == bitmap_len(n as nat),
{
    if n % 8 == 0 {
        n / 8
    } else {
        n / 8 + 1
    }
}

/// A copy of the value that a record holds for a column, NULL where it holds
/// none.
fn value_of(record: &Record, column: &Column) -> (value: ASTValue)
    ensures
        value@ == value_for(record.entries(), column.name@),
{
    match record.get_value(column.name.as_str()) {
        Some(v) => v.duplicate(),
        None => ASTValue::Null,
    }
}

/// The null bitmap of a record under a schema.
fn build_bitmap(record: &Record, columns: &[Column]) -> (bitmap: Vec<u8>)
    ensures
        bitmap@ == null_bitmap(
            null_flags(row_values(record.entries(), column_views(columns@))),
        ),
{
    let n = columns.len();
    let nbytes = bitmap_bytes(n);
    let ghost flags = null_flags(row_values(record.entries(), column_views(columns@)));
    let mut bitmap: Vec<u8> = Vec::new();
    let mut k: usize = 0;
    while k < nbytes
        invariant
            k <= nbytes,
            bitmap@.len() == k,
            forall|j: int| 0 <= j < k ==> bitmap@[j] == 0,
        decreases nbytes - k,
    {
        bitmap.push(0u8);
        k += 1;
    }
    assert(bitmap@ =~= bitmap_of(flags.take(0), nbytes as nat));
    let mut i: usize = 0;
    while i < n
        invariant
            i <= n,
            n == columns@.len(),
            nbytes == bitmap_len(n as nat),
            flags == null_flags(row_values(record.entries(), column_views(columns@))),
            flags.len() == n,
            bitmap@ == bitmap_of(flags.take(i as int), nbytes as nat),
        decreases n - i,
    {
        let value = value_of(record, &columns[i]);
        let ghost before = bitmap@;
        proof {
            assert(column_views(columns@)[i as int] == columns@[i as int]@);
            assert(flags[i as int] == (value@ is Null));
            assert forall|k: int| 0 <= k < nbytes implies bitmap_byte(flags.take(i + 1), k) as int
                == #[trigger] before[k] as int + if k == i / 8 && flags[i as int] {
                pow2(i as int % 8)
            } else {
                0
            } by {
                lemma_bitmap_step(flags, i as int, k);
            }
            lemma_bitmap_step(flags, i as int, i as int / 8);
        }
        if value.is_null() {
            let byte = i / 8;
            let bit = (i % 8) as u8;
            let cur = bitmap[byte];
            bitmap.set(byte, with_bit(cur, bit));
        }
        assert(bitmap@ =~= bitmap_of(flags.take(i + 1), nbytes as nat));
        i += 1;
    }
    assert(flags.take(n as int) =~= flags);
    bitmap
}

/// Appends the bytes of one value in a column of the given type.
fn push_value(out: &mut Vec<u8>, value: &ASTValue, data_type: DataType) -> (done: Result<
    (),
    RecordError,
>)
    ensures
        match done {
            Ok(()) => value_bytes(value@, data_type) is Ok && final(out)@ == old(out)@
                + value_bytes(value@, data_type)->Ok_0,
            Err(e) => value_bytes(value@, data_type) == Err::<Seq<u8>, RecordError>(e),
        },
{
    match value {
        ASTValue::Null => {
            assert(out@ =~= old(out)@ + Seq::<u8>::empty());
            Ok(())
        },
        ASTValue::Int(i) => {
            match data_type {
                DataType::Integer => {
                    push_u64(out, *i as u64);
                    Ok(())
                },
                _ => Err(RecordError::TypeMismatch),
            }
        },
        ASTValue::Float(bits) => {
            match data_type {
                DataType::Float => {
                    push_u64(out, *bits);
                    Ok(())
                },
                _ => Err(RecordError::TypeMismatch),
            }
        },
        ASTValue::Boolean(b) => {
            match data_type {
                DataType::Boolean => {
                    out.push(
                        if *b {
                            1u8
                        } else {
                            0u8
                        },
                    );
                    assert(out@ =~= old(out)@ + value_bytes(value@, data_type)->Ok_0);
                    Ok(())
                },
                _ => Err(RecordError::TypeMismatch),
            }
        },
        ASTValue::String(s) => {
            match data_type {
                DataType::Text | DataType::Char | DataType::Blob | DataType::Json => {
                    let bytes = s.as_str().as_bytes();
                    if bytes.len() > u32::MAX as usize {
                        return Err(RecordError::TypeMismatch);
                    }
                    let ghost before = out@;
                    push_u32(out, bytes.len() as u32);
                    push_bytes(out, bytes);
                    assert(out@ =~= before + value_bytes(value@, data_type)->Ok_0);
                    Ok(())
                },
                _ => Err(RecordError::TypeMismatch),
            }
        },
    }
}

/// Writes a row as the payload of a page: the row's identifier, the null
/// bitmap, and the values that are not NULL. A column for which the record
/// holds nothing is written as NULL.
pub fn serialize_record_for_page(row_id: u64, record: &Record, columns: &[Column]) -> (done:
    Result<Vec<u8>, RecordError>)
    ensures
        match done {
            Ok(bytes) => record_payload(row_id, record.entries(), column_views(columns@)) == Ok::<
                Seq<u8>,
                RecordError,
            >(bytes@),
            Err(e) => record_payload(row_id, record.entries(), column_views(columns@)) == Err::<
                Seq<u8>,
                RecordError,
            >(e),
        },
{
    let n = columns.len();
    let ghost cols = column_views(columns@);
    let ghost values = row_values(record.entries(), cols);
    let mut out: Vec<u8> = Vec::new();
    push_u64(&mut out, row_id);
    let bitmap = build_bitmap(record, columns);
    push_bytes(&mut out, bitmap.as_slice());
    let ghost head = out@;
    let mut i: usize = 0;
    assert(out@ =~= head + Seq::<u8>::empty());
    while i < n
        invariant
            i <= n,
            n == columns@.len(),
            cols == column_views(columns@),
            values == row_values(record.entries(), cols),
            head == spec_u64_to_le_bytes(row_id) + null_bitmap(null_flags(values)),
            values_bytes(values, cols, i as nat) is Ok,
            out@ == head + values_bytes(values, cols, i as nat)->Ok_0,
        decreases n - i,
    {
        let value = value_of(record, &columns[i]);
        proof {
            assert(cols[i as int] == columns@[i as int]@);
            assert(values[i as int] == value@);
        }
        let ghost before = out@;
        match push_value(&mut out, &value, columns[i].data_type) {
            Ok(()) => {
                assert(out@ =~= head + values_bytes(values, cols, (i + 1) as nat)->Ok_0);
            },
            Err(e) => {
                proof {
                    lemma_value_error_stays(values, cols, (i + 1) as nat, n as nat);
                }
                return Err(e);
            },
        }
        i += 1;
    }
    Ok(out)
}

/// What reading one value of the given type at `pos` gives: the value and
/// the position after it, or why it cannot be read.
pub open spec fn value_decoding(bytes: Seq<u8>, pos: int, dt: DataType) -> Result<
    (ValueView, int),
    RecordError,
> {
    if dt == DataType::Integer {
        if bytes.len() - pos < 8 {
            Err(RecordError::Truncated)
        } else {
            Ok((ValueView::Int(u64_at(bytes, pos) as i64), pos + 8))
        }
    } else if dt == DataType::Float {
        if bytes.len() - pos < 8 {
            Err(RecordError::Truncated)
        } else {
            Ok((ValueView::Float(u64_at(bytes, pos)), pos + 8))
        }
    } else if dt == DataType::Boolean {
        if bytes.len() - pos < 1 {
            Err(RecordError::Truncated)
        } else {
            Ok((ValueView::Boolean(bytes[pos] != 0), pos + 1))
        }
    } else if is_text_type(dt) {
        let len = u32_at(bytes, pos) as int;
        let text = bytes.subrange(pos + 4, pos + 4 + len);
        if bytes.len() - pos < 4 {
            Err(RecordError::Truncated)
        } else if bytes.len() - (pos + 4) < len {
            Err(RecordError::Truncated)
        } else if !valid_utf8(text) {
            Err(RecordError::BadUtf8)
        } else {
            Ok((ValueView::String(decode_utf8(text)), pos + 4 + len))
        }
    } else {
        Err(RecordError::UnsupportedType)
    }
}

/// What reading the first `k` values of a payload gives: the values and the
/// position after the last, or the error of the first value that has one. A
/// column whose bit is set in the bitmap is NULL and takes no bytes.
pub open spec fn values_decoding(bytes: Seq<u8>, cols: Seq<ColumnView>, k: nat) -> Result<
    (Seq<ValueView>, int),
    RecordError,
>
    decreases k,
{
    if k == 0 {
        Ok((Seq::<ValueView>::empty(), (8 + bitmap_len(cols.len())) as int))
    } else {
        match values_decoding(bytes, cols, (k - 1) as nat) {
            Err(e) => Err(e),
            Ok((values, pos)) => if bit_of(bytes[8 + (k - 1) / 8], (k - 1) % 8) {
                Ok((values.push(ValueView::Null), pos))
            } else {
                match value_decoding(bytes, pos, cols[k - 1].data_type) {
                    Err(e) => Err(e),
                    Ok((value, next)) => Ok((values.push(value), next)),
                }
            },
        }
    }
}

/// What reading a payload under a schema gives: the row's identifier and its
/// values in schema order, or why it cannot be read.
pub open spec fn record_decoding(bytes: Seq<u8>, cols: Seq<ColumnView>) -> Result<
    (u64, Seq<ValueView>),
    RecordError,
> {
    if bytes.len() < 8 {
        Err(RecordError::Truncated)
    } else if bytes.len() - 8 < bitmap_len(cols.len()) {
        Err(RecordError::Truncated)
    } else {
        match values_decoding(bytes, cols, cols.len()) {
            Err(e) => Err(e),
            Ok((values, end)) => Ok((u64_at(bytes, 0), values)),
        }
    }
}

/// The named values of a record that was read: the first `k` values put
/// under the names of their columns, one after the other.
pub open spec fn entries_from(cols: Seq<ColumnView>, values: Seq<ValueView>, k: nat) -> Entries
    decreases k,
{
    if k == 0 {
        Seq::<(Seq<char>, ValueView)>::empty()
    } else {
        put(entries_from(cols, values, (k - 1) as nat), cols[k - 1].name, values[k - 1])
    }
}

/// Once reading values has failed, reading more of them fails the same way.
pub proof fn lemma_decoding_error_stays(bytes: Seq<u8>, cols: Seq<ColumnView>, failed: nat, k: nat)
    requires
        failed <= k,
        values_decoding(bytes, cols, failed) is Err,
    ensures
        values_decoding(bytes, cols, k) == values_decoding(bytes, cols, failed),
    decreases k,
{
    if failed < k {
        lemma_decoding_error_stays(bytes, cols, failed, (k - 1) as nat);
    }
}

/// The first `k` values that were read do not depend on what comes after.
pub proof fn lemma_entries_from_prefix(
    cols: Seq<ColumnView>,
    a: Seq<ValueView>,
    b: Seq<ValueView>,
    k: nat,
)
    requires
        k <= a.len(),
        k <= b.len(),
        forall|j: int| 0 <= j < k ==> a[j] == b[j],
    ensures
        entries_from(cols, a, k) == entries_from(cols, b, k),
    decreases k,
{
    if k > 0 {
        lemma_entries_from_prefix(cols, a, b, (k - 1) as nat);
    }
}

/// Reads one value of the given type at `pos`.
fn read_value(payload: &[u8], pos: usize, data_type: DataType) -> (found: Result<
    (ASTValue, usize),
    RecordError,
>)
    requires
        pos <= payload@.len(),
    ensures
        match found {
            Ok((value, next)) => value_decoding(payload@, pos as int, data_type) == Ok::<
                (ValueView, int),
                RecordError,
            >((value@, next as int)) && next <= payload@.len(),
            Err(e) => value_decoding(payload@, pos as int, data_type) == Err::<
                (ValueView, int),
                RecordError,
            >(e),
        },
{
    let len = payload.len();
    match data_type {
        DataType::Integer => {
            if len - pos < 8 {
                return Err(RecordError::Truncated);
            }
            let v = read_u64(payload, pos) as i64;
            Ok((ASTValue::Int(v), pos + 8))
        },
        DataType::Float => {
            if len - pos < 8 {
                return Err(RecordError::Truncated);
            }
            let bits = read_u64(payload, pos);
            Ok((ASTValue::Float(bits), pos + 8))
        },
        DataType::Boolean => {
            if len - pos < 1 {
                return Err(RecordError::Truncated);
            }
            Ok((ASTValue::Boolean(payload[pos] != 0), pos + 1))
        },
        DataType::Text | DataType::Char | DataType::Blob | DataType::Json => {
            if len - pos < 4 {
                return Err(RecordError::Truncated);
            }
            let text_len = read_u32(payload, pos) as usize;
            if len - (pos + 4) < text_len {
                return Err(RecordError::Truncated);
            }
            match string_from_utf8(slice_subrange(payload, pos + 4, pos + 4 + text_len)) {
                Some(s) => Ok((ASTValue::String(s), pos + 4 + text_len)),
                None => Err(RecordError::BadUtf8),
            }
        },
        _ => Err(RecordError::UnsupportedType),
    }
}

/// Reads the payload of a page back into a row: the row's identifier and a
/// record that holds a value, NULL included, under the name of each column.
/// Bytes after the last value are not looked at.
#[verifier::loop_isolation(false)]
pub fn deserialize_record_for_page(payload: &[u8], columns: &[Column]) -> (found: Result<
    (u64, Record),
    RecordError,
>)
    ensures
        match found {
            Ok((row_id, record)) => {
                &&& record_decoding(payload@, column_views(columns@)) is Ok
                &&& row_id == record_decoding(payload@, column_views(columns@))->Ok_0.0
                &&& record.id == row_id
                &&& record.entries() == entries_from(
                    column_views(columns@),
                    record_decoding(payload@, column_views(columns@))->Ok_0.1,
                    columns@.len(),
                )
            },
            Err(e) => record_decoding(payload@, column_views(columns@)) == Err::<
                (u64, Seq<ValueView>),
                RecordError,
            >(e),
        },
{
    let n = columns.len();
    let len = payload.len();
    let nbytes = bitmap_bytes(n);
    let ghost cols = column_views(columns@);
    if len < 8 {
        return Err(RecordError::Truncated);
    }
    if len - 8 < nbytes {
        return Err(RecordError::Truncated);
    }
    let row_id = read_u64(payload, 0);
    let mut record = Record::new(row_id);
    let mut pos: usize = 8 + nbytes;
    let mut i: usize = 0;
    let ghost mut values = Seq::<ValueView>::empty();
    while i < n
        invariant
            i <= n,
            pos <= len,
            record.id == row_id,
            values.len() == i,
            values_decoding(payload@, cols, i as nat) == Ok::<(Seq<ValueView>, int), RecordError>(
                (values, pos as int),
            ),
            record.entries() == entries_from(cols, values, i as nat),
        decreases n - i,
    {
        let byte = i / 8;
        let bit = (i % 8) as u8;
        let ghost done = values;
        assert(cols[i as int] == columns@[i as int]@);
        if test_bit(payload[8 + byte], bit) {
            record.set_value(columns[i].name.as_str(), ASTValue::Null);
            proof {
                values = values.push(ValueView::Null);
            }
        } else {
            match read_value(payload, pos, columns[i].data_type) {
                Ok((value, next)) => {
                    proof {
                        values = values.push(value@);
                    }
                    record.set_value(columns[i].name.as_str(), value);
                    pos = next;
                },
                Err(e) => {
                    proof {
                        lemma_decoding_error_stays(payload@, cols, (i + 1) as nat, n as nat);
                    }
                    return Err(e);
                },
            }
        }
        proof {
            lemma_entries_from_prefix(cols, done, values, i as nat);
        }
        i += 1;
    }
    Ok((row_id, record))
}

/// Whether a row can be written under a schema: it has one value for each
/// column, and each value is NULL or of the kind of its column and short
/// enough to be written.
pub open spec fn row_fits(values: Seq<ValueView>, cols: Seq<ColumnView>) -> bool {
    &&& values.len() == cols.len()
    &&& forall|i: int|
        0 <= i < cols.len() ==> value_bytes(#[trigger] values[i], cols[i].data_type) is Ok
}

/// A row that fits its schema is written without error.
pub proof fn lemma_fitting_row_is_written(values: Seq<ValueView>, cols: Seq<ColumnView>, k: nat)
    requires
        row_fits(values, cols),
        k <= cols.len(),
    ensures
        values_bytes(values, cols, k) is Ok,
    decreases k,
{
    if k > 0 {
        lemma_fitting_row_is_written(values, cols, (k - 1) as nat);
        assert(value_bytes(values[k - 1], cols[k - 1].data_type) is Ok);
    }
}

/// A value that is not NULL and that stands at `pos` as its column writes
/// it is read back from there.
pub proof fn lemma_value_round_trip(bytes: Seq<u8>, pos: int, v: ValueView, dt: DataType)
    requires
        !(v is Null),
        value_bytes(v, dt) is Ok,
        0 <= pos,
        pos + value_bytes(v, dt)->Ok_0.len() <= bytes.len(),
        bytes.subrange(pos, pos + value_bytes(v, dt)->Ok_0.len()) == value_bytes(v, dt)->Ok_0,
    ensures
        value_decoding(bytes, pos, dt) == Ok::<(ValueView, int), RecordError>(
            (v, pos + value_bytes(v, dt)->Ok_0.len()),
        ),
{
    let vb = value_bytes(v, dt)->Ok_0;
    lemma_auto_spec_u32_to_from_le_bytes();
    lemma_auto_spec_u64_to_from_le_bytes();
    match v {
        ValueView::Null => {},
        ValueView::Int(i) => {
            assert(bytes.subrange(pos, pos + 8) =~= vb);
            let u = i as u64;
            assert(u as i64 == i) by (bit_vector)
                requires
                    u == i as u64,
            ;
        },
        ValueView::Float(bits) => {
            assert(bytes.subrange(pos, pos + 8) =~= vb);
        },
        ValueView::Boolean(b) => {
            assert(bytes[pos] == vb[0]);
        },
        ValueView::String(s) => {
            let n = encode_utf8(s).len() as int;
            let l = spec_u32_to_le_bytes(n as u32);
            assert(vb =~= Seq::<u8>::empty() + l + encode_utf8(s));
            lemma_u32_at(Seq::<u8>::empty(), n as u32, encode_utf8(s));
            assert(bytes.subrange(pos, pos + 4) =~= vb.subrange(0, 4));
            assert(vb =~= l + encode_utf8(s) + Seq::<u8>::empty());
            lemma_middle(l, encode_utf8(s), Seq::<u8>::empty());
            assert(bytes.subrange(pos + 4, pos + 4 + n) =~= vb.subrange(4, 4 + n));
            encode_utf8_valid_utf8(s);
            encode_utf8_decode_utf8(s);
        },
    }
}

/// The payload that a fitting row is written to.
pub open spec fn fitting_payload(row_id: u64, values: Seq<ValueView>, cols: Seq<ColumnView>) -> Seq<
    u8,
> {
    spec_u64_to_le_bytes(row_id) + null_bitmap(null_flags(values)) + values_bytes(
        values,
        cols,
        cols.len(),
    )->Ok_0
}

/// The bytes of the first values of a row stand at the front of the bytes
/// of all of them.
pub proof fn lemma_values_bytes_prefix(values: Seq<ValueView>, cols: Seq<ColumnView>, k: nat, n: nat)
    requires
        k <= n,
        values_bytes(values, cols, n) is Ok,
    ensures
        values_bytes(values, cols, k) is Ok,
        values_bytes(values, cols, k)->Ok_0.len() <= values_bytes(values, cols, n)->Ok_0.len(),
        values_bytes(values, cols, n)->Ok_0.subrange(
            0,
            values_bytes(values, cols, k)->Ok_0.len() as int,
        ) == values_bytes(values, cols, k)->Ok_0,
    decreases n,
{
    if k < n {
        lemma_values_bytes_prefix(values, cols, k, (n - 1) as nat);
        let front = values_bytes(values, cols, (n - 1) as nat)->Ok_0;
        let all = values_bytes(values, cols, n)->Ok_0;
        let part = values_bytes(values, cols, k)->Ok_0;
        assert(all.subrange(0, part.len() as int) =~= front.subrange(0, part.len() as int));
    } else {
        let all = values_bytes(values, cols, n)->Ok_0;
        assert(all.subrange(0, all.len() as int) =~= all);
    }
}

/// Reading the first `k` values of the payload of a fitting row gives those
/// values.
pub proof fn lemma_values_round_trip(
    row_id: u64,
    values: Seq<ValueView>,
    cols: Seq<ColumnView>,
    k: nat,
)
    requires
        row_fits(values, cols),
        k <= cols.len(),
    ensures
        values_bytes(values, cols, k) is Ok,
        values_decoding(fitting_payload(row_id, values, cols), cols, k) == Ok::<
            (Seq<ValueView>, int),
            RecordError,
        >(
            (
                values.take(k as int),
                (8 + bitmap_len(cols.len()) + values_bytes(values, cols, k)->Ok_0.len()) as int,
            ),
        ),
    decreases k,
{
    let n = cols.len();
    let payload = fitting_payload(row_id, values, cols);
    let flags = null_flags(values);
    let head = spec_u64_to_le_bytes(row_id);
    let bitmap = null_bitmap(flags);
    lemma_fitting_row_is_written(values, cols, n);
    lemma_fitting_row_is_written(values, cols, k);
    let all = values_bytes(values, cols, n)->Ok_0;
    lemma_auto_spec_u64_to_from_le_bytes();
    if k == 0 {
        assert(values.take(0) =~= Seq::<ValueView>::empty());
    } else {
        let i = (k - 1) as int;
        lemma_values_round_trip(row_id, values, cols, (k - 1) as nat);
        let front = values_bytes(values, cols, (k - 1) as nat)->Ok_0;
        let pos = (8 + bitmap_len(n) + front.len()) as int;
        assert(payload[8 + i / 8] == bitmap[i / 8]);
        assert(bitmap[i / 8] == bitmap_byte(flags, i / 8));
        lemma_bitmap_bit(flags, i);
        assert(flags[i] == (values[i] is Null));
        assert(values.take(k as int) =~= values.take(i).push(values[i]));
        if values[i] is Null {
            assert(values_bytes(values, cols, k)->Ok_0 =~= front);
        } else {
            let vb = value_bytes(values[i], cols[i].data_type)->Ok_0;
            let upto = values_bytes(values, cols, k)->Ok_0;
            assert(upto == front + vb);
            lemma_values_bytes_prefix(values, cols, k, n);
            assert(payload.subrange(pos, pos + vb.len()) =~= all.subrange(
                front.len() as int,
                (front.len() + vb.len()) as int,
            ));
            assert(all.subrange(front.len() as int, (front.len() + vb.len()) as int)
                =~= all.subrange(0, upto.len() as int).subrange(
                front.len() as int,
                (front.len() + vb.len()) as int,
            ));
            assert(upto.subrange(front.len() as int, (front.len() + vb.len()) as int) =~= vb);
            lemma_value_round_trip(payload, pos, values[i], cols[i].data_type);
        }
    }
}

/// Reading back the payload of a row that fits its schema gives the row's
/// identifier and its values, each as it went in.
pub proof fn lemma_record_round_trip(row_id: u64, values: Seq<ValueView>, cols: Seq<ColumnView>)
    requires
        row_fits(values, cols),
    ensures
        record_decoding(fitting_payload(row_id, values, cols), cols) == Ok::<
            (u64, Seq<ValueView>),
            RecordError,
        >((row_id, values)),
{
    let payload = fitting_payload(row_id, values, cols);
    let bitmap = null_bitmap(null_flags(values));
    lemma_values_round_trip(row_id, values, cols, cols.len());
    lemma_auto_spec_u64_to_from_le_bytes();
    let rest = bitmap + values_bytes(values, cols, cols.len())->Ok_0;
    assert(payload =~= Seq::<u8>::empty() + spec_u64_to_le_bytes(row_id) + rest);
    lemma_u64_at(Seq::<u8>::empty(), row_id, rest);
    assert(values.take(cols.len() as int) =~= values);
}

/// Whether no two columns of a schema have the same name.
pub open spec fn distinct_names(cols: Seq<ColumnView>) -> bool {
    forall|i: int, j: int|
        0 <= i < cols.len() && 0 <= j < cols.len() && i != j ==> (#[trigger] cols[i]).name != (
        #[trigger] cols[j]).name
}

/// Under a schema without a repeated name, the record that was read holds
/// under each column's name the value that was read for the column, and
/// nothing under any other name.
pub proof fn lemma_entries_from(
    cols: Seq<ColumnView>,
    values: Seq<ValueView>,
    k: nat,
    name: Seq<char>,
)
    requires
        distinct_names(cols),
        k <= cols.len(),
        k <= values.len(),
    ensures
        forall|i: int|
            0 <= i < k && (#[trigger] cols[i]).name == name ==> lookup(
                entries_from(cols, values, k),
                name,
            ) == Some(values[i]),
        (forall|i: int| 0 <= i < k ==> (#[trigger] cols[i]).name != name) ==> lookup(
            entries_from(cols, values, k),
            name,
        ) is None,
    decreases k,
{
    if k > 0 {
        lemma_entries_from(cols, values, (k - 1) as nat, name);
        crate::record::lemma_put(
            entries_from(cols, values, (k - 1) as nat),
            cols[k - 1].name,
            values[k - 1],
            name,
        );
    } else {
        crate::record::lemma_position(entries_from(cols, values, 0), name);
    }
}

/// Whether a record holds a value under the name of every column and under
/// no other name.
pub open spec fn names_match(entries: Entries, cols: Seq<ColumnView>) -> bool {
    &&& forall|i: int| 0 <= i < cols.len() ==> lookup(entries, (#[trigger] cols[i]).name) is Some
    &&& forall|name: Seq<char>| #[trigger]
        lookup(entries, name) is Some ==> exists|i: int|
            0 <= i < cols.len() && (#[trigger] cols[i]).name == name
}

/// A record that is consistent with its schema comes back from its payload
/// as it went in: the same identifier, and under every name the same value.
/// Consistent means that the schema repeats no name, that the record holds a
/// value under each column's name and under no other, and that each value
/// can be written in its column.
pub proof fn lemma_row_round_trip(row_id: u64, entries: Entries, cols: Seq<ColumnView>)
    requires
        distinct_names(cols),
        names_match(entries, cols),
        row_fits(row_values(entries, cols), cols),
    ensures
        record_payload(row_id, entries, cols) is Ok,
        record_decoding(record_payload(row_id, entries, cols)->Ok_0, cols) == Ok::<
            (u64, Seq<ValueView>),
            RecordError,
        >((row_id, row_values(entries, cols))),
        forall|name: Seq<char>|
            lookup(
                #[trigger] entries_from(cols, row_values(entries, cols), cols.len()),
                name,
            ) == lookup(entries, name),
{
    let values = row_values(entries, cols);
    lemma_fitting_row_is_written(values, cols, cols.len());
    lemma_record_round_trip(row_id, values, cols);
    assert forall|name: Seq<char>|
        lookup(#[trigger] entries_from(cols, values, cols.len()), name) == lookup(
            entries,
            name,
        ) by {
        lemma_entries_from(cols, values, cols.len(), name);
        if lookup(entries, name) is Some {
            let i = choose|i: int| 0 <= i < cols.len() && (#[trigger] cols[i]).name == name;
            assert(values[i] == value_for(entries, cols[i].name));
        } else {
            assert forall|i: int| 0 <= i < cols.len() implies (#[trigger] cols[i]).name != name by {
                assert(lookup(entries, cols[i].name) is Some);
            }
        }
    }
}

} // verus!
