use meridb::error::CatalogError;
use meridb::meta_codec::{decode_meta, encode_meta};
use meridb::schema_codec::{data_type_from_code, data_type_to_code, decode_schema, encode_schema};
use meridb::types::{Column, DataType};

#[test]
fn meta_blob_bytes() {
    let blob = encode_meta("db1", 1700000000, 2);
    let expected: Vec<u8> = vec![
        77, 68, 66, 48, 1, 0, 0, 0, 0, 241, 83, 101, 0, 0, 0, 0, 3, 0, 100, 98, 49, 2, 0, 0, 0, 0,
        0, 0, 0, 121, 134, 140, 191,
    ];
    assert_eq!(blob, expected);
}

#[test]
fn meta_round_trip() {
    let names = ["", "db1", "with-dash_and_underscore", "gr\u{fc}n"];
    for name in names {
        let blob = encode_meta(name, 42, 7);
        assert_eq!(blob.len(), 30 + name.len());
        let meta = decode_meta(&blob).unwrap();
        assert_eq!(meta.name, name);
        assert_eq!(meta.created_at, 42);
        assert_eq!(meta.version, 1);
        assert_eq!(meta.tables_count, 7);
    }
}

#[test]
fn meta_any_changed_byte_is_refused() {
    let blob = encode_meta("db1", 1700000000, 2);
    for at in 0..blob.len() {
        let mut bad = blob.clone();
        bad[at] ^= 0x01;
        assert!(decode_meta(&bad).is_err(), "byte {at}");
    }
    let mut bad = blob.clone();
    let last = bad.len() - 1;
    bad[last] ^= 0xFF;
    assert!(matches!(decode_meta(&bad), Err(CatalogError::ChecksumMismatch { .. })));
}

#[test]
fn meta_errors() {
    assert_eq!(
        decode_meta(&[0u8; 29]).unwrap_err(),
        CatalogError::MetaTooShort { min: 30, actual: 29 }
    );
    assert_eq!(decode_meta(&[0u8; 30]).unwrap_err(), CatalogError::BadMagic);
    let mut blob = encode_meta("db1", 1, 0);
    blob[4] = 0;
    assert_eq!(decode_meta(&blob).unwrap_err(), CatalogError::BadVersion { version: 0 });
    let mut blob = encode_meta("db1", 1, 0);
    blob[16] = 200;
    assert_eq!(decode_meta(&blob).unwrap_err(), CatalogError::Truncated);
    let mut blob = encode_meta("db1", 1, 0);
    blob[18] = 0xFF;
    assert_eq!(decode_meta(&blob).unwrap_err(), CatalogError::BadUtf8);
    let mut blob = encode_meta("db1", 1, 0);
    blob[21] = 9;
    let expected = u32::from_le_bytes([blob[29], blob[30], blob[31], blob[32]]);
    match decode_meta(&blob).unwrap_err() {
        CatalogError::ChecksumMismatch { expected: e, got } => {
            assert_eq!(got, expected);
            assert_ne!(e, got);
        }
        other => panic!("{other:?}"),
    }
}

#[test]
fn meta_refuses_every_version_but_its_own() {
    let mut blob = encode_meta("db1", 1, 0);
    blob[4] = 2;
    let body_len = blob.len() - 4;
    let crc = crc32fast::hash(&blob[..body_len]);
    blob[body_len..].copy_from_slice(&crc.to_le_bytes());
    assert_eq!(decode_meta(&blob).unwrap_err(), CatalogError::BadVersion { version: 2 });
    let mut blob = encode_meta("db1", 1, 0);
    blob[7] = 1;
    assert_eq!(decode_meta(&blob).unwrap_err(), CatalogError::BadVersion { version: 0x0100_0001 });
    assert_eq!(decode_meta(&encode_meta("db1", 1, 0)).unwrap().version, 1);
}

#[test]
fn schema_blob_bytes() {
    let columns = vec![
        Column::new("a".to_string(), DataType::Integer, false),
        Column::new("b".to_string(), DataType::Text, true),
    ];
    let blob = encode_schema("t", &columns);
    let expected: Vec<u8> = vec![
        84, 66, 76, 48, 1, 0, 0, 0, 1, 0, 116, 2, 0, 1, 0, 97, 1, 0, 0, 0, 1, 0, 98, 3, 0, 1, 0, 0,
        0, 0, 0, 119, 75, 94, 67,
    ];
    assert_eq!(blob, expected);
}

#[test]
fn schema_round_trip() {
    let all = [
        DataType::Integer,
        DataType::Float,
        DataType::Text,
        DataType::Boolean,
        DataType::Date,
        DataType::Time,
        DataType::Timestamp,
        DataType::DateTime,
        DataType::Char,
        DataType::Blob,
        DataType::Json,
        DataType::Decimal,
        DataType::Double,
        DataType::Real,
        DataType::Numeric,
        DataType::TinyInt,
        DataType::SmallInt,
        DataType::MediumInt,
        DataType::BigInt,
    ];
    let mut columns = Vec::new();
    for (i, dt) in all.iter().enumerate() {
        columns.push(Column::new(format!("c{i}"), *dt, i % 2 == 0));
    }
    let blob = encode_schema("events", &columns);
    let (name, decoded) = decode_schema(&blob).unwrap();
    assert_eq!(name, "events");
    assert_eq!(decoded, columns);

    let (name, decoded) = decode_schema(&encode_schema("", &[])).unwrap();
    assert_eq!(name, "");
    assert!(decoded.is_empty());
}

#[test]
fn type_codes() {
    assert_eq!(data_type_to_code(&DataType::Integer), 1);
    assert_eq!(data_type_to_code(&DataType::Float), 2);
    assert_eq!(data_type_to_code(&DataType::Text), 3);
    assert_eq!(data_type_to_code(&DataType::Boolean), 4);
    assert_eq!(data_type_to_code(&DataType::Json), 11);
    assert_eq!(data_type_to_code(&DataType::BigInt), 19);
    assert_eq!(data_type_to_code(&DataType::Null), 0);
    assert_eq!(data_type_from_code(9), Ok(DataType::Char));
    assert_eq!(data_type_from_code(0), Err(CatalogError::UnknownTypeCode { code: 0 }));
    assert_eq!(data_type_from_code(20), Err(CatalogError::UnknownTypeCode { code: 20 }));
}

#[test]
fn schema_errors() {
    assert_eq!(
        decode_schema(&[0u8; 19]).unwrap_err(),
        CatalogError::MetaTooShort { min: 20, actual: 19 }
    );
    assert_eq!(decode_schema(&[0u8; 20]).unwrap_err(), CatalogError::BadMagic);
    let columns = vec![Column::new("a".to_string(), DataType::Integer, false)];
    let good = encode_schema("t", &columns);
    let mut blob = good.clone();
    blob[4] = 2;
    assert_eq!(decode_schema(&blob).unwrap_err(), CatalogError::BadVersion { version: 2 });
    let mut blob = good.clone();
    blob[8] = 200;
    assert_eq!(decode_schema(&blob).unwrap_err(), CatalogError::Truncated);
    let mut blob = good.clone();
    blob[10] = 0xFF;
    assert_eq!(decode_schema(&blob).unwrap_err(), CatalogError::BadUtf8);
    let mut blob = good.clone();
    blob[13] = 200;
    assert_eq!(decode_schema(&blob).unwrap_err(), CatalogError::Truncated);
    let mut blob = good.clone();
    blob[11] = 9;
    assert_eq!(decode_schema(&blob).unwrap_err(), CatalogError::UnknownTypeCode { code: 0 });
    assert_eq!(decode_schema(&good[..good.len() - 1]).unwrap_err(), CatalogError::Truncated);
    let mut blob = good.clone();
    blob[16] = 77;
    assert_eq!(decode_schema(&blob).unwrap_err(), CatalogError::UnknownTypeCode { code: 77 });
    let mut blob = good.clone();
    blob[18] = 1;
    assert!(matches!(decode_schema(&blob), Err(CatalogError::ChecksumMismatch { .. })));
    let with_null = encode_schema("t", &[Column::new("n".to_string(), DataType::Null, true)]);
    assert_eq!(decode_schema(&with_null).unwrap_err(), CatalogError::UnknownTypeCode { code: 0 });
}

#[test]
fn schema_any_changed_byte_is_refused() {
    let columns = vec![
        Column::new("a".to_string(), DataType::Integer, false),
        Column::new("b".to_string(), DataType::Text, true),
    ];
    let blob = encode_schema("t", &columns);
    for at in 0..blob.len() {
        let mut bad = blob.clone();
        bad[at] ^= 0x10;
        assert!(decode_schema(&bad).is_err(), "byte {at}");
    }
}
