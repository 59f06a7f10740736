use meridb::ast::Condition;
use meridb::error::RecordError;
use meridb::record::Record;
use meridb::record_codec::{deserialize_record_for_page, serialize_record_for_page};
use meridb::tokens::Operator;
use meridb::types::{Column, DataType};
use meridb::value::ASTValue;

fn create_test_record() -> Record {
    let mut record = Record::new(1);
    record.set_value("name", ASTValue::String("John".to_string()));
    record.set_value("age", ASTValue::Int(30));
    record
}

#[test]
fn record_test_record_creation() {
    let record = Record::new(1);
    assert_eq!(record.id, 1);
    assert!(record.data.is_empty());
}

#[test]
fn record_test_test_record_creation() {
    let record = Record::new(1);
    assert_eq!(record.id, 1);
    assert!(record.data.is_empty());

    let now = std::time::SystemTime::now()
        .duration_since(std::time::UNIX_EPOCH)
        .unwrap()
        .as_secs();
    assert!(record.timestamp <= now);
    assert!(record.timestamp + 60 >= now);
}

#[test]
fn record_test_record_value_operations() {
    let mut record = Record::new(1);
    record.set_value("name", ASTValue::String("John".to_string()));
    record.set_value("age", ASTValue::Int(30));

    assert_eq!(
        record.get_value("name"),
        Some(&ASTValue::String("John".to_string()))
    );
    assert_eq!(record.get_value("age"), Some(&ASTValue::Int(30)));
    assert_eq!(record.get_value("unknown"), None);
}

#[test]
fn record_test_test_record_value_operations() {
    let mut record = create_test_record();

    assert_eq!(
        record.get_value("name"),
        Some(&ASTValue::String("John".to_string()))
    );
    assert_eq!(record.get_value("age"), Some(&ASTValue::Int(30)));
    assert_eq!(record.get_value("unknown"), None);

    record.set_value("age", ASTValue::Int(31));
    assert_eq!(record.get_value("age"), Some(&ASTValue::Int(31)));
    assert_eq!(record.data.len(), 2);
}

#[test]
fn record_test_record_validation() {
    let mut record = Record::new(1);
    record.set_value("id", ASTValue::Int(1));
    record.set_value("name", ASTValue::String("John".to_string()));

    let columns = vec![
        Column::new("id".to_string(), DataType::Integer, false),
        Column::new("name".to_string(), DataType::Text, false),
        Column::new("age".to_string(), DataType::Integer, true),
    ];

    assert!(record.validate(&columns).is_ok());

    record.set_value("id", ASTValue::String("invalid".to_string()));
    assert!(record.validate(&columns).is_err());
}

#[test]
fn record_test_test_record_validation() {
    let mut record = create_test_record();

    let columns = vec![
        Column::new("name".to_string(), DataType::Text, false),
        Column::new("age".to_string(), DataType::Integer, false),
        Column::new("email".to_string(), DataType::Text, true),
    ];

    assert!(record.validate(&columns).is_ok());

    record.set_value("age", ASTValue::String("thirty".to_string()));
    assert!(record.validate(&columns).is_err());
    assert_eq!(record.validate(&columns), Err(RecordError::TypeMismatch));

    let mut incomplete_record = Record::new(2);
    incomplete_record.set_value("name", ASTValue::String("John".to_string()));
    assert!(incomplete_record.validate(&columns).is_err());
    assert_eq!(incomplete_record.validate(&columns), Err(RecordError::MissingColumn));
}

#[test]
fn test_record_null_values() {
    let mut record = Record::new(1);
    record.set_value("nullable_field", ASTValue::Null);

    let columns = vec![Column::new(
        "nullable_field".to_string(),
        DataType::Text,
        true,
    )];

    assert!(record.validate(&columns).is_ok());
}

#[test]
fn test_record_condition() {
    let record = create_test_record();

    let condition_true = Condition::Comparison {
        operator: Operator::AND,
        left: Box::new(Condition::Comparison {
            operator: Operator::EQUALS,
            left: Box::new(Condition::Column("name".to_string())),
            right: Box::new(Condition::Value(ASTValue::String("John".to_string()))),
        }),
        right: Box::new(Condition::Comparison {
            operator: Operator::GT,
            left: Box::new(Condition::Column("age".to_string())),
            right: Box::new(Condition::Value(ASTValue::Int(25))),
        }),
    };

    assert!(record.evaluate_condition(&condition_true));

    let condition_false = Condition::Comparison {
        operator: Operator::AND,
        left: Box::new(Condition::Comparison {
            operator: Operator::EQUALS,
            left: Box::new(Condition::Column("name".to_string())),
            right: Box::new(Condition::Value(ASTValue::String("John".to_string()))),
        }),
        right: Box::new(Condition::Comparison {
            operator: Operator::EQUALS,
            left: Box::new(Condition::Column("age".to_string())),
            right: Box::new(Condition::Value(ASTValue::Int(40))),
        }),
    };
    assert!(!record.evaluate_condition(&condition_false));
}

fn compare(left: ASTValue, operator: Operator, right: ASTValue) -> bool {
    let record = Record::new(1);
    record.evaluate_condition(&Condition::Comparison {
        operator,
        left: Box::new(Condition::Value(left)),
        right: Box::new(Condition::Value(right)),
    })
}

#[test]
fn conditions_compare_integers_and_texts_only() {
    assert!(compare(ASTValue::Int(1), Operator::LT, ASTValue::Int(2)));
    assert!(!compare(ASTValue::Int(2), Operator::LT, ASTValue::Int(2)));
    assert!(compare(ASTValue::Int(2), Operator::LTorE, ASTValue::Int(2)));
    assert!(compare(ASTValue::Int(3), Operator::GTorE, ASTValue::Int(2)));
    assert!(compare(ASTValue::Int(-3), Operator::NE, ASTValue::Int(2)));
    assert!(!compare(ASTValue::Int(1), Operator::PLUS, ASTValue::Int(1)));
    let a = || ASTValue::String("a".to_string());
    let b = || ASTValue::String("b".to_string());
    assert!(compare(a(), Operator::EQUALS, a()));
    assert!(compare(a(), Operator::NE, b()));
    assert!(!compare(a(), Operator::LT, b()));
    assert!(!compare(ASTValue::Boolean(true), Operator::EQUALS, ASTValue::Boolean(true)));
    assert!(!compare(ASTValue::Null, Operator::EQUALS, ASTValue::Null));
    assert!(!compare(ASTValue::Int(1), Operator::EQUALS, a()));

    let record = create_test_record();
    assert!(!record.evaluate_condition(&Condition::Column("name".to_string())));
    assert!(!record.evaluate_condition(&Condition::Value(ASTValue::Boolean(true))));
    let missing = Condition::Comparison {
        operator: Operator::EQUALS,
        left: Box::new(Condition::Column("nowhere".to_string())),
        right: Box::new(Condition::Value(ASTValue::Int(1))),
    };
    assert!(!record.evaluate_condition(&missing));
    let either = Condition::Comparison {
        operator: Operator::OR,
        left: Box::new(missing),
        right: Box::new(Condition::Comparison {
            operator: Operator::EQUALS,
            left: Box::new(Condition::Column("age".to_string())),
            right: Box::new(Condition::Value(ASTValue::Int(30))),
        }),
    };
    assert!(record.evaluate_condition(&either));
}

fn schema() -> Vec<Column> {
    vec![
        Column::new("a".to_string(), DataType::Integer, false),
        Column::new("b".to_string(), DataType::Text, true),
        Column::new("c".to_string(), DataType::Boolean, true),
        Column::new("d".to_string(), DataType::Float, true),
    ]
}

#[test]
fn payload_bytes() {
    let mut record = Record::new(0);
    record.set_value("a", ASTValue::Int(7));
    record.set_value("b", ASTValue::String("hi".to_string()));
    record.set_value("c", ASTValue::Boolean(true));
    let payload = serialize_record_for_page(0x0102, &record, &schema()).unwrap();
    let expected: Vec<u8> = vec![
        2, 1, 0, 0, 0, 0, 0, 0, // row id
        0b1000, // d is NULL
        7, 0, 0, 0, 0, 0, 0, 0, // a
        2, 0, 0, 0, b'h', b'i', // b
        1, // c
    ];
    assert_eq!(payload, expected);
}

#[test]
fn payload_round_trip() {
    let mut record = Record::new(0);
    record.set_value("a", ASTValue::Int(-5));
    record.set_value("b", ASTValue::Null);
    record.set_value("c", ASTValue::Boolean(false));
    record.set_value("d", ASTValue::Float(1.5f64.to_bits()));
    let payload = serialize_record_for_page(99, &record, &schema()).unwrap();
    let (row_id, back) = deserialize_record_for_page(&payload, &schema()).unwrap();
    assert_eq!(row_id, 99);
    assert_eq!(back.id, 99);
    assert_eq!(back.data, record.data);
    match back.get_value("d") {
        Some(ASTValue::Float(bits)) => assert_eq!(f64::from_bits(*bits), 1.5),
        other => panic!("{other:?}"),
    }
}

#[test]
fn payload_of_many_columns_has_a_bitmap_of_several_bytes() {
    let mut columns = Vec::new();
    let mut record = Record::new(0);
    for i in 0..19 {
        columns.push(Column::new(format!("c{i}"), DataType::Integer, true));
        if i % 3 == 0 {
            record.set_value(&format!("c{i}"), ASTValue::Int(i));
        }
    }
    let payload = serialize_record_for_page(1, &record, &columns).unwrap();
    // columns 0, 3, 6, 9, 12, 15, 18 hold a value, the others are NULL
    assert_eq!(&payload[8..11], &[0b1011_0110, 0b0110_1101, 0b0000_0011]);
    assert_eq!(payload.len(), 8 + 3 + 7 * 8);
    let (_, back) = deserialize_record_for_page(&payload, &columns).unwrap();
    for i in 0..19 {
        let expected = if i % 3 == 0 { ASTValue::Int(i) } else { ASTValue::Null };
        assert_eq!(back.get_value(&format!("c{i}")), Some(&expected));
    }
}

#[test]
fn serialize_errors() {
    let mut record = Record::new(0);
    record.set_value("a", ASTValue::String("seven".to_string()));
    assert_eq!(
        serialize_record_for_page(1, &record, &schema()),
        Err(RecordError::TypeMismatch)
    );
    let columns = vec![Column::new("a".to_string(), DataType::BigInt, false)];
    let mut record = Record::new(0);
    record.set_value("a", ASTValue::Int(1));
    assert_eq!(
        serialize_record_for_page(1, &record, &columns),
        Err(RecordError::TypeMismatch)
    );
    // NULL goes into any column, and a column that is not there is NULL
    let record = Record::new(0);
    assert_eq!(
        serialize_record_for_page(2, &record, &columns),
        Ok(vec![2, 0, 0, 0, 0, 0, 0, 0, 1])
    );
}

#[test]
fn deserialize_errors() {
    let columns = schema();
    assert_eq!(
        deserialize_record_for_page(&[0u8; 7], &columns).unwrap_err(),
        RecordError::Truncated
    );
    assert_eq!(
        deserialize_record_for_page(&[0u8; 8], &columns).unwrap_err(),
        RecordError::Truncated
    );
    // all four columns NULL
    let all_null = [0, 0, 0, 0, 0, 0, 0, 0, 0b1111];
    assert!(deserialize_record_for_page(&all_null, &columns).is_ok());
    // a is there but its bytes are not
    let cut = [0, 0, 0, 0, 0, 0, 0, 0, 0b1110, 1, 2, 3];
    assert_eq!(
        deserialize_record_for_page(&cut, &columns).unwrap_err(),
        RecordError::Truncated
    );
    // b with a length that goes past the end, and with bytes that are no UTF-8
    let long = [0, 0, 0, 0, 0, 0, 0, 0, 0b1101, 9, 0, 0, 0, b'x'];
    assert_eq!(
        deserialize_record_for_page(&long, &columns).unwrap_err(),
        RecordError::Truncated
    );
    let bad = [0, 0, 0, 0, 0, 0, 0, 0, 0b1101, 1, 0, 0, 0, 0xFF];
    assert_eq!(
        deserialize_record_for_page(&bad, &columns).unwrap_err(),
        RecordError::BadUtf8
    );
    let reserved = vec![Column::new("t".to_string(), DataType::Date, true)];
    assert_eq!(
        deserialize_record_for_page(&[0, 0, 0, 0, 0, 0, 0, 0, 0], &reserved).unwrap_err(),
        RecordError::UnsupportedType
    );
    // a truth value is any byte but 0
    let truth = vec![Column::new("c".to_string(), DataType::Boolean, true)];
    let (_, back) =
        deserialize_record_for_page(&[0, 0, 0, 0, 0, 0, 0, 0, 0, 2], &truth).unwrap();
    assert_eq!(back.get_value("c"), Some(&ASTValue::Boolean(true)));
}
