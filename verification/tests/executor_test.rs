use meridb::ast::{Assignment, ColumnDefinition, Condition};
use meridb::error::{CatalogError, PageError, RecordError};
use meridb::executor::{build_row, check_value, columns_from_definitions, project};
use meridb::record::Record;
use meridb::recovery::recover;
use meridb::store::TableStore;
use meridb::tokens;
use meridb::tokens::Operator;
use meridb::types::{Column, DataType};
use meridb::value::ASTValue;

fn text(s: &str) -> ASTValue {
    ASTValue::String(s.to_string())
}

fn table() -> TableStore {
    TableStore::new(
        "t".to_string(),
        vec![
            Column::new("a".to_string(), DataType::Integer, false),
            Column::new("b".to_string(), DataType::Text, true),
        ],
    )
}

fn two_rows() -> TableStore {
    let mut t = table();
    assert_eq!(t.insert(&vec![ASTValue::Int(7), text("hi")]), Ok(1));
    assert_eq!(t.insert(&vec![ASTValue::Int(8), ASTValue::Null]), Ok(2));
    t
}

fn where_row_is(a: i64) -> Condition {
    Condition::Comparison {
        operator: Operator::EQUALS,
        left: Box::new(Condition::Column("a".to_string())),
        right: Box::new(Condition::Value(ASTValue::Int(a))),
    }
}

fn all(t: &TableStore) -> Vec<(ASTValue, ASTValue)> {
    let set = t.select(&vec!["a".to_string(), "b".to_string()], None).unwrap();
    assert_eq!(set.columns, vec!["a".to_string(), "b".to_string()]);
    let mut rows: Vec<(ASTValue, ASTValue)> = set
        .records
        .iter()
        .map(|r| (r.get_value("a").unwrap().clone(), r.get_value("b").unwrap().clone()))
        .collect();
    rows.sort_by_key(|r| match r.0 {
        ASTValue::Int(a) => a,
        _ => 0,
    });
    rows
}

#[test]
fn statements_create_insert_select() {
    let t = two_rows();
    assert_eq!(
        all(&t),
        vec![(ASTValue::Int(7), text("hi")), (ASTValue::Int(8), ASTValue::Null)]
    );
    let star = t.select(&vec!["*".to_string()], None).unwrap();
    assert_eq!(star.columns, vec!["a".to_string(), "b".to_string()]);
    assert_eq!(star.records.len(), 2);
    let only_b = t.select(&vec!["b".to_string()], Some(&where_row_is(7))).unwrap();
    assert_eq!(only_b.records.len(), 1);
    assert_eq!(only_b.records[0].data, vec![("b".to_string(), text("hi"))]);
    assert_eq!(only_b.records[0].id, 0);
    assert_eq!(
        t.select(&vec!["c".to_string()], None).unwrap_err(),
        CatalogError::Record(RecordError::UnknownColumn)
    );
}

#[test]
fn statement_updates_in_place() {
    let mut t = two_rows();
    let before = t.get_tuple_loc(1);
    let set_a = vec![Assignment { column: "a".to_string(), value: ASTValue::Int(9) }];
    assert_eq!(t.update_where(&set_a, Some(&where_row_is(7))), Ok(1));
    assert_eq!(t.get_tuple_loc(1), before);
    assert_eq!(
        all(&t),
        vec![(ASTValue::Int(8), ASTValue::Null), (ASTValue::Int(9), text("hi"))]
    );
}

#[test]
fn statement_update_relocates() {
    let mut t = two_rows();
    let before = t.get_tuple_loc(1).unwrap();
    let long = "a much longer string than before";
    let set_b = vec![Assignment { column: "b".to_string(), value: text(long) }];
    assert_eq!(t.update_where(&set_b, Some(&where_row_is(7))), Ok(1));
    let after = t.get_tuple_loc(1).unwrap();
    assert_ne!(after, before);
    assert_eq!(
        all(&t),
        vec![(ASTValue::Int(7), text(long)), (ASTValue::Int(8), ASTValue::Null)]
    );
    let slots = meridb::page::iter_slots(&t.pages[before.page_id as usize]).unwrap();
    assert_eq!(slots[before.slot_id as usize].2, 1);
}

#[test]
fn statements_delete_and_insert_again() {
    let mut t = two_rows();
    assert_eq!(t.delete_where(Some(&where_row_is(7))), Ok(1));
    assert_eq!(all(&t), vec![(ASTValue::Int(8), ASTValue::Null)]);
    assert_eq!(t.insert(&vec![ASTValue::Int(10), text("x")]), Ok(3));
    assert_eq!(
        all(&t),
        vec![(ASTValue::Int(8), ASTValue::Null), (ASTValue::Int(10), text("x"))]
    );
    assert_eq!(t.delete_where(None), Ok(2));
    assert!(all(&t).is_empty());
    assert_eq!(t.delete_where(None), Ok(0));
}

#[test]
fn statements_survive_recovery() {
    let mut t = two_rows();
    let long = "a much longer string than before";
    let set_b = vec![Assignment { column: "b".to_string(), value: text(long) }];
    t.update_where(&set_b, Some(&where_row_is(7))).unwrap();
    let (back, single) = recover(t.name.clone(), t.columns.clone(), t.pages.clone()).unwrap();
    assert!(single);
    assert_eq!(
        all(&back),
        vec![(ASTValue::Int(7), text(long)), (ASTValue::Int(8), ASTValue::Null)]
    );
    assert_eq!(back.state.next_row_id, 3);
}

#[test]
fn insert_checks_the_values() {
    let mut t = table();
    assert_eq!(
        t.insert(&vec![ASTValue::Int(1)]),
        Err(CatalogError::Record(RecordError::ColumnCountMismatch))
    );
    assert_eq!(
        t.insert(&vec![ASTValue::Null, text("x")]),
        Err(CatalogError::Record(RecordError::NotNullViolation))
    );
    assert_eq!(
        t.insert(&vec![text("one"), text("x")]),
        Err(CatalogError::Record(RecordError::TypeMismatch))
    );
    assert_eq!(
        t.insert(&vec![ASTValue::Int(1), ASTValue::Boolean(true)]),
        Err(CatalogError::Record(RecordError::TypeMismatch))
    );
    // none of these used up a row identifier
    assert_eq!(t.insert(&vec![ASTValue::Int(1), ASTValue::Null]), Ok(1));
    // a row that is too long does
    assert_eq!(
        t.insert(&vec![ASTValue::Int(2), text(&"x".repeat(9000))]),
        Err(CatalogError::Page(PageError::PageFull))
    );
    assert_eq!(t.insert(&vec![ASTValue::Int(3), ASTValue::Null]), Ok(3));
}

#[test]
fn values_and_column_types() {
    let column = |dt: DataType, nullable: bool| Column::new("c".to_string(), dt, nullable);
    for dt in [DataType::Text, DataType::Char, DataType::Blob, DataType::Json] {
        assert_eq!(check_value(&text("x"), &column(dt, false)), Ok(()));
        assert_eq!(check_value(&ASTValue::Int(1), &column(dt, false)), Err(RecordError::TypeMismatch));
    }
    assert_eq!(check_value(&ASTValue::Int(1), &column(DataType::Integer, false)), Ok(()));
    assert_eq!(check_value(&ASTValue::Float(0), &column(DataType::Float, false)), Ok(()));
    assert_eq!(check_value(&ASTValue::Boolean(true), &column(DataType::Boolean, false)), Ok(()));
    assert_eq!(
        check_value(&ASTValue::Int(1), &column(DataType::BigInt, false)),
        Err(RecordError::TypeMismatch)
    );
    assert_eq!(
        check_value(&ASTValue::Float(0), &column(DataType::Double, true)),
        Err(RecordError::TypeMismatch)
    );
    assert_eq!(check_value(&ASTValue::Null, &column(DataType::Date, true)), Ok(()));
    assert_eq!(
        check_value(&ASTValue::Null, &column(DataType::Date, false)),
        Err(RecordError::NotNullViolation)
    );
}

#[test]
fn rows_are_built_in_schema_order() {
    let columns = table().columns;
    let record = build_row(&columns, &vec![ASTValue::Int(5), text("five")]).unwrap();
    assert_eq!(
        record.data,
        vec![("a".to_string(), ASTValue::Int(5)), ("b".to_string(), text("five"))]
    );
    assert_eq!(record.id, 0);
}

#[test]
fn update_errors() {
    let mut t = two_rows();
    let unknown = vec![Assignment { column: "z".to_string(), value: ASTValue::Int(1) }];
    assert_eq!(
        t.update_where(&unknown, None),
        Err(CatalogError::Record(RecordError::UnknownColumn))
    );
    let wrong = vec![Assignment { column: "a".to_string(), value: text("nine") }];
    assert_eq!(
        t.update_where(&wrong, None),
        Err(CatalogError::Record(RecordError::TypeMismatch))
    );
    let null = vec![Assignment { column: "a".to_string(), value: ASTValue::Null }];
    assert_eq!(
        t.update_where(&null, None),
        Err(CatalogError::Record(RecordError::NotNullViolation))
    );
    // where no row passes nothing is checked
    assert_eq!(t.update_where(&wrong, Some(&where_row_is(99))), Ok(0));
    assert_eq!(
        all(&t),
        vec![(ASTValue::Int(7), text("hi")), (ASTValue::Int(8), ASTValue::Null)]
    );
    // every row where there is no clause
    let both = vec![
        Assignment { column: "b".to_string(), value: text("same") },
        Assignment { column: "a".to_string(), value: ASTValue::Int(0) },
    ];
    assert_eq!(t.update_where(&both, None), Ok(2));
    assert_eq!(
        all(&t),
        vec![(ASTValue::Int(0), text("same")), (ASTValue::Int(0), text("same"))]
    );
}

#[test]
fn many_rows_over_several_pages() {
    let mut t = table();
    for i in 0..1000 {
        assert_eq!(t.insert(&vec![ASTValue::Int(i), text(&format!("Test{i}"))]), Ok(i as u64 + 1));
    }
    assert!(t.pages.len() > 1);
    assert_eq!(t.select(&vec!["*".to_string()], None).unwrap().records.len(), 1000);
    // make every other row longer, delete every row with a < 100
    let longer = vec![Assignment { column: "b".to_string(), value: text(&"y".repeat(40)) }];
    let big = Condition::Comparison {
        operator: Operator::GTorE,
        left: Box::new(Condition::Column("a".to_string())),
        right: Box::new(Condition::Value(ASTValue::Int(500))),
    };
    assert_eq!(t.update_where(&longer, Some(&big)), Ok(500));
    let small = Condition::Comparison {
        operator: Operator::LT,
        left: Box::new(Condition::Column("a".to_string())),
        right: Box::new(Condition::Value(ASTValue::Int(100))),
    };
    assert_eq!(t.delete_where(Some(&small)), Ok(100));
    let rows = all(&t);
    assert_eq!(rows.len(), 900);
    for (i, row) in rows.iter().enumerate() {
        let a = i as i64 + 100;
        assert_eq!(row.0, ASTValue::Int(a));
        if a >= 500 {
            assert_eq!(row.1, text(&"y".repeat(40)));
        } else {
            assert_eq!(row.1, text(&format!("Test{a}")));
        }
    }
    let (back, single) = recover(t.name.clone(), t.columns.clone(), t.pages.clone()).unwrap();
    assert!(single);
    assert_eq!(back.state.row_index, t.state.row_index);
    assert_eq!(back.state.free_space, t.state.free_space);
    assert_eq!(back.state.next_row_id, 1001);
}

#[test]
fn projection() {
    let mut record = Record::new(4);
    record.set_value("a", ASTValue::Int(1));
    record.set_value("b", text("x"));
    let shown = project(&record, &vec!["b".to_string(), "a".to_string(), "b".to_string()]).unwrap();
    assert_eq!(
        shown.data,
        vec![("b".to_string(), text("x")), ("a".to_string(), ASTValue::Int(1))]
    );
    assert_eq!(
        project(&record, &vec!["c".to_string()]).unwrap_err(),
        RecordError::MissingColumn
    );
}

#[test]
fn columns_of_a_create_table() {
    let word = |s: &str| -> Vec<char> { s.chars().collect() };
    let definitions = vec![
        ColumnDefinition {
            column_name: "id".to_string(),
            column_type: tokens::DataType::INTEGER,
            columns_constraints: vec![word("PRIMARY"), word("KEY")],
        },
        ColumnDefinition {
            column_name: "name".to_string(),
            column_type: tokens::DataType::TEXT,
            columns_constraints: vec![word("NOT"), word("NULL")],
        },
        ColumnDefinition {
            column_name: "born".to_string(),
            column_type: tokens::DataType::DATE,
            columns_constraints: vec![],
        },
    ];
    assert_eq!(
        columns_from_definitions(&definitions),
        vec![
            Column::new("id".to_string(), DataType::Integer, false),
            Column::new("name".to_string(), DataType::Text, true),
            Column::new("born".to_string(), DataType::Date, false),
        ]
    );
    assert_eq!(DataType::from(tokens::DataType::MEDIUMINT), DataType::MediumInt);
}

#[test]
fn an_update_fails_for_a_row_that_fits_no_page() {
    let mut t = two_rows();
    let long = Assignment { column: "b".to_string(), value: text(&"x".repeat(9000)) };
    assert_eq!(
        t.update_where(&vec![long], Some(&where_row_is(8))),
        Err(CatalogError::Page(PageError::PageFull))
    );
    assert_eq!(t.state.next_row_id, 3);
    assert_eq!(all(&t), vec![(ASTValue::Int(7), text("hi")), (ASTValue::Int(8), ASTValue::Null)]);
    assert!(t.check());

    // rows that fit their slots are updated whatever room there is
    let short = Assignment { column: "b".to_string(), value: text("ho") };
    assert_eq!(t.update_where(&vec![short], Some(&where_row_is(7))), Ok(1));
    assert_eq!(t.state.next_row_id, 3);
    assert_eq!(t.delete_where(None), Ok(2));
    assert_eq!(t.state.next_row_id, 3);
    assert!(t.check());
}
