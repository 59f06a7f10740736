use meridb::ast::{Assignment, Condition};
use meridb::catalog::FileCatalog;
use meridb::error::{CatalogError, RecordError};
use meridb::store::TableStore;
use meridb::tokens::Operator;
use meridb::types::{Column, DataType};
use meridb::value::ASTValue;

fn columns() -> Vec<Column> {
    vec![
        Column::new("a".to_string(), DataType::Integer, false),
        Column::new("b".to_string(), DataType::Text, true),
    ]
}

fn text(s: &str) -> ASTValue {
    ASTValue::String(s.to_string())
}

fn where_a_is(a: i64) -> Condition {
    Condition::Comparison {
        operator: Operator::EQUALS,
        left: Box::new(Condition::Column("a".to_string())),
        right: Box::new(Condition::Value(ASTValue::Int(a))),
    }
}

fn catalog() -> FileCatalog {
    let mut catalog = FileCatalog::new("data".to_string());
    catalog.select_database("db1");
    catalog.register_table(TableStore::new("t".to_string(), columns())).unwrap();
    catalog.register_table(TableStore::new("u".to_string(), columns())).unwrap();
    catalog
}

fn shown(catalog: &FileCatalog, table: &str) -> Vec<(ASTValue, ASTValue)> {
    let set = catalog.select(table, &vec!["*".to_string()], None).unwrap();
    assert_eq!(set.columns, vec!["a".to_string(), "b".to_string()]);
    let mut rows: Vec<(ASTValue, ASTValue)> = set
        .records
        .iter()
        .map(|r| (r.get_value("a").unwrap().clone(), r.get_value("b").unwrap().clone()))
        .collect();
    rows.sort_by_key(|r| match r.0 {
        ASTValue::Int(a) => a,
        _ => 0,
    });
    rows
}

fn no_table(name: &str) -> CatalogError {
    CatalogError::TableDoesNotExist { name: name.to_string() }
}

#[test]
fn statements_go_to_the_table_that_is_named() {
    let mut catalog = catalog();
    assert_eq!(catalog.insert("t", &vec![ASTValue::Int(7), text("hi")]), Ok(1));
    assert_eq!(catalog.insert("t", &vec![ASTValue::Int(8), ASTValue::Null]), Ok(2));
    assert_eq!(catalog.insert("u", &vec![ASTValue::Int(1), ASTValue::Null]), Ok(1));
    assert_eq!(
        shown(&catalog, "t"),
        vec![(ASTValue::Int(7), text("hi")), (ASTValue::Int(8), ASTValue::Null)]
    );
    assert_eq!(shown(&catalog, "u"), vec![(ASTValue::Int(1), ASTValue::Null)]);

    let set_b = vec![Assignment { column: "b".to_string(), value: text("ho") }];
    assert_eq!(catalog.update("t", &set_b, Some(&where_a_is(8))), Ok(1));
    assert_eq!(catalog.update("t", &set_b, Some(&where_a_is(9))), Ok(0));
    assert_eq!(
        shown(&catalog, "t"),
        vec![(ASTValue::Int(7), text("hi")), (ASTValue::Int(8), text("ho"))]
    );
    assert_eq!(shown(&catalog, "u"), vec![(ASTValue::Int(1), ASTValue::Null)]);

    assert_eq!(catalog.delete("t", Some(&where_a_is(7))), Ok(1));
    assert_eq!(shown(&catalog, "t"), vec![(ASTValue::Int(8), text("ho"))]);
    assert_eq!(catalog.delete("u", None), Ok(1));
    assert_eq!(shown(&catalog, "u"), vec![]);
    assert_eq!(catalog.insert("t", &vec![ASTValue::Int(10), text("x")]), Ok(3));
    assert_eq!(catalog.insert("u", &vec![ASTValue::Int(10), text("x")]), Ok(2));
}

#[test]
fn statements_on_a_table_that_is_not_there() {
    let mut catalog = catalog();
    assert_eq!(catalog.insert("v", &vec![ASTValue::Int(7), text("hi")]), Err(no_table("v")));
    assert_eq!(
        catalog.select("v", &vec!["*".to_string()], None).unwrap_err(),
        no_table("v")
    );
    assert_eq!(catalog.update("v", &vec![], None), Err(no_table("v")));
    assert_eq!(catalog.delete("v", None), Err(no_table("v")));
    assert_eq!(catalog.tables.len(), 2);
    assert!(catalog.tables.iter().all(|t| t.pages.is_empty()));
}

#[test]
fn what_a_table_refuses_is_passed_on() {
    let mut catalog = catalog();
    assert_eq!(
        catalog.insert("t", &vec![ASTValue::Int(7)]),
        Err(CatalogError::Record(RecordError::ColumnCountMismatch))
    );
    assert_eq!(
        catalog.insert("t", &vec![ASTValue::Null, ASTValue::Null]),
        Err(CatalogError::Record(RecordError::NotNullViolation))
    );
    assert_eq!(
        catalog.insert("t", &vec![text("7"), ASTValue::Null]),
        Err(CatalogError::Record(RecordError::TypeMismatch))
    );
    assert_eq!(catalog.insert("t", &vec![ASTValue::Int(7), ASTValue::Null]), Ok(1));
    assert_eq!(
        catalog.select("t", &vec!["a".to_string(), "c".to_string()], None).unwrap_err(),
        CatalogError::Record(RecordError::UnknownColumn)
    );
    assert_eq!(
        catalog.update(
            "t",
            &vec![Assignment { column: "c".to_string(), value: ASTValue::Null }],
            None
        ),
        Err(CatalogError::Record(RecordError::UnknownColumn))
    );
    assert_eq!(
        catalog.update(
            "t",
            &vec![Assignment { column: "a".to_string(), value: ASTValue::Null }],
            None
        ),
        Err(CatalogError::Record(RecordError::NotNullViolation))
    );
    assert_eq!(shown(&catalog, "t"), vec![(ASTValue::Int(7), ASTValue::Null)]);
}

#[test]
fn a_row_too_long_for_a_page_is_refused_and_uses_up_an_identifier() {
    let mut catalog = catalog();
    let long = "x".repeat(9000);
    assert_eq!(
        catalog.insert("t", &vec![ASTValue::Int(1), text(&long)]),
        Err(CatalogError::Page(meridb::error::PageError::PageFull))
    );
    assert_eq!(catalog.insert("t", &vec![ASTValue::Int(1), text("short")]), Ok(2));
    // a select of a heap that cannot be read gives the error of the scan
    let at = catalog.find_table("t").unwrap();
    catalog.tables[at].pages[0][0] = b'X';
    assert_eq!(
        catalog.select("t", &vec!["*".to_string()], None).unwrap_err(),
        CatalogError::Page(meridb::error::PageError::CorruptPage)
    );
}
