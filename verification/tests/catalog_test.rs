use meridb::catalog::FileCatalog;
use meridb::error::CatalogError;
use meridb::meta_codec::decode_meta;
use meridb::names::{is_valid_database_name, is_valid_ident};
use meridb::record::Record;
use meridb::schema_codec::decode_schema;
use meridb::store::TableStore;
use meridb::types::{Column, DataType, TupleLoc};
use meridb::value::ASTValue;

fn columns() -> Vec<Column> {
    vec![Column::new("a".to_string(), DataType::Integer, false)]
}

#[test]
fn names_of_tables() {
    assert!(is_valid_ident("users"));
    assert!(is_valid_ident("_u1"));
    assert!(is_valid_ident(&"a".repeat(128)));
    assert!(!is_valid_ident(&"a".repeat(129)));
    assert!(!is_valid_ident(""));
    assert!(!is_valid_ident("1st"));
    assert!(!is_valid_ident("a-b"));
    assert!(!is_valid_ident("a b"));
    assert!(!is_valid_ident("gr\u{fc}n"));
}

#[test]
fn names_of_databases() {
    assert!(is_valid_database_name("db1"));
    assert!(is_valid_database_name("1-a_B"));
    assert!(is_valid_database_name(&"-".repeat(128)));
    assert!(!is_valid_database_name(&"a".repeat(129)));
    assert!(!is_valid_database_name(""));
    assert!(!is_valid_database_name("a.b"));
    assert!(!is_valid_database_name("a/b"));
    assert!(!is_valid_database_name("\u{e9}"));
}

#[test]
fn plans() {
    let blob = FileCatalog::plan_database("db1", 5).unwrap();
    let meta = decode_meta(&blob).unwrap();
    assert_eq!((meta.name.as_str(), meta.created_at, meta.tables_count), ("db1", 5, 0));
    assert_eq!(
        FileCatalog::plan_database("no/slash", 5).unwrap_err(),
        CatalogError::InvalidName { name: "no/slash".to_string() }
    );

    let mut catalog = FileCatalog::new("data".to_string());
    assert_eq!(
        catalog.plan_table("t", &columns()).unwrap_err(),
        CatalogError::NoCurrentDatabase
    );
    catalog.select_database("db1");
    assert_eq!(catalog.current_db, Some("db1".to_string()));
    assert_eq!(
        catalog.plan_table("9t", &columns()).unwrap_err(),
        CatalogError::InvalidName { name: "9t".to_string() }
    );
    let blob = catalog.plan_table("t", &columns()).unwrap();
    assert_eq!(decode_schema(&blob).unwrap(), ("t".to_string(), columns()));
    assert_eq!(catalog.register_table(TableStore::new("t".to_string(), columns())), Ok(()));
    assert!(matches!(
        catalog.plan_table("t", &columns()),
        Err(CatalogError::AlreadyExists { .. })
    ));
    assert!(matches!(
        catalog.register_table(TableStore::new("t".to_string(), columns())),
        Err(CatalogError::AlreadyExists { .. })
    ));
    assert_eq!(catalog.tables.len(), 1);
    catalog.select_database("db2");
    assert!(catalog.tables.is_empty());
}

#[test]
fn rows_by_table_name() {
    let mut catalog = FileCatalog::new("data".to_string());
    catalog.select_database("db1");
    catalog.register_table(TableStore::new("t".to_string(), columns())).unwrap();
    catalog.register_table(TableStore::new("u".to_string(), columns())).unwrap();
    let mut record = Record::new(0);
    record.set_value("a", ASTValue::Int(1));

    assert_eq!(catalog.next_row_id("u"), Ok(1));
    assert_eq!(catalog.next_row_id("u"), Ok(2));
    assert_eq!(catalog.next_row_id("t"), Ok(1));
    assert_eq!(
        catalog.next_row_id("v"),
        Err(CatalogError::TableDoesNotExist { name: "v".to_string() })
    );
    let loc = TupleLoc { seg: 1, page_id: 0, slot_id: 0, flags: 0 };
    assert_eq!(catalog.append_record("u", 1, &record), Ok(loc));
    assert_eq!(catalog.get_tuple_loc("u", 1), Some(loc));
    assert_eq!(catalog.get_tuple_loc("t", 1), None);
    assert_eq!(catalog.get_tuple_loc("v", 1), None);
    record.set_value("a", ASTValue::Int(2));
    assert_eq!(catalog.update_record("u", loc, 1, &record), Ok(loc));
    assert_eq!(catalog.get_table("u").unwrap().scan(None).unwrap().len(), 1);
    assert_eq!(catalog.tombstone("u", loc), Ok(()));
    assert_eq!(catalog.get_tuple_loc("u", 1), None);
    assert!(catalog.get_table("t").unwrap().pages.is_empty());
    assert!(catalog.get_table("v").is_none());
    assert_eq!(
        catalog.append_record("v", 1, &record),
        Err(CatalogError::TableDoesNotExist { name: "v".to_string() })
    );
}

#[test]
fn a_table_that_is_there_is_named_with_its_path() {
    let mut catalog = FileCatalog::new("data".to_string());
    catalog.select_database("db1");
    assert_eq!(catalog.table_path("t"), "data/db1/tables/t");
    catalog.register_table(TableStore::new("t".to_string(), columns())).unwrap();
    let taken = CatalogError::AlreadyExists {
        name: "t".to_string(),
        path: "data/db1/tables/t".to_string(),
    };
    assert_eq!(catalog.plan_table("t", &columns()), Err(taken));
    let taken = CatalogError::AlreadyExists {
        name: "t".to_string(),
        path: "data/db1/tables/t".to_string(),
    };
    assert_eq!(catalog.register_table(TableStore::new("t".to_string(), columns())), Err(taken));
}

#[test]
fn a_column_of_no_type_is_refused() {
    let mut catalog = FileCatalog::new("data".to_string());
    catalog.select_database("db1");
    let columns = vec![
        Column::new("a".to_string(), DataType::Integer, false),
        Column::new("b".to_string(), DataType::Null, true),
    ];
    assert_eq!(catalog.plan_table("t", &columns), Err(CatalogError::UnknownTypeCode { code: 0 }));
    assert!(catalog.plan_table("t", &columns[..1].to_vec()).is_ok());
}
