use meridb::catalog::FileCatalog;
use meridb::error::{CatalogError, PageError, RecordError};
use meridb::meta_codec::encode_meta;
use meridb::open::{MetaFile, TableFiles};
use meridb::page::iter_slots;
use meridb::record::Record;
use meridb::recovery::recover;
use meridb::repair::reopen;
use meridb::schema_codec::encode_schema;
use meridb::store::TableStore;
use meridb::types::{Column, DataType, TupleLoc};
use meridb::value::ASTValue;

fn columns() -> Vec<Column> {
    vec![
        Column::new("a".to_string(), DataType::Integer, false),
        Column::new("b".to_string(), DataType::Text, true),
    ]
}

fn row(a: i64, b: Option<&str>) -> Record {
    let mut record = Record::new(0);
    record.set_value("a", ASTValue::Int(a));
    record.set_value(
        "b",
        match b {
            Some(text) => ASTValue::String(text.to_string()),
            None => ASTValue::Null,
        },
    );
    record
}

fn loc(page_id: u32, slot_id: u16) -> TupleLoc {
    TupleLoc { seg: 1, page_id, slot_id, flags: 0 }
}

fn values(store: &TableStore) -> Vec<(u64, i64, Option<String>)> {
    let mut out: Vec<(u64, i64, Option<String>)> = store
        .scan(None)
        .unwrap()
        .into_iter()
        .map(|found| {
            let a = match found.record.get_value("a") {
                Some(ASTValue::Int(a)) => *a,
                other => panic!("{other:?}"),
            };
            let b = match found.record.get_value("b") {
                Some(ASTValue::String(b)) => Some(b.clone()),
                Some(ASTValue::Null) => None,
                other => panic!("{other:?}"),
            };
            assert_eq!(store.get_tuple_loc(found.row_id), Some(found.loc));
            (found.row_id, a, b)
        })
        .collect();
    out.sort();
    out
}

fn flags(page: &[u8]) -> Vec<u8> {
    iter_slots(page).unwrap().iter().map(|slot| slot.2).collect()
}

fn two_rows() -> TableStore {
    let mut store = TableStore::new("t".to_string(), columns());
    let first = store.next_row_id();
    store.append_record(first, &row(7, Some("hi"))).unwrap();
    let second = store.next_row_id();
    store.append_record(second, &row(8, None)).unwrap();
    store
}

/// The heap of an update of row 1 that was cut short: the new version is
/// written and the old one is not tombstoned.
fn cut_short() -> Vec<Vec<u8>> {
    let mut store = two_rows();
    assert_eq!(
        store.append_record(1, &row(7, Some("a much longer string than before"))),
        Ok(loc(0, 2))
    );
    assert_eq!(flags(&store.pages[0]), vec![0, 0, 0]);
    store.pages
}

fn meta_file(path: &str, name: &str) -> MetaFile {
    MetaFile { path: path.to_string(), bytes: encode_meta(name, 1_700_000_000, 0) }
}

fn table_files(name: &str, pages: Vec<Vec<u8>>) -> TableFiles {
    TableFiles {
        name: name.to_string(),
        path: format!("root/db1/tables/{}", name),
        schema: encode_schema(name, &columns()),
        pages,
    }
}

fn is_invalid(e: &CatalogError, at: &str, cause: &CatalogError) -> bool {
    match e {
        CatalogError::InvalidMetadata { path, source } => path == at && **source == *cause,
        _ => false,
    }
}

#[test]
fn a_clean_heap_is_reopened_as_it_is() {
    let store = two_rows();
    let pages = store.pages.clone();
    let (again, mended) = reopen("t".to_string(), columns(), store.pages).unwrap();
    assert!(!mended);
    assert_eq!(again.pages, pages);
    assert_eq!(values(&again), vec![(1, 7, Some("hi".to_string())), (2, 8, None)]);
    assert_eq!(again.state.next_row_id, 3);
    assert_eq!(again.state.next_page_id, 1);
}

#[test]
fn a_superseded_version_is_tombstoned_when_the_table_is_reopened() {
    let pages = cut_short();
    let (found, single) = recover("t".to_string(), columns(), pages.clone()).unwrap();
    assert!(!single);
    assert_eq!(found.get_tuple_loc(1), Some(loc(0, 2)));
    assert_eq!(found.pages, pages);

    let (mut store, mended) = reopen("t".to_string(), columns(), pages.clone()).unwrap();
    assert!(mended);
    assert_eq!(flags(&store.pages[0]), vec![1, 0, 0]);
    assert_eq!(store.get_tuple_loc(1), Some(loc(0, 2)));
    assert_eq!(store.get_tuple_loc(2), Some(loc(0, 1)));
    assert_eq!(
        values(&store),
        vec![(1, 7, Some("a much longer string than before".to_string())), (2, 8, None)]
    );
    assert_eq!(store.state.next_row_id, 3);
    assert_eq!(store.state.free_space[&0], found.state.free_space[&0]);
    // only the flags of the superseded slot differ
    let changed: Vec<usize> = (0..pages[0].len()).filter(|i| pages[0][*i] != store.pages[0][*i]).collect();
    assert_eq!(changed.len(), 1);
    assert_eq!(store.pages[0][changed[0]], 1);

    // what is reopened is as good as what was never cut short
    let (_, single) = recover("t".to_string(), columns(), store.pages.clone()).unwrap();
    assert!(single);
    assert_eq!(store.update_record(loc(0, 2), 1, &row(1, None)), Ok(loc(0, 2)));
    assert_eq!(store.insert(&vec![ASTValue::Int(3), ASTValue::Null]), Ok(3));
    assert_eq!(values(&store), vec![(1, 1, None), (2, 8, None), (3, 3, None)]);
}

#[test]
fn reopening_fails_as_recovery_does() {
    let mut pages = two_rows().pages;
    pages[0][0] = b'X';
    assert_eq!(
        reopen("t".to_string(), columns(), pages).unwrap_err(),
        CatalogError::Page(PageError::CorruptPage)
    );
    let other = vec![Column::new("a".to_string(), DataType::Date, false)];
    assert_eq!(
        reopen("t".to_string(), other, two_rows().pages).unwrap_err(),
        CatalogError::Record(RecordError::UnsupportedType)
    );
}

#[test]
fn databases_are_listed_by_their_stored_names() {
    let files = vec![
        meta_file("root/z/metadata.mdb", "zeta"),
        meta_file("root/a/metadata.mdb", "alpha"),
        meta_file("root/m/metadata.mdb", "Mid"),
    ];
    assert_eq!(
        FileCatalog::list_databases(&files),
        Ok(vec!["Mid".to_string(), "alpha".to_string(), "zeta".to_string()])
    );
    assert_eq!(FileCatalog::list_databases(&vec![]), Ok(vec![]));
}

#[test]
fn corrupt_metadata_is_rejected() {
    let good = meta_file("root/db0/metadata.mdb", "db0");
    let mut bad = meta_file("root/db1/metadata.mdb", "db1");
    // a byte of the creation time
    bad.bytes[9] ^= 0x40;
    let mut worse = meta_file("root/db2/metadata.mdb", "db2");
    worse.bytes[0] = b'X';
    let e = FileCatalog::list_databases(&vec![good.clone(), bad.clone(), worse]).unwrap_err();
    match &e {
        CatalogError::InvalidMetadata { path, source } => {
            assert_eq!(path, "root/db1/metadata.mdb");
            assert!(matches!(**source, CatalogError::ChecksumMismatch { .. }));
        }
        other => panic!("{other:?}"),
    }

    let mut catalog = FileCatalog::new("root".to_string());
    catalog.select_database("db0");
    catalog.register_table(two_rows()).unwrap();
    let e = catalog.use_database("db1", &bad, vec![]).unwrap_err();
    match &e {
        CatalogError::InvalidMetadata { path, source } => {
            assert_eq!(path, "root/db1/metadata.mdb");
            assert!(matches!(**source, CatalogError::ChecksumMismatch { .. }));
        }
        other => panic!("{other:?}"),
    }
    assert_eq!(catalog.current_db, Some("db0".to_string()));
    assert_eq!(catalog.tables.len(), 1);
}

#[test]
fn a_database_is_opened_with_its_tables() {
    let mut catalog = FileCatalog::new("root".to_string());
    catalog.select_database("db0");
    catalog.register_table(two_rows()).unwrap();

    let tables = vec![
        table_files("t", two_rows().pages),
        table_files("empty", vec![]),
        table_files("u", cut_short()),
    ];
    let done = catalog.use_database("db1", &meta_file("root/db1/metadata.mdb", "db1"), tables);
    // the heap of `u` was mended
    assert_eq!(done, Ok(true));
    assert_eq!(catalog.current_db, Some("db1".to_string()));
    assert_eq!(
        catalog.list_tables(),
        Ok(vec!["empty".to_string(), "t".to_string(), "u".to_string()])
    );
    let t = catalog.get_table("t").unwrap();
    assert_eq!(values(t), vec![(1, 7, Some("hi".to_string())), (2, 8, None)]);
    assert_eq!(t.state.next_row_id, 3);
    let empty = catalog.get_table("empty").unwrap();
    assert_eq!(empty.state.next_row_id, 1);
    assert_eq!(empty.state.next_page_id, 0);
    let u = catalog.get_table("u").unwrap();
    assert_eq!(flags(&u.pages[0]), vec![1, 0, 0]);
    assert_eq!(
        values(u),
        vec![(1, 7, Some("a much longer string than before".to_string())), (2, 8, None)]
    );
    assert_eq!(catalog.append_record("u", 3, &row(3, None)), Ok(loc(0, 3)));

    let again = vec![table_files("t", two_rows().pages)];
    assert_eq!(
        catalog.use_database("db2", &meta_file("root/db2/metadata.mdb", "db2"), again),
        Ok(false)
    );
    assert_eq!(catalog.list_tables(), Ok(vec!["t".to_string()]));
}

#[test]
fn the_first_table_that_cannot_be_loaded_ends_the_opening() {
    let meta = meta_file("root/db1/metadata.mdb", "db1");

    let mut torn = table_files("torn", two_rows().pages);
    torn.schema.pop();
    let mut catalog = FileCatalog::new("root".to_string());
    let done = catalog.use_database(
        "db1",
        &meta,
        vec![table_files("t", two_rows().pages), torn, table_files("u", vec![])],
    );
    assert_eq!(done, Err(CatalogError::Truncated));
    assert_eq!(catalog.current_db, Some("db1".to_string()));
    assert_eq!(catalog.list_tables(), Ok(vec!["t".to_string()]));

    let mut broken = table_files("broken", two_rows().pages);
    broken.pages[0][1] = 0;
    let e = catalog.use_database("db1", &meta, vec![broken]).unwrap_err();
    assert!(is_invalid(
        &e,
        "root/db1/tables/broken",
        &CatalogError::Page(PageError::CorruptPage)
    ));
    assert_eq!(catalog.list_tables(), Ok(vec![]));

    let mut dated = table_files("dated", two_rows().pages);
    dated.schema = encode_schema("dated", &[Column::new("a".to_string(), DataType::Date, false)]);
    let e = catalog.use_database("db1", &meta, vec![dated]).unwrap_err();
    assert!(is_invalid(
        &e,
        "root/db1/tables/dated",
        &CatalogError::Record(RecordError::UnsupportedType)
    ));

    let done = catalog.use_database(
        "db1",
        &meta,
        vec![table_files("t", vec![]), table_files("t", vec![])],
    );
    assert!(matches!(done, Err(CatalogError::AlreadyExists { ref name, .. }) if name == "t"));
    assert_eq!(catalog.tables.len(), 1);
}

#[test]
fn a_deleted_row_identifier_is_not_given_out_again_after_reopening() {
    let mut store = two_rows();
    assert_eq!(store.tombstone(loc(0, 1)), Ok(()));
    assert_eq!(store.state.next_row_id, 3);
    let (found, single) = recover("t".to_string(), columns(), store.pages.clone()).unwrap();
    assert!(single);
    assert_eq!(found.state.next_row_id, 3);
    assert_eq!(found.get_tuple_loc(2), None);
    assert_eq!(found.get_tuple_loc(1), Some(loc(0, 0)));
    let (mut again, mended) = reopen("t".to_string(), columns(), store.pages.clone()).unwrap();
    assert!(!mended);
    assert_eq!(again.state.next_row_id, 3);
    assert_eq!(again.insert(&vec![ASTValue::Int(9), ASTValue::Null]), Ok(3));

    // every row deleted: the identifiers go on where they stood
    assert_eq!(store.tombstone(loc(0, 0)), Ok(()));
    let (empty, _) = recover("t".to_string(), columns(), store.pages.clone()).unwrap();
    assert_eq!(empty.state.next_row_id, 3);
    assert!(empty.state.row_index.is_empty());

    let mut catalog = FileCatalog::new("root".to_string());
    let done = catalog.use_database(
        "db1",
        &meta_file("root/db1/metadata.mdb", "db1"),
        vec![table_files("t", store.pages.clone())],
    );
    assert_eq!(done, Ok(false));
    assert_eq!(catalog.next_row_id("t"), Ok(3));
}

#[test]
fn a_table_is_checked_against_its_pages() {
    let store = two_rows();
    assert!(store.check());
    assert!(TableStore::new("e".to_string(), columns()).check());

    let mut lost = two_rows();
    lost.state.row_index.remove(&2);
    assert!(!lost.check());
    let mut moved = two_rows();
    moved.state.row_index.insert(2, loc(0, 0));
    assert!(!moved.check());
    let mut room = two_rows();
    room.state.free_space.insert(0, 1);
    assert!(!room.check());
    let mut behind = two_rows();
    behind.state.next_row_id = 2;
    assert!(!behind.check());
    let mut ahead = two_rows();
    ahead.state.next_row_id = 10;
    assert!(ahead.check());
    let mut pages = two_rows();
    pages.state.next_page_id = 2;
    assert!(!pages.check());
    let mut broken = two_rows();
    broken.pages[0][0] = b'X';
    assert!(!broken.check());
    let mut twice = two_rows();
    twice.pages = cut_short();
    assert!(!twice.check());

    let mut catalog = FileCatalog::new("root".to_string());
    catalog.select_database("db1");
    catalog.register_table(two_rows()).unwrap();
    assert!(catalog.check());
    catalog.tables.push(two_rows());
    assert!(!catalog.check());
    catalog.tables[1].name = "u".to_string();
    assert!(catalog.check());
    catalog.tables[1].state.row_index.clear();
    assert!(!catalog.check());
}
