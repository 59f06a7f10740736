use meridb::error::RecordError;
use meridb::page::PAGE_SIZE;
use meridb::record::Record;
use meridb::table::{Table, TableError};
use meridb::types::{Column, DataType};
use meridb::value::ASTValue;

fn create_test_table() -> Table {
    let columns = vec![
        Column::new("id".to_string(), DataType::Integer, false),
        Column::new("name".to_string(), DataType::Text, false),
        Column::new("age".to_string(), DataType::Integer, true),
    ];
    Table::new("test_table".to_string(), columns)
}

fn create_test_record() -> Record {
    let mut record = Record::new(0);
    record.set_value("id", ASTValue::Int(1));
    record.set_value("name", ASTValue::String("Test".to_string()));
    record.set_value("age", ASTValue::Int(25));
    record
}

#[test]
fn test_table_creation() {
    let table = create_test_table();
    assert_eq!(table.name, "test_table");
    assert_eq!(table.columns.len(), 3);
    assert_eq!(table.pages.len(), 1);
}

#[test]
fn table_test_table_creation() {
    let table = create_test_table();
    assert_eq!(table.name, "test_table");
    assert_eq!(table.columns.len(), 3);
    assert_eq!(table.pages.len(), 1);
}

#[test]
fn table_test_test_table_creation() {
    let table = create_test_table();
    assert_eq!(table.name, "test_table");
    assert_eq!(table.columns.len(), 3);
    assert_eq!(table.pages.len(), 1);
    assert_eq!(table.next_page_id, 1);
    assert_eq!(table.next_record_id, 0);
}

#[test]
fn table_test_record_operations() {
    let mut table = create_test_table();
    let record = create_test_record();

    let record_id = table.insert_record(record.clone()).unwrap();

    let retrieved_record = table.get_record(record_id);
    assert!(retrieved_record.is_some());

    let deleted_record = table.delete_record(record_id);
    assert!(deleted_record.is_some());
    assert!(table.get_record(record_id).is_none());
}

#[test]
fn test_table_record_operations() {
    let mut table = create_test_table();
    let record = create_test_record();

    let record_id = table.insert_record(record.clone()).unwrap();
    assert_eq!(record_id, 0);

    let retrieved_record = table.get_record(record_id);
    assert!(retrieved_record.is_some());
    assert_eq!(retrieved_record.unwrap().id, record_id);

    let deleted_record = table.delete_record(record_id);
    assert!(deleted_record.is_some());
    assert!(table.get_record(record_id).is_none());
}

#[test]
fn table_test_record_validation() {
    let mut table = create_test_table();
    let mut invalid_record = Record::new(0);
    invalid_record.set_value("id", ASTValue::String("invalid".to_string()));

    assert!(table.insert_record(invalid_record).is_err());
}

#[test]
fn test_table_schema_validation() {
    let mut table = create_test_table();

    let record = create_test_record();
    assert!(table.insert_record(record).is_ok());

    let mut invalid_record = Record::new(0);
    invalid_record.set_value("id", ASTValue::String("invalid".to_string()));
    invalid_record.set_value("name", ASTValue::String("Test".to_string()));
    assert!(table.insert_record(invalid_record).is_err());

    let mut incomplete_record = Record::new(0);
    incomplete_record.set_value("id", ASTValue::Int(2));
    assert!(table.insert_record(incomplete_record).is_err());
}

#[test]
fn test_table_multi_page() {
    let mut table = create_test_table();
    let mut inserted_records = Vec::new();

    for i in 0..1000 {
        let mut record = create_test_record();
        record.set_value("id", ASTValue::Int(i));
        record.set_value("name", ASTValue::String(format!("Test{}", i)));

        let record_id = table.insert_record(record).unwrap();
        inserted_records.push(record_id);
    }

    for record_id in inserted_records {
        assert!(table.get_record(record_id).is_some());
    }

    assert!(table.pages.len() > 1);
}

#[test]
fn records_fill_a_page_before_the_next_is_added() {
    let mut table = create_test_table();
    // a record of three values is counted as 16 + 3 * 56 = 184 bytes, and
    // 44 of them leave 96 bytes of a page
    for i in 0..44 {
        assert_eq!(table.insert_record(create_test_record()), Ok(i));
    }
    assert_eq!(table.pages.len(), 1);
    assert_eq!(table.pages[0].free_space, PAGE_SIZE - 44 * 184);
    assert_eq!(table.insert_record(create_test_record()), Ok(44));
    assert_eq!(table.pages.len(), 2);
    assert_eq!(table.next_page_id, 2);
    assert_eq!(table.pages[1].id, 1);
    assert_eq!(table.pages[1].records.len(), 1);
    assert!(table.pages[1].records.contains_key(&44));

    // a record that is counted as 72 bytes goes to the first page
    let mut small = Record::new(0);
    small.set_value("id", ASTValue::Int(7));
    table.columns = vec![Column::new("id".to_string(), DataType::Integer, false)];
    assert_eq!(table.insert_record(small), Ok(45));
    assert!(table.pages[0].records.contains_key(&45));
    assert_eq!(table.pages[0].free_space, 96 - 72);

    // with less than 64 bytes free the first page is not tried again
    let mut bare = create_test_table();
    bare.columns = vec![];
    bare.pages[0].free_space = 63;
    assert_eq!(bare.insert_record(Record::new(0)), Ok(0));
    assert_eq!(bare.pages.len(), 2);
    assert!(bare.pages[1].records.contains_key(&0));
}

#[test]
fn a_refused_record_changes_nothing() {
    let mut table = create_test_table();
    let mut invalid = Record::new(0);
    invalid.set_value("id", ASTValue::String("invalid".to_string()));
    invalid.set_value("name", ASTValue::String("Test".to_string()));
    assert_eq!(
        table.insert_record(invalid),
        Err(TableError::Invalid(RecordError::TypeMismatch))
    );
    assert_eq!(table.next_record_id, 0);
    assert_eq!(table.pages.len(), 1);
    assert!(table.pages[0].records.is_empty());
}

#[test]
fn a_record_too_large_for_a_page_uses_up_an_identifier() {
    let mut table = Table::new("wide".to_string(), vec![]);
    let mut wide = Record::new(0);
    for i in 0..146 {
        wide.set_value(&format!("c{}", i), ASTValue::Int(i));
    }
    // 16 + 146 * 56 = 8192
    assert_eq!(table.insert_record(wide.clone()), Ok(0));
    assert_eq!(table.pages[0].free_space, 0);
    wide.set_value("one_more", ASTValue::Null);
    assert_eq!(table.insert_record(wide), Err(TableError::NoSpace));
    assert_eq!(table.next_record_id, 2);
    assert_eq!(table.pages.len(), 2);
    assert!(table.pages[1].records.is_empty());
    assert_eq!(table.pages[1].free_space, PAGE_SIZE);
}

#[test]
fn a_record_is_replaced_where_it_lies() {
    let mut table = create_test_table();
    for _ in 0..50 {
        table.insert_record(create_test_record()).unwrap();
    }
    let free = table.pages[1].free_space;
    let mut other = Record::new(47);
    other.set_value("id", ASTValue::Int(470));
    other.set_value("name", ASTValue::String("Other".to_string()));
    assert_eq!(table.update_record(other), Ok(()));
    assert_eq!(
        table.get_record(47).unwrap().get_value("id"),
        Some(&ASTValue::Int(470))
    );
    assert_eq!(table.get_record(47).unwrap().get_value("age"), None);
    assert_eq!(table.pages[1].free_space, free);
    assert_eq!(table.pages[1].records.len(), 6);

    let mut absent = create_test_record();
    absent.id = 50;
    assert_eq!(table.update_record(absent), Err(TableError::NotFound));
    let mut invalid = Record::new(47);
    invalid.set_value("id", ASTValue::Boolean(true));
    assert_eq!(
        table.update_record(invalid),
        Err(TableError::Invalid(RecordError::TypeMismatch))
    );
    assert_eq!(
        table.get_record(47).unwrap().get_value("id"),
        Some(&ASTValue::Int(470))
    );
}

#[test]
fn a_scan_lists_the_records_page_after_page() {
    let mut table = create_test_table();
    for _ in 0..90 {
        table.insert_record(create_test_record()).unwrap();
    }
    assert_eq!(table.pages().len(), 3);
    assert_eq!(table.columns().len(), 3);
    table.delete_record(3);
    table.delete_record(44);
    // the gap in the first page is filled before the later pages
    assert_eq!(table.insert_record(create_test_record()), Ok(90));
    let ids: Vec<u64> = table.scan().iter().map(|r| r.id).collect();
    let mut expected: Vec<u64> = (0..44).filter(|id| *id != 3).collect();
    expected.push(90);
    expected.extend(45..90);
    assert_eq!(ids, expected);
    assert_eq!(table.delete_record(3).map(|r| r.id), None);
    assert_eq!(table.delete_record(90).map(|r| r.id), Some(90));
}

#[test]
fn the_pages_of_a_table_are_written_one_by_one() {
    let mut table = create_test_table();
    for _ in 0..50 {
        table.insert_record(create_test_record()).unwrap();
    }
    let images = table.page_images().unwrap();
    assert_eq!(images.len(), 2);
    assert_eq!(images[0], table.pages[0].to_bytes(&table.columns).unwrap());
    assert_eq!(images[1], table.pages[1].to_bytes(&table.columns).unwrap());
    assert_eq!(meridb::page::iter_slots(&images[0]).unwrap().len(), 44);
    assert_eq!(meridb::page::iter_slots(&images[1]).unwrap().len(), 6);
    assert_eq!(&images[1][8..12], &[1, 0, 0, 0]);

    // the heap that is written can be read back as the rows of the table
    let rows = meridb::scan::scan_pages(&table.columns, &images, None).unwrap();
    let ids: Vec<u64> = rows.iter().map(|r| r.row_id).collect();
    assert_eq!(ids, (0..50).collect::<Vec<u64>>());

    table.columns[1] = Column::new("name".to_string(), DataType::Integer, false);
    assert_eq!(
        table.page_images(),
        Err(meridb::error::CatalogError::Record(RecordError::TypeMismatch))
    );
}
