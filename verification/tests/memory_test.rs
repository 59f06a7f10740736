use meridb::error::{CatalogError, PageError, RecordError};
use meridb::memory::Page;
use meridb::page::{check_page, iter_slots, HEADER_LEN, PAGE_SIZE};
use meridb::record::Record;
use meridb::record_codec::deserialize_record_for_page;
use meridb::types::{Column, DataType};
use meridb::value::ASTValue;

fn create_test_record(id: u64) -> Record {
    let mut record = Record::new(id);
    record.set_value("name", ASTValue::String("Test".to_string()));
    record.set_value("age", ASTValue::Int(25));
    record
}

fn name_and_age() -> Vec<Column> {
    vec![
        Column::new("name".to_string(), DataType::Text, false),
        Column::new("age".to_string(), DataType::Integer, true),
    ]
}

#[test]
fn test_page_creation() {
    let page = Page::new(1);
    assert_eq!(page.id, 1);
    assert!(page.records.is_empty());
    assert_eq!(page.free_space, PAGE_SIZE);
}

#[test]
fn page_test_page_creation() {
    let page = Page::new(1);
    assert_eq!(page.id, 1);
    assert!(page.records.is_empty());
    assert_eq!(page.free_space, PAGE_SIZE);
}

#[test]
fn page_test_test_page_creation() {
    let page = Page::new(1);
    assert_eq!(page.id, 1);
    assert!(page.records.is_empty());
    assert!(page.free_space > 0);
    assert_eq!(page.next_page, None);
    assert_eq!(page.prev_page, None);
}

#[test]
fn test_record_operations() {
    let mut page = Page::new(1);
    let record = create_test_record(1);

    assert!(page.insert_record(record.clone()).is_ok());

    let retrieved_record = page.get_record(1);
    assert!(retrieved_record.is_some());

    let deleted_record = page.delete_record(1);
    assert!(deleted_record.is_some());
    assert!(page.get_record(1).is_none());
}

#[test]
fn page_test_record_operations() {
    let mut page = Page::new(1);
    let record = create_test_record(1);

    assert!(page.insert_record(record.clone()).is_ok());

    let retrieved_record = page.get_record(1);
    assert!(retrieved_record.is_some());

    let deleted_record = page.delete_record(1);
    assert!(deleted_record.is_some());
    assert!(page.get_record(1).is_none());
}

#[test]
fn test_page_record_operations() {
    let mut page = Page::new(1);
    let record = create_test_record(1);

    assert!(page.insert_record(record.clone()).is_ok());

    let retrieved_record = page.get_record(1);
    assert!(retrieved_record.is_some());
    assert_eq!(retrieved_record.unwrap().id, 1);

    let deleted_record = page.delete_record(1);
    assert!(deleted_record.is_some());
    assert!(page.get_record(1).is_none());
}

#[test]
fn test_page_space_management() {
    let mut page = Page::new(1);
    let initial_space = page.free_space;

    let record = create_test_record(1);
    page.insert_record(record).unwrap();

    assert!(page.free_space < initial_space);

    page.delete_record(1);

    assert_eq!(page.free_space, initial_space);
}

#[test]
fn page_test_page_space_management() {
    let mut page = Page::new(1);
    let initial_space = page.free_space;

    let record = create_test_record(1);
    page.insert_record(record).unwrap();

    assert!(page.free_space < initial_space);

    page.delete_record(1);

    assert_eq!(page.free_space, initial_space);
}

#[test]
fn page_test_test_page_space_management() {
    let mut page = Page::new(1);
    let initial_space = page.free_space;

    let mut record_count = 0;
    while !page.is_full(std::mem::size_of::<Record>()) {
        let record = create_test_record(record_count);
        if page.insert_record(record).is_ok() {
            record_count += 1;
        } else {
            break;
        }
    }

    assert!(record_count > 0);
    assert!(page.free_space < initial_space);

    for i in 0..record_count {
        assert!(page.delete_record(i).is_some());
    }

    assert_eq!(page.free_space, initial_space);
}

#[test]
fn test_page_full_behavior() {
    let mut page = Page::new(1);
    let mut records = Vec::new();

    loop {
        let record = create_test_record(records.len() as u64);
        if page.insert_record(record.clone()).is_ok() {
            records.push(record);
        } else {
            break;
        }
    }

    let extra_record = create_test_record(records.len() as u64);
    assert!(page.insert_record(extra_record).is_err());
}

#[test]
fn a_record_is_counted_by_its_values() {
    let mut page = Page::new(0);
    page.insert_record(Record::new(1)).unwrap();
    assert_eq!(page.free_space, PAGE_SIZE - 16);
    page.insert_record(create_test_record(2)).unwrap();
    assert_eq!(page.free_space, PAGE_SIZE - 16 - (16 + 2 * 56));
    assert!(!page.is_full(PAGE_SIZE - 144));
    assert!(page.is_full(PAGE_SIZE - 143));
    assert_eq!(page.delete_record(7).map(|r| r.id), None);
    assert_eq!(page.free_space, PAGE_SIZE - 144);
    assert_eq!(page.delete_record(2).map(|r| r.id), Some(2));
    assert_eq!(page.free_space, PAGE_SIZE - 16);
}

#[test]
fn a_page_takes_records_while_they_fit() {
    let mut page = Page::new(0);
    let mut taken = 0;
    while page.insert_record(create_test_record(taken)).is_ok() {
        taken += 1;
    }
    // 8192 = 64 * 128
    assert_eq!(taken, 64);
    assert_eq!(page.free_space, 0);
    assert_eq!(
        page.insert_record(Record::new(99)),
        Err(PageError::PageFull)
    );
    assert_eq!(page.records.len(), 64);
}

#[test]
fn a_record_put_again_replaces_the_first() {
    let mut page = Page::new(0);
    page.insert_record(create_test_record(5)).unwrap();
    let mut other = Record::new(5);
    other.set_value("name", ASTValue::String("Other".to_string()));
    page.insert_record(other).unwrap();
    assert_eq!(page.records.len(), 1);
    assert_eq!(
        page.get_record(5).unwrap().get_value("name"),
        Some(&ASTValue::String("Other".to_string()))
    );
    assert_eq!(page.free_space, PAGE_SIZE - 128 - 72);
}

#[test]
fn records_are_listed_by_identifier() {
    let mut page = Page::new(0);
    for id in [9u64, 2, 30, 4] {
        page.insert_record(create_test_record(id)).unwrap();
    }
    let ids: Vec<u64> = page.records_in_order().iter().map(|r| r.id).collect();
    assert_eq!(ids, vec![2, 4, 9, 30]);
}

#[test]
fn a_page_is_written_in_order_of_identifiers() {
    let mut page = Page::new(3);
    for id in [9u64, 2, 4] {
        let mut record = Record::new(id);
        record.set_value("name", ASTValue::String(format!("n{}", id)));
        if id != 4 {
            record.set_value("age", ASTValue::Int(id as i64 * 10));
        }
        page.insert_record(record).unwrap();
    }
    let columns = name_and_age();
    let bytes = page.to_bytes(&columns).unwrap();
    assert_eq!(bytes.len(), PAGE_SIZE);
    assert_eq!(&bytes[0..4], b"HPG0");
    assert_eq!(&bytes[8..12], &3u32.to_le_bytes());
    assert!(check_page(&bytes));

    let slots = iter_slots(&bytes).unwrap();
    assert_eq!(slots.len(), 3);
    assert_eq!(slots[0].0 as usize, HEADER_LEN);
    let mut read = Vec::new();
    for (off, len, flags) in slots {
        assert_eq!(flags, 0);
        let payload = &bytes[off as usize..off as usize + len as usize];
        let (row_id, record) = deserialize_record_for_page(payload, &columns).unwrap();
        read.push((
            row_id,
            record.get_value("name").cloned(),
            record.get_value("age").cloned(),
        ));
    }
    assert_eq!(
        read,
        vec![
            (2, Some(ASTValue::String("n2".to_string())), Some(ASTValue::Int(20))),
            (4, Some(ASTValue::String("n4".to_string())), Some(ASTValue::Null)),
            (9, Some(ASTValue::String("n9".to_string())), Some(ASTValue::Int(90))),
        ]
    );
}

#[test]
fn a_page_without_records_is_written_as_an_empty_page() {
    let bytes = Page::new(0).to_bytes(&name_and_age()).unwrap();
    assert_eq!(bytes, meridb::page::new_page());
    let numbered = Page::new(0x01020304).to_bytes(&[]).unwrap();
    assert_eq!(&numbered[8..12], &[4, 3, 2, 1]);
    assert_eq!(iter_slots(&numbered).unwrap(), vec![]);
}

#[test]
fn a_page_is_not_written_with_a_record_that_does_not_fit_the_schema() {
    let mut page = Page::new(0);
    page.insert_record(create_test_record(1)).unwrap();
    let mut wrong = Record::new(2);
    wrong.set_value("name", ASTValue::Int(1));
    page.insert_record(wrong).unwrap();
    assert_eq!(
        page.to_bytes(&name_and_age()),
        Err(CatalogError::Record(RecordError::TypeMismatch))
    );
}

#[test]
fn a_page_is_not_written_with_more_than_it_holds() {
    let mut page = Page::new(0);
    for id in 0..3u64 {
        let mut record = Record::new(id);
        record.set_value("name", ASTValue::String("x".repeat(3000)));
        page.insert_record(record).unwrap();
    }
    assert_eq!(
        page.to_bytes(&name_and_age()),
        Err(CatalogError::Page(PageError::PageFull))
    );
    page.delete_record(1);
    assert!(page.to_bytes(&name_and_age()).is_ok());
}
