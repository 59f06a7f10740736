use meridb::error::{CatalogError, PageError, RecordError};
use meridb::page::{iter_slots, PAGE_SIZE};
use meridb::record::Record;
use meridb::recovery::recover;
use meridb::scan::scan_pages;
use meridb::store::TableStore;
use meridb::types::{Column, DataType, TupleLoc};
use meridb::value::ASTValue;

fn columns() -> Vec<Column> {
    vec![
        Column::new("a".to_string(), DataType::Integer, false),
        Column::new("b".to_string(), DataType::Text, true),
    ]
}

fn row(a: i64, b: Option<&str>) -> Record {
    let mut record = Record::new(0);
    record.set_value("a", ASTValue::Int(a));
    record.set_value(
        "b",
        match b {
            Some(text) => ASTValue::String(text.to_string()),
            None => ASTValue::Null,
        },
    );
    record
}

fn loc(page_id: u32, slot_id: u16) -> TupleLoc {
    TupleLoc { seg: 1, page_id, slot_id, flags: 0 }
}

fn rows_of(store: &TableStore) -> Vec<(u64, i64, Option<String>)> {
    let mut out: Vec<(u64, i64, Option<String>)> = store
        .scan(None)
        .unwrap()
        .into_iter()
        .map(|found| {
            let a = match found.record.get_value("a") {
                Some(ASTValue::Int(a)) => *a,
                other => panic!("{other:?}"),
            };
            let b = match found.record.get_value("b") {
                Some(ASTValue::String(b)) => Some(b.clone()),
                Some(ASTValue::Null) => None,
                other => panic!("{other:?}"),
            };
            assert_eq!(found.record.id, found.row_id);
            assert_eq!(store.get_tuple_loc(found.row_id), Some(found.loc));
            (found.row_id, a, b)
        })
        .collect();
    out.sort();
    out
}

fn check_free_space(store: &TableStore) {
    assert_eq!(store.state.next_page_id as usize, store.pages.len());
    assert_eq!(store.state.free_space.len(), store.pages.len());
    for (pid, page) in store.pages.iter().enumerate() {
        let slots = iter_slots(page).unwrap();
        let end = slots.iter().map(|(off, len, _)| *off as usize + *len as usize).max().unwrap_or(18);
        assert_eq!(store.state.free_space[&(pid as u32)], PAGE_SIZE - 5 * slots.len() - end);
    }
}

fn two_rows() -> TableStore {
    let mut store = TableStore::new("t".to_string(), columns());
    let first = store.next_row_id();
    assert_eq!(first, 1);
    assert_eq!(store.append_record(first, &row(7, Some("hi"))), Ok(loc(0, 0)));
    let second = store.next_row_id();
    assert_eq!(second, 2);
    assert_eq!(store.append_record(second, &row(8, None)), Ok(loc(0, 1)));
    store
}

#[test]
fn create_insert_select() {
    let store = two_rows();
    assert_eq!(
        rows_of(&store),
        vec![(1, 7, Some("hi".to_string())), (2, 8, None)]
    );
    assert_eq!(store.pages.len(), 1);
    assert_eq!(store.get_tuple_loc(1), Some(loc(0, 0)));
    assert_eq!(store.get_tuple_loc(2), Some(loc(0, 1)));
    assert_eq!(store.get_tuple_loc(3), None);
    check_free_space(&store);
}

#[test]
fn update_in_place() {
    let mut store = two_rows();
    let before = store.state.free_space[&0];
    assert_eq!(store.update_record(loc(0, 0), 1, &row(9, Some("hi"))), Ok(loc(0, 0)));
    assert_eq!(store.get_tuple_loc(1), Some(loc(0, 0)));
    assert_eq!(
        rows_of(&store),
        vec![(1, 9, Some("hi".to_string())), (2, 8, None)]
    );
    assert_eq!(iter_slots(&store.pages[0]).unwrap().iter().map(|s| s.2).collect::<Vec<u8>>(), vec![0, 0]);
    assert_eq!(store.state.free_space[&0], before);
    check_free_space(&store);
}

#[test]
fn update_that_relocates() {
    let mut store = two_rows();
    let long = "a much longer string than before";
    assert_eq!(store.update_record(loc(0, 0), 1, &row(7, Some(long))), Ok(loc(0, 2)));
    assert_eq!(store.get_tuple_loc(1), Some(loc(0, 2)));
    assert_eq!(
        rows_of(&store),
        vec![(1, 7, Some(long.to_string())), (2, 8, None)]
    );
    assert_eq!(iter_slots(&store.pages[0]).unwrap().iter().map(|s| s.2).collect::<Vec<u8>>(), vec![1, 0, 0]);
    check_free_space(&store);
}

#[test]
fn delete_and_insert_again() {
    let mut store = two_rows();
    assert_eq!(store.tombstone(loc(0, 0)), Ok(()));
    assert_eq!(store.get_tuple_loc(1), None);
    assert_eq!(rows_of(&store), vec![(2, 8, None)]);
    let third = store.next_row_id();
    assert_eq!(third, 3);
    store.append_record(third, &row(10, Some("x"))).unwrap();
    assert_eq!(
        rows_of(&store),
        vec![(2, 8, None), (3, 10, Some("x".to_string()))]
    );
    check_free_space(&store);
}

#[test]
fn recovery_after_a_relocating_update() {
    let mut store = two_rows();
    let long = "a much longer string than before";
    store.update_record(loc(0, 0), 1, &row(7, Some(long))).unwrap();
    let (back, single) = recover("t".to_string(), columns(), store.pages.clone()).unwrap();
    assert!(single);
    assert_eq!(rows_of(&back), rows_of(&store));
    assert_eq!(back.state.row_index, store.state.row_index);
    assert_eq!(back.state.free_space, store.state.free_space);
    assert_eq!(back.state.next_page_id, store.state.next_page_id);
    assert_eq!(back.state.next_row_id, 3);
    check_free_space(&back);
}

#[test]
fn recovery_of_an_empty_heap_and_of_deleted_rows() {
    let (empty, single) = recover("t".to_string(), columns(), Vec::new()).unwrap();
    assert!(single);
    assert_eq!(empty.state.next_row_id, 1);
    assert_eq!(empty.state.next_page_id, 0);
    assert!(rows_of(&empty).is_empty());

    let mut store = two_rows();
    store.tombstone(loc(0, 1)).unwrap();
    let (back, _) = recover("t".to_string(), columns(), store.pages.clone()).unwrap();
    assert_eq!(rows_of(&back), vec![(1, 7, Some("hi".to_string()))]);
    // the identifier of the deleted row is not given out again
    assert_eq!(back.state.next_row_id, 3);
}

#[test]
fn recovery_refuses_what_is_no_heap() {
    let mut store = two_rows();
    store.pages[0][0] = b'X';
    assert_eq!(
        recover("t".to_string(), columns(), store.pages.clone()).unwrap_err(),
        CatalogError::Page(PageError::CorruptPage)
    );
    let mut store = two_rows();
    store.pages[0][18 + 8] = 0b10; // b is NULL, a is not: but a's bytes then run out
    let cut = recover("t".to_string(), columns(), store.pages.clone());
    assert!(cut.is_ok());
    let other = vec![Column::new("a".to_string(), DataType::Date, false)];
    assert_eq!(
        recover("t".to_string(), other, two_rows().pages).unwrap_err(),
        CatalogError::Record(RecordError::UnsupportedType)
    );
}

#[test]
fn recovery_finds_a_row_that_was_met_twice() {
    let mut store = two_rows();
    // a second live version of row 1, as a relocation leaves it that broke off
    store.append_record(1, &row(70, Some("later"))).unwrap();
    let (back, single) = recover("t".to_string(), columns(), store.pages.clone()).unwrap();
    assert!(!single);
    assert_eq!(back.get_tuple_loc(1), Some(loc(0, 2)));
    let found = scan_pages(&columns(), &store.pages, None).unwrap();
    assert_eq!(found.len(), 2);
    assert_eq!(found[0].row_id, 1);
    assert_eq!(found[0].loc, loc(0, 2));
    assert_eq!(found[0].record.get_value("a"), Some(&ASTValue::Int(70)));
}

#[test]
fn best_fit_and_new_pages() {
    let mut store = TableStore::new("t".to_string(), columns());
    // payload: 8 + 1 + 8 + 4 + text
    let text = "x".repeat(3000);
    for i in 0..2 {
        let id = store.next_row_id();
        assert_eq!(store.append_record(id, &row(i, Some(&text))), Ok(loc(0, i as u16)));
    }
    // the third does not fit into page 0 any more
    let id = store.next_row_id();
    assert_eq!(store.append_record(id, &row(2, Some(&text))), Ok(loc(1, 0)));
    assert_eq!(store.pages.len(), 2);
    // page 0 has less free and still fits a short row: best fit
    let id = store.next_row_id();
    assert_eq!(store.append_record(id, &row(3, None)), Ok(loc(0, 2)));
    // a row of middle length fits into page 1 only
    let middle = "y".repeat(2500);
    let id = store.next_row_id();
    assert_eq!(store.append_record(id, &row(4, Some(&middle))), Ok(loc(1, 1)));
    check_free_space(&store);
    assert_eq!(rows_of(&store).len(), 5);

    // a row that moves goes to its page or behind it: page 1 has no room,
    // page 0 has but lies before it, so a page is added
    let mut store = TableStore::new("t".to_string(), columns());
    let id = store.next_row_id();
    assert_eq!(store.append_record(id, &row(0, Some(&"a".repeat(3974)))), Ok(loc(0, 0)));
    let id = store.next_row_id();
    assert_eq!(store.append_record(id, &row(1, Some(&"b".repeat(4974)))), Ok(loc(1, 0)));
    assert_eq!(store.state.free_space[&0], 4174);
    assert_eq!(store.state.free_space[&1], 3174);
    let id = store.next_row_id();
    assert_eq!(store.append_record(id, &row(2, Some("t"))), Ok(loc(1, 1)));
    assert_eq!(
        store.update_record(loc(1, 1), 3, &row(2, Some(&"c".repeat(3474)))),
        Ok(loc(2, 0))
    );
    assert_eq!(store.pages.len(), 3);
    assert_eq!(iter_slots(&store.pages[1]).unwrap()[1].2, 1);
    assert_eq!(iter_slots(&store.pages[0]).unwrap().len(), 1);
    assert!(store.check());
    assert_eq!(
        rows_of(&store).iter().map(|r| r.0).collect::<Vec<u64>>(),
        vec![1, 2, 3]
    );
    let (back, single) = recover("t".to_string(), columns(), store.pages.clone()).unwrap();
    assert!(single);
    assert_eq!(back.state.row_index, store.state.row_index);
    check_free_space(&store);
}

#[test]
fn errors_of_the_row_operations() {
    let mut store = two_rows();
    let before = store.pages.clone();
    let mut wrong = Record::new(0);
    wrong.set_value("a", ASTValue::String("seven".to_string()));
    assert_eq!(
        store.append_record(3, &wrong),
        Err(CatalogError::Record(RecordError::TypeMismatch))
    );
    assert_eq!(
        store.update_record(loc(0, 0), 1, &wrong),
        Err(CatalogError::Record(RecordError::TypeMismatch))
    );
    assert_eq!(
        store.update_record(loc(5, 0), 1, &row(1, None)),
        Err(CatalogError::Page(PageError::BadSlot))
    );
    assert_eq!(
        store.update_record(loc(0, 9), 1, &row(1, None)),
        Err(CatalogError::Page(PageError::BadSlot))
    );
    assert_eq!(store.tombstone(loc(3, 0)), Err(CatalogError::Page(PageError::BadSlot)));
    assert_eq!(store.tombstone(loc(0, 2)), Err(CatalogError::Page(PageError::BadSlot)));
    assert_eq!(store.pages, before);

    store.tombstone(loc(0, 0)).unwrap();
    assert_eq!(
        store.update_record(loc(0, 0), 1, &row(1, None)),
        Err(CatalogError::Page(PageError::BadSlot))
    );

    // a payload that no page can hold: a page is added and stays
    let huge = "h".repeat(9000);
    assert_eq!(
        store.append_record(9, &row(1, Some(&huge))),
        Err(CatalogError::Page(PageError::PageFull))
    );
    assert_eq!(store.pages.len(), 2);
    check_free_space(&store);
}

#[test]
fn row_identifiers_go_up() {
    let mut store = TableStore::new("t".to_string(), columns());
    let mut last = 0;
    for _ in 0..100 {
        let id = store.next_row_id();
        assert!(id > last);
        last = id;
    }
    store.state.next_row_id = u64::MAX;
    assert_eq!(store.next_row_id(), u64::MAX);
    assert_eq!(store.next_row_id(), u64::MAX);
}
