use meridb::error::PageError;
use meridb::page::{
    check_page, iter_slots, new_page, page_append, page_free_bytes, page_overwrite_if_fits,
    page_payload_end, page_set_tombstone, read_header, HEADER_LEN, PAGE_SIZE, SLOT_LEN,
};

#[test]
fn fresh_page_is_zeros_with_magic_and_version() {
    let page = new_page();
    assert_eq!(page.len(), PAGE_SIZE);
    assert_eq!(&page[0..4], b"HPG0");
    assert_eq!(&page[4..8], &1u32.to_le_bytes());
    assert!(page[8..].iter().all(|b| *b == 0));
    assert_eq!(read_header(&page).unwrap().record_count, 0);
    assert_eq!(iter_slots(&page).unwrap(), vec![]);
    assert_eq!(page_free_bytes(&page), Ok(PAGE_SIZE - HEADER_LEN));
    assert!(check_page(&page));
}

#[test]
fn append_puts_the_new_slot_last() {
    let mut page = new_page();
    assert_eq!(page_append(&mut page, b"hello"), Ok(0));
    assert_eq!(iter_slots(&page).unwrap(), vec![(18, 5, 0)]);
    assert_eq!(&page[18..23], b"hello");
    assert_eq!(page_free_bytes(&page), Ok(PAGE_SIZE - HEADER_LEN - 5 - SLOT_LEN));

    assert_eq!(page_append(&mut page, b"worlds!"), Ok(1));
    assert_eq!(iter_slots(&page).unwrap(), vec![(18, 5, 0), (23, 7, 0)]);
    assert_eq!(&page[23..30], b"worlds!");
    assert_eq!(&page[18..23], b"hello");
    assert_eq!(page_free_bytes(&page), Ok(PAGE_SIZE - HEADER_LEN - 12 - 2 * SLOT_LEN));
    assert_eq!(page_payload_end(&page), 30);

    // header: record count at 12, end of the payloads at 14
    assert_eq!(&page[12..14], &2u16.to_le_bytes());
    assert_eq!(&page[14..16], &30u16.to_le_bytes());
    // directory: slot 0 at 8192 - 10, slot 1 at 8192 - 5
    assert_eq!(&page[PAGE_SIZE - 10..PAGE_SIZE - 5], &[18, 0, 5, 0, 0]);
    assert_eq!(&page[PAGE_SIZE - 5..], &[23, 0, 7, 0, 0]);
    assert!(check_page(&page));
}

#[test]
fn append_of_an_empty_payload() {
    let mut page = new_page();
    assert_eq!(page_append(&mut page, b""), Ok(0));
    assert_eq!(page_append(&mut page, b"x"), Ok(1));
    assert_eq!(iter_slots(&page).unwrap(), vec![(18, 0, 0), (18, 1, 0)]);
    assert!(check_page(&page));
}

#[test]
fn append_until_full() {
    let mut page = new_page();
    let payload = [7u8; 95];
    let mut count = 0u16;
    loop {
        let before = page.clone();
        match page_append(&mut page, &payload) {
            Ok(slot) => {
                assert_eq!(slot, count);
                count += 1;
            }
            Err(e) => {
                assert_eq!(e, PageError::PageFull);
                assert_eq!(page, before);
                break;
            }
        }
    }
    // each record takes 100 bytes of the 8174 behind the header
    assert_eq!(count, 81);
    assert_eq!(page_free_bytes(&page), Ok(74));
    let slots = iter_slots(&page).unwrap();
    assert_eq!(slots.len(), 81);
    for (i, slot) in slots.iter().enumerate() {
        assert_eq!(*slot, ((18 + 95 * i) as u16, 95, 0));
    }
    // what fits exactly is taken
    assert_eq!(page_append(&mut page, &[1u8; 69]), Ok(81));
    assert_eq!(page_free_bytes(&page), Ok(0));
    assert_eq!(page_append(&mut page, &[]), Err(PageError::PageFull));
    assert!(check_page(&page));
}

#[test]
fn payload_that_is_too_long_for_a_page() {
    let mut page = new_page();
    let long = vec![0u8; PAGE_SIZE - HEADER_LEN - SLOT_LEN + 1];
    assert_eq!(page_append(&mut page, &long), Err(PageError::PageFull));
    let just = vec![9u8; PAGE_SIZE - HEADER_LEN - SLOT_LEN];
    assert_eq!(page_append(&mut page, &just), Ok(0));
    assert_eq!(page_free_bytes(&page), Ok(0));
}

#[test]
fn overwrite_in_place() {
    let mut page = new_page();
    page_append(&mut page, b"first!").unwrap();
    page_append(&mut page, b"second").unwrap();
    let before = page.clone();

    // longer: nothing happens
    assert_eq!(page_overwrite_if_fits(&mut page, 0, b"longer!"), Ok(false));
    assert_eq!(page, before);

    // as long, and shorter
    assert_eq!(page_overwrite_if_fits(&mut page, 0, b"FIRST!"), Ok(true));
    assert_eq!(iter_slots(&page).unwrap(), vec![(18, 6, 0), (24, 6, 0)]);
    assert_eq!(&page[18..24], b"FIRST!");
    assert_eq!(page_overwrite_if_fits(&mut page, 1, b"two"), Ok(true));
    assert_eq!(iter_slots(&page).unwrap(), vec![(18, 6, 0), (24, 3, 0)]);
    assert_eq!(&page[24..27], b"two");
    assert_eq!(&page[18..24], b"FIRST!");
    assert!(check_page(&page));

    // a second time with the same payload changes nothing
    let once = page.clone();
    assert_eq!(page_overwrite_if_fits(&mut page, 1, b"two"), Ok(true));
    assert_eq!(page, once);

    // the shorter payload freed three bytes at the end of the payloads
    assert_eq!(page_free_bytes(&page), Ok(PAGE_SIZE - HEADER_LEN - 9 - 2 * SLOT_LEN));
}

#[test]
fn overwrite_of_a_bad_slot() {
    let mut page = new_page();
    page_append(&mut page, b"abc").unwrap();
    assert_eq!(page_overwrite_if_fits(&mut page, 1, b"a"), Err(PageError::BadSlot));
    page_set_tombstone(&mut page, 0).unwrap();
    assert_eq!(page_overwrite_if_fits(&mut page, 0, b"a"), Err(PageError::BadSlot));
}

#[test]
fn tombstone_keeps_payload_and_space() {
    let mut page = new_page();
    page_append(&mut page, b"abc").unwrap();
    page_append(&mut page, b"defg").unwrap();
    let free = page_free_bytes(&page).unwrap();
    assert_eq!(page_set_tombstone(&mut page, 0), Ok(()));
    assert_eq!(iter_slots(&page).unwrap(), vec![(18, 3, 1), (21, 4, 0)]);
    assert_eq!(&page[18..25], b"abcdefg");
    assert_eq!(page_free_bytes(&page), Ok(free));
    assert_eq!(page_set_tombstone(&mut page, 0), Ok(()));
    assert_eq!(page_set_tombstone(&mut page, 2), Err(PageError::BadSlot));
    assert_eq!(page_append(&mut page, b"h"), Ok(2));
    assert_eq!(iter_slots(&page).unwrap(), vec![(18, 3, 1), (21, 4, 0), (25, 1, 0)]);
    assert!(check_page(&page));
}

#[test]
fn corrupt_pages() {
    assert_eq!(iter_slots(&[0u8; 10]), Err(PageError::CorruptPage));
    assert_eq!(iter_slots(&[0u8; PAGE_SIZE]), Err(PageError::CorruptPage));
    let page = new_page();
    assert_eq!(iter_slots(&page[..PAGE_SIZE - 1]), Err(PageError::CorruptPage));
    let mut many = new_page();
    many[12..14].copy_from_slice(&1635u16.to_le_bytes());
    assert_eq!(iter_slots(&many), Err(PageError::CorruptPage));
    many[12..14].copy_from_slice(&1634u16.to_le_bytes());
    assert_eq!(iter_slots(&many).unwrap().len(), 1634);
    assert!(!check_page(&many));

    let mut short = new_page();
    short.pop();
    assert_eq!(page_append(&mut short, b"a"), Err(PageError::CorruptPage));
    assert_eq!(page_set_tombstone(&mut short, 0), Err(PageError::CorruptPage));
    assert_eq!(page_overwrite_if_fits(&mut short, 0, b"a"), Err(PageError::CorruptPage));
    let mut long = new_page();
    long.push(0);
    assert_eq!(page_append(&mut long, b"a"), Err(PageError::CorruptPage));
    assert!(iter_slots(&long).is_ok());

    let mut overlapping = new_page();
    page_append(&mut overlapping, b"abc").unwrap();
    page_append(&mut overlapping, b"def").unwrap();
    overlapping[PAGE_SIZE - 5] = 19;
    assert!(!check_page(&overlapping));
}
