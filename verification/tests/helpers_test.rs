use meridb::bitmap::{bit_mask, test_bit, with_bit};
use meridb::catalog::FileCatalog;
use meridb::le::{push_bytes, push_u16, push_u32, push_u64, read_u16, read_u32, read_u64, write_at};
use meridb::lexer::{is_digit, is_letter, Lexer};
use meridb::page::{new_page, page_append, page_record_count, page_set_tombstone, read_slot, Slot};
use meridb::record::Record;
use meridb::record_codec::bitmap_bytes;
use meridb::segment::{page_offset, split_pages};
use meridb::store::TableStore;
use meridb::text::{bytes_eq, chars_eq, str_eq};
use meridb::tokens::{
    copy_chars, data_type_keyword, keyword_token, match_command, match_data_type, match_helper,
    match_operator, operator_keyword, Command, DataType, Helper, Operator, Token,
};
use meridb::types::Column;
use meridb::value::ASTValue;

#[test]
fn bits_of_a_byte() {
    assert_eq!(bit_mask(0), 1);
    assert_eq!(bit_mask(3), 8);
    assert_eq!(bit_mask(7), 128);
    assert_eq!(with_bit(0, 0), 1);
    assert_eq!(with_bit(0b101, 3), 0b1101);
    assert_eq!(with_bit(0x7f, 7), 0xff);
    assert!(test_bit(0b1000, 3));
    assert!(!test_bit(0b1000, 2));
    assert!(test_bit(0x80, 7));
    assert_eq!(bitmap_bytes(0), 0);
    assert_eq!(bitmap_bytes(1), 1);
    assert_eq!(bitmap_bytes(8), 1);
    assert_eq!(bitmap_bytes(9), 2);
}

#[test]
fn little_endian_numbers() {
    let mut buf = Vec::new();
    push_u16(&mut buf, 0x0201);
    push_u32(&mut buf, 0x06050403);
    push_u64(&mut buf, 0x0e0d0c0b0a090807);
    push_bytes(&mut buf, &[15, 16]);
    assert_eq!(buf, (1u8..=16).collect::<Vec<u8>>());
    assert_eq!(read_u16(&buf, 0), 0x0201);
    assert_eq!(read_u16(&buf, 14), 0x100f);
    assert_eq!(read_u32(&buf, 2), 0x06050403);
    assert_eq!(read_u64(&buf, 6), 0x0e0d0c0b0a090807);
    write_at(&mut buf, 14, &[0xaa, 0xbb]);
    write_at(&mut buf, 0, &[]);
    write_at(&mut buf, 1, &[0xcc]);
    assert_eq!(&buf[..3], &[1, 0xcc, 3]);
    assert_eq!(&buf[13..], &[14, 0xaa, 0xbb]);
    assert_eq!(buf.len(), 16);
}

#[test]
fn texts_are_compared_by_what_they_hold() {
    assert!(bytes_eq(b"abc", b"abc"));
    assert!(!bytes_eq(b"abc", b"abd"));
    assert!(!bytes_eq(b"abc", b"ab"));
    assert!(bytes_eq(b"", b""));
    assert!(str_eq("gr\u{fc}n", "gr\u{fc}n"));
    assert!(!str_eq("gr\u{fc}n", "grun"));
    assert!(!str_eq("a", "A"));
    assert!(chars_eq(&vec!['a', '\u{fc}'], &vec!['a', '\u{fc}']));
    assert!(!chars_eq(&vec!['a'], &vec!['a', 'b']));
    assert_eq!(copy_chars(&vec!['x', 'y']), vec!['x', 'y']);
}

#[test]
fn keywords_by_kind() {
    assert_eq!(match_command("select"), Ok(Command::SELECT));
    assert_eq!(match_command("SELECT"), Err("Not a command".to_string()));
    assert_eq!(match_command("selects"), Err("Not a command".to_string()));
    assert_eq!(match_helper("primary"), Ok(Helper::PRIMARY));
    assert_eq!(match_helper("Primary"), Err("Not a helper".to_string()));
    assert_eq!(data_type_keyword("integer"), Ok(DataType::INTEGER));
    assert_eq!(data_type_keyword("INTEGER"), Err("Not a data type".to_string()));
    assert_eq!(match_data_type("InTeGeR"), Ok(DataType::INTEGER));
    assert_eq!(match_data_type("TEXT"), Ok(DataType::TEXT));
    assert_eq!(match_data_type("string"), Err("Not a data type".to_string()));
    assert_eq!(operator_keyword("and"), Ok(Operator::AND));
    assert_eq!(operator_keyword("AND"), Err("Not a valid operator".to_string()));
    assert_eq!(match_operator("AND"), Ok(Operator::AND));
    assert_eq!(match_operator("<="), Ok(Operator::LTorE));
    assert_eq!(match_operator("!="), Ok(Operator::NE));
    assert_eq!(match_operator("<>"), Err("Not a valid operator".to_string()));
    assert_eq!(match_operator("=="), Err("Not a valid operator".to_string()));
    // a command comes before a type, and a truth value last
    assert_eq!(keyword_token("select", "select"), Ok(Token::Command(Command::SELECT)));
    assert_eq!(keyword_token("null", "null"), Ok(Token::Helper(Helper::NULL)));
    assert_eq!(keyword_token("x", "text"), Ok(Token::DataType(DataType::TEXT)));
    assert_eq!(keyword_token("true", "true"), Ok(Token::TRUE));
    assert_eq!(keyword_token("false", "x"), Ok(Token::FALSE));
    assert_eq!(keyword_token("users", "users"), Err("Not a keyword".to_string()));
    assert!(Token::TRUE.same(&Token::TRUE.duplicate()));
    assert!(!Token::IDENT(vec!['a']).same(&Token::IDENT(vec!['b'])));
}

#[test]
fn a_lexer_steps_through_its_input() {
    assert!(is_letter('a') && is_letter('Z') && is_letter('_'));
    assert!(!is_letter('1') && !is_letter('\u{e9}') && !is_letter(' '));
    assert!(is_digit('0') && is_digit('9'));
    assert!(!is_digit('a') && !is_digit('\u{663}'));

    let mut lexer = Lexer::new("  ab".chars().collect());
    assert_eq!((lexer.position, lexer.ch), (0, ' '));
    assert_eq!(lexer.peek_char(), ' ');
    lexer.skip_whitespace();
    assert_eq!((lexer.position, lexer.ch), (2, 'a'));
    assert_eq!(lexer.peek_char(), 'b');
    lexer.read_char();
    assert_eq!((lexer.position, lexer.ch), (3, 'b'));
    assert_eq!(lexer.peek_char(), '\0');
    lexer.read_char();
    assert_eq!((lexer.position, lexer.ch), (4, '\0'));
    lexer.skip_whitespace();
    assert_eq!(lexer.position, 4);
}

#[test]
fn slots_are_read_by_their_number() {
    let mut page = new_page();
    assert_eq!(page_record_count(&page), 0);
    assert_eq!(page_append(&mut page, b"abc"), Ok(0));
    assert_eq!(page_append(&mut page, b"defgh"), Ok(1));
    assert_eq!(page_record_count(&page), 2);
    assert_eq!(read_slot(&page, 0), Slot { off: 18, len: 3, flags: 0 });
    assert_eq!(read_slot(&page, 1), Slot { off: 21, len: 5, flags: 0 });
    page_set_tombstone(&mut page, 0).unwrap();
    assert_eq!(read_slot(&page, 0), Slot { off: 18, len: 3, flags: 1 });
}

#[test]
fn records_and_values_are_copied_whole() {
    let mut record = Record::with_timestamp(4, 1_700_000_000);
    assert_eq!((record.id, record.timestamp), (4, 1_700_000_000));
    assert!(record.data.is_empty());
    record.set_value("a", ASTValue::Int(1));
    record.set_value("b", ASTValue::Float(1.5f64.to_bits()));
    let copy = record.duplicate();
    assert_eq!((copy.id, copy.timestamp), (4, 1_700_000_000));
    assert_eq!(copy.data, record.data);
    assert!(ASTValue::Null.is_null());
    assert!(!ASTValue::Int(0).is_null());
    assert!(ASTValue::String("x".to_string()).same(&ASTValue::String("x".to_string()).duplicate()));
    assert!(!ASTValue::Boolean(true).same(&ASTValue::Boolean(false)));
    let column = Column::new("a".to_string(), meridb::types::DataType::Json, true);
    assert_eq!(column.duplicate(), column);
}

#[test]
fn a_page_is_chosen_by_the_room_that_is_needed() {
    let mut store = TableStore::new("t".to_string(), vec![]);
    assert_eq!(store.choose_page_for(100), Ok(0));
    assert_eq!(store.pages.len(), 1);
    assert_eq!(store.state.free_space[&0], 8192 - 18);
    assert_eq!(store.choose_page_for(8192 - 18 - 5), Ok(0));
    // a page is added also for what no page can hold
    assert_eq!(store.choose_page_for(8192 - 18 - 4), Ok(1));
    assert_eq!(store.pages.len(), 2);
    assert_eq!(store.state.next_page_id, 2);
}

#[test]
fn names_are_sorted_by_their_bytes() {
    let names = vec!["b".to_string(), "B".to_string(), "\u{e4}".to_string(), "a".to_string(), "a".to_string()];
    assert_eq!(
        FileCatalog::sorted_names(names),
        vec!["B".to_string(), "a".to_string(), "a".to_string(), "b".to_string(), "\u{e4}".to_string()]
    );
}

#[test]
fn a_segment_is_read_page_by_page() {
    assert_eq!(page_offset(0), 0);
    assert_eq!(page_offset(3), 3 * 8192);
    assert_eq!(page_offset(u32::MAX), 4294967295u64 * 8192);

    assert_eq!(split_pages(&[]), Vec::<Vec<u8>>::new());
    assert_eq!(split_pages(&vec![7u8; 8191]), Vec::<Vec<u8>>::new());
    let mut bytes = vec![1u8; 8192];
    bytes.extend(vec![2u8; 8192]);
    bytes.extend(vec![3u8; 100]);
    let pages = split_pages(&bytes);
    assert_eq!(pages.len(), 2);
    assert_eq!(pages[0], vec![1u8; 8192]);
    assert_eq!(pages[1], vec![2u8; 8192]);
}
