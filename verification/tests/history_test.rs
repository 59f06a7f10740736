use meridb::error::{LogLevel, Logger, MeriDBError};
use meridb::history::History;
use meridb::keys::{escape_key, plain_key, KeyEvent};

#[test]
fn history_walk() {
    let mut history = History::new(3);
    assert_eq!(history.previous(), None);
    assert_eq!(history.next_command(), None);
    assert!(history.add("one".to_string()));
    assert!(history.add("two".to_string()));
    assert!(!history.add("two".to_string()));
    assert!(!history.add("   ".to_string()));
    assert!(!history.add("".to_string()));
    assert!(history.add("three".to_string()));
    assert_eq!(history.previous(), Some(&"three".to_string()));
    assert_eq!(history.previous(), Some(&"two".to_string()));
    assert_eq!(history.previous(), Some(&"one".to_string()));
    assert_eq!(history.previous(), Some(&"one".to_string()));
    assert_eq!(history.next_command(), Some(&"two".to_string()));
    assert_eq!(history.next_command(), Some(&"three".to_string()));
    assert_eq!(history.next_command(), None);
    assert_eq!(history.current_index, None);
    assert_eq!(history.previous(), Some(&"three".to_string()));
    history.reset_position();
    assert_eq!(history.current_index, None);
}

#[test]
fn history_is_bounded() {
    let mut history = History::new(2);
    history.add("a".to_string());
    history.add("b".to_string());
    history.add("c".to_string());
    assert_eq!(history.commands, vec!["b".to_string(), "c".to_string()]);
    let mut none = History::new(0);
    none.add("a".to_string());
    none.add("b".to_string());
    assert_eq!(none.commands, vec!["b".to_string()]);
}

#[test]
fn history_from_a_file() {
    let mut history = History::with_file(2, "data/history.txt".to_string());
    assert_eq!(history.history_file, Some("data/history.txt".to_string()));
    history.load(vec![
        "one".to_string(),
        " ".to_string(),
        "two".to_string(),
        "".to_string(),
        "two".to_string(),
        "three".to_string(),
    ]);
    assert_eq!(history.commands, vec!["two".to_string(), "three".to_string()]);
}

#[test]
fn keys() {
    assert_eq!(plain_key(0, 0), Some(KeyEvent::CtrlD));
    assert_eq!(plain_key(1, 3), Some(KeyEvent::CtrlC));
    assert_eq!(plain_key(1, 13), Some(KeyEvent::Enter));
    assert_eq!(plain_key(1, 10), Some(KeyEvent::Enter));
    assert_eq!(plain_key(1, 127), Some(KeyEvent::Backspace));
    assert_eq!(plain_key(1, b'a'), Some(KeyEvent::Char('a')));
    assert_eq!(plain_key(1, 0), Some(KeyEvent::Char('\0')));
    assert_eq!(plain_key(1, 200), Some(KeyEvent::Unknown));
    assert_eq!(plain_key(2, b'a'), Some(KeyEvent::Unknown));
    assert_eq!(plain_key(1, 27), None);
    assert_eq!(escape_key(2, b'[', b'A'), KeyEvent::ArrowUp);
    assert_eq!(escape_key(2, b'[', b'B'), KeyEvent::ArrowDown);
    assert_eq!(escape_key(2, b'[', b'C'), KeyEvent::ArrowRight);
    assert_eq!(escape_key(2, b'[', b'D'), KeyEvent::ArrowLeft);
    assert_eq!(escape_key(2, b'[', b'E'), KeyEvent::Unknown);
    assert_eq!(escape_key(2, b'O', b'A'), KeyEvent::Unknown);
    assert_eq!(escape_key(1, b'[', b'A'), KeyEvent::Unknown);
}

#[test]
fn log_lines_and_errors() {
    assert_eq!(LogLevel::Info.to_string(), "[INFO]");
    assert_eq!(LogLevel::Warning.to_string(), "[WARNING]");
    assert_eq!(LogLevel::Error.to_string(), "[ERROR]");
    assert_eq!(
        Logger::line("2024-01-02 03:04:05", LogLevel::Error, "no such table"),
        "2024-01-02 03:04:05 [ERROR] no such table\n"
    );
    assert_eq!(
        MeriDBError::ParsingError("bad".to_string()).to_string(),
        "Parsing Error: bad"
    );
    assert_eq!(MeriDBError::IoError("gone".to_string()).to_string(), "IO Error: gone");
    assert_eq!(
        MeriDBError::ExecutionError("x".to_string()).to_string(),
        "Execution Error: x"
    );
}

#[test]
fn a_command_is_taken_in_by_what_is_left_of_it() {
    let mut history = History::new(3);
    assert!(!history.add_trimmed("   ".to_string(), ""));
    assert!(history.commands.is_empty());
    assert!(history.add_trimmed(" select ".to_string(), "select"));
    assert_eq!(history.commands.back(), Some(&" select ".to_string()));
    assert!(!history.add_trimmed(" select ".to_string(), "select"));
    assert!(history.add_trimmed("a".to_string(), "a"));
    assert!(history.add_trimmed("b".to_string(), "b"));
    assert!(history.add_trimmed("c".to_string(), "c"));
    assert_eq!(history.commands.len(), 3);
    assert_eq!(history.commands.front(), Some(&"a".to_string()));
    assert_eq!(history.current_index, None);
}

#[test]
fn white_space_is_what_unicode_says() {
    let mut history = History::new(5);
    // no-break space, ideographic space, line separator, next line
    assert!(!history.add("\u{a0}\u{3000}\u{2028}\u{85}\t\n".to_string()));
    assert!(history.commands.is_empty());
    // a zero-width space is no white space
    assert!(history.add("\u{200b}".to_string()));
    // nor are the separators of the controls
    assert!(history.add("\u{1c}".to_string()));
    assert!(history.add(" \u{2003}a\u{205f} ".to_string()));
    assert_eq!(history.commands.len(), 3);
}
