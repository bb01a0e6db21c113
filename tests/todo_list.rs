use todo_list::{
    append_text, check_words, decimal_text, has_newline, join_words, load_lines, parse_command,
    parse_position, render_file, render_listing, Command, TodoError, TodoList,
};

fn words(ws: &[&str]) -> Vec<String> {
    ws.iter().map(|w| w.to_string()).collect()
}

fn two_entries() -> TodoList {
    let mut list = TodoList::new();
    list.add(&words(&["buy", "milk"])).unwrap();
    list.add(&words(&["call", "mom"])).unwrap();
    list
}

#[test]
fn add_two_then_list() {
    let list = two_entries();
    assert_eq!(list.list(), vec!["1. buy milk ", "2. call mom "]);
}

#[test]
fn append_two_to_empty_file_then_list() {
    let mut text = String::new();
    text.push_str(&append_text(&words(&["buy", "milk"])).unwrap());
    text.push_str(&append_text(&words(&["call", "mom"])).unwrap());
    assert_eq!(text, "buy milk \ncall mom \n");
    let list = TodoList::from_text(&text);
    assert_eq!(list.list(), vec!["1. buy milk ", "2. call mom "]);
}

#[test]
fn single_word_entry_ends_in_space() {
    assert_eq!(join_words(&words(&["milk"])), "milk ");
    assert_eq!(append_text(&words(&["milk"])).unwrap(), "milk \n");
}

#[test]
fn done_marks_only_that_entry() {
    let mut list = two_entries();
    assert_eq!(list.complete(2), Ok(()));
    assert_eq!(list.list(), vec!["1. buy milk ", "2. call mom \u{2713}"]);
    assert_eq!(list.to_text(), "buy milk \ncall mom \u{2713}\n");
}

#[test]
fn done_twice_appends_two_markers() {
    let mut list = two_entries();
    list.complete(1).unwrap();
    list.complete(1).unwrap();
    assert_eq!(list.entries()[0], "buy milk \u{2713}\u{2713}");
}

#[test]
fn done_survives_rewrite() {
    let mut list = two_entries();
    list.complete(1).unwrap();
    let reloaded = TodoList::from_text(&list.to_text());
    assert_eq!(reloaded.list(), vec!["1. buy milk \u{2713}", "2. call mom "]);
}

#[test]
fn update_replaces_only_that_entry() {
    let mut list = two_entries();
    list.complete(1).unwrap();
    assert_eq!(list.update(2, &words(&["call", "dad", "now"])), Ok(()));
    assert_eq!(list.list(), vec!["1. buy milk \u{2713}", "2. call dad now "]);
}

#[test]
fn delete_shifts_later_entries() {
    let mut list = two_entries();
    list.add(&words(&["walk"])).unwrap();
    assert_eq!(list.delete(1), Ok(()));
    assert_eq!(list.len(), 2);
    assert_eq!(list.list(), vec!["1. call mom ", "2. walk "]);
    assert_eq!(list.to_text(), "call mom \nwalk \n");
}

#[test]
fn delete_last_entry() {
    let mut list = two_entries();
    assert_eq!(list.delete(2), Ok(()));
    assert_eq!(list.list(), vec!["1. buy milk "]);
}

#[test]
fn list_twice_is_identical() {
    let list = TodoList::from_text("a \nb \u{2713}\n");
    let first = list.list();
    let second = list.list();
    assert_eq!(first, second);
    assert_eq!(first, vec!["1. a ", "2. b \u{2713}"]);
}

#[test]
fn adds_then_list_keep_words_in_order() {
    let adds = [vec!["one"], vec!["two", "words"], vec!["three", "more", "words"]];
    let mut text = String::new();
    for a in adds.iter() {
        text.push_str(&append_text(&words(a)).unwrap());
    }
    let shown = TodoList::from_text(&text).list();
    assert_eq!(shown, vec!["1. one ", "2. two words ", "3. three more words "]);
}

#[test]
fn out_of_range_changes_nothing() {
    let mut list = two_entries();
    let before = list.list();
    assert_eq!(list.delete(99), Err(TodoError::NoSuchEntry));
    assert_eq!(list.update(99, &words(&["x"])), Err(TodoError::NoSuchEntry));
    assert_eq!(list.complete(99), Err(TodoError::NoSuchEntry));
    assert_eq!(list.len(), 2);
    assert_eq!(list.list(), before);
}

#[test]
fn position_zero_names_no_entry() {
    let mut list = two_entries();
    assert_eq!(list.delete(0), Err(TodoError::NoSuchEntry));
    assert_eq!(list.complete(0), Err(TodoError::NoSuchEntry));
    assert_eq!(list.update(0, &words(&["x"])), Err(TodoError::NoSuchEntry));
    assert_eq!(list.complete(3), Err(TodoError::NoSuchEntry));
    assert_eq!(list.len(), 2);
}

#[test]
fn change_on_empty_list_names_no_entry() {
    let mut list = TodoList::new();
    assert_eq!(list.delete(1), Err(TodoError::NoSuchEntry));
    assert_eq!(list.list(), Vec::<String>::new());
}

#[test]
fn words_are_checked() {
    let mut list = two_entries();
    assert_eq!(list.add(&words(&[])), Err(TodoError::MissingWords));
    assert_eq!(list.add(&words(&["a\nb"])), Err(TodoError::NewlineInText));
    assert_eq!(list.update(1, &words(&[])), Err(TodoError::MissingWords));
    assert_eq!(list.update(99, &words(&[])), Err(TodoError::MissingWords));
    assert_eq!(append_text(&words(&[])), Err(TodoError::MissingWords));
    assert_eq!(check_words(&words(&["ok", "line\n"])), Err(TodoError::NewlineInText));
    assert_eq!(check_words(&words(&["ok"])), Ok(()));
    assert_eq!(list.len(), 2);
}

#[test]
fn newline_is_found() {
    assert!(has_newline("a\nb"));
    assert!(!has_newline("ab \u{2713}"));
    assert!(!has_newline(""));
}

#[test]
fn lines_are_read_in_order() {
    assert_eq!(load_lines(""), Vec::<String>::new());
    assert_eq!(load_lines("a\nb"), vec!["a", "b"]);
    assert_eq!(load_lines("a\r\nb\n"), vec!["a", "b"]);
    assert_eq!(load_lines("a\n\nb\n"), vec!["a", "", "b"]);
    assert_eq!(load_lines("\n"), vec![""]);
    assert_eq!(load_lines("x\r"), vec!["x\r"]);
    assert_eq!(load_lines("caf\u{e9} \u{2713}\n"), vec!["caf\u{e9} \u{2713}"]);
}

#[test]
fn lines_are_written_with_newlines() {
    assert_eq!(render_file(&words(&[])), "");
    assert_eq!(render_file(&words(&["a ", "", "b"])), "a \n\nb\n");
    assert_eq!(load_lines(&render_file(&words(&["a ", "", "b"]))), vec!["a ", "", "b"]);
}

#[test]
fn listing_numbers_from_one() {
    assert_eq!(render_listing(&words(&["x", "y"])), vec!["1. x", "2. y"]);
    let many: Vec<String> = (0..12).map(|i| format!("e{}", i)).collect();
    let shown = render_listing(&many);
    assert_eq!(shown[9], "10. e9");
    assert_eq!(shown[11], "12. e11");
}

#[test]
fn decimal_text_writes_digits() {
    assert_eq!(decimal_text(0), "0");
    assert_eq!(decimal_text(7), "7");
    assert_eq!(decimal_text(10), "10");
    assert_eq!(decimal_text(255), "255");
    assert_eq!(decimal_text(usize::MAX), usize::MAX.to_string());
}

#[test]
fn positions_are_parsed() {
    assert_eq!(parse_position("1"), Ok(1));
    assert_eq!(parse_position("42"), Ok(42));
    assert_eq!(parse_position("007"), Ok(7));
    assert_eq!(parse_position("0"), Ok(0));
    assert_eq!(parse_position(&usize::MAX.to_string()), Ok(usize::MAX));
    assert_eq!(parse_position(""), Err(TodoError::InvalidPosition));
    assert_eq!(parse_position("x"), Err(TodoError::InvalidPosition));
    assert_eq!(parse_position("1a"), Err(TodoError::InvalidPosition));
    assert_eq!(parse_position("-1"), Err(TodoError::InvalidPosition));
    assert_eq!(parse_position("99999999999999999999999"), Err(TodoError::InvalidPosition));
}

#[test]
fn commands_are_parsed() {
    assert_eq!(parse_command(&words(&[])), Err(TodoError::NoCommand));
    assert_eq!(
        parse_command(&words(&["add", "buy", "milk"])),
        Ok(Command::Add(words(&["buy", "milk"])))
    );
    assert_eq!(parse_command(&words(&["add"])), Ok(Command::Add(words(&[]))));
    assert_eq!(
        parse_command(&words(&["update", "2", "call", "dad"])),
        Ok(Command::Update(2, words(&["call", "dad"])))
    );
    assert_eq!(parse_command(&words(&["del", "3"])), Ok(Command::Delete(3)));
    assert_eq!(parse_command(&words(&["done", "1"])), Ok(Command::Done(1)));
    assert_eq!(parse_command(&words(&["list"])), Ok(Command::List));
    assert_eq!(parse_command(&words(&["help"])), Ok(Command::Usage));
    assert_eq!(parse_command(&words(&["del"])), Err(TodoError::MissingPosition));
    assert_eq!(parse_command(&words(&["done", "x"])), Err(TodoError::InvalidPosition));
    assert_eq!(parse_command(&words(&["update", "-2", "y"])), Err(TodoError::InvalidPosition));
}
