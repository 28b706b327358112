use edm::engine::{normalize_curr_line, resolve, Editor, Effect, Mode};
use edm::error::EditError;
use edm::parser::Range;

fn buffer(lines: &[&str]) -> Editor {
    Editor::new(lines.iter().map(|l| l.to_string()).collect(), None)
}

fn text(e: &Editor) -> Vec<&str> {
    e.lines().iter().map(|l| l.as_str()).collect()
}

#[test]
fn resolution_of_each_form() {
    assert_eq!(resolve(Range::Single(2), 3, 1), Ok((1, 2)));
    assert_eq!(resolve(Range::Bounded(2, 3), 3, 1), Ok((1, 3)));
    assert_eq!(resolve(Range::Start(2), 5, 1), Ok((1, 5)));
    assert_eq!(resolve(Range::End(2), 5, 1), Ok((0, 2)));
    assert_eq!(resolve(Range::Current, 5, 4), Ok((3, 4)));
    assert_eq!(resolve(Range::End(0), 0, 0), Ok((0, 0)));
}

#[test]
fn resolution_out_of_range() {
    assert_eq!(resolve(Range::End(5), 3, 3), Err(EditError::AddressOutOfRange));
    assert_eq!(resolve(Range::Single(0), 3, 3), Err(EditError::AddressOutOfRange));
    assert_eq!(resolve(Range::Bounded(3, 1), 3, 3), Err(EditError::AddressOutOfRange));
    assert_eq!(resolve(Range::Current, 3, 0), Err(EditError::AddressOutOfRange));
    assert_eq!(resolve(Range::Start(5), 3, 0), Err(EditError::AddressOutOfRange));
}

#[test]
fn bounded_resolves_to_its_slice() {
    for (a, b) in [(1usize, 1usize), (2, 4), (1, 6), (6, 6), (7, 6)] {
        assert_eq!(resolve(Range::Bounded(a, b), 6, 0), Ok((a - 1, b)));
    }
}

#[test]
fn cursor_shift_amount() {
    assert_eq!(normalize_curr_line(&(0..2), 3), 2);
    assert_eq!(normalize_curr_line(&(3..5), 3), 0);
}

#[test]
fn delete_range_moves_cursor() {
    let mut e = buffer(&["a\n", "b\n", "c\n"]);
    assert_eq!(e.current_line(), 3);
    assert!(matches!(e.handle_line("1,2d\n".to_string()), Ok(Effect::Continue)));
    assert_eq!(text(&e), vec!["c\n"]);
    assert_eq!(e.current_line(), 1);
    assert!(!e.is_saved());
}

#[test]
fn delete_after_cursor_keeps_it() {
    let mut e = buffer(&["a\n", "b\n", "c\n", "d\n"]);
    e.handle_line("2d\n".to_string()).unwrap();
    assert_eq!(e.current_line(), 3);
    // an empty slice past the last line starts at the cursor: it stays
    e.handle_line("4,d\n".to_string()).unwrap();
    assert_eq!(text(&e), vec!["a\n", "c\n", "d\n"]);
    assert_eq!(e.current_line(), 3);
    assert!(!e.is_saved());
}

#[test]
fn delete_current_line() {
    let mut e = buffer(&["a\n", "b\n"]);
    e.handle_line("d\n".to_string()).unwrap();
    assert_eq!(text(&e), vec!["a\n"]);
    assert_eq!(e.current_line(), 1);
}

#[test]
fn cursor_never_below_zero() {
    let mut e = buffer(&["a\n", "b\n", "c\n"]);
    e.handle_line("2d\n".to_string()).unwrap();
    // cursor 2; deleting [0, 2) would take it to 0
    e.handle_line("1,2d\n".to_string()).unwrap();
    assert_eq!(e.lines().len(), 0);
    assert_eq!(e.current_line(), 0);
}

#[test]
fn out_of_range_leaves_buffer_alone() {
    let mut e = buffer(&["a\n", "b\n", "c\n"]);
    assert_eq!(e.handle_line(",5d\n".to_string()).err(), Some(EditError::AddressOutOfRange));
    assert_eq!(e.handle_line(",5c x\n".to_string()).err(), Some(EditError::AddressOutOfRange));
    assert_eq!(text(&e), vec!["a\n", "b\n", "c\n"]);
    assert!(e.is_saved());
}

#[test]
fn print_with_bad_address_fails() {
    let mut e = buffer(&["a\n", "b\n", "c\n"]);
    assert_eq!(e.handle_line(",5p\n".to_string()).err(), Some(EditError::AddressOutOfRange));
    assert!(matches!(e.handle_line("1,3p\n".to_string()), Ok(Effect::Print)));
    assert!(matches!(e.handle_line("p\n".to_string()), Ok(Effect::Print)));
    let mut empty = buffer(&[]);
    assert!(matches!(empty.handle_line("p\n".to_string()), Ok(Effect::Print)));
}

#[test]
fn address_with_blank_deletes() {
    let mut e = buffer(&["a\n", "b\n", "c\n"]);
    e.handle_line("2 d\n".to_string()).unwrap();
    assert_eq!(text(&e), vec!["a\n", "c\n"]);
}

#[test]
fn change_inline_replaces_line() {
    let mut e = buffer(&["a\n", "b\n", "c\n"]);
    assert!(matches!(e.handle_line("3c hello\n".to_string()), Ok(Effect::Continue)));
    assert!(!e.in_text_entry());
    assert_eq!(text(&e), vec!["a\n", "b\n", "hello\n"]);
    assert_eq!(e.current_line(), 3);
}

#[test]
fn change_through_text_entry() {
    let mut e = buffer(&["a\n", "b\n", "c\n"]);
    assert!(matches!(
        e.handle_line("1,2c\n".to_string()),
        Ok(Effect::RequestMoreLines(Mode::Change))
    ));
    assert!(e.in_text_entry());
    assert!(matches!(e.feed_line("x\n".to_string()), Effect::RequestMoreLines(Mode::Change)));
    assert!(matches!(e.feed_line("y\n".to_string()), Effect::RequestMoreLines(Mode::Change)));
    assert!(matches!(e.feed_line("z\n".to_string()), Effect::RequestMoreLines(Mode::Change)));
    assert!(matches!(e.feed_line(".\n".to_string()), Effect::Continue));
    assert!(!e.in_text_entry());
    assert_eq!(text(&e), vec!["x\n", "y\n", "z\n", "c\n"]);
    assert_eq!(e.current_line(), 4);
}

#[test]
fn insert_before_current_line() {
    let mut e = buffer(&["a\n", "b\n", "c\n"]);
    e.handle_line("2d\n".to_string()).unwrap();
    assert_eq!(e.current_line(), 2);
    assert!(matches!(
        e.handle_line("i\n".to_string()),
        Ok(Effect::RequestMoreLines(Mode::Insert))
    ));
    // in text entry, command words are text
    assert!(matches!(e.handle_line("q\n".to_string()), Ok(Effect::RequestMoreLines(Mode::Insert))));
    assert!(matches!(e.handle_line(".".to_string()), Ok(Effect::Continue)));
    assert_eq!(text(&e), vec!["a\n", "q\n", "c\n"]);
    assert_eq!(e.current_line(), 3);
}

#[test]
fn insert_into_empty_buffer() {
    let mut e = buffer(&[]);
    e.handle_line("i\n".to_string()).unwrap();
    e.handle_line("one\n".to_string()).unwrap();
    e.handle_line("two\n".to_string()).unwrap();
    e.handle_line(".\n".to_string()).unwrap();
    assert_eq!(text(&e), vec!["one\n", "two\n"]);
    assert_eq!(e.current_line(), 2);
}

#[test]
fn insert_then_delete_restores_buffer() {
    // at the top of the buffer
    let mut e = buffer(&["a\n", "b\n"]);
    e.handle_line("1,2d\n".to_string()).unwrap();
    e.handle_line("i\n".to_string()).unwrap();
    e.handle_line("p\n".to_string()).unwrap();
    e.handle_line(".\n".to_string()).unwrap();
    e.handle_line("1,1d\n".to_string()).unwrap();
    assert_eq!(e.lines().len(), 0);
    assert_eq!(e.current_line(), 0);
    // where the block starts with the line it goes before
    let mut e = buffer(&["a\n", "b\n"]);
    e.handle_line("i\n".to_string()).unwrap();
    e.handle_line("b\n".to_string()).unwrap();
    e.handle_line("x\n".to_string()).unwrap();
    e.handle_line(".\n".to_string()).unwrap();
    e.handle_line("3,4d\n".to_string()).unwrap();
    assert_eq!(text(&e), vec!["a\n", "b\n"]);
    assert_eq!(e.current_line(), 2);
}

#[test]
fn quit_on_fresh_buffer_exits() {
    let mut e = buffer(&["a\n"]);
    assert!(matches!(e.handle_line("q\n".to_string()), Ok(Effect::Exit(0))));
}

#[test]
fn quit_after_change_warns_then_exits() {
    let mut e = buffer(&["a\n", "b\n"]);
    e.handle_line("1d\n".to_string()).unwrap();
    assert!(matches!(e.handle_line("q\n".to_string()), Ok(Effect::UnsavedWarning)));
    assert!(matches!(e.handle_line("q\n".to_string()), Ok(Effect::Exit(0))));
}

#[test]
fn force_quit_and_line() {
    let mut e = buffer(&["a\n", "b\n"]);
    e.handle_line("1d\n".to_string()).unwrap();
    assert!(matches!(e.handle_line("l\n".to_string()), Ok(Effect::ShowLine(1))));
    assert!(matches!(e.handle_line("q!\n".to_string()), Ok(Effect::Exit(0))));
}

#[test]
fn write_without_name_fails() {
    let mut e = buffer(&["a\n"]);
    assert_eq!(e.handle_line("w\n".to_string()).err(), Some(EditError::NoFilename));
    assert_eq!(e.handle_line("wq\n".to_string()).err(), Some(EditError::NoFilename));
}

#[test]
fn write_remembers_name() {
    let mut e = buffer(&["a\n"]);
    e.handle_line("1d\n".to_string()).unwrap();
    match e.handle_line("w f.txt\n".to_string()) {
        Ok(Effect::WriteFile(p)) => assert_eq!(p, "f.txt"),
        other => panic!("{:?}", other),
    }
    assert!(matches!(e.write_finished(true), Ok(Effect::Continue)));
    assert!(e.is_saved());
    match e.handle_line("w\n".to_string()) {
        Ok(Effect::WriteFile(p)) => assert_eq!(p, "f.txt"),
        other => panic!("{:?}", other),
    }
}

#[test]
fn failed_write_quit_does_not_exit() {
    let mut e = Editor::new(vec!["a\n".to_string()], Some("g.txt".to_string()));
    e.handle_line("1d\n".to_string()).unwrap();
    match e.handle_line("wq\n".to_string()) {
        Ok(Effect::WriteFile(p)) => assert_eq!(p, "g.txt"),
        other => panic!("{:?}", other),
    }
    assert_eq!(e.write_finished(false).err(), Some(EditError::WriteFailed));
    assert!(!e.is_saved());
    assert!(matches!(e.handle_line("wq\n".to_string()), Ok(Effect::WriteFile(_))));
    assert!(matches!(e.write_finished(true), Ok(Effect::Exit(0))));
}

#[test]
fn contents_concatenates_lines() {
    let e = buffer(&["a\n", "bc\n", "d"]);
    assert_eq!(e.contents(), "a\nbc\nd");
}
