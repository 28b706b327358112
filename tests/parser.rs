use edm::error::EditError;
use edm::parser::{parse_command, parse_number, parse_range, split_string, Command, Range};

#[test]
fn address_forms() {
    assert!(matches!(parse_range("d"), Ok((Range::Current, "d"))));
    assert!(matches!(parse_range("7d"), Ok((Range::Single(7), "d"))));
    assert!(matches!(parse_range("2,4d"), Ok((Range::Bounded(2, 4), "d"))));
    assert!(matches!(parse_range(",5p"), Ok((Range::End(5), "p"))));
    assert!(matches!(parse_range("3,c"), Ok((Range::Start(3), "c"))));
}

#[test]
fn lone_comma_is_invalid() {
    assert_eq!(parse_range(",d").err(), Some(EditError::InvalidRange));
    assert_eq!(parse_command(",d\n").err(), Some(EditError::InvalidRange));
}

#[test]
fn non_numeric_address_is_invalid() {
    assert_eq!(parse_command("1,2,3d").err(), Some(EditError::InvalidRange));
    assert_eq!(parse_command("99999999999999999999999d").err(), Some(EditError::InvalidRange));
}

#[test]
fn split_stops_at_first_letter() {
    assert_eq!(split_string("12,3wq x"), (Some("12,3"), "wq x"));
    assert_eq!(split_string("p"), (None, "p"));
    assert_eq!(split_string(""), (None, ""));
    assert_eq!(split_string("42"), (Some("42"), ""));
    assert_eq!(split_string("5é"), (Some("5"), "é"));
    // white space and signs are left to the command
    assert_eq!(split_string("5 d\n"), (Some("5"), " d\n"));
    assert_eq!(split_string("+5d"), (None, "+5d"));
    assert_eq!(split_string("1;2d"), (Some("1"), ";2d"));
}

#[test]
fn numbers() {
    assert_eq!(parse_number("0"), Some(0));
    assert_eq!(parse_number("1234"), Some(1234));
    assert_eq!(parse_number("+8"), None);
    assert_eq!(parse_number(""), None);
    assert_eq!(parse_number("+"), None);
    assert_eq!(parse_number("-1"), None);
    assert_eq!(parse_number("1a"), None);
    assert_eq!(parse_number("18446744073709551615"), Some(usize::MAX));
    assert_eq!(parse_number("18446744073709551616"), None);
}

#[test]
fn simple_commands() {
    assert!(matches!(parse_command("q\n"), Ok(Command::Quit)));
    assert!(matches!(parse_command("q!\n"), Ok(Command::ForceQuit)));
    assert!(matches!(parse_command("i\n"), Ok(Command::Insert)));
    assert!(matches!(parse_command("p\n"), Ok(Command::Print(Range::Current))));
    assert!(matches!(parse_command("l\n"), Ok(Command::Line)));
    assert!(matches!(parse_command("d\n"), Ok(Command::Delete(Range::Current))));
    assert!(matches!(parse_command("2,3d\n"), Ok(Command::Delete(Range::Bounded(2, 3)))));
}

#[test]
fn address_on_print_is_accepted() {
    assert!(matches!(parse_command("5p\n"), Ok(Command::Print(Range::Single(5)))));
    assert!(matches!(parse_command(",5p"), Ok(Command::Print(Range::End(5)))));
}

#[test]
fn write_forms() {
    assert!(matches!(parse_command("w\n"), Ok(Command::Write(None))));
    match parse_command("w out.txt\n") {
        Ok(Command::Write(Some(f))) => assert_eq!(f, "out.txt"),
        other => panic!("{:?}", other),
    }
    assert!(matches!(parse_command("wq\n"), Ok(Command::WriteQuit(None))));
    match parse_command("wq  a.txt\n") {
        Ok(Command::WriteQuit(Some(f))) => assert_eq!(f, "a.txt"),
        other => panic!("{:?}", other),
    }
    assert_eq!(parse_command("w a b\n").err(), Some(EditError::TooManyArguments));
}

#[test]
fn change_inline_text() {
    match parse_command("3c hello\n") {
        Ok(Command::Change(Range::Single(3), Some(t))) => assert_eq!(t, "hello\n"),
        other => panic!("{:?}", other),
    }
    match parse_command("c two  words\n") {
        Ok(Command::Change(Range::Current, Some(t))) => assert_eq!(t, "two  words\n"),
        other => panic!("{:?}", other),
    }
    assert!(matches!(parse_command("1,2c\n"), Ok(Command::Change(Range::Bounded(1, 2), None))));
}

#[test]
fn too_many_arguments() {
    assert_eq!(parse_command("q now\n").err(), Some(EditError::TooManyArguments));
    assert_eq!(parse_command("d x\n").err(), Some(EditError::TooManyArguments));
}

#[test]
fn unknown_commands() {
    assert_eq!(parse_command("x\n").err(), Some(EditError::UnknownCommand));
    assert_eq!(parse_command("quit\n").err(), Some(EditError::UnknownCommand));
    assert_eq!(parse_command("").err(), Some(EditError::UnknownCommand));
    assert_eq!(parse_command("5").err(), Some(EditError::UnknownCommand));
    assert_eq!(parse_command("\n").err(), Some(EditError::UnknownCommand));
    assert_eq!(parse_command("1;2d").err(), Some(EditError::UnknownCommand));
    assert_eq!(parse_command("+5d").err(), Some(EditError::UnknownCommand));
}

#[test]
fn unicode_blanks_separate_words() {
    match parse_command("w\u{3000}f.txt\n") {
        Ok(Command::Write(Some(f))) => assert_eq!(f, "f.txt"),
        other => panic!("{:?}", other),
    }
    match parse_command("c\tx y\n") {
        Ok(Command::Change(Range::Current, Some(t))) => assert_eq!(t, "x y\n"),
        other => panic!("{:?}", other),
    }
    // a non-breaking space ends a word; an ASCII control character does not
    assert_eq!(parse_command("q\u{a0}x").err(), Some(EditError::TooManyArguments));
    assert_eq!(parse_command("q\u{1c}").err(), Some(EditError::UnknownCommand));
}

#[test]
fn blank_between_address_and_command() {
    assert!(matches!(parse_range("5 d\n"), Ok((Range::Single(5), " d\n"))));
    assert!(matches!(parse_command("5 d\n"), Ok(Command::Delete(Range::Single(5)))));
    assert!(matches!(parse_command("1,2  c\n"), Ok(Command::Change(Range::Bounded(1, 2), None))));
}

#[test]
fn bounded_text_reads_back() {
    for (a, b) in [(1usize, 1usize), (2, 10), (12, 345)] {
        let line = format!("{},{}d", a, b);
        assert!(matches!(parse_range(&line), Ok((Range::Bounded(x, y), "d")) if x == a && y == b));
    }
}
