use todo::command::{parse_command, Command};
use todo::error::AppError;
use todo::list::TodoList;
use todo::location::{data_dir, todo_path};
use todo::program::{execute, report_done, report_rejected, usage, Next};

const USAGE: &str = "Usage: todo [COMMAND] [ARGS]...\n\
Commands:\n  add TODOS...    Add to todo list\n  done INDICES... Remove indices from list\n  list            Print the list\n  help            Print this text\n";

fn args(words: &[&str]) -> Vec<String> {
    let mut v = vec![String::from("todo")];
    for w in words {
        v.push(String::from(*w));
    }
    v
}

fn list_of(words: &[&str]) -> TodoList {
    TodoList { entries: words.iter().map(|w| String::from(*w)).collect() }
}

#[test]
fn usage_text_names_every_command() {
    assert_eq!(usage(), USAGE);
    assert_eq!(usage().lines().count(), 6);
}

#[test]
fn no_command_is_missing_command() {
    assert!(matches!(parse_command(&args(&[])), Err(AppError::MissingCommand)));
    assert!(matches!(parse_command(&Vec::new()), Err(AppError::MissingCommand)));
    let mut list = list_of(&["a"]);
    let outcome = execute(&mut list, &args(&[]));
    assert!(matches!(outcome.next, Next::Fail(AppError::MissingCommand)));
    assert_eq!(outcome.diagnostics, USAGE);
    assert_eq!(outcome.output, "");
    assert_eq!(list.entries, vec!["a"]);
}

#[test]
fn add_without_texts_is_missing_args() {
    assert!(matches!(parse_command(&args(&["add"])), Err(AppError::MissingArgs)));
    let mut list = list_of(&["a"]);
    let outcome = execute(&mut list, &args(&["add"]));
    assert!(matches!(outcome.next, Next::Fail(AppError::MissingArgs)));
    assert_eq!(outcome.diagnostics, USAGE);
    assert_eq!(list.entries, vec!["a"]);
}

#[test]
fn done_without_numbers_is_missing_args() {
    assert!(matches!(parse_command(&args(&["done"])), Err(AppError::MissingArgs)));
    let mut list = list_of(&["a"]);
    let outcome = execute(&mut list, &args(&["done"]));
    assert!(matches!(outcome.next, Next::Fail(AppError::MissingArgs)));
    assert_eq!(outcome.diagnostics, USAGE);
    assert_eq!(list.entries, vec!["a"]);
}

#[test]
fn an_unknown_command_is_invalid() {
    for word in ["remove", "", "ADD", "add ", "-help", "--h", "lists", "Done"] {
        assert!(matches!(parse_command(&args(&[word])), Err(AppError::InvalidCommand)), "{:?}", word);
    }
    let mut list = list_of(&["a"]);
    let outcome = execute(&mut list, &args(&["frobnicate", "1"]));
    assert!(matches!(outcome.next, Next::Fail(AppError::InvalidCommand)));
    assert_eq!(outcome.diagnostics, USAGE);
    assert_eq!(outcome.output, "");
    assert_eq!(list.entries, vec!["a"]);
}

#[test]
fn help_in_its_three_spellings_shows_the_usage() {
    for word in ["help", "--help", "-h"] {
        assert!(matches!(parse_command(&args(&[word])), Ok(Command::Help)));
        let mut list = list_of(&["a"]);
        let outcome = execute(&mut list, &args(&[word]));
        assert!(matches!(outcome.next, Next::Finish));
        assert_eq!(outcome.diagnostics, USAGE);
        assert_eq!(outcome.output, "");
        assert_eq!(list.entries, vec!["a"]);
    }
}

#[test]
fn commands_carry_their_arguments() {
    match parse_command(&args(&["add", "x", "y z", ""])) {
        Ok(Command::Add(texts)) => assert_eq!(texts, vec!["x", "y z", ""]),
        other => panic!("{:?}", other),
    }
    match parse_command(&args(&["done", "4", "four"])) {
        Ok(Command::Done(names)) => assert_eq!(names, vec!["4", "four"]),
        other => panic!("{:?}", other),
    }
    assert!(matches!(parse_command(&args(&["list"])), Ok(Command::List)));
    assert!(matches!(parse_command(&args(&["list", "more"])), Ok(Command::List)));
}

#[test]
fn done_reports_rejects_and_removals_and_saves() {
    let mut list = list_of(&["a", "b", "c"]);
    let outcome = execute(&mut list, &args(&["done", "zero", "3", "0", "1"]));
    assert_eq!(outcome.output, "DONE!: c\nDONE!: a\n");
    assert_eq!(
        outcome.diagnostics,
        "zero could not be parsed into a positive integer\n0 could not be parsed into a positive integer\n"
    );
    match outcome.next {
        Next::Save(content) => assert_eq!(content, "b"),
        other => panic!("{:?}", other),
    }
}

#[test]
fn done_with_only_rejects_saves_the_list_unchanged() {
    let mut list = list_of(&["a", "b"]);
    let outcome = execute(&mut list, &args(&["done", "0"]));
    assert_eq!(outcome.output, "");
    assert_eq!(outcome.diagnostics, "0 could not be parsed into a positive integer\n");
    match outcome.next {
        Next::Save(content) => assert_eq!(content, "a\nb"),
        other => panic!("{:?}", other),
    }
    let outcome = execute(&mut list, &args(&["done", "abc"]));
    assert_eq!(outcome.output, "");
    assert_eq!(outcome.diagnostics, "abc could not be parsed into a positive integer\n");
    assert!(matches!(outcome.next, Next::Save(_)));
    assert_eq!(list.entries, vec!["a", "b"]);
}

#[test]
fn done_one_past_the_end_aborts() {
    let mut list = list_of(&["a", "b"]);
    let outcome = execute(&mut list, &args(&["done", "3"]));
    assert!(matches!(outcome.next, Next::Abort { position: 2, len: 2 }));
    assert_eq!(outcome.output, "");
    let mut list = list_of(&["a", "b"]);
    let outcome = execute(&mut list, &args(&["done", "2", "2"]));
    assert!(matches!(outcome.next, Next::Abort { position: 1, len: 1 }));
    assert_eq!(outcome.output, "DONE!: b\n");
}

#[test]
fn reports_have_one_line_for_each_item() {
    assert_eq!(report_done(&vec![]), "");
    assert_eq!(report_done(&vec![String::from("x"), String::from("y y")]), "DONE!: x\nDONE!: y y\n");
    assert_eq!(report_rejected(&vec![]), "");
    assert_eq!(
        report_rejected(&vec![String::from(""), String::from("-1")]),
        " could not be parsed into a positive integer\n-1 could not be parsed into a positive integer\n"
    );
}

#[test]
fn the_data_directory_is_preferred_over_the_home_directory() {
    assert_eq!(data_dir(Some("/data"), Some("/home/u")), Some(String::from("/data/todo")));
    assert_eq!(data_dir(Some("/data"), None), Some(String::from("/data/todo")));
    assert_eq!(data_dir(None, Some("/home/u")), Some(String::from("/home/u/.local/share/todo")));
    assert_eq!(data_dir(None, None), None);
    assert_eq!(data_dir(Some(""), Some("/home/u")), Some(String::from("/todo")));
}

#[test]
fn the_file_lies_in_the_directory() {
    assert_eq!(todo_path("/data/todo"), "/data/todo/todo_list.txt");
    assert_eq!(todo_path(""), "/todo_list.txt");
}

#[test]
fn a_file_failure_becomes_an_io_error() {
    let failure = std::io::Error::new(std::io::ErrorKind::NotFound, "gone");
    match AppError::from(failure) {
        AppError::IOError(e) => assert_eq!(e.kind(), std::io::ErrorKind::NotFound),
        other => panic!("{:?}", other),
    }
}
