use todo::list::TodoList;
use todo::program::{execute, Next};

fn args(words: &[&str]) -> Vec<String> {
    let mut v = vec![String::from("todo")];
    for w in words {
        v.push(String::from(*w));
    }
    v
}

fn saved(next: &Next) -> String {
    match next {
        Next::Save(content) => content.clone(),
        other => panic!("the run did not save: {:?}", other),
    }
}

#[test]
fn sanity() {
    let mut list = TodoList::load(b"").list;
    let outcome = execute(&mut list, &args(&["add", "buy milk"]));
    assert_eq!(saved(&outcome.next), "buy milk");
}

#[test]
fn add_list_done_from_an_empty_file() {
    let loaded = TodoList::load(b"");
    assert_eq!(loaded.skipped, 0);
    let mut list = loaded.list;
    assert!(list.entries.is_empty());

    let added = execute(&mut list, &args(&["add", "buy milk", "call bob"]));
    assert_eq!(added.output, "");
    assert_eq!(added.diagnostics, "");
    let file = saved(&added.next);
    assert_eq!(file, "buy milk\ncall bob");

    let mut list = TodoList::load(file.as_bytes()).list;
    let shown = execute(&mut list, &args(&["list"]));
    assert_eq!(shown.output, "1 buy milk\n2 call bob\n");
    assert_eq!(shown.diagnostics, "");
    assert!(matches!(shown.next, Next::Finish));

    let mut list = TodoList::load(file.as_bytes()).list;
    let done = execute(&mut list, &args(&["done", "1"]));
    assert_eq!(done.output, "DONE!: buy milk\n");
    assert_eq!(done.diagnostics, "");
    assert_eq!(saved(&done.next), "call bob");
    assert_eq!(list.entries, vec![String::from("call bob")]);
}

#[test]
fn additions_are_stored_in_the_order_given() {
    let mut file = String::new();
    let batches: [&[&str]; 3] = [&["add", "one"], &["add", "two", "three"], &["add", "four"]];
    for batch in batches {
        let mut list = TodoList::load(file.as_bytes()).list;
        let outcome = execute(&mut list, &args(batch));
        file = saved(&outcome.next);
    }
    assert_eq!(file, "one\ntwo\nthree\nfour");
    let list = TodoList::load(file.as_bytes()).list;
    assert_eq!(list.entries, vec!["one", "two", "three", "four"]);
}

#[test]
fn add_keeps_each_text_as_it_is() {
    let mut list = TodoList::new();
    list.add(vec![String::from("  two  spaces "), String::from(""), String::from("ünï")]);
    assert_eq!(list.entries, vec!["  two  spaces ", "", "ünï"]);
    assert_eq!(list.len(), 3);
    assert_eq!(list.content(), "  two  spaces \n\nünï");
}

#[test]
fn listing_never_saves() {
    let mut list = TodoList::load(b"a\nb\nc").list;
    let outcome = execute(&mut list, &args(&["list"]));
    assert!(matches!(outcome.next, Next::Finish));
    assert_eq!(list.entries, vec!["a", "b", "c"]);
    let again = execute(&mut list, &args(&["list", "ignored"]));
    assert_eq!(again.output, outcome.output);
    assert!(matches!(again.next, Next::Finish));
}

#[test]
fn listing_of_an_empty_list_is_empty() {
    let mut list = TodoList::new();
    let outcome = execute(&mut list, &args(&["list"]));
    assert_eq!(outcome.output, "");
    assert!(matches!(outcome.next, Next::Finish));
}

#[test]
fn listing_numbers_entries_from_one() {
    let mut list = TodoList::new();
    let mut texts = Vec::new();
    for i in 0..12 {
        texts.push(format!("task {}", i));
    }
    list.add(texts);
    let shown = list.listing();
    let lines: Vec<&str> = shown.lines().collect();
    assert_eq!(lines.len(), 12);
    assert_eq!(lines[0], "1 task 0");
    assert_eq!(lines[8], "9 task 8");
    assert_eq!(lines[9], "10 task 9");
    assert_eq!(lines[11], "12 task 11");
    assert!(shown.ends_with('\n'));
}
