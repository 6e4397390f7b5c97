use std::io::BufRead;
use todo::list::TodoList;

fn strings(words: &[&str]) -> Vec<String> {
    words.iter().map(|w| String::from(*w)).collect()
}

fn entries_of(bytes: &[u8]) -> Vec<String> {
    TodoList::load(bytes).list.entries
}

#[test]
fn an_empty_file_holds_no_entries() {
    let loaded = TodoList::load(b"");
    assert!(loaded.list.entries.is_empty());
    assert_eq!(loaded.skipped, 0);
}

#[test]
fn each_line_is_an_entry() {
    assert_eq!(entries_of(b"a"), vec!["a"]);
    assert_eq!(entries_of(b"a\nb"), vec!["a", "b"]);
    assert_eq!(entries_of(b"buy milk\ncall bob\nwrite"), vec!["buy milk", "call bob", "write"]);
}

#[test]
fn a_line_feed_at_the_end_opens_no_entry() {
    assert_eq!(entries_of(b"a\n"), vec!["a"]);
    assert_eq!(entries_of(b"a\nb\n"), vec!["a", "b"]);
    assert_eq!(entries_of(b"\n"), vec![""]);
}

#[test]
fn empty_lines_inside_the_text_are_entries() {
    assert_eq!(entries_of(b"a\n\nb"), vec!["a", "", "b"]);
    assert_eq!(entries_of(b"\n\n"), vec!["", ""]);
    assert_eq!(entries_of(b"\na"), vec!["", "a"]);
}

#[test]
fn a_carriage_return_before_a_line_feed_is_dropped() {
    assert_eq!(entries_of(b"a\r\nb\r\n"), vec!["a", "b"]);
    assert_eq!(entries_of(b"a\r\r\nb"), vec!["a\r", "b"]);
    assert_eq!(entries_of(b"a\rb\nc"), vec!["a\rb", "c"]);
    assert_eq!(entries_of(b"a\nb\r"), vec!["a", "b\r"]);
    assert_eq!(entries_of(b"\r\n"), vec![""]);
}

#[test]
fn text_beyond_ascii_is_decoded() {
    assert_eq!(entries_of("héllo\n日本語\n🎉 party".as_bytes()), vec!["héllo", "日本語", "🎉 party"]);
}

#[test]
fn a_line_that_is_not_text_is_passed_over_and_counted() {
    let loaded = TodoList::load(b"good\n\xff\xfe\nalso good\n\xc3\nlast");
    assert_eq!(loaded.list.entries, vec!["good", "also good", "last"]);
    assert_eq!(loaded.skipped, 2);
    let loaded = TodoList::load(b"\xe2\x82");
    assert!(loaded.list.entries.is_empty());
    assert_eq!(loaded.skipped, 1);
    let loaded = TodoList::load(b"\xed\xa0\x80\nok");
    assert_eq!(loaded.list.entries, vec!["ok"]);
    assert_eq!(loaded.skipped, 1);
}

#[test]
fn loading_agrees_with_the_standard_line_reader() {
    let samples: [&[u8]; 16] = [
        b"", b"a", b"a\n", b"a\nb", b"\n", b"\n\n", b"a\r\n", b"a\r", b"\r", b"\r\n\r\n", b"a\n\nb\n",
        b"x\xffy\nz", b"\xf0\x9f\x8e\x89\n\xf0\x9f\x8e", b"one\r\ntwo\rthree\n\rfour", b"a\n\r", b"\xc0\x80\nb",
    ];
    for bytes in samples {
        let mut expected = Vec::new();
        let mut failed = 0;
        for line in bytes.lines() {
            match line {
                Ok(text) => expected.push(text),
                Err(_) => failed += 1,
            }
        }
        let loaded = TodoList::load(bytes);
        assert_eq!(loaded.list.entries, expected, "{:?}", bytes);
        assert_eq!(loaded.skipped, failed, "{:?}", bytes);
    }
}

#[test]
fn entries_are_stored_with_line_feeds_between_them() {
    assert_eq!(TodoList::new().content(), "");
    assert_eq!(TodoList { entries: strings(&["only"]) }.content(), "only");
    assert_eq!(TodoList { entries: strings(&["a", "b", "c"]) }.content(), "a\nb\nc");
    assert_eq!(TodoList { entries: strings(&["", ""]) }.content(), "\n");
}

#[test]
fn a_stored_list_is_read_back_as_it_was() {
    let lists: [&[&str]; 6] = [
        &[],
        &["one"],
        &["buy milk", "call bob"],
        &["", "", "x"],
        &["tab\there", "ünï çödé", "🎉", "last\r"],
        &["a\rb", " ", "-"],
    ];
    for words in lists {
        let list = TodoList { entries: strings(words) };
        let content = list.content();
        let loaded = TodoList::load(content.as_bytes());
        assert_eq!(loaded.list.entries, list.entries);
        assert_eq!(loaded.skipped, 0);
    }
}

#[test]
fn an_empty_last_entry_is_not_read_back() {
    let list = TodoList { entries: strings(&["a", ""]) };
    assert_eq!(list.content(), "a\n");
    assert_eq!(entries_of(list.content().as_bytes()), vec!["a"]);
}
