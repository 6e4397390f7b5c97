//! The stored form of the list: plain text, one entry per line, the entries
//! separated by line feeds, with no line feed after the last.

use vstd::prelude::*;
use vstd::string::*;
use vstd::utf8::*;
use crate::encoding::{
    lemma_ascii_byte_absent, lemma_encode_concat, lemma_encoding_not_empty, lemma_last_byte,
};
use crate::list::{after_additions, lemma_additions_in_order, texts, TodoList};

verus! {

/// The texts of `entries` with a line feed between each two neighbours.
pub open spec fn joined(entries: Seq<Seq<char>>) -> Seq<char>
    decreases entries.len(),
{
    if entries.len() == 0 {
        Seq::empty()
    } else if entries.len() == 1 {
        entries[0]
    } else {
        joined(entries.drop_last()) + seq!['\n'] + entries.last()
    }
}

/// The byte that ends a line.
pub const LINE_FEED: u8 = 10;

/// The byte that may stand before the line feed at the end of a line.
pub const CARRIAGE_RETURN: u8 = 13;

/// The number of bytes before the first line feed in `bytes`; the length of
/// `bytes` if it holds no line feed.
pub open spec fn line_length(bytes: Seq<u8>) -> nat
    decreases bytes.len(),
{
    if bytes.len() == 0 || bytes[0] == LINE_FEED {
        0
    } else {
        1 + line_length(bytes.drop_first())
    }
}

/// `line` without the carriage return at its end, if it has one there.
pub open spec fn without_return(line: Seq<u8>) -> Seq<u8> {
    if line.len() > 0 && line.last() == CARRIAGE_RETURN {
        line.drop_last()
    } else {
        line
    }
}

/// The lines of a stored text. A line ends at a line feed, or at the end of
/// the text if no line feed follows; a line feed at the very end of the text
/// opens no further line. A line that a line feed ends is taken without that
/// line feed and without one carriage return before it.
pub open spec fn raw_lines(bytes: Seq<u8>) -> Seq<Seq<u8>>
    decreases bytes.len(),
{
    let n = line_length(bytes);
    if bytes.len() == 0 {
        Seq::empty()
    } else if n >= bytes.len() {
        seq![bytes]
    } else {
        seq![without_return(bytes.take(n as int))] + raw_lines(bytes.skip(n as int + 1))
    }
}

/// The texts of the lines that are valid UTF-8, in the order of the lines.
pub open spec fn decoded(lines: Seq<Seq<u8>>) -> Seq<Seq<char>>
    decreases lines.len(),
{
    if lines.len() == 0 {
        Seq::empty()
    } else if valid_utf8(lines.last()) {
        decoded(lines.drop_last()).push(decode_utf8(lines.last()))
    } else {
        decoded(lines.drop_last())
    }
}

/// The number of lines that are not valid UTF-8.
pub open spec fn undecodable(lines: Seq<Seq<u8>>) -> nat
    decreases lines.len(),
{
    if lines.len() == 0 {
        0
    } else if valid_utf8(lines.last()) {
        undecodable(lines.drop_last())
    } else {
        undecodable(lines.drop_last()) + 1
    }
}

/// A line is as long as the run of bytes other than line feeds that it starts with.
pub proof fn lemma_line_length(bytes: Seq<u8>, k: int)
    requires
        0 <= k <= bytes.len(),
        forall|j: int| 0 <= j < k ==> bytes[j] != LINE_FEED,
        k == bytes.len() || bytes[k] == LINE_FEED,
    ensures
        line_length(bytes) == k,
    decreases k,
{
    if k > 0 {
        let rest = bytes.drop_first();
        assert forall|j: int| 0 <= j < k - 1 implies rest[j] != LINE_FEED by {
            assert(rest[j] == bytes[j + 1]);
        }
        lemma_line_length(rest, k - 1);
    }
}

/// Whether a list comes back from its stored form as it was written: no
/// entry holds a line feed, no entry but the last ends in a carriage return,
/// and the last entry is not empty.
pub open spec fn storable(entries: Seq<Seq<char>>) -> bool {
    &&& forall|i: int, j: int|
        0 <= i < entries.len() && 0 <= j < entries[i].len() ==> entries[i][j] != '\n'
    &&& forall|i: int|
        0 <= i < entries.len() - 1 && entries[i].len() > 0 ==> #[trigger] entries[i].last()
            != '\r'
    &&& entries.len() > 0 ==> entries.last().len() > 0
}

/// The stored text of two or more entries is the first entry, a line feed,
/// and the stored text of the others.
pub proof fn lemma_joined_front(entries: Seq<Seq<char>>)
    requires
        entries.len() >= 2,
    ensures
        joined(entries) == entries[0] + seq!['\n'] + joined(entries.drop_first()),
    decreases entries.len(),
{
    let front = entries.drop_last();
    let back = entries.drop_first();
    if entries.len() == 2 {
        assert(joined(front) == entries[0]);
        assert(joined(back) == entries[1]);
    } else {
        lemma_joined_front(front);
        assert(front.drop_first() =~= back.drop_last());
        assert(joined(entries) =~= entries[0] + seq!['\n'] + joined(back));
    }
}

/// Reading a line and then further lines gives what reading the line gives,
/// and then what reading the further lines gives.
pub proof fn lemma_decoded_front(line: Seq<u8>, lines: Seq<Seq<u8>>)
    ensures
        decoded(seq![line] + lines) == decoded(seq![line]) + decoded(lines),
        undecodable(seq![line] + lines) == undecodable(seq![line]) + undecodable(lines),
    decreases lines.len(),
{
    let all = seq![line] + lines;
    if lines.len() == 0 {
        assert(all =~= seq![line]);
        assert(decoded(seq![line]) + decoded(lines) =~= decoded(seq![line]));
    } else {
        lemma_decoded_front(line, lines.drop_last());
        assert(all.drop_last() =~= seq![line] + lines.drop_last());
        assert(all.last() == lines.last());
        assert(decoded(all) =~= decoded(seq![line]) + decoded(lines));
    }
}

/// A list that is written and read again is the list that was written: the
/// stored text of a storable list, encoded as UTF-8, reads as the same
/// entries, and no line of it is passed over.
pub proof fn lemma_round_trip(entries: Seq<Seq<char>>)
    requires
        storable(entries),
    ensures
        decoded(raw_lines(encode_utf8(joined(entries)))) == entries,
        undecodable(raw_lines(encode_utf8(joined(entries)))) == 0,
    decreases entries.len(),
{
    broadcast use {encode_utf8_valid_utf8, encode_utf8_decode_utf8};

    let bytes = encode_utf8(joined(entries));
    if entries.len() == 0 {
        assert(decoded(raw_lines(bytes)) =~= entries);
    } else {
        let first = entries[0];
        let head = encode_utf8(first);
        assert('\n' as u32 == LINE_FEED && '\r' as u32 == CARRIAGE_RETURN);
        lemma_ascii_byte_absent(first, '\n');
        assert(decoded(seq![head]) =~= seq![first] && undecodable(seq![head]) == 0) by {
            assert(seq![head].drop_last() =~= Seq::<Seq<u8>>::empty());
            assert(decoded(Seq::<Seq<u8>>::empty()) =~= Seq::<Seq<char>>::empty());
            assert(undecodable(Seq::<Seq<u8>>::empty()) == 0);
            assert(valid_utf8(head));
            assert(decode_utf8(head) == first);
        }
        if entries.len() == 1 {
            assert(first == entries.last());
            lemma_encoding_not_empty(first);
            lemma_line_length(bytes, bytes.len() as int);
            assert(raw_lines(bytes) =~= seq![head]);
            assert(seq![first] =~= entries);
        } else {
            let rest = entries.drop_first();
            let tail = encode_utf8(joined(rest));
            lemma_joined_front(entries);
            lemma_encode_concat(first + seq!['\n'], joined(rest));
            lemma_encode_concat(first, seq!['\n']);
            assert(encode_utf8(seq!['\n']) =~= seq![LINE_FEED]) by {
                assert(seq!['\n'].drop_first() =~= Seq::<char>::empty());
                assert(encode_utf8(Seq::<char>::empty()) =~= Seq::<u8>::empty());
                crate::encoding::lemma_encode_char('\n');
            }
            assert(bytes =~= head + seq![LINE_FEED] + tail);
            lemma_line_length(bytes, head.len() as int);
            assert(bytes.take(head.len() as int) =~= head);
            assert(bytes.skip(head.len() as int + 1) =~= tail);
            assert(without_return(head) == head) by {
                if first.len() > 0 {
                    assert(entries[0].last() != '\r');
                    lemma_last_byte(first, '\r');
                } else {
                    assert(head.len() == 0);
                }
            }
            assert(storable(rest)) by {
                assert forall|i: int, j: int|
                    0 <= i < rest.len() && 0 <= j < rest[i].len() implies rest[i][j] != '\n' by {
                    assert(rest[i] == entries[i + 1]);
                }
                assert forall|i: int|
                    0 <= i < rest.len() - 1 && rest[i].len() > 0 implies #[trigger] rest[i].last()
                    != '\r' by {
                    assert(rest[i] == entries[i + 1]);
                }
                assert(rest.last() == entries.last());
            }
            lemma_round_trip(rest);
            lemma_decoded_front(head, raw_lines(tail));
            assert(raw_lines(bytes) =~= seq![head] + raw_lines(tail));
            assert(seq![first] + rest =~= entries);
        }
    }
}

/// After any number of additions to an empty list the stored text is the
/// added texts, in the order in which they were given, with a line feed
/// between each two; and where those texts are storable, the stored text
/// reads as exactly those texts, one on each line.
pub proof fn lemma_additions_stored(batches: Seq<Seq<Seq<char>>>)
    ensures
        joined(after_additions(Seq::empty(), batches)) == joined(batches.flatten()),
        storable(batches.flatten()) ==> decoded(
            raw_lines(encode_utf8(joined(after_additions(Seq::empty(), batches)))),
        ) == batches.flatten(),
{
    lemma_additions_in_order(Seq::empty(), batches);
    assert(Seq::<Seq<char>>::empty() + batches.flatten() =~= batches.flatten());
    if storable(batches.flatten()) {
        lemma_round_trip(batches.flatten());
    }
}

/// Decodes bytes as text with std's `String::from_utf8`, which accepts
/// exactly the byte sequences that are valid UTF-8 and then yields the text
/// they encode; any other sequence gives `None`.
#[verifier::external_body]
fn decode_text(bytes: Vec<u8>) -> (r: Option<String>)
    ensures
        r is Some <==> valid_utf8(bytes@),
        r is Some ==> r.unwrap()@ == decode_utf8(bytes@),
{
    String::from_utf8(bytes).ok()
}

/// A list read from its stored form.
#[derive(Debug)]
pub struct Loaded {
    /// The entries that could be read.
    pub list: TodoList,
    /// The number of lines passed over because they are not valid UTF-8.
    pub skipped: usize,
}

impl TodoList {
    /// Reads a list from its stored form. Every line that is valid UTF-8
    /// becomes an entry, in the order of the lines; the others are passed
    /// over and counted.
    pub fn load(bytes: &[u8]) -> (r: Loaded)
        ensures
            r.list@ == decoded(raw_lines(bytes@)),
            r.skipped == undecodable(raw_lines(bytes@)),
    {
        let n: usize = bytes.len();
        let mut entries: Vec<String> = Vec::new();
        let mut skipped: usize = 0;
        let mut line: Vec<u8> = Vec::new();
        let mut start: usize = 0;
        let mut i: usize = 0;
        let ghost mut lines: Seq<Seq<u8>> = Seq::empty();
        assert(bytes@.skip(0) =~= bytes@);
        assert(texts(entries@) =~= Seq::<Seq<char>>::empty());
        while i < n
            invariant
                0 <= start <= i <= n,
                n == bytes@.len(),
                skipped <= start,
                line@ == bytes@.subrange(start as int, i as int),
                forall|j: int| start <= j < i ==> bytes@[j] != LINE_FEED,
                raw_lines(bytes@) == lines + raw_lines(bytes@.skip(start as int)),
                texts(entries@) == decoded(lines),
                skipped == undecodable(lines),
            decreases n - i,
        {
            let b: u8 = bytes[i];
            if b == LINE_FEED {
                let ghost tail = bytes@.skip(start as int);
                let ghost whole = line@;
                proof {
                    assert forall|j: int| 0 <= j < i - start implies tail[j] != LINE_FEED by {
                        assert(tail[j] == bytes@[start + j]);
                    }
                    lemma_line_length(tail, i - start);
                    assert(tail.take(i - start) =~= whole);
                    assert(tail.skip(i - start + 1) =~= bytes@.skip(i + 1));
                }
                if line.len() > 0 && line[line.len() - 1] == CARRIAGE_RETURN {
                    line.pop();
                }
                assert(line@ =~= without_return(whole));
                let ghost trimmed = line@;
                let mut full: Vec<u8> = Vec::new();
                core::mem::swap(&mut full, &mut line);
                proof {
                    assert(lines.push(trimmed).drop_last() =~= lines);
                    assert(raw_lines(bytes@) =~= lines.push(trimmed) + raw_lines(
                        bytes@.skip(i + 1),
                    ));
                    lines = lines.push(trimmed);
                }
                match decode_text(full) {
                    Some(entry) => {
                        assert(texts(entries@.push(entry)) =~= texts(entries@).push(entry@));
                        entries.push(entry);
                    },
                    None => {
                        skipped = skipped + 1;
                    },
                }
                start = i + 1;
                assert(line@ =~= bytes@.subrange(start as int, i + 1));
            } else {
                line.push(b);
                assert(line@ =~= bytes@.subrange(start as int, i + 1));
            }
            i = i + 1;
        }
        if start < n {
            let ghost tail = bytes@.skip(start as int);
            proof {
                assert forall|j: int| 0 <= j < n - start implies tail[j] != LINE_FEED by {
                    assert(tail[j] == bytes@[start + j]);
                }
                lemma_line_length(tail, n - start);
                assert(line@ =~= tail);
                assert(lines.push(tail).drop_last() =~= lines);
                assert(raw_lines(bytes@) =~= lines.push(tail));
                lines = lines.push(tail);
            }
            match decode_text(line) {
                Some(entry) => {
                    assert(texts(entries@.push(entry)) =~= texts(entries@).push(entry@));
                    entries.push(entry);
                },
                None => {
                    skipped = skipped + 1;
                },
            }
        } else {
            assert(raw_lines(bytes@) =~= lines);
        }
        Loaded { list: TodoList { entries }, skipped }
    }

    /// The text to store for the list: its entries, separated by line feeds.
    pub fn content(&self) -> (text: String)
        ensures
            text@ == joined(self@),
    {
        let mut text = String::new();
        let mut i: usize = 0;
        assert(self@.take(0) =~= Seq::<Seq<char>>::empty());
        while i < self.entries.len()
            invariant
                0 <= i <= self@.len(),
                self@.len() == self.entries@.len(),
                text@ == joined(self@.take(i as int)),
            decreases self@.len() - i,
        {
            proof {
                reveal_strlit("\n");
                assert(self@.take(i + 1).drop_last() =~= self@.take(i as int));
                assert(self@.take(i + 1).last() == self.entries@[i as int]@);
                assert("\n"@ =~= seq!['\n']);
            }
            if i > 0 {
                text.append("\n");
            }
            text.append(self.entries[i].as_str());
            i = i + 1;
        }
        assert(self@.take(i as int) =~= self@);
        text
    }
}

} // verus!
