//! The list as it is shown to the user: one line per entry, each entry
//! under its number, the first entry under 1.

use vstd::prelude::*;
use vstd::string::*;
use crate::index::{decimal_text, push_decimal};
use crate::list::TodoList;

verus! {

/// The line that shows the entry `text` under `number`: the number in
/// decimal, a space, the text, a line feed.
pub open spec fn numbered_line(number: nat, text: Seq<char>) -> Seq<char> {
    decimal_text(number) + seq![' '] + text + seq!['\n']
}

/// The lines that show `entries`, in their order: the entry at position `i`
/// stands under the number `i + 1`.
pub open spec fn listing(entries: Seq<Seq<char>>) -> Seq<char>
    decreases entries.len(),
{
    if entries.len() == 0 {
        Seq::empty()
    } else {
        listing(entries.drop_last()) + numbered_line(entries.len(), entries.last())
    }
}

impl TodoList {
    /// The text that shows the list: a line for each entry, in the order of
    /// the list, numbered from 1.
    pub fn listing(&self) -> (text: String)
        ensures
            text@ == listing(self@),
    {
        let mut text = String::new();
        let mut i: usize = 0;
        assert(self@.take(0) =~= Seq::<Seq<char>>::empty());
        while i < self.entries.len()
            invariant
                0 <= i <= self@.len(),
                self@.len() == self.entries@.len(),
                text@ == listing(self@.take(i as int)),
            decreases self@.len() - i,
        {
            proof {
                reveal_strlit(" ");
                reveal_strlit("\n");
                assert(" "@ =~= seq![' ']);
                assert("\n"@ =~= seq!['\n']);
                assert(self@.take(i + 1).drop_last() =~= self@.take(i as int));
                assert(self@.take(i + 1).last() == self.entries@[i as int]@);
            }
            let ghost shown = text@;
            push_decimal(&mut text, i + 1);
            text.append(" ");
            text.append(self.entries[i].as_str());
            text.append("\n");
            assert(text@ =~= shown + numbered_line((i + 1) as nat, self.entries@[i as int]@));
            i = i + 1;
        }
        assert(self@.take(i as int) =~= self@);
        text
    }
}

} // verus!
