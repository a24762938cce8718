//! The size of a batch, from what `nix path-info --size --recursive` prints.
//!
//! The lines are taken one by one, so the memory needed does not grow with the
//! closure.

use vstd::prelude::*;

use crate::decimal::{is_digit, law_every_u64_is_read, numeral, parse_u64, u64_in};
use crate::text::{
    is_space, is_word, law_a_word_is_the_only_word, law_white_space_has_no_words,
    law_white_space_separates_words, split_whitespace, words,
};

verus! {

/// The size in one line of output, `<path> <narSize>`: its second word, if that
/// is a number.
pub open spec fn size_in(line: Seq<char>) -> Option<u64> {
    if words(line).len() > 1 {
        u64_in(words(line)[1])
    } else {
        None
    }
}

/// Reads the size out of one line of output.
pub fn line_size(line: &str) -> (size: Option<u64>)
    ensures
        size == size_in(line@),
{
    let columns = split_whitespace(line);
    assert(columns@.len() == words(line@).len());
    if columns.len() > 1 {
        assert(words(line@)[1] == columns@[1]@);
        parse_u64(columns[1].as_str())
    } else {
        None
    }
}

/// The sum of two sizes, as far as a `u64` goes.
pub open spec fn saturating_sum(a: u64, b: u64) -> u64 {
    if a + b > u64::MAX {
        u64::MAX
    } else {
        (a + b) as u64
    }
}

/// The sum so far.
#[derive(Clone, Copy, Debug, PartialEq, Eq, Structural)]
pub struct ClosureSize {
    /// The sizes read so far, added up; the greatest `u64` if they exceed it.
    pub total: u64,
    /// Whether a line had no readable size, or the output could not be read to its
    /// end.
    pub broken: bool,
}

impl ClosureSize {
    /// The sum with a line of output taken in. A line without a size breaks it.
    pub open spec fn with_line(self, line: Seq<char>) -> ClosureSize {
        match size_in(line) {
            Some(size) => ClosureSize { total: saturating_sum(self.total, size), ..self },
            None => ClosureSize { broken: true, ..self },
        }
    }

    /// The size of the closure: the sum, if the command succeeded and all of its
    /// output was understood.
    pub open spec fn bytes(self, success: bool) -> Option<u64> {
        if success && !self.broken {
            Some(self.total)
        } else {
            None
        }
    }

    /// No line read yet.
    pub fn new() -> (size: Self)
        ensures
            size == (ClosureSize { total: 0, broken: false }),
    {
        ClosureSize { total: 0, broken: false }
    }

    /// Takes in one line of output.
    pub fn add_line(&mut self, line: &str)
        ensures
            *final(self) == old(self).with_line(line@),
    {
        match line_size(line) {
            Some(size) => {
                self.total = self.total.saturating_add(size);
            },
            None => {
                self.broken = true;
            },
        }
    }

    /// Takes in that the output could not be read further.
    pub fn read_failed(&mut self)
        ensures
            *final(self) == (ClosureSize { broken: true, ..*old(self) }),
    {
        self.broken = true;
    }

    /// The size of the closure: the sum, if the command succeeded and all of its
    /// output was understood. The daemon stays useful without metrics rather than
    /// producing fake numbers.
    pub fn finish(self, success: bool) -> (bytes: Option<u64>)
        ensures
            bytes == self.bytes(success),
    {
        if success && !self.broken {
            Some(self.total)
        } else {
            None
        }
    }
}

/// The sum that `lines` lead to.
pub open spec fn summed(lines: Seq<Seq<char>>) -> ClosureSize
    decreases lines.len(),
{
    if lines.len() == 0 {
        ClosureSize { total: 0, broken: false }
    } else {
        summed(lines.drop_last()).with_line(lines.last())
    }
}

/// The sizes in `lines`, added up without bound.
pub open spec fn sum_of_sizes(lines: Seq<Seq<char>>) -> nat
    decreases lines.len(),
{
    if lines.len() == 0 {
        0
    } else {
        sum_of_sizes(lines.drop_last()) + match size_in(lines.last()) {
            Some(size) => size as nat,
            None => 0,
        }
    }
}

/// However many lines there are, the total is the sum of their sizes, or the
/// greatest `u64` if the sum exceeds it.
pub proof fn law_the_total_is_the_sum(lines: Seq<Seq<char>>)
    ensures
        summed(lines).total == if sum_of_sizes(lines) > u64::MAX {
            u64::MAX as nat
        } else {
            sum_of_sizes(lines)
        },
    decreases lines.len(),
{
    if lines.len() > 0 {
        law_the_total_is_the_sum(lines.drop_last());
    }
}

/// There is a size exactly when the command succeeded and every line of its output
/// has one: a line that cannot be read leaves no partial sum, and neither does
/// output that breaks off.
pub proof fn law_a_size_needs_every_line(lines: Seq<Seq<char>>, success: bool)
    ensures
        summed(lines).bytes(success) is Some <==> success && forall|i: int|
            0 <= i < lines.len() ==> size_in(#[trigger] lines[i]) is Some,
        (ClosureSize { broken: true, ..summed(lines) }).bytes(success) is None,
        summed(lines).bytes(success) matches Some(bytes) ==> bytes == if sum_of_sizes(lines)
            > u64::MAX {
            u64::MAX as nat
        } else {
            sum_of_sizes(lines)
        },
{
    law_the_total_is_the_sum(lines);
    lemma_broken_by_a_line(lines);
}

/// The sum is broken exactly when a line has no size.
proof fn lemma_broken_by_a_line(lines: Seq<Seq<char>>)
    ensures
        !summed(lines).broken <==> forall|i: int|
            0 <= i < lines.len() ==> size_in(#[trigger] lines[i]) is Some,
    decreases lines.len(),
{
    if lines.len() > 0 {
        let head = lines.drop_last();
        lemma_broken_by_a_line(head);
        if forall|i: int| 0 <= i < lines.len() ==> size_in(#[trigger] lines[i]) is Some {
            assert forall|i: int| 0 <= i < head.len() implies size_in(
                #[trigger] head[i],
            ) is Some by {
                assert(head[i] == lines[i]);
            }
            assert(size_in(lines[lines.len() - 1]) is Some);
        }
        if !summed(lines).broken {
            assert forall|i: int| 0 <= i < lines.len() implies size_in(
                #[trigger] lines[i],
            ) is Some by {
                if i < head.len() {
                    assert(size_in(head[i]) is Some);
                }
            }
        }
    }
}

/// Whether all of `s` is white space.
pub open spec fn is_blank(s: Seq<char>) -> bool {
    forall|i: int| 0 <= i < s.len() ==> is_space(#[trigger] s[i])
}

/// The size in a line is the number in its second column, however the columns are
/// separated and whatever comes behind: every size that a `u64` can hold is read.
/// Anything but a number there is no size.
pub proof fn law_the_second_column_is_the_size(
    lead: Seq<char>,
    path: Seq<char>,
    gap: Seq<char>,
    column: Seq<char>,
    tail: Seq<char>,
)
    requires
        is_blank(lead),
        is_word(path),
        gap.len() > 0,
        is_blank(gap),
        is_word(column),
        tail.len() == 0 || is_space(tail[0]),
    ensures
        size_in(lead + path + gap + column + tail) == u64_in(column),
        forall|n: u64| column == #[trigger] numeral(n as nat) ==> size_in(
            lead + path + gap + column + tail,
        ) == Some(n),
        (exists|i: int|
            0 <= i < column.len() && !('0' <= #[trigger] column[i] <= '9') && (i > 0 || column[0]
                != '+')) ==> size_in(lead + path + gap + column + tail) is None,
{
    let line = lead + path + gap + column + tail;
    lemma_words_with_blanks(lead, path, gap + column + tail);
    lemma_words_with_blanks(gap, column, tail);
    assert(line =~= lead + path + (gap + column + tail));
    assert(words(line) =~= seq![path] + words(gap + column + tail));
    assert(words(gap + column + tail) =~= seq![column] + words(tail));
    assert(words(line)[1] == column);
    assert forall|n: u64| column == #[trigger] numeral(n as nat) implies size_in(line) == Some(
        n,
    ) by {
        law_every_u64_is_read(n as nat);
    }
    if exists|i: int|
        0 <= i < column.len() && !('0' <= #[trigger] column[i] <= '9') && (i > 0 || column[0]
            != '+') {
        let i = choose|i: int|
            0 <= i < column.len() && !('0' <= #[trigger] column[i] <= '9') && (i > 0 || column[0]
                != '+');
        assert(!is_digit(column[i]));
        assert(column[0] == '+' ==> column.skip(1)[i - 1] == column[i]);
    }
}

/// A line with fewer than two columns has no size.
pub proof fn law_a_line_without_a_second_column_has_no_size(
    lead: Seq<char>,
    path: Seq<char>,
    tail: Seq<char>,
)
    requires
        is_blank(lead),
        is_word(path),
        is_blank(tail),
    ensures
        size_in(lead) is None,
        size_in(lead + path + tail) is None,
{
    law_white_space_has_no_words(lead);
    law_white_space_has_no_words(tail);
    lemma_words_with_blanks(lead, path, tail);
}

/// A word between white space is the first word of what it begins.
proof fn lemma_words_with_blanks(lead: Seq<char>, word: Seq<char>, tail: Seq<char>)
    requires
        is_blank(lead),
        is_word(word),
        tail.len() == 0 || is_space(tail[0]),
    ensures
        words(lead + word + tail) == seq![word] + words(tail),
{
    // First the word and what follows it.
    let behind = word + tail;
    law_a_word_is_the_only_word(word);
    if tail.len() == 0 {
        assert(behind =~= word);
        assert(tail =~= seq![]);
        assert(words(tail) =~= seq![]);
        assert(words(behind) =~= seq![word] + words(tail));
    } else {
        let rest = tail.skip(1);
        assert(behind =~= word + seq![tail[0]] + rest);
        law_white_space_separates_words(word, tail[0], rest);
        assert(tail =~= Seq::<char>::empty() + seq![tail[0]] + rest);
        law_white_space_separates_words(Seq::empty(), tail[0], rest);
        assert(words(tail) =~= words(rest));
    }
    // Then what precedes it.
    if lead.len() == 0 {
        assert(lead + word + tail =~= behind);
    } else {
        let head = lead.drop_last();
        let space = lead.last();
        assert(is_space(lead[lead.len() - 1]));
        assert(is_blank(head)) by {
            assert forall|i: int| 0 <= i < head.len() implies is_space(#[trigger] head[i]) by {
                assert(head[i] == lead[i]);
            }
        }
        law_white_space_has_no_words(head);
        assert(lead + word + tail =~= head + seq![space] + behind);
        law_white_space_separates_words(head, space, behind);
        assert(words(head) + words(behind) =~= words(behind));
    }
}

} // verus!
