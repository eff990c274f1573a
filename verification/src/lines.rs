//! Texts made of lines, and the lines they are made of.
use vstd::prelude::*;

use crate::seqs;
use crate::text;

verus! {

/// The lines of a text, the empty one behind the last line feed included.
pub open spec fn lines(s: Seq<char>) -> Seq<Seq<char>> {
    seqs::split(s, '\n')
}

/// Lines with a line feed behind each.
pub open spec fn ended(list: Seq<Seq<char>>) -> Seq<char>
    decreases list.len(),
{
    if list.len() == 0 {
        Seq::empty()
    } else {
        ended(list.drop_last()) + list.last() + seq!['\n']
    }
}

/// All of these are single lines.
pub open spec fn are_lines(list: Seq<Seq<char>>) -> bool {
    forall|i: int| 0 <= i < list.len() ==> seqs::lacks(#[trigger] list[i], '\n')
}

/// More lines behind.
pub proof fn lemma_ended_concat(a: Seq<Seq<char>>, b: Seq<Seq<char>>)
    ensures
        ended(a + b) == ended(a) + ended(b),
        are_lines(a) && are_lines(b) ==> are_lines(a + b),
    decreases b.len(),
{
    if b.len() == 0 {
        assert(a + b =~= a);
        assert(ended(a) + ended(b) =~= ended(a));
    } else {
        assert((a + b).drop_last() =~= a + b.drop_last());
        lemma_ended_concat(a, b.drop_last());
        assert(ended(a + b) =~= ended(a) + ended(b));
    }
    if are_lines(a) && are_lines(b) {
        assert forall|i: int| 0 <= i < (a + b).len() implies seqs::lacks(
            #[trigger] (a + b)[i],
            '\n',
        ) by {
            if i < a.len() {
                assert((a + b)[i] == a[i]);
            } else {
                assert((a + b)[i] == b[i - a.len()]);
            }
        }
    }
}

/// One line.
pub proof fn lemma_one(l: Seq<char>)
    ensures
        ended(seq![l]) == l + seq!['\n'],
        seqs::lacks(l, '\n') ==> are_lines(seq![l]),
{
    let none = Seq::<Seq<char>>::empty();
    assert(seq![l].drop_last() =~= none);
    assert(ended(none) =~= Seq::<char>::empty());
    assert(ended(seq![l]) == ended(none) + l + seq!['\n']);
    assert(Seq::<char>::empty() + l =~= l);
}

/// No line.
pub proof fn lemma_none()
    ensures
        ended(Seq::empty()) == Seq::<char>::empty(),
        are_lines(Seq::empty()),
{
}

/// A text made of lines has those lines, and then an empty one.
pub proof fn lemma_lines(list: Seq<Seq<char>>, rest: Seq<char>)
    requires
        are_lines(list),
    ensures
        lines(ended(list) + rest) == list + lines(rest),
        lines(ended(list)) == list.push(Seq::empty()),
    decreases list.len(),
{
    let none = Seq::<char>::empty();
    lemma_lines_and(list, rest);
    lemma_lines_and(list, none);
    assert(ended(list) + none =~= ended(list));
    seqs::lemma_split_whole(none, '\n');
    assert(list + seq![none] =~= list.push(none));
}

proof fn lemma_lines_and(list: Seq<Seq<char>>, rest: Seq<char>)
    requires
        are_lines(list),
    ensures
        lines(ended(list) + rest) == list + lines(rest),
    decreases list.len(),
{
    if list.len() == 0 {
        assert(ended(list) + rest =~= rest);
        assert(list + lines(rest) =~= lines(rest));
    } else {
        let front = list.drop_last();
        let last = list.last();
        assert(last == list[list.len() - 1]);
        assert forall|i: int| 0 <= i < front.len() implies seqs::lacks(
            #[trigger] front[i],
            '\n',
        ) by {
            assert(front[i] == list[i]);
        }
        let more = last + seq!['\n'] + rest;
        assert(ended(list) + rest =~= ended(front) + more);
        lemma_lines_and(front, more);
        seqs::lemma_split_at(last, '\n', rest);
        seqs::lemma_split_whole(last, '\n');
        assert(front + (seq![last] + lines(rest)) =~= list + lines(rest));
    }
}

/// Two single lines behind one another are one.
pub broadcast proof fn lemma_joined(a: Seq<char>, b: Seq<char>)
    requires
        seqs::lacks(a, '\n'),
        seqs::lacks(b, '\n'),
    ensures
        #[trigger] seqs::lacks(a + b, '\n'),
{
    assert forall|i: int| 0 <= i < (a + b).len() implies (a + b)[i] != '\n' by {
        if i < a.len() {
            assert((a + b)[i] == a[i]);
        } else {
            assert((a + b)[i] == b[i - a.len()]);
        }
    }
}

/// A number is in one line.
pub broadcast proof fn lemma_number(n: nat)
    ensures
        #[trigger] seqs::lacks(text::decimal(n), '\n'),
{
    text::law_decimal_reads_back(n);
    assert forall|i: int| 0 <= i < text::decimal(n).len() implies text::decimal(n)[i] != '\n' by {
        assert(text::is_digit(text::decimal(n)[i]));
    }
}

/// No line feed from here on.
pub open spec fn clear_from(s: Seq<char>, i: int) -> bool
    decreases s.len() - i,
{
    i >= s.len() || (s[i] != '\n' && clear_from(s, i + 1))
}

/// A text without a line feed from here on is a single line from here on.
pub proof fn lemma_clear_from(s: Seq<char>, i: int)
    requires
        0 <= i,
        clear_from(s, i),
    ensures
        forall|j: int| i <= j < s.len() ==> #[trigger] s[j] != '\n',
        i == 0 ==> seqs::lacks(s, '\n'),
    decreases s.len() - i,
{
    if i < s.len() {
        lemma_clear_from(s, i + 1);
    }
}

pub broadcast group group_one_line {
    lemma_joined,
    lemma_number,
}

} // verus!
