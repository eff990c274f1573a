//! Searching, splitting and joining sequences of characters or bytes.
//!
//! Every function works on a slice and hands back slices of it, so a head is
//! taken apart without being copied. The specification functions say what each
//! one means over the mathematical sequences that the slices stand for.
use vstd::prelude::*;
use vstd::slice::slice_subrange;

verus! {

/// A character or a byte: something that can be copied and compared.
pub trait Symbol: Copy {
    /// Are these two the same?
    fn same(&self, other: &Self) -> (r: bool)
        ensures
            r == (*self == *other),
    ;
}

impl Symbol for char {
    fn same(&self, other: &char) -> (r: bool) {
        *self == *other
    }
}

impl Symbol for u8 {
    fn same(&self, other: &u8) -> (r: bool) {
        *self == *other
    }
}

/// The position of the first `c`, or the length of `s` when there is none.
pub open spec fn find<T>(s: Seq<T>, c: T) -> nat
    decreases s.len(),
{
    if s.len() == 0 {
        0
    } else if s[0] == c {
        0
    } else {
        1 + find(s.skip(1), c)
    }
}

/// The pieces between the occurrences of `c`, empty pieces included.
pub open spec fn split<T>(s: Seq<T>, c: T) -> Seq<Seq<T>>
    decreases s.len(),
{
    let i = find(s, c) as int;
    if i < s.len() {
        seq![s.take(i)] + split(s.skip(i + 1), c)
    } else {
        seq![s]
    }
}

/// What stands before and after the first `c`.
pub open spec fn split_once<T>(s: Seq<T>, c: T) -> Option<(Seq<T>, Seq<T>)> {
    let i = find(s, c) as int;
    if i < s.len() {
        Some((s.take(i), s.skip(i + 1)))
    } else {
        None
    }
}

/// Does `pat` stand in `s` at position `i`?
pub open spec fn occurs_at<T>(s: Seq<T>, pat: Seq<T>, i: int) -> bool {
    0 <= i && i + pat.len() <= s.len() && s.subrange(i, i + pat.len()) == pat
}

/// The first position at which `pat` stands in `s`, counting from `from`.
pub open spec fn find_seq<T>(s: Seq<T>, pat: Seq<T>, from: int) -> Option<int>
    decreases s.len() + 1 - from,
{
    if from + pat.len() > s.len() {
        None
    } else if occurs_at(s, pat, from) {
        Some(from)
    } else {
        find_seq(s, pat, from + 1)
    }
}

/// The pieces between the occurrences of `pat`, which is not empty.
pub open spec fn split_seq<T>(s: Seq<T>, pat: Seq<T>) -> Seq<Seq<T>>
    decreases s.len(),
{
    match find_seq(s, pat, 0) {
        Some(i) => if pat.len() > 0 && 0 <= i && i + pat.len() <= s.len() {
            seq![s.take(i)] + split_seq(s.skip(i + pat.len()), pat)
        } else {
            seq![s]
        },
        None => seq![s],
    }
}

/// What stands before and after the first `pat`.
pub open spec fn split_once_seq<T>(s: Seq<T>, pat: Seq<T>) -> Option<(Seq<T>, Seq<T>)> {
    match find_seq(s, pat, 0) {
        Some(i) => Some((s.take(i), s.skip(i + pat.len()))),
        None => None,
    }
}

/// The parts one after another, with nothing between them.
pub open spec fn concat<T>(parts: Seq<Seq<T>>) -> Seq<T>
    decreases parts.len(),
{
    if parts.len() == 0 {
        Seq::empty()
    } else {
        concat(parts.drop_last()) + parts.last()
    }
}

/// The parts one after another, with `sep` between each two.
pub open spec fn join<T>(parts: Seq<Seq<T>>, sep: Seq<T>) -> Seq<T>
    decreases parts.len(),
{
    if parts.len() == 0 {
        Seq::empty()
    } else if parts.len() == 1 {
        parts[0]
    } else {
        join(parts.drop_last(), sep) + sep + parts.last()
    }
}

/// The sequences that a list of slices stands for.
pub open spec fn views<T>(parts: Seq<&[T]>) -> Seq<Seq<T>> {
    parts.map_values(|p: &[T]| p@)
}

/// What [`find`] finds is the first one.
pub proof fn lemma_find<T>(s: Seq<T>, c: T)
    ensures
        find(s, c) <= s.len(),
        forall|j: int| 0 <= j < find(s, c) ==> s[j] != c,
        find(s, c) < s.len() ==> s[find(s, c) as int] == c,
    decreases s.len(),
{
    if s.len() > 0 && s[0] != c {
        lemma_find(s.skip(1), c);
        assert forall|j: int| 0 <= j < find(s, c) implies s[j] != c by {
            if j > 0 {
                assert(s[j] == s.skip(1)[j - 1]);
            }
        }
    }
}

/// Only the first one is what [`find`] finds.
pub proof fn lemma_find_is<T>(s: Seq<T>, c: T, i: int)
    requires
        0 <= i <= s.len(),
        forall|j: int| 0 <= j < i ==> s[j] != c,
        i < s.len() ==> s[i] == c,
    ensures
        find(s, c) == i,
{
    lemma_find(s, c);
}

/// [`find_seq`] gives a position, and none before it will do.
pub proof fn lemma_find_seq<T>(s: Seq<T>, pat: Seq<T>, from: int)
    requires
        0 <= from,
    ensures
        match find_seq(s, pat, from) {
            Some(i) => from <= i && occurs_at(s, pat, i) && forall|j: int|
                from <= j < i ==> !occurs_at(s, pat, j),
            None => forall|j: int| from <= j ==> !occurs_at(s, pat, j),
        },
    decreases s.len() + 1 - from,
{
    if from + pat.len() > s.len() {
    } else if occurs_at(s, pat, from) {
    } else {
        lemma_find_seq(s, pat, from + 1);
    }
}

/// [`find_seq`] is settled by the first occurrence, or by there being none.
pub proof fn lemma_find_seq_is<T>(s: Seq<T>, pat: Seq<T>, from: int, found: Option<int>)
    requires
        0 <= from,
        match found {
            Some(i) => from <= i && occurs_at(s, pat, i) && forall|j: int|
                from <= j < i ==> !occurs_at(s, pat, j),
            None => forall|j: int| from <= j ==> !occurs_at(s, pat, j),
        },
    ensures
        find_seq(s, pat, from) == found,
{
    lemma_find_seq(s, pat, from);
    match (find_seq(s, pat, from), found) {
        (Some(a), Some(b)) => {
            if a < b {
                assert(!occurs_at(s, pat, a));
            } else if b < a {
                assert(!occurs_at(s, pat, b));
            }
        },
        (Some(a), None) => {
            assert(!occurs_at(s, pat, a));
        },
        (None, Some(b)) => {
            assert(!occurs_at(s, pat, b));
        },
        (None, None) => {},
    }
}

/// A split is never empty.
pub proof fn lemma_split_len<T>(s: Seq<T>, c: T)
    ensures
        split(s, c).len() >= 1,
    decreases s.len(),
{
    let i = find(s, c) as int;
    if i < s.len() {
        lemma_split_len(s.skip(i + 1), c);
    }
}

/// A split on a sequence is never empty.
pub proof fn lemma_split_seq_len<T>(s: Seq<T>, pat: Seq<T>)
    ensures
        split_seq(s, pat).len() >= 1,
{
    match find_seq(s, pat, 0) {
        Some(i) => if pat.len() > 0 && 0 <= i && i + pat.len() <= s.len() {
            assert(split_seq(s, pat).len() >= 1);
        },
        None => {},
    }
}

/// A filter of one element more.
pub proof fn lemma_filter_step<A>(s: Seq<A>, p: spec_fn(A) -> bool, i: int)
    requires
        0 <= i < s.len(),
    ensures
        s.take(i + 1).filter(p) == if p(s[i]) {
            s.take(i).filter(p).push(s[i])
        } else {
            s.take(i).filter(p)
        },
{
    assert(s.take(i + 1) == s.take(i).push(s[i]));
    s.take(i).lemma_filter_push(s[i], p);
}

/// A partial map of one element more.
pub proof fn lemma_filter_map_step<A, B>(s: Seq<A>, f: spec_fn(A) -> Option<B>, i: int)
    requires
        0 <= i < s.len(),
    ensures
        s.take(i + 1).filter_map(f) == match f(s[i]) {
            Some(b) => s.take(i).filter_map(f).push(b),
            None => s.take(i).filter_map(f),
        },
{
    s.lemma_filter_map_take_succ(f, i);
    match f(s[i]) {
        Some(b) => {
            assert(s.take(i).filter_map(f) + seq![b] == s.take(i).filter_map(f).push(b));
        },
        None => {
            assert(s.take(i).filter_map(f) + Seq::<B>::empty() == s.take(i).filter_map(f));
        },
    }
}

/// The position of the first `c` in a slice.
pub fn position<T: Symbol>(s: &[T], c: T) -> (r: usize)
    ensures
        r == find(s@, c),
{
    let mut i: usize = 0;
    while i < s.len()
        invariant
            0 <= i <= s@.len(),
            forall|j: int| 0 <= j < i ==> s@[j] != c,
        ensures
            0 <= i <= s@.len(),
            forall|j: int| 0 <= j < i ==> s@[j] != c,
            i < s@.len() ==> s@[i as int] == c,
        decreases s@.len() - i,
    {
        if s[i].same(&c) {
            break;
        }
        i = i + 1;
    }
    proof {
        lemma_find_is(s@, c, i as int);
    }
    i
}

/// Split a slice at every `c`.
pub fn split_at_each<'a, T: Symbol>(s: &'a [T], c: T) -> (r: Vec<&'a [T]>)
    ensures
        views(r@) == split(s@, c),
{
    let mut out: Vec<&'a [T]> = Vec::new();
    let mut start: usize = 0;
    let mut i: usize = 0;
    assert(s@.skip(0) == s@);
    assert(views(out@) + split(s@.skip(0), c) == split(s@, c));
    while i < s.len()
        invariant
            0 <= start <= i <= s@.len(),
            forall|j: int| start <= j < i ==> s@[j] != c,
            views(out@) + split(s@.skip(start as int), c) == split(s@, c),
        decreases s@.len() - i,
    {
        if s[i].same(&c) {
            let piece = slice_subrange(s, start, i);
            let ghost before = out@;
            out.push(piece);
            proof {
                let t = s@.skip(start as int);
                assert forall|j: int| 0 <= j < i - start implies t[j] != c by {
                    assert(t[j] == s@[start + j]);
                }
                lemma_find_is(t, c, i - start);
                assert(t.take(i - start) == piece@);
                assert(t.skip(i - start + 1) == s@.skip(i + 1));
                assert(views(out@) == views(before).push(piece@));
                assert(views(out@) + split(s@.skip(i + 1), c) == views(before) + (seq![piece@]
                    + split(s@.skip(i + 1), c)));
            }
            start = i + 1;
        }
        i = i + 1;
    }
    let piece = slice_subrange(s, start, s.len());
    let ghost before = out@;
    out.push(piece);
    proof {
        let t = s@.skip(start as int);
        assert forall|j: int| 0 <= j < t.len() implies t[j] != c by {
            assert(t[j] == s@[start + j]);
        }
        lemma_find_is(t, c, t.len() as int);
        assert(piece@ == t);
        assert(views(out@) == views(before).push(piece@));
        assert(views(out@) == views(before) + seq![t]);
    }
    out
}

/// Split a slice at the first `c`.
pub fn split_at_first<'a, T: Symbol>(s: &'a [T], c: T) -> (r: Option<(&'a [T], &'a [T])>)
    ensures
        match r {
            Some((a, b)) => split_once(s@, c) == Some((a@, b@)),
            None => split_once(s@, c) is None,
        },
{
    let i: usize = position(s, c);
    proof {
        lemma_find(s@, c);
    }
    if i < s.len() {
        let a = slice_subrange(s, 0, i);
        let b = slice_subrange(s, i + 1, s.len());
        assert(a@ == s@.take(i as int));
        assert(b@ == s@.skip(i + 1));
        Some((a, b))
    } else {
        None
    }
}

/// Does `pat` stand in `s` at position `i`?
pub fn stands_at<T: Symbol>(s: &[T], pat: &[T], i: usize) -> (r: bool)
    ensures
        r == occurs_at(s@, pat@, i as int),
{
    if s.len() < pat.len() || s.len() - pat.len() < i {
        return false;
    }
    let n: usize = s.len();
    let mut j: usize = 0;
    while j < pat.len()
        invariant
            n == s@.len(),
            i + pat@.len() <= s@.len(),
            0 <= j <= pat@.len(),
            forall|k: int| 0 <= k < j ==> s@[i + k] == pat@[k],
        decreases pat@.len() - j,
    {
        if !s[i + j].same(&pat[j]) {
            assert(s@.subrange(i as int, i + pat@.len())[j as int] != pat@[j as int]);
            return false;
        }
        j = j + 1;
    }
    assert(s@.subrange(i as int, i + pat@.len()) =~= pat@);
    true
}

/// The first position at which `pat` stands in `s`.
pub fn position_of<T: Symbol>(s: &[T], pat: &[T]) -> (r: Option<usize>)
    ensures
        match r {
            Some(i) => find_seq(s@, pat@, 0) == Some(i as int) && i + pat@.len() <= s@.len(),
            None => find_seq(s@, pat@, 0) is None,
        },
{
    let mut i: usize = 0;
    while i <= s.len() && pat.len() <= s.len() - i
        invariant
            0 <= i <= s@.len() + 1,
            forall|j: int| 0 <= j < i ==> !occurs_at(s@, pat@, j),
        decreases s@.len() + 1 - i,
    {
        if stands_at(s, pat, i) {
            proof {
                lemma_find_seq_is(s@, pat@, 0, Some(i as int));
            }
            return Some(i);
        }
        if i == s.len() {
            proof {
                lemma_find_seq_is(s@, pat@, 0, None);
            }
            return None;
        }
        i = i + 1;
    }
    proof {
        assert forall|j: int| 0 <= j implies !occurs_at(s@, pat@, j) by {}
        lemma_find_seq_is(s@, pat@, 0, None);
    }
    None
}

/// Split a slice at every `pat`.
pub fn split_at_each_of<'a, T: Symbol>(s: &'a [T], pat: &[T]) -> (r: Vec<&'a [T]>)
    requires
        pat@.len() > 0,
    ensures
        views(r@) == split_seq(s@, pat@),
{
    let mut out: Vec<&'a [T]> = Vec::new();
    let mut rest: &'a [T] = s;
    assert(views(out@) + split_seq(s@, pat@) == split_seq(s@, pat@));
    loop
        invariant
            pat@.len() > 0,
            views(out@) + split_seq(rest@, pat@) == split_seq(s@, pat@),
        decreases rest@.len(),
    {
        let ghost before = out@;
        match position_of(rest, pat) {
            Some(i) => {
                let piece = slice_subrange(rest, 0, i);
                let n: usize = rest.len();
                let tail = slice_subrange(rest, i + pat.len(), n);
                out.push(piece);
                proof {
                    assert(piece@ == rest@.take(i as int));
                    assert(tail@ == rest@.skip(i + pat@.len()));
                    assert(views(out@) == views(before).push(piece@));
                    assert(views(out@) + split_seq(tail@, pat@) == views(before) + (seq![piece@]
                        + split_seq(tail@, pat@)));
                }
                rest = tail;
            },
            None => {
                out.push(rest);
                proof {
                    assert(views(out@) == views(before).push(rest@));
                    assert(views(out@) == views(before) + seq![rest@]);
                }
                return out;
            },
        }
    }
}

/// Are two slices the same?
pub fn same<T: Symbol>(a: &[T], b: &[T]) -> (r: bool)
    ensures
        r == (a@ == b@),
{
    if a.len() != b.len() {
        return false;
    }
    let r: bool = stands_at(a, b, 0);
    assert(a@.subrange(0, a@.len() as int) =~= a@);
    r
}

/// Does `s` begin with `pat`?
pub fn begins_with<T: Symbol>(s: &[T], pat: &[T]) -> (r: bool)
    ensures
        r == pat@.is_prefix_of(s@),
{
    let r: bool = stands_at(s, pat, 0);
    assert(0 + pat@.len() == pat@.len());
    r
}

/// Append a slice to a vector.
pub fn push_all<T: Symbol>(out: &mut Vec<T>, s: &[T])
    ensures
        final(out)@ == old(out)@ + s@,
{
    let mut i: usize = 0;
    let ghost before = out@;
    assert(before + s@.take(0) == before);
    while i < s.len()
        invariant
            0 <= i <= s@.len(),
            out@ == before + s@.take(i as int),
        decreases s@.len() - i,
    {
        out.push(s[i]);
        i = i + 1;
        assert(s@.take(i as int) == s@.take(i - 1).push(s@[i - 1]));
    }
    assert(s@.take(s@.len() as int) == s@);
}

/// Copy a slice.
pub fn copy_of<T: Symbol>(s: &[T]) -> (r: Vec<T>)
    ensures
        r@ == s@,
{
    let mut out: Vec<T> = Vec::new();
    push_all(&mut out, s);
    out
}

/// The slices of a list one after another, with `sep` between each two.
pub fn joined<T: Symbol>(parts: &Vec<&[T]>, sep: &[T]) -> (r: Vec<T>)
    ensures
        r@ == join(views(parts@), sep@),
{
    let mut out: Vec<T> = Vec::new();
    let mut i: usize = 0;
    let ghost all = views(parts@);
    while i < parts.len()
        invariant
            0 <= i <= parts@.len(),
            all == views(parts@),
            out@ == join(all.take(i as int), sep@),
        decreases parts@.len() - i,
    {
        if i > 0 {
            push_all(&mut out, sep);
        }
        push_all(&mut out, parts[i]);
        proof {
            assert(all.take(i + 1).drop_last() == all.take(i as int));
            assert(all.take(i + 1).last() == parts@[i as int]@);
            if i == 0 {
                assert(all.take(0).len() == 0);
                assert(out@ == parts@[0]@);
            }
        }
        i = i + 1;
    }
    assert(all.take(all.len() as int) == all);
    out
}

/// A sequence that does not hold `c`.
pub open spec fn lacks<T>(s: Seq<T>, c: T) -> bool {
    forall|i: int| 0 <= i < s.len() ==> s[i] != c
}

/// What a split gives at a `c`: the pieces of both sides.
pub proof fn lemma_split_at<T>(a: Seq<T>, c: T, b: Seq<T>)
    ensures
        split(a + seq![c] + b, c) == split(a, c) + split(b, c),
    decreases a.len(),
{
    let s = a + seq![c] + b;
    lemma_find(a, c);
    let i = find(a, c) as int;
    if i < a.len() {
        lemma_find_is(s, c, i);
        assert(s.take(i) == a.take(i));
        assert(s.skip(i + 1) == a.skip(i + 1) + seq![c] + b);
        lemma_split_at(a.skip(i + 1), c, b);
        assert(split(s, c) == seq![a.take(i)] + (split(a.skip(i + 1), c) + split(b, c)));
        assert(split(s, c) == (seq![a.take(i)] + split(a.skip(i + 1), c)) + split(b, c));
    } else {
        lemma_find_is(s, c, a.len() as int);
        assert(s.take(a.len() as int) == a);
        assert(s.skip(a.len() as int + 1) == b);
    }
}

/// A sequence that does not hold `c` is its own only piece.
pub proof fn lemma_split_whole<T>(s: Seq<T>, c: T)
    requires
        lacks(s, c),
    ensures
        split(s, c) == seq![s],
{
    lemma_find_is(s, c, s.len() as int);
}

/// The pieces of a split do not hold `c`, and what they hold stands in `s`.
pub proof fn lemma_split_pieces<T>(s: Seq<T>, c: T)
    ensures
        forall|i: int| 0 <= i < split(s, c).len() ==> lacks(#[trigger] split(s, c)[i], c),
        forall|i: int, j: int|
            0 <= i < split(s, c).len() && 0 <= j < split(s, c)[i].len() ==> s.contains(
                #[trigger] split(s, c)[i][j],
            ),
    decreases s.len(),
{
    lemma_find(s, c);
    let k = find(s, c) as int;
    if k < s.len() {
        let rest = s.skip(k + 1);
        lemma_split_pieces(rest, c);
        assert forall|i: int| 0 <= i < split(s, c).len() implies lacks(
            #[trigger] split(s, c)[i],
            c,
        ) by {
            if i > 0 {
                assert(split(s, c)[i] == split(rest, c)[i - 1]);
            }
        }
        assert forall|i: int, j: int|
            0 <= i < split(s, c).len() && 0 <= j < split(s, c)[i].len() implies s.contains(
            #[trigger] split(s, c)[i][j],
        ) by {
            if i > 0 {
                let x = split(rest, c)[i - 1][j];
                assert(rest.contains(x));
                let m = choose|m: int| 0 <= m < rest.len() && rest[m] == x;
                assert(s[m + k + 1] == x);
            } else {
                assert(split(s, c)[0][j] == s[j]);
            }
        }
    }
}

/// Parts that do not hold `c`, joined by it, are what a split gives back.
pub proof fn lemma_split_join<T>(parts: Seq<Seq<T>>, c: T)
    requires
        parts.len() > 0,
        forall|i: int| 0 <= i < parts.len() ==> lacks(#[trigger] parts[i], c),
    ensures
        split(join(parts, seq![c]), c) == parts,
    decreases parts.len(),
{
    if parts.len() == 1 {
        lemma_split_whole(parts[0], c);
        assert(seq![parts[0]] == parts);
    } else {
        let front = parts.drop_last();
        assert forall|i: int| 0 <= i < front.len() implies lacks(#[trigger] front[i], c) by {
            assert(front[i] == parts[i]);
        }
        lemma_split_join(front, c);
        lemma_split_at(join(front, seq![c]), c, parts.last());
        lemma_split_whole(parts.last(), c);
        assert(front + seq![parts.last()] == parts);
    }
}

/// A join of one part more, in front.
pub proof fn lemma_join_front<T>(first: Seq<T>, parts: Seq<Seq<T>>, sep: Seq<T>)
    requires
        parts.len() > 0,
    ensures
        join(seq![first] + parts, sep) == first + sep + join(parts, sep),
    decreases parts.len(),
{
    let all = seq![first] + parts;
    if parts.len() == 1 {
        assert(all.drop_last() == seq![first]);
        assert(join(seq![first], sep) == first);
        assert(all.last() == parts[0]);
    } else {
        lemma_join_front(first, parts.drop_last(), sep);
        assert(all.drop_last() == seq![first] + parts.drop_last());
        assert(all.last() == parts.last());
        assert(join(all, sep) =~= first + sep + join(parts, sep));
    }
}

/// What was split, joined again.
pub proof fn lemma_join_split<T>(s: Seq<T>, c: T)
    ensures
        join(split(s, c), seq![c]) == s,
    decreases s.len(),
{
    lemma_find(s, c);
    let k = find(s, c) as int;
    if k < s.len() {
        let rest = s.skip(k + 1);
        lemma_join_split(rest, c);
        lemma_split_len(rest, c);
        lemma_join_front(s.take(k), split(rest, c), seq![c]);
        assert(s =~= s.take(k) + seq![c] + rest);
    } else {
        lemma_split_whole(s, c);
    }
}

/// What a join holds stands in one of its parts or is the separator's.
pub proof fn lemma_join_holds<T>(parts: Seq<Seq<T>>, sep: Seq<T>, x: T)
    requires
        join(parts, sep).contains(x),
    ensures
        sep.contains(x) || exists|i: int| 0 <= i < parts.len() && (#[trigger] parts[i]).contains(x),
    decreases parts.len(),
{
    if parts.len() == 1 {
        assert(parts[0].contains(x));
    } else if parts.len() > 1 {
        let front = join(parts.drop_last(), sep);
        let s = front + sep + parts.last();
        let k = choose|k: int| 0 <= k < s.len() && s[k] == x;
        if k < front.len() {
            assert(front[k] == x);
            lemma_join_holds(parts.drop_last(), sep, x);
            if !sep.contains(x) {
                let i = choose|i: int|
                    0 <= i < parts.drop_last().len() && (
                    #[trigger] parts.drop_last()[i]).contains(x);
                assert(parts[i].contains(x));
            }
        } else if k < front.len() + sep.len() {
            assert(sep[k - front.len()] == x);
        } else {
            assert(parts.last()[k - front.len() - sep.len()] == x);
            assert(parts[parts.len() - 1].contains(x));
        }
    }
}

/// A filter that everything passes changes nothing.
pub proof fn lemma_filter_all<A>(s: Seq<A>, p: spec_fn(A) -> bool)
    requires
        forall|i: int| 0 <= i < s.len() ==> p(#[trigger] s[i]),
    ensures
        s.filter(p) == s,
    decreases s.len(),
{
    reveal(Seq::filter);
    if s.len() > 0 {
        let front = s.drop_last();
        assert forall|i: int| 0 <= i < front.len() implies p(#[trigger] front[i]) by {
            assert(front[i] == s[i]);
        }
        lemma_filter_all(front, p);
        assert(front.push(s.last()) == s);
    }
}

/// A filter that nothing passes leaves nothing.
pub proof fn lemma_filter_none<A>(s: Seq<A>, p: spec_fn(A) -> bool)
    requires
        forall|i: int| 0 <= i < s.len() ==> !p(#[trigger] s[i]),
    ensures
        s.filter(p) == Seq::<A>::empty(),
    decreases s.len(),
{
    reveal(Seq::filter);
    if s.len() > 0 {
        let front = s.drop_last();
        assert forall|i: int| 0 <= i < front.len() implies !p(#[trigger] front[i]) by {
            assert(front[i] == s[i]);
        }
        lemma_filter_none(front, p);
    }
}

/// What a filter leaves passes it, and was there before.
pub proof fn lemma_filter_holds<A>(s: Seq<A>, p: spec_fn(A) -> bool)
    ensures
        forall|i: int| 0 <= i < s.filter(p).len() ==> p(#[trigger] s.filter(p)[i]) && s.contains(
            s.filter(p)[i],
        ),
    decreases s.len(),
{
    reveal(Seq::filter);
    if s.len() > 0 {
        let front = s.drop_last();
        lemma_filter_holds(front, p);
        assert forall|i: int| 0 <= i < s.filter(p).len() implies p(#[trigger] s.filter(p)[i])
            && s.contains(s.filter(p)[i]) by {
            if i < front.filter(p).len() {
                let x = front.filter(p)[i];
                assert(front.contains(x));
                let m = choose|m: int| 0 <= m < front.len() && front[m] == x;
                assert(s[m] == x);
            } else {
                assert(s[s.len() - 1] == s.last());
            }
        }
    }
}

/// A partial map of two lists one after the other.
pub proof fn lemma_filter_map_concat<A, B>(a: Seq<A>, b: Seq<A>, f: spec_fn(A) -> Option<B>)
    ensures
        (a + b).filter_map(f) == a.filter_map(f) + b.filter_map(f),
    decreases b.len(),
{
    if b.len() == 0 {
        assert(a + b == a);
        assert(a.filter_map(f) + b.filter_map(f) == a.filter_map(f));
    } else {
        assert((a + b).drop_last() == a + b.drop_last());
        lemma_filter_map_concat(a, b.drop_last(), f);
        match f(b.last()) {
            Some(x) => {
                assert((a + b).filter_map(f) == a.filter_map(f) + b.drop_last().filter_map(f) + seq![
                    x,
                ]);
                assert(b.filter_map(f) == b.drop_last().filter_map(f) + seq![x]);
            },
            None => {},
        }
    }
}

/// What a partial map gives is what it makes of something that was there.
pub proof fn lemma_filter_map_holds<A, B>(s: Seq<A>, f: spec_fn(A) -> Option<B>)
    ensures
        forall|i: int|
            0 <= i < s.filter_map(f).len() ==> exists|j: int|
                0 <= j < s.len() && f(#[trigger] s[j]) == Some(#[trigger] s.filter_map(f)[i]),
    decreases s.len(),
{
    if s.len() > 0 {
        let front = s.drop_last();
        lemma_filter_map_holds(front, f);
        assert forall|i: int| 0 <= i < s.filter_map(f).len() implies exists|j: int|
            0 <= j < s.len() && f(#[trigger] s[j]) == Some(#[trigger] s.filter_map(f)[i]) by {
            if i < front.filter_map(f).len() {
                let j = choose|j: int|
                    0 <= j < front.len() && f(#[trigger] front[j]) == Some(
                        front.filter_map(f)[i],
                    );
                assert(f(s[j]) == Some(s.filter_map(f)[i]));
            } else {
                assert(f(s[s.len() - 1]) == Some(s.filter_map(f)[i]));
            }
        }
    }
}

/// A partial map that takes nothing gives nothing.
pub proof fn lemma_filter_map_none<A, B>(s: Seq<A>, f: spec_fn(A) -> Option<B>)
    requires
        forall|i: int| 0 <= i < s.len() ==> f(#[trigger] s[i]) is None,
    ensures
        s.filter_map(f) == Seq::<B>::empty(),
    decreases s.len(),
{
    if s.len() > 0 {
        let front = s.drop_last();
        assert forall|i: int| 0 <= i < front.len() implies f(#[trigger] front[i]) is None by {
            assert(front[i] == s[i]);
        }
        lemma_filter_map_none(front, f);
    }
}

} // verus!
