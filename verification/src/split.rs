//! Cutting a sequence at every occurrence of a separator.

use vstd::prelude::*;

verus! {

/// The views of the elements of a sequence, in order.
pub open spec fn views<T: View>(s: Seq<T>) -> Seq<T::V> {
    Seq::new(s.len(), |i: int| s[i]@)
}

/// There is a view for each element, in its place.
pub proof fn lemma_views<T: View>(s: Seq<T>)
    ensures
        views(s).len() == s.len(),
        forall|i: int| 0 <= i < s.len() ==> #[trigger] views(s)[i] == s[i]@,
{
}

pub proof fn lemma_views_push<T: View>(s: Seq<T>, x: T)
    ensures
        views(s.push(x)) == views(s).push(x@),
{
}

/// The pieces of `s` between the occurrences of `sep`, in order. There is always one piece more
/// than there are separators, so that an empty sequence has one empty piece.
pub open spec fn split_on<A>(s: Seq<A>, sep: A) -> Seq<Seq<A>>
    decreases s.len(),
{
    if s.len() == 0 {
        seq![Seq::<A>::empty()]
    } else {
        let before = split_on(s.drop_last(), sep);
        if s.last() == sep {
            before.push(Seq::<A>::empty())
        } else {
            before.drop_last().push(before.last().push(s.last()))
        }
    }
}

/// The number of elements before the first `sep`; all of them if there is none.
pub open spec fn piece_len<A>(s: Seq<A>, sep: A) -> nat
    decreases s.len(),
{
    if s.len() == 0 || s[0] == sep {
        0
    } else {
        1 + piece_len(s.skip(1), sep)
    }
}

/// The pieces laid end to end, with `sep` between any two neighbours.
pub open spec fn join_with<A>(pieces: Seq<Seq<A>>, sep: A) -> Seq<A>
    decreases pieces.len(),
{
    if pieces.len() == 0 {
        Seq::empty()
    } else if pieces.len() == 1 {
        pieces[0]
    } else {
        join_with(pieces.drop_last(), sep).push(sep) + pieces.last()
    }
}

/// Whether all elements of `a` are in `b`, in the same order.
pub open spec fn is_subsequence<A>(a: Seq<A>, b: Seq<A>) -> bool
    decreases b.len(),
{
    if a.len() == 0 {
        true
    } else if b.len() == 0 {
        false
    } else {
        ||| a.last() == b.last() && is_subsequence(a.drop_last(), b.drop_last())
        ||| is_subsequence(a, b.drop_last())
    }
}

/// What is kept of two sequences laid end to end is what is kept of each.
pub proof fn lemma_filter_map_concat<A, B>(a: Seq<A>, b: Seq<A>, keep: spec_fn(A) -> Option<B>)
    ensures
        (a + b).filter_map(keep) == a.filter_map(keep) + b.filter_map(keep),
    decreases b.len(),
{
    if b.len() == 0 {
        assert(a + b == a);
        assert(a.filter_map(keep) + b.filter_map(keep) == a.filter_map(keep));
    } else {
        lemma_filter_map_concat(a, b.drop_last(), keep);
        assert((a + b).drop_last() == a + b.drop_last());
        assert((a + b).last() == b.last());
    }
}

/// Splitting loses nothing: there is at least one piece, no piece holds the separator, and the
/// pieces joined by it are the sequence again.
pub proof fn lemma_split_join<A>(s: Seq<A>, sep: A)
    ensures
        split_on(s, sep).len() >= 1,
        forall|i: int|
            0 <= i < split_on(s, sep).len() ==> !(#[trigger] split_on(s, sep)[i]).contains(sep),
        join_with(split_on(s, sep), sep) == s,
    decreases s.len(),
{
    let pieces = split_on(s, sep);
    if s.len() > 0 {
        lemma_split_join(s.drop_last(), sep);
        let before = split_on(s.drop_last(), sep);
        assert(s == s.drop_last().push(s.last()));
        if s.last() == sep {
            assert(pieces.drop_last() == before);
            assert(join_with(before, sep).push(sep) + Seq::<A>::empty() == s);
        } else {
            let grown = before.last().push(s.last());
            assert(pieces.drop_last() == before.drop_last());
            assert forall|j: int| 0 <= j < grown.len() implies grown[j] != sep by {
                if j < before.last().len() {
                    assert(before.last().contains(before.last()[j]));
                }
            }
            if before.len() == 1 {
                assert(pieces.len() == 1);
                assert(before.last() == s.drop_last());
                assert(grown == s);
            } else {
                assert(join_with(before.drop_last(), sep).push(sep) + grown == (join_with(
                    before.drop_last(),
                    sep,
                ).push(sep) + before.last()).push(s.last()));
            }
        }
    }
}

/// Joining is undone by splitting, if there is a piece and none holds the separator.
pub proof fn lemma_join_split<A>(pieces: Seq<Seq<A>>, sep: A)
    requires
        pieces.len() >= 1,
        forall|i: int| 0 <= i < pieces.len() ==> !(#[trigger] pieces[i]).contains(sep),
    ensures
        split_on(join_with(pieces, sep), sep) == pieces,
    decreases pieces.len(),
{
    if pieces.len() == 1 {
        lemma_split_absent(pieces[0], sep);
        assert(pieces == seq![pieces[0]]);
    } else {
        let front = pieces.drop_last();
        assert forall|i: int| 0 <= i < front.len() implies !(#[trigger] front[i]).contains(sep) by {
            assert(front[i] == pieces[i]);
        }
        lemma_join_split(front, sep);
        lemma_split_concat(join_with(front, sep), pieces.last(), sep);
        lemma_split_absent(pieces.last(), sep);
        assert(front + seq![pieces.last()] == pieces);
    }
}

/// A sequence without the separator is its own only piece.
pub proof fn lemma_split_absent<A>(s: Seq<A>, sep: A)
    requires
        !s.contains(sep),
    ensures
        split_on(s, sep) == seq![s],
    decreases s.len(),
{
    if s.len() > 0 {
        assert(s.contains(s.last()));
        assert forall|j: int| 0 <= j < s.drop_last().len() implies s.drop_last()[j] != sep by {
            assert(s.contains(s[j]));
        }
        lemma_split_absent(s.drop_last(), sep);
        assert(s.drop_last().push(s.last()) == s);
        assert(split_on(s, sep) == seq![s]);
    } else {
        assert(s == Seq::<A>::empty());
    }
}

/// The pieces of two sequences with a separator between them are those of the first followed by
/// those of the second.
pub proof fn lemma_split_concat<A>(a: Seq<A>, b: Seq<A>, sep: A)
    ensures
        split_on(a.push(sep) + b, sep) == split_on(a, sep) + split_on(b, sep),
    decreases b.len(),
{
    lemma_split_join(a, sep);
    lemma_split_join(b, sep);
    let whole = a.push(sep) + b;
    if b.len() == 0 {
        assert(whole.drop_last() == a);
        assert(b == Seq::<A>::empty());
        assert(split_on(whole, sep) == split_on(a, sep) + split_on(b, sep));
    } else {
        lemma_split_concat(a, b.drop_last(), sep);
        lemma_split_join(b.drop_last(), sep);
        assert(whole.drop_last() == a.push(sep) + b.drop_last());
        assert(whole.last() == b.last());
        assert(split_on(whole, sep) == split_on(a, sep) + split_on(b, sep));
    }
}

/// The first piece ends at the first separator, or at the end if there is none.
pub proof fn lemma_piece_len<A>(s: Seq<A>, sep: A)
    ensures
        piece_len(s, sep) <= s.len(),
        piece_len(s, sep) < s.len() ==> s[piece_len(s, sep) as int] == sep,
        !s.take(piece_len(s, sep) as int).contains(sep),
    decreases s.len(),
{
    if s.len() > 0 && s[0] != sep {
        let rest = s.skip(1);
        lemma_piece_len(rest, sep);
        let first = rest.take(piece_len(rest, sep) as int);
        let piece = s.take(piece_len(s, sep) as int);
        assert forall|i: int| 0 <= i < piece.len() implies piece[i] != sep by {
            if i > 0 {
                assert(first.contains(first[i - 1]));
            }
        }
    }
}

/// A separator after a sequence without one ends the first piece.
pub proof fn lemma_first_piece<A>(a: Seq<A>, b: Seq<A>, sep: A)
    requires
        !a.contains(sep),
    ensures
        piece_len(a.push(sep) + b, sep) == a.len(),
{
    let whole = a.push(sep) + b;
    lemma_piece_len(whole, sep);
    let n = piece_len(whole, sep) as int;
    if n < a.len() {
        assert(whole[n] == a[n]);
    } else if n > a.len() {
        assert(whole.take(n)[a.len() as int] == sep);
    }
}

/// How many elements of `s` stand before the first `sep`.
pub fn piece_len_of(s: &[char], sep: char) -> (n: usize)
    ensures
        n == piece_len(s@, sep),
        n <= s@.len(),
{
    let mut i: usize = 0;
    proof {
        assert(s@.skip(0) == s@);
    }
    while i < s.len() && s[i] != sep
        invariant
            i <= s@.len(),
            piece_len(s@, sep) == i + piece_len(s@.skip(i as int), sep),
        decreases s@.len() - i,
    {
        proof {
            assert(s@.skip(i as int).skip(1) == s@.skip(i + 1));
        }
        i = i + 1;
    }
    i
}

/// The pieces of `s` between the occurrences of the byte `sep`.
pub fn split_bytes(s: &[u8], sep: u8) -> (pieces: Vec<Vec<u8>>)
    ensures
        views(pieces@) == split_on(s@, sep),
{
    let mut pieces: Vec<Vec<u8>> = Vec::new();
    let mut current: Vec<u8> = Vec::new();
    for i in 0..s.len()
        invariant
            split_on(s@.take(i as int), sep) == views(pieces@).push(current@),
    {
        let ghost before = views(pieces@);
        let ghost grown = s@.take(i + 1);
        assert(grown.drop_last() == s@.take(i as int));
        assert(before.push(current@).drop_last() == before);
        if s[i] == sep {
            pieces.push(current);
            current = Vec::new();
            assert(views(pieces@) == split_on(s@.take(i as int), sep));
        } else {
            current.push(s[i]);
        }
    }
    assert(s@.take(s@.len() as int) == s@);
    let ghost before = views(pieces@);
    pieces.push(current);
    assert(views(pieces@) == before.push(current@));
    pieces
}

/// The pieces of `s` between the occurrences of the character `sep`.
pub fn split_chars(s: &[char], sep: char) -> (pieces: Vec<Vec<char>>)
    ensures
        views(pieces@) == split_on(s@, sep),
{
    let mut pieces: Vec<Vec<char>> = Vec::new();
    let mut current: Vec<char> = Vec::new();
    for i in 0..s.len()
        invariant
            split_on(s@.take(i as int), sep) == views(pieces@).push(current@),
    {
        let ghost before = views(pieces@);
        let ghost grown = s@.take(i + 1);
        assert(grown.drop_last() == s@.take(i as int));
        assert(before.push(current@).drop_last() == before);
        if s[i] == sep {
            pieces.push(current);
            current = Vec::new();
            assert(views(pieces@) == split_on(s@.take(i as int), sep));
        } else {
            current.push(s[i]);
        }
    }
    assert(s@.take(s@.len() as int) == s@);
    let ghost before = views(pieces@);
    pieces.push(current);
    assert(views(pieces@) == before.push(current@));
    pieces
}

/// Joining one piece more appends the separator and the piece; one piece alone has no separator.
pub proof fn law_join_with<A>(pieces: Seq<Seq<A>>, piece: Seq<A>, sep: A)
    ensures
        join_with(Seq::empty(), sep) == Seq::<A>::empty(),
        join_with(seq![piece], sep) == piece,
        pieces.len() > 0 ==> join_with(pieces.push(piece), sep) == join_with(pieces, sep).push(sep)
            + piece,
{
    if pieces.len() > 0 {
        assert(pieces.push(piece).drop_last() == pieces);
    }
}

/// Joined pieces start with the first of them, and the separator follows it.
pub proof fn lemma_first_of_joined<A>(pieces: Seq<Seq<A>>, sep: A)
    requires
        pieces.len() > 0,
    ensures
        pieces[0].is_prefix_of(join_with(pieces, sep)),
        pieces.len() == 1 ==> join_with(pieces, sep) == pieces[0],
        pieces.len() > 1 ==> join_with(pieces, sep).len() > pieces[0].len() && join_with(
            pieces,
            sep,
        )[pieces[0].len() as int] == sep,
    decreases pieces.len(),
{
    if pieces.len() > 1 {
        let front = pieces.drop_last();
        lemma_first_of_joined(front, sep);
        let joined = join_with(pieces, sep);
        let before = join_with(front, sep);
        assert(front[0] == pieces[0]);
        assert(joined.subrange(0, pieces[0].len() as int) == before.subrange(
            0,
            pieces[0].len() as int,
        ));
    }
}

} // verus!
