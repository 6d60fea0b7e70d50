//! Finding the components of a path, and why the places found are the right ones.

use super::{
    components, is_name, lead, names, parent, prefix_with, strip_prefix, suffix_with, trimmed, DOT,
    SLASH,
};
use crate::split::{lemma_piece_len, piece_len, split_bytes, split_on, views};
use vstd::prelude::*;

verus! {

// ---------------------------------------------------------------------------------------------
// The components of a path that is taken apart or put together.

/// Names are kept apart by a slash.
pub proof fn lemma_names_concat(a: Seq<u8>, b: Seq<u8>)
    ensures
        names(a.push(SLASH) + b) == names(a) + names(b),
{
    crate::split::lemma_split_concat(a, b, SLASH);
    Seq::filter_distributes_over_add(
        split_on(a, SLASH),
        split_on(b, SLASH),
        |piece: Seq<u8>| is_name(piece),
    );
}

/// A piece without a slash is at most one name.
pub proof fn lemma_names_piece(piece: Seq<u8>)
    requires
        !piece.contains(SLASH),
    ensures
        names(piece) == (if is_name(piece) {
            seq![piece]
        } else {
            Seq::empty()
        }),
{
    crate::split::lemma_split_absent(piece, SLASH);
    reveal_with_fuel(Seq::<_>::filter, 2);
    assert(seq![piece].drop_last() == Seq::<Seq<u8>>::empty());
    assert(seq![piece].last() == piece);
}

/// A trailing slash adds no name.
pub proof fn lemma_names_slash(a: Seq<u8>)
    ensures
        names(a.push(SLASH)) == names(a),
{
    lemma_names_concat(a, Seq::empty());
    lemma_names_piece(Seq::empty());
    assert(a.push(SLASH) + Seq::<u8>::empty() == a.push(SLASH));
}

/// A trailing `.` between slashes adds no name.
pub proof fn lemma_names_dot(a: Seq<u8>)
    requires
        a.len() == 0 || a.last() == SLASH,
    ensures
        names(a.push(DOT)) == names(a),
{
    let dot = seq![DOT];
    lemma_names_piece(dot);
    if a.len() == 0 {
        assert(a.push(DOT) == dot);
        assert(a == Seq::<u8>::empty());
        lemma_names_piece(a);
    } else {
        let front = a.drop_last();
        assert(a == front.push(SLASH));
        assert(a.push(DOT) == front.push(SLASH) + dot);
        lemma_names_concat(front, dot);
        lemma_names_slash(front);
    }
}

/// The names of a sequence that is cut before a piece.
pub proof fn lemma_names_cut(a: Seq<u8>, b: Seq<u8>)
    requires
        a.len() == 0 || a.last() == SLASH || b.len() == 0,
    ensures
        names(a + b) == names(a) + names(b),
{
    lemma_names_piece(Seq::empty());
    if b.len() == 0 {
        assert(a + b == a);
        assert(b == Seq::<u8>::empty());
    } else if a.len() == 0 {
        assert(a + b == b);
        assert(a == Seq::<u8>::empty());
    } else {
        assert(a == a.drop_last().push(SLASH));
        lemma_names_concat(a.drop_last(), b);
        lemma_names_slash(a.drop_last());
    }
}

/// No name is the root directory or the current directory.
pub proof fn lemma_names_are_names(s: Seq<u8>)
    ensures
        forall|i: int|
            0 <= i < names(s).len() ==> is_name(#[trigger] names(s)[i]) && !names(s)[i].contains(
                SLASH,
            ),
{
    let pieces = split_on(s, SLASH);
    crate::split::lemma_split_join(s, SLASH);
    let keep = |piece: Seq<u8>| is_name(piece);
    assert forall|i: int| 0 <= i < names(s).len() implies is_name(#[trigger] names(s)[i])
        && !names(s)[i].contains(SLASH) by {
        pieces.lemma_filter_pred(keep, i);
        pieces.lemma_filter_contains_rev(keep, names(s)[i]);
    }
}

/// The first piece and what follows it.
proof fn lemma_names_first(s: Seq<u8>)
    ensures
        piece_len(s, SLASH) == s.len() ==> names(s) == names(s.take(piece_len(s, SLASH) as int)),
        piece_len(s, SLASH) < s.len() ==> names(s) == names(s.take(piece_len(s, SLASH) as int))
            + names(s.skip(piece_len(s, SLASH) as int + 1)),
{
    lemma_piece_len(s, SLASH);
    let n = piece_len(s, SLASH) as int;
    if n == s.len() {
        assert(s.take(n) == s);
    } else {
        assert(s == s.take(n).push(SLASH) + s.skip(n + 1));
        lemma_names_concat(s.take(n), s.skip(n + 1));
    }
}

/// A path that is not empty has a component.
pub proof fn lemma_has_component(p: Seq<u8>)
    requires
        p.len() > 0,
    ensures
        components(p).len() > 0,
        lead(p).len() == 0 ==> names(p).len() > 0,
{
    if lead(p).len() == 0 {
        let n = piece_len(p, SLASH) as int;
        let first = p.take(n);
        assert(is_name(first) && !first.contains(SLASH)) by {
            lemma_piece_len(p, SLASH);
            if first == seq![DOT] {
                assert(seq![DOT].len() == 1 && seq![DOT][0] == DOT);
                assert(n == 1 && p[0] == DOT);
            }
        }
        lemma_names_piece(first);
        lemma_names_first(p);
        lemma_piece_len(p, SLASH);
        assert(names(p)[0] == first);
        assert(p.skip(0) == p);
    }
}

/// The total length of the components.
spec fn weight(pieces: Seq<Seq<u8>>) -> nat
    decreases pieces.len(),
{
    if pieces.len() == 0 {
        0
    } else {
        weight(pieces.drop_last()) + pieces.last().len()
    }
}

/// Whether the byte `c` after `s` adds to the names of `s`.
spec fn extends_name(s: Seq<u8>, c: u8) -> bool {
    c != SLASH && !(c == DOT && (s.len() == 0 || s.last() == SLASH))
}

proof fn lemma_last_piece(s: Seq<u8>)
    ensures
        split_on(s, SLASH).len() >= 1,
        split_on(s, SLASH).last().len() == 0 <==> (s.len() == 0 || s.last() == SLASH),
{
    crate::split::lemma_split_join(s, SLASH);
    if s.len() > 0 {
        crate::split::lemma_split_join(s.drop_last(), SLASH);
    }
}

proof fn lemma_weight_push(s: Seq<u8>, c: u8)
    ensures
        weight(names(s)) <= weight(names(s.push(c))),
        extends_name(s, c) ==> weight(names(s)) < weight(names(s.push(c))),
{
    reveal(Seq::filter);
    let keep = |piece: Seq<u8>| is_name(piece);
    if c == SLASH {
        lemma_names_slash(s);
    } else {
        lemma_last_piece(s);
        let pieces = split_on(s, SLASH);
        let last = pieces.last();
        let front = pieces.drop_last();
        let grown = front.push(last.push(c));
        assert(s.push(c).drop_last() == s);
        assert(split_on(s.push(c), SLASH) == grown);
        assert(grown.drop_last() == front);
        assert(grown.last() == last.push(c));
        let kept = front.filter(keep);
        assert(kept.push(last).drop_last() == kept);
        assert(kept.push(last.push(c)).drop_last() == kept);
        if is_name(last) {
            assert(is_name(last.push(c)));
        } else if last.len() > 0 {
            assert(last.push(c).len() == 2);
        } else {
            assert(last.push(c) == seq![c]);
            if c != DOT {
                assert(seq![c][0] != seq![DOT][0]);
            }
        }
    }
}

proof fn lemma_weight_take(s: Seq<u8>, i: int, j: int)
    requires
        0 <= i <= j <= s.len(),
    ensures
        weight(names(s.take(i))) <= weight(names(s.take(j))),
    decreases j - i,
{
    if i < j {
        lemma_weight_take(s, i, j - 1);
        assert(s.take(j - 1).push(s[j - 1]) == s.take(j));
        lemma_weight_push(s.take(j - 1), s[j - 1]);
    }
}

/// Whether the first `e` bytes of `p` end where its lead or one of its components ends.
spec fn ends_component(p: Seq<u8>, e: int) -> bool {
    let n = lead(p).len();
    &&& n <= e <= p.len()
    &&& lead(p.take(e)) == lead(p)
    &&& e > n ==> extends_name(p.subrange(n as int, e - 1), p[e - 1])
}

/// No shorter prefix has the same components.
proof fn lemma_shortest(p: Seq<u8>, e: int, k: int)
    requires
        ends_component(p, e),
        0 <= k < e,
    ensures
        components(p.take(k)) != components(p.take(e)),
{
    let n = lead(p).len() as int;
    let body = p.skip(n);
    let long = p.take(e);
    let short = p.take(k);
    assert(long.skip(n) == body.take(e - n));
    if k < n {
        assert(short == Seq::<u8>::empty());
        assert(short.skip(0) == short);
        lemma_names_piece(short);
        assert(components(short).len() == 0);
        assert(components(long).len() > 0);
    } else if lead(short) != lead(p) {
        assert(n == 0 && lead(short) == seq![seq![DOT]]);
        assert(components(short)[0] == seq![DOT]);
        lemma_names_are_names(long.skip(0));
        if components(long).len() > 0 {
            assert(components(long)[0] == names(long.skip(0))[0]);
        }
    } else {
        assert(short.skip(n) == body.take(k - n));
        assert(p.subrange(n, e - 1) == body.take(e - n - 1));
        assert(body.take(e - n - 1).push(p[e - 1]) == body.take(e - n));
        lemma_weight_take(body, k - n, e - n - 1);
        lemma_weight_push(body.take(e - n - 1), p[e - 1]);
        if components(short) == components(long) {
            assert(components(short).skip(n) == names(short.skip(n)));
            assert(components(long).skip(n) == names(long.skip(n)));
        }
    }
}

/// How a shortest prefix is recognised.
proof fn lemma_prefix_found(p: Seq<u8>, want: Seq<Seq<u8>>, e: int, k: nat)
    requires
        k <= e <= p.len(),
        components(p.take(e)) == want,
        forall|i: int| k <= i < e ==> components(#[trigger] p.take(i)) != want,
    ensures
        prefix_with(p, want, k) == Some(p.take(e)),
    decreases e - k,
{
    if k < e {
        assert(components(p.take(k as int)) != want);
        lemma_prefix_found(p, want, e, k + 1);
    }
}

proof fn lemma_shortest_prefix(p: Seq<u8>, e: int)
    requires
        ends_component(p, e),
    ensures
        prefix_with(p, components(p.take(e)), 0) == Some(p.take(e)),
{
    assert forall|i: int| 0 <= i < e implies components(#[trigger] p.take(i)) != components(
        p.take(e),
    ) by {
        lemma_shortest(p, e, i);
    }
    lemma_prefix_found(p, components(p.take(e)), e, 0);
}

/// How a longest suffix is recognised.
proof fn lemma_suffix_found(p: Seq<u8>, want: Seq<Seq<u8>>, e: int, k: nat)
    requires
        k <= e <= p.len(),
        components(p.skip(e)) == want,
        forall|i: int| k <= i < e ==> components(#[trigger] p.skip(i)) != want,
    ensures
        suffix_with(p, want, k) == Some(p.skip(e)),
    decreases e - k,
{
    if k < e {
        assert(components(p.skip(k as int)) != want);
        lemma_suffix_found(p, want, e, k + 1);
    }
}

/// What `prefix_with` finds.
pub proof fn lemma_prefix_with(p: Seq<u8>, want: Seq<Seq<u8>>, k: nat)
    ensures
        prefix_with(p, want, k) matches Some(q) ==> {
            &&& k <= q.len() <= p.len()
            &&& q == p.take(q.len() as int)
            &&& components(q) == want
            &&& forall|i: int| k <= i < q.len() ==> components(#[trigger] p.take(i)) != want
        },
        prefix_with(p, want, k) is None ==> forall|e: int|
            k <= e <= p.len() ==> components(#[trigger] p.take(e)) != want,
    decreases p.len() + 1 - k,
{
    if k <= p.len() && components(p.take(k as int)) != want {
        lemma_prefix_with(p, want, k + 1);
    }
}

/// What `suffix_with` finds.
pub proof fn lemma_suffix_with(p: Seq<u8>, want: Seq<Seq<u8>>, k: nat)
    ensures
        suffix_with(p, want, k) matches Some(q) ==> {
            &&& q.len() <= p.len()
            &&& q == p.skip(p.len() - q.len())
            &&& components(q) == want
            &&& forall|i: int|
                k <= i < p.len() - q.len() ==> components(#[trigger] p.skip(i)) != want
        },
        suffix_with(p, want, k) is None ==> forall|e: int|
            k <= e <= p.len() ==> components(#[trigger] p.skip(e)) != want,
    decreases p.len() + 1 - k,
{
    if k <= p.len() && components(p.skip(k as int)) != want {
        lemma_suffix_with(p, want, k + 1);
    }
}

/// Trimming takes nothing from the components, and there is always a place to trim at.
pub proof fn lemma_trimmed(p: Seq<u8>)
    ensures
        trimmed(p).is_prefix_of(p),
        components(trimmed(p)) == components(p),
{
    assert(p.take(p.len() as int) == p);
    lemma_prefix_with(p, components(p), 0);
}

/// The place where the last component among the first `from` bytes ends.
proof fn lemma_trim(p: Seq<u8>, from: int) -> (e: int)
    requires
        lead(p).len() <= from <= p.len(),
        lead(p.take(from)) == lead(p),
    ensures
        ends_component(p, e),
        e <= from,
        components(p.take(e)) == components(p.take(from)),
    decreases from,
{
    let n = lead(p).len() as int;
    let front = p.subrange(n, from - 1);
    if from == n || extends_name(front, p[from - 1]) {
        from
    } else {
        lemma_trim_step(p, from);
        lemma_trim(p, from - 1)
    }
}

/// A byte that adds nothing to a name can be taken away.
proof fn lemma_trim_step(p: Seq<u8>, e: int)
    requires
        lead(p).len() < e <= p.len(),
        lead(p.take(e)) == lead(p),
        !extends_name(p.subrange(lead(p).len() as int, e - 1), p[e - 1]),
    ensures
        lead(p.take(e - 1)) == lead(p),
        components(p.take(e - 1)) == components(p.take(e)),
{
    let n = lead(p).len() as int;
    let front = p.subrange(n, e - 1);
    assert(p.take(e).skip(n) == front.push(p[e - 1]));
    assert(p.take(e - 1).skip(n) == front);
    if p[e - 1] == SLASH {
        lemma_names_slash(front);
    } else {
        lemma_names_dot(front);
    }
}

/// Where the piece that ends at `e` starts.
proof fn lemma_piece_start(p: Seq<u8>, n: int, e: int) -> (st: int)
    requires
        0 <= n <= e <= p.len(),
    ensures
        n <= st <= e,
        st == n || p[st - 1] == SLASH,
        !p.subrange(st, e).contains(SLASH),
    decreases e,
{
    if e == n || p[e - 1] == SLASH {
        e
    } else {
        let st = lemma_piece_start(p, n, e - 1);
        let piece = p.subrange(st, e);
        assert forall|i: int| 0 <= i < piece.len() implies piece[i] != SLASH by {
            if i < piece.len() - 1 {
                assert(p.subrange(st, e - 1).contains(p.subrange(st, e - 1)[i]));
            }
        }
        st
    }
}

/// A path that is not empty and not the root directory has a parent.
pub proof fn lemma_parent_exists(p: Seq<u8>)
    requires
        components(p).len() > 0,
        components(p) != seq![seq![SLASH]],
    ensures
        parent(p) is Some,
{
    let n = lead(p).len() as int;
    assert(p.take(p.len() as int) == p);
    let e = lemma_trim(p, p.len() as int);
    if e == n {
        lemma_parent_of_lead(p);
        assert(p.take(n).skip(n) == Seq::<u8>::empty());
        lemma_names_piece(Seq::empty());
        assert(components(p) == lead(p));
    } else {
        let st = lemma_piece_start(p, n, e);
        lemma_last_name(p, st, e);
        lemma_prefix_with(p, components(p).drop_last(), 0);
    }
}

/// Whether a piece of `t` can start at `i`, when its lead is `n` bytes long.
spec fn starts_piece(t: Seq<u8>, n: int, i: int) -> bool {
    &&& n <= i <= t.len()
    &&& i == n || i == t.len() || t[i - 1] == SLASH
}

/// Going on from one piece to the next.
proof fn lemma_next_piece(t: Seq<u8>, n: int, i: int, j: int, next: int)
    requires
        0 <= n <= i < t.len(),
        starts_piece(t, n, i),
        i <= j <= t.len(),
        !t.subrange(i, j).contains(SLASH),
        j < t.len() ==> t[j] == SLASH && next == j + 1,
        j == t.len() ==> next == j,
    ensures
        starts_piece(t, n, next),
        names(t.subrange(n, next)) == names(t.subrange(n, i)) + names(t.subrange(i, j)),
        names(t.skip(i)) == names(t.subrange(i, j)) + names(t.skip(next)),
{
    let front = t.subrange(n, i);
    let piece = t.subrange(i, j);
    lemma_names_cut(front, piece);
    assert(front + piece == t.subrange(n, j));
    if j < t.len() {
        assert(t.subrange(n, next) == t.subrange(n, j).push(SLASH));
        lemma_names_slash(t.subrange(n, j));
        assert(t.skip(i) == piece.push(SLASH) + t.skip(next));
        lemma_names_concat(piece, t.skip(next));
    } else {
        assert(t.skip(i) == piece);
        lemma_names_piece(t.skip(next));
        assert(t.skip(next) == Seq::<u8>::empty());
        assert(names(piece) + names(t.skip(next)) == names(piece));
    }
}

/// A suffix that starts with a name, or is empty, has no lead.
proof fn lemma_suffix_components(t: Seq<u8>, i: int, j: int)
    requires
        0 <= i <= j <= t.len(),
        i < t.len() ==> is_name(t.subrange(i, j)),
        !t.subrange(i, j).contains(SLASH),
        j < t.len() ==> t[j] == SLASH,
    ensures
        lead(t.skip(i)).len() == 0,
        components(t.skip(i)) == names(t.skip(i)),
{
    let rest = t.skip(i);
    let piece = t.subrange(i, j);
    if i < t.len() {
        assert(piece.contains(piece[0]));
        assert(rest[0] == piece[0]);
        if rest[0] == DOT && (rest.len() == 1 || rest[1] == SLASH) {
            if piece.len() > 1 {
                assert(piece.contains(piece[1]));
                assert(piece[1] == rest[1]);
            }
            assert(piece == seq![DOT]);
        }
    }
    assert(rest.skip(0) == rest);
    assert(components(rest) == names(rest));
}

/// No longer suffix has the components of the one that starts at `i`.
proof fn lemma_longest_suffix(t: Seq<u8>, i: int, k: int)
    requires
        0 <= k < i <= t.len(),
        i < t.len() ==> t[i - 1] == SLASH,
        components(t.skip(i)) == names(t.skip(i)),
    ensures
        components(t.skip(k)) != components(t.skip(i)),
{
    let long = t.skip(k);
    let short = t.skip(i);
    lemma_has_component(long);
    if i == t.len() {
        assert(short == Seq::<u8>::empty());
        lemma_names_piece(short);
    } else if components(long) == components(short) {
        lemma_names_are_names(short);
        let between = t.subrange(k, i);
        if lead(long).len() > 0 {
            assert(components(long)[0] == lead(long)[0]);
            assert(names(short)[0] == lead(long)[0]);
            if lead(long)[0] == seq![SLASH] {
                assert(names(short)[0].contains(seq![SLASH][0]));
            }
        } else {
            assert(long == between + short);
            assert(between.last() == SLASH);
            assert(lead(between).len() == 0);
            lemma_has_component(between);
            lemma_names_cut(between, short);
            assert(long.skip(0) == long);
        }
    }
}

/// A place where the components of `t` after the first `want` start, going on from `i`.
proof fn lemma_strip_start(t: Seq<u8>, i: int, want: int) -> (start: int)
    requires
        starts_piece(t, lead(t).len() as int, i),
        names(t.skip(lead(t).len() as int)) == names(t.subrange(lead(t).len() as int, i)) + names(
            t.skip(i),
        ),
        lead(t).len() + names(t.subrange(lead(t).len() as int, i)).len() <= want,
        want <= components(t).len(),
    ensures
        0 <= start <= t.len(),
        components(t.skip(start)) == components(t).skip(want),
    decreases t.len() - i,
{
    let n = lead(t).len() as int;
    let rest = t.skip(i);
    let count = n + names(t.subrange(n, i)).len();
    if i == t.len() {
        assert(rest == Seq::<u8>::empty());
        lemma_names_piece(rest);
        assert(t.subrange(i, i) == Seq::<u8>::empty());
        lemma_suffix_components(t, i, i);
        assert(components(rest) == components(t).skip(want));
        i
    } else {
        lemma_piece_len(rest, SLASH);
        let j = i + piece_len(rest, SLASH);
        assert(t.subrange(i, j) == rest.take(j - i));
        if is_name(t.subrange(i, j)) && count == want {
            lemma_suffix_components(t, i, j);
            assert(components(rest) == components(t).skip(want));
            i
        } else {
            let next = if j < t.len() {
                j + 1
            } else {
                j
            };
            lemma_names_piece(t.subrange(i, j));
            lemma_next_piece(t, n, i, j, next);
            assert(names(t.skip(n)) == names(t.subrange(n, next)) + names(t.skip(next)));
            lemma_strip_start(t, next, want)
        }
    }
}

/// Whatever a path begins with can be taken from its front.
pub proof fn lemma_strip_exists(p: Seq<u8>, base: Seq<u8>)
    requires
        components(base).is_prefix_of(components(p)),
    ensures
        strip_prefix(p, base) is Some,
{
    let want = components(base).len() as int;
    let t = trimmed(p);
    let n = lead(t).len() as int;
    lemma_trimmed(p);
    let start = if want == 0 {
        assert(t.skip(0) == t);
        assert(components(p).skip(0) == components(p));
        0
    } else {
        assert(t.subrange(n, n) == Seq::<u8>::empty());
        lemma_names_piece(Seq::empty());
        assert(names(t.skip(n)) == Seq::<Seq<u8>>::empty() + names(t.skip(n)));
        lemma_strip_start(t, n, want)
    };
    lemma_suffix_with(t, components(p).skip(want), 0);
    assert(components(t.skip(start)) == components(p).skip(want));
}

// ---------------------------------------------------------------------------------------------
// Reading a path.

/// How long the lead of `p` is.
pub(super) fn lead_len(p: &[u8]) -> (n: usize)
    ensures
        n == lead(p@).len(),
{
    if p.len() == 0 {
        0
    } else if p[0] == SLASH {
        1
    } else if p[0] == DOT && (p.len() == 1 || p[1] == SLASH) {
        1
    } else {
        0
    }
}

/// How many of the first `from` bytes of `p` are left when those after the last component among
/// them are taken away.
fn trim_end(p: &[u8], from: usize) -> (e: usize)
    requires
        lead(p@).len() <= from <= p@.len(),
        lead(p@.take(from as int)) == lead(p@),
    ensures
        ends_component(p@, e as int),
        e <= from,
        components(p@.take(e as int)) == components(p@.take(from as int)),
{
    let n = lead_len(p);
    let mut e: usize = from;
    while e > n && (p[e - 1] == SLASH || p[e - 1] == DOT && (e - 1 == n || p[e - 2] == SLASH))
        invariant
            n == lead(p@).len(),
            n <= e <= from <= p@.len(),
            lead(p@.take(e as int)) == lead(p@),
            components(p@.take(e as int)) == components(p@.take(from as int)),
        decreases e,
    {
        proof {
            lemma_trim_step(p@, e as int);
        }
        e = e - 1;
    }
    e
}

/// A path of a lead alone.
proof fn lemma_parent_of_lead(p: Seq<u8>)
    requires
        components(p.take(lead(p).len() as int)) == components(p),
        lead(p.take(lead(p).len() as int)) == lead(p),
    ensures
        parent(p) == (if p.len() == 0 || p[0] == SLASH {
            None
        } else {
            Some(p.take(0))
        }),
{
    let n = lead(p).len() as int;
    let empty = Seq::<u8>::empty();
    assert(p.take(n).skip(n) == empty);
    lemma_names_piece(empty);
    assert(components(p) == lead(p));
    if p.len() > 0 && n == 0 {
        lemma_has_component(p);
    }
    if n == 1 && p[0] != SLASH {
        assert(p.take(0) == empty);
        assert(empty.skip(0) == empty);
        assert(components(empty) == components(p).drop_last());
        assert(seq![DOT][0] != seq![SLASH][0]);
        assert(components(p)[0] == seq![DOT]);
        assert(seq![seq![SLASH]][0] == seq![SLASH]);
        lemma_prefix_found(p, components(p).drop_last(), 0, 0);
    }
}

/// The last component of a path that ends with the bytes from `st` to `e`.
proof fn lemma_last_name(p: Seq<u8>, st: int, e: int)
    requires
        ends_component(p, e),
        components(p.take(e)) == components(p),
        lead(p).len() <= st < e,
        st == lead(p).len() || p[st - 1] == SLASH,
        !p.subrange(st, e).contains(SLASH),
    ensures
        lead(p.take(st)) == lead(p),
        components(p.take(st)) == components(p).drop_last(),
        components(p).len() > 0,
        components(p) != seq![seq![SLASH]],
{
    let n = lead(p).len() as int;
    let body = p.skip(n);
    let piece = p.subrange(st, e);
    let front = body.take(st - n);
    assert(p.subrange(n, e - 1) == body.take(e - n - 1));
    if piece == seq![DOT] {
        assert(piece.len() == 1);
        assert(piece[0] == p[e - 1]);
        assert(!extends_name(body.take(e - n - 1), p[e - 1]));
    }
    lemma_names_piece(piece);
    assert(p.take(e).skip(n) == front + piece);
    lemma_names_cut(front, piece);
    assert(names(front + piece) == names(front).push(piece));
    assert(p.take(st).skip(n) == front);
    assert(components(p) == (lead(p) + names(front)).push(piece));
    assert(components(p).drop_last() == lead(p) + names(front));
    if components(p) == seq![seq![SLASH]] {
        assert(components(p).last() == seq![SLASH]);
        assert(piece.contains(seq![SLASH][0]));
    }
}

/// The length of the parent of `p`.
pub(super) fn parent_len(p: &[u8]) -> (len: Option<usize>)
    ensures
        match len {
            Some(e) => e < p@.len() && parent(p@) == Some(p@.take(e as int)),
            None => parent(p@) is None,
        },
{
    let n = lead_len(p);
    proof {
        assert(p@.take(p@.len() as int) == p@);
    }
    let e = trim_end(p, p.len());
    if e == n {
        proof {
            lemma_parent_of_lead(p@);
        }
        if p.len() == 0 || p[0] == SLASH {
            return None;
        }
        return Some(0);
    }
    let mut st: usize = e;
    while st > n && p[st - 1] != SLASH
        invariant
            n <= st <= e <= p@.len(),
            !p@.subrange(st as int, e as int).contains(SLASH),
        decreases st,
    {
        st = st - 1;
        proof {
            let piece = p@.subrange(st as int, e as int);
            assert forall|i: int| 0 <= i < piece.len() implies piece[i] != SLASH by {
                if i > 0 {
                    assert(p@.subrange(st + 1, e as int).contains(
                        p@.subrange(st + 1, e as int)[i - 1],
                    ));
                }
            }
        }
    }
    proof {
        lemma_last_name(p@, st as int, e as int);
    }
    let res = trim_end(p, st);
    proof {
        lemma_shortest_prefix(p@, res as int);
    }
    Some(res)
}

/// The components of `p`.
pub(super) fn components_of(p: &[u8]) -> (res: Vec<Vec<u8>>)
    ensures
        views(res@) == components(p@),
{
    let n = lead_len(p);
    let mut res: Vec<Vec<u8>> = Vec::new();
    if n == 1 {
        let mut first: Vec<u8> = Vec::new();
        first.push(p[0]);
        proof {
            assert(first@ == seq![p@[0]]);
        }
        res.push(first);
    }
    proof {
        assert(views(res@) == lead(p@));
    }
    let rest = vstd::slice::slice_subrange(p, n, p.len());
    let ghost body = p@.skip(n as int);
    proof {
        assert(rest@ == body);
    }
    let pieces = split_bytes(rest, SLASH);
    let ghost keep = |piece: Seq<u8>| is_name(piece);
    proof {
        reveal(Seq::filter);
        assert(views(pieces@).take(0).filter(keep) == Seq::<Seq<u8>>::empty());
    }
    for i in 0..pieces.len()
        invariant
            keep == |piece: Seq<u8>| is_name(piece),
            views(res@) == lead(p@) + views(pieces@).take(i as int).filter(keep),
    {
        let piece = &pieces[i];
        let ghost before = views(res@);
        proof {
            reveal(Seq::filter);
            let upto = views(pieces@).take(i + 1);
            assert(upto.drop_last() == views(pieces@).take(i as int));
            assert(upto.last() == piece@);
        }
        if piece.len() > 0 && !(piece.len() == 1 && piece[0] == DOT) {
            proof {
                if piece@ == seq![DOT] {
                    assert(piece@[0] == DOT);
                }
            }
            let copy = vstd::slice::slice_to_vec(piece.as_slice());
            res.push(copy);
            proof {
                assert(views(res@) == before.push(piece@));
                assert(views(res@) == lead(p@) + views(pieces@).take(i + 1).filter(keep));
            }
        } else {
            proof {
                if piece@.len() == 1 {
                    assert(piece@ == seq![DOT]);
                }
            }
        }
    }
    proof {
        assert(views(pieces@).take(pieces@.len() as int) == views(pieces@));
    }
    res
}

/// Whether the components `a` are the first ones of `b`.
pub(super) fn is_prefix(a: &Vec<Vec<u8>>, b: &Vec<Vec<u8>>) -> (res: bool)
    ensures
        res == views(a@).is_prefix_of(views(b@)),
{
    if a.len() > b.len() {
        return false;
    }
    for i in 0..a.len()
        invariant
            a@.len() <= b@.len(),
            views(a@).take(i as int) == views(b@).take(i as int),
    {
        if !bytes_eq(a[i].as_slice(), b[i].as_slice()) {
            proof {
                assert(views(a@)[i as int] != views(b@)[i as int]);
                assert(views(b@).take(a@.len() as int)[i as int] == views(b@)[i as int]);
                assert(views(b@).subrange(0, a@.len() as int)[i as int] == views(b@)[i as int]);
            }
            return false;
        }
        proof {
            assert(views(a@).take(i + 1) == views(a@).take(i as int).push(a@[i as int]@));
            assert(views(b@).take(i + 1) == views(b@).take(i as int).push(b@[i as int]@));
        }
    }
    proof {
        assert(views(a@).take(a@.len() as int) == views(a@));
        assert(views(b@).take(a@.len() as int) == views(b@).subrange(0, a@.len() as int));
    }
    true
}

/// Whether two byte sequences are equal.
fn bytes_eq(a: &[u8], b: &[u8]) -> (res: bool)
    ensures
        res == (a@ == b@),
{
    if a.len() != b.len() {
        return false;
    }
    for i in 0..a.len()
        invariant
            a@.len() == b@.len(),
            forall|j: int| 0 <= j < i ==> a@[j] == b@[j],
    {
        if a[i] != b[i] {
            return false;
        }
    }
    proof {
        assert(a@ == b@);
    }
    true
}

/// Where in `p` the part of it that `strip_prefix` leaves starts and ends.
pub(super) fn strip_range(p: &[u8], base: &[u8]) -> (range: Option<(usize, usize)>)
    ensures
        match range {
            Some((i, e)) => i <= e <= p@.len() && strip_prefix(p@, base@) == Some(
                p@.subrange(i as int, e as int),
            ),
            None => strip_prefix(p@, base@) is None,
        },
{
    let base_parts = components_of(base);
    let parts = components_of(p);
    if !is_prefix(&base_parts, &parts) {
        return None;
    }
    let n = lead_len(p);
    let want = base_parts.len();
    proof {
        assert(p@.take(p@.len() as int) == p@);
    }
    let e = trim_end(p, p.len());
    let ghost t = p@.take(e as int);
    let ghost rest = components(p@).skip(want as int);
    proof {
        lemma_shortest_prefix(p@, e as int);
        assert(trimmed(p@) == t);
        assert(components(t) == components(p@));
    }
    if want == 0 {
        proof {
            assert(t.skip(0) == t);
            assert(components(p@).skip(0) == components(p@));
            lemma_suffix_found(t, rest, 0, 0);
            assert(p@.subrange(0, e as int) == t);
        }
        return Some((0, e));
    }
    let mut i: usize = n;
    let mut count: usize = n;
    let mut j: usize = n;
    proof {
        assert(t.subrange(n as int, n as int) == Seq::<u8>::empty());
        lemma_names_piece(Seq::empty());
        assert(names(t.skip(n as int)) == Seq::<Seq<u8>>::empty() + names(t.skip(n as int)));
    }
    while i < e
        invariant_except_break
            n <= i <= e,
            starts_piece(t, n as int, i as int),
            count <= want,
            j <= e,
            i == e ==> j == e,
        invariant
            t == p@.take(e as int),
            e <= p@.len(),
            n == lead(t).len(),
            names(t.skip(n as int)) == names(t.subrange(n as int, i as int)) + names(
                t.skip(i as int),
            ),
            count == n + names(t.subrange(n as int, i as int)).len(),
        ensures
            starts_piece(t, n as int, i as int),
            i <= j <= e,
            !t.subrange(i as int, j as int).contains(SLASH),
            j < e ==> t[j as int] == SLASH,
            i < e ==> is_name(t.subrange(i as int, j as int)) && count == want,
            count <= want,
        decreases e - i,
    {
        j = i;
        while j < e && p[j] != SLASH
            invariant
                i <= j <= e <= p@.len(),
                t == p@.take(e as int),
                !t.subrange(i as int, j as int).contains(SLASH),
            decreases e - j,
        {
            proof {
                assert(t.subrange(i as int, j + 1) == t.subrange(i as int, j as int).push(
                    t[j as int],
                ));
                let grown = t.subrange(i as int, j + 1);
                assert forall|k: int| 0 <= k < grown.len() implies grown[k] != SLASH by {
                    if k < grown.len() - 1 {
                        assert(t.subrange(i as int, j as int).contains(
                            t.subrange(i as int, j as int)[k],
                        ));
                    }
                }
            }
            j = j + 1;
        }
        let ghost piece = t.subrange(i as int, j as int);
        let named = j > i && !(j - i == 1 && p[i] == DOT);
        proof {
            if piece == seq![DOT] {
                assert(piece[0] == t[i as int]);
            }
            if j - i == 1 && p@[i as int] == DOT {
                assert(piece == seq![DOT]);
            }
            assert(named == is_name(piece));
        }
        if named && count == want {
            break;
        }
        let next: usize = if j < e {
            j + 1
        } else {
            j
        };
        proof {
            lemma_names_piece(piece);
            lemma_next_piece(t, n as int, i as int, j as int, next as int);
            assert(names(t.subrange(n as int, i as int)) + (names(piece) + names(
                t.skip(next as int),
            )) == (names(t.subrange(n as int, i as int)) + names(piece)) + names(
                t.skip(next as int),
            ));
        }
        if named {
            count = count + 1;
        }
        i = next;
        j = next;
    }
    proof {
        if i == e {
            assert(t.skip(i as int) == Seq::<u8>::empty());
            lemma_names_piece(t.skip(i as int));
            assert(count == components(t).len());
        }
        lemma_suffix_components(t, i as int, j as int);
        assert(components(t.skip(i as int)) == rest);
        if i < e && i == n {
            assert(lead(t).len() == 1);
        }
        assert forall|k: int| 0 <= k < i implies components(#[trigger] t.skip(k)) != rest by {
            lemma_longest_suffix(t, i as int, k);
        }
        lemma_suffix_found(t, rest, i as int, 0);
        assert(p@.subrange(i as int, e as int) == t.skip(i as int));
    }
    Some((i, e))
}

} // verus!
