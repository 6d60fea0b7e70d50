//! File-system paths as byte sequences, by the rules of Unix.
//!
//! A path is cut into components at its slashes. Repeated slashes count as one, a trailing slash
//! counts for nothing, and so does a `.` that is not the first component. The root directory is a
//! component of its own. These are the rules of `std::path` on a Unix host, where drive letters and
//! backslashes are ordinary bytes.

mod scan;

pub use scan::lemma_has_component;

use crate::split::{join_with, split_on, views};
use crate::text::{from_utf8_lossy, lossy_utf8, text_of};
use scan::{lemma_names_are_names, lemma_names_concat, lemma_names_cut, lemma_names_piece};
use vstd::prelude::*;
use vstd::utf8::{decode_utf8, encode_utf8, valid_utf8};

verus! {

/// The byte that separates components, and that starts an absolute path.
pub const SLASH: u8 = 0x2f;

/// The only byte of the component that stands for the current directory.
pub const DOT: u8 = 0x2e;

/// Whether a path starts from the root directory.
pub open spec fn is_absolute(p: Seq<u8>) -> bool {
    p.len() > 0 && p[0] == SLASH
}

/// The component that only the front of a path can have: the root directory, or the current
/// directory. Either is one byte long.
pub open spec fn lead(p: Seq<u8>) -> Seq<Seq<u8>> {
    if is_absolute(p) {
        seq![seq![SLASH]]
    } else if p.len() > 0 && p[0] == DOT && (p.len() == 1 || p[1] == SLASH) {
        seq![seq![DOT]]
    } else {
        Seq::empty()
    }
}

/// Whether a piece between slashes is a component.
pub open spec fn is_name(piece: Seq<u8>) -> bool {
    piece.len() > 0 && piece != seq![DOT]
}

/// The components of what follows the lead of a path.
pub open spec fn names(s: Seq<u8>) -> Seq<Seq<u8>> {
    split_on(s, SLASH).filter(|piece: Seq<u8>| is_name(piece))
}

/// The components of a path. Two paths are the same when their components are.
pub open spec fn components(p: Seq<u8>) -> Seq<Seq<u8>> {
    lead(p) + names(p.skip(lead(p).len() as int))
}

/// `rel` as seen from the directory `base`.
pub open spec fn join(base: Seq<u8>, rel: Seq<u8>) -> Seq<u8> {
    if is_absolute(rel) {
        rel
    } else if base.len() == 0 || base.last() == SLASH {
        base + rel
    } else {
        base.push(SLASH) + rel
    }
}

/// The shortest prefix of `p` that is at least `k` bytes long and has the components `want`.
pub open spec fn prefix_with(p: Seq<u8>, want: Seq<Seq<u8>>, k: nat) -> Option<Seq<u8>>
    decreases p.len() + 1 - k,
{
    if k > p.len() {
        None
    } else if components(p.take(k as int)) == want {
        Some(p.take(k as int))
    } else {
        prefix_with(p, want, k + 1)
    }
}

/// The longest suffix of `p` that lacks at least the first `k` bytes and has the components
/// `want`.
pub open spec fn suffix_with(p: Seq<u8>, want: Seq<Seq<u8>>, k: nat) -> Option<Seq<u8>>
    decreases p.len() + 1 - k,
{
    if k > p.len() {
        None
    } else if components(p.skip(k as int)) == want {
        Some(p.skip(k as int))
    } else {
        suffix_with(p, want, k + 1)
    }
}

/// The path without its last component, and without what stands between the two; `None` if there
/// is no component to take away, or only the root directory.
pub open spec fn parent(p: Seq<u8>) -> Option<Seq<u8>> {
    if components(p).len() == 0 || components(p) == seq![seq![SLASH]] {
        None
    } else {
        prefix_with(p, components(p).drop_last(), 0)
    }
}

/// The path without the bytes after its last component.
pub open spec fn trimmed(p: Seq<u8>) -> Seq<u8> {
    prefix_with(p, components(p), 0)->0
}

/// What is left of `p` when the components of `base` are taken from its front; `None` if it does
/// not begin with them.
pub open spec fn strip_prefix(p: Seq<u8>, base: Seq<u8>) -> Option<Seq<u8>> {
    if components(base).is_prefix_of(components(p)) {
        suffix_with(trimmed(p), components(p).skip(components(base).len() as int), 0)
    } else {
        None
    }
}

/// A path. Its view is the bytes that it is made of.
#[derive(Debug)]
pub struct FilePath {
    bytes: Vec<u8>,
}

impl View for FilePath {
    type V = Seq<u8>;

    closed spec fn view(&self) -> Seq<u8> {
        self.bytes@
    }
}

impl Clone for FilePath {
    fn clone(&self) -> (path: FilePath)
        ensures
            path@ == self@,
    {
        FilePath { bytes: vstd::slice::slice_to_vec(self.bytes.as_slice()) }
    }
}

impl FilePath {
    pub fn from_bytes(bytes: Vec<u8>) -> (path: FilePath)
        ensures
            path@ == bytes@,
    {
        FilePath { bytes }
    }

    /// The path that `text` spells in UTF-8.
    pub fn from_text(text: &str) -> (path: FilePath)
        ensures
            path@ == encode_utf8(text@),
    {
        FilePath { bytes: vstd::slice::slice_to_vec(text.as_bytes()) }
    }

    /// The path that `chars` spell in UTF-8.
    pub fn from_chars(chars: &[char]) -> (path: FilePath)
        ensures
            path@ == encode_utf8(chars@),
    {
        let text = text_of(chars);
        FilePath::from_text(text.as_str())
    }

    pub fn as_bytes(&self) -> (bytes: &[u8])
        ensures
            bytes@ == self@,
    {
        self.bytes.as_slice()
    }

    pub fn is_empty(&self) -> (res: bool)
        ensures
            res == (self@.len() == 0),
    {
        self.bytes.len() == 0
    }

    pub fn is_absolute(&self) -> (res: bool)
        ensures
            res == is_absolute(self@),
            res == (self@.len() > 0 && self@[0] == 0x2f),
    {
        self.bytes.len() > 0 && self.bytes[0] == SLASH
    }

    /// `rel` as seen from this directory.
    pub fn join(&self, rel: &FilePath) -> (path: FilePath)
        ensures
            path@ == join(self@, rel@),
    {
        if rel.is_absolute() {
            return rel.clone();
        }
        let mut bytes: Vec<u8> = vstd::slice::slice_to_vec(self.bytes.as_slice());
        if bytes.len() > 0 && bytes[bytes.len() - 1] != SLASH {
            bytes.push(SLASH);
        }
        let mut tail: Vec<u8> = vstd::slice::slice_to_vec(rel.bytes.as_slice());
        bytes.append(&mut tail);
        FilePath { bytes }
    }

    /// What `text` spells, as seen from this directory.
    pub fn join_text(&self, text: &str) -> (path: FilePath)
        ensures
            path@ == join(self@, encode_utf8(text@)),
    {
        self.join(&FilePath::from_text(text))
    }

    /// The components of this path.
    pub fn components(&self) -> (res: Vec<Vec<u8>>)
        ensures
            views(res@) == components(self@),
    {
        scan::components_of(self.bytes.as_slice())
    }

    /// Whether the two paths have the same components.
    pub fn same_as(&self, other: &FilePath) -> (res: bool)
        ensures
            res == (components(self@) == components(other@)),
    {
        let a = self.components();
        let b = other.components();
        proof {
            assert(views(b@).subrange(0, b@.len() as int) == views(b@));
        }
        a.len() == b.len() && scan::is_prefix(&a, &b)
    }

    /// Cuts this path down to its parent. Returns whether there is one; if not, nothing changes.
    pub fn pop(&mut self) -> (res: bool)
        ensures
            match parent(old(self)@) {
                Some(p) => res && final(self)@ == p,
                None => !res && final(self)@ == old(self)@,
            },
    {
        match scan::parent_len(self.bytes.as_slice()) {
            Some(len) => {
                self.bytes.truncate(len);
                proof {
                    assert(self.bytes@ == old(self)@.take(len as int));
                }
                true
            },
            None => false,
        }
    }

    /// What is left of this path when the components of `base` are taken from its front.
    pub fn strip_prefix(&self, base: &FilePath) -> (res: Option<FilePath>)
        ensures
            match res {
                Some(path) => strip_prefix(self@, base@) == Some(path@),
                None => strip_prefix(self@, base@) is None,
            },
    {
        match scan::strip_range(self.bytes.as_slice(), base.bytes.as_slice()) {
            Some((start, end)) => {
                let rest = vstd::slice::slice_subrange(self.bytes.as_slice(), start, end);
                Some(FilePath { bytes: vstd::slice::slice_to_vec(rest) })
            },
            None => None,
        }
    }

    /// The path as text for a reader: bytes that are no UTF-8 show as replacement characters.
    pub fn display(&self) -> (text: String)
        ensures
            text@ == lossy_utf8(self@),
            valid_utf8(self@) ==> text@ == decode_utf8(self@),
    {
        from_utf8_lossy(self.bytes.as_slice())
    }
}

/// A list of its own of the same paths.
pub fn to_paths(paths: &[FilePath]) -> (res: Vec<FilePath>)
    ensures
        views(res@) == views(paths@),
{
    let mut res: Vec<FilePath> = Vec::new();
    for i in 0..paths.len()
        invariant
            views(res@) == views(paths@).take(i as int),
    {
        let ghost before = res@;
        let path = paths[i].clone();
        res.push(path);
        proof {
            crate::split::lemma_views_push(before, path);
            assert(views(res@) == views(paths@).take(i + 1));
        }
    }
    proof {
        assert(views(paths@).take(paths@.len() as int) == views(paths@));
    }
    res
}

// ---------------------------------------------------------------------------------------------
// Laws.

/// A path has a parent unless it is empty or the root directory. The parent is shorter, is what
/// the path begins with, and has all components but the last. Nothing shorter does.
pub proof fn lemma_parent(p: Seq<u8>)
    ensures
        parent(p) is None <==> components(p).len() == 0 || components(p) == seq![seq![SLASH]],
        parent(p) matches Some(q) ==> {
            &&& q.len() < p.len()
            &&& q.is_prefix_of(p)
            &&& components(q) == components(p).drop_last()
            &&& forall|i: int|
                0 <= i < q.len() ==> components(#[trigger] p.take(i)) != components(q)
        },
{
    if components(p).len() > 0 && components(p) != seq![seq![SLASH]] {
        scan::lemma_parent_exists(p);
        scan::lemma_prefix_with(p, components(p).drop_last(), 0);
        assert(p.take(p.len() as int) == p);
    }
}

/// Joining a path that is relative, and does not start with `.`, appends its components.
pub proof fn lemma_join(base: Seq<u8>, rel: Seq<u8>)
    requires
        lead(rel).len() == 0,
    ensures
        components(join(base, rel)) == components(base) + components(rel),
{
    let whole = join(base, rel);
    let n = lead(base).len() as int;
    let body = base.skip(n);
    assert(rel.skip(0) == rel);
    lemma_names_piece(Seq::empty());
    if base.len() == 0 {
        assert(whole == rel);
        assert(base.skip(0) == Seq::<u8>::empty());
        assert(components(base).len() == 0);
        assert(components(whole) == components(base) + components(rel));
    } else {
        assert(lead(whole) == lead(base));
        if base.len() == n {
            assert(body == Seq::<u8>::empty());
            if base[0] == SLASH {
                assert(whole.skip(n) == rel);
            } else {
                assert(whole.skip(n) == body.push(SLASH) + rel);
                lemma_names_concat(body, rel);
            }
        } else if base.last() == SLASH {
            assert(whole.skip(n) == body + rel);
            assert(body.last() == SLASH);
            lemma_names_cut(body, rel);
        } else {
            assert(whole.skip(n) == body.push(SLASH) + rel);
            lemma_names_concat(body, rel);
        }
        assert(names(whole.skip(n)) == names(body) + names(rel));
        assert(components(whole) == components(base) + components(rel));
    }
}

/// What is left of a path joined to what was taken from it is the path again. Something is left
/// if and only if the path begins with the components of the other.
pub proof fn lemma_strip_prefix(p: Seq<u8>, base: Seq<u8>)
    ensures
        strip_prefix(p, base) is Some <==> components(base).is_prefix_of(components(p)),
        strip_prefix(p, base) matches Some(rest) ==> {
            &&& components(rest) == components(p).skip(components(base).len() as int)
            &&& components(join(base, rest)) == components(p)
        },
{
    if components(base).is_prefix_of(components(p)) {
        let want = components(base).len() as int;
        scan::lemma_strip_exists(p, base);
        scan::lemma_suffix_with(trimmed(p), components(p).skip(want), 0);
        let rest = strip_prefix(p, base)->0;
        if base.len() == 0 {
            assert(base.skip(0) == Seq::<u8>::empty());
            lemma_names_piece(Seq::empty());
            assert(want == 0);
            assert(base + rest == rest);
            assert(components(p).skip(0) == components(p));
        } else {
            lemma_has_component(base);
            if lead(rest).len() > 0 {
                assert(components(rest) == components(p).skip(want));
                assert(components(rest).len() > 0);
                assert(want <= components(p).len());
                assert(components(rest)[0] == lead(rest)[0]);
                assert(components(p).skip(want)[0] == components(p)[want]);
                let n = lead(p).len() as int;
                let body = p.skip(n);
                lemma_names_are_names(body);
                assert(components(p)[want] == names(body)[want - n]);
                if lead(rest)[0] == seq![SLASH] {
                    assert(names(body)[want - n].contains(seq![SLASH][0]));
                }
            }
            lemma_join(base, rest);
            assert(components(base) + components(p).skip(want) == components(p));
        }
    }
}

/// The separator is the slash, and the current directory is the dot.
pub proof fn law_separators()
    ensures
        encode_utf8("/"@) == seq![SLASH],
        encode_utf8("."@) == seq![DOT],
{
    reveal_strlit("/");
    reveal_strlit(".");
    vstd::utf8::is_ascii_chars_encode_utf8("/"@);
    vstd::utf8::is_ascii_chars_encode_utf8("."@);
    assert(encode_utf8("/"@) =~= seq![SLASH]);
    assert(encode_utf8("."@) =~= seq![DOT]);
}

/// An absolute path starts with a slash, and its first component is the root directory.
pub proof fn law_absolute(p: Seq<u8>)
    ensures
        is_absolute(p) <==> p.len() > 0 && p[0] == 0x2f,
        is_absolute(p) <==> components(p).len() > 0 && components(p)[0] == seq![0x2fu8],
{
    if !is_absolute(p) && components(p).len() > 0 {
        let n = lead(p).len() as int;
        lemma_names_are_names(p.skip(n));
        if n == 0 {
            assert(components(p)[0] == names(p.skip(0))[0]);
            if components(p)[0] == seq![0x2fu8] {
                assert(names(p.skip(0))[0].contains(seq![0x2fu8][0]));
            }
        } else {
            assert(components(p)[0] == seq![DOT]);
            assert(seq![DOT][0] != seq![0x2fu8][0]);
        }
    }
}

/// Whether every one of `parts` can be a component after the first: it is not empty, not a dot,
/// and has no slash.
pub open spec fn are_names(parts: Seq<Seq<u8>>) -> bool {
    forall|i: int|
        0 <= i < parts.len() ==> (#[trigger] parts[i]).len() > 0 && parts[i] != seq![0x2eu8]
            && !parts[i].contains(0x2f)
}

/// Names with a slash between any two are the components. With a slash before them the root
/// directory comes first, with a dot and a slash the current directory.
pub proof fn law_components_of_names(parts: Seq<Seq<u8>>)
    requires
        are_names(parts),
    ensures
        components(join_with(parts, 0x2f)) == parts,
        components(seq![0x2fu8] + join_with(parts, 0x2f)) == seq![seq![0x2fu8]] + parts,
        components(seq![0x2eu8, 0x2fu8] + join_with(parts, 0x2f)) == seq![seq![0x2eu8]] + parts,
{
    let body = join_with(parts, SLASH);
    lemma_names_of_joined(parts);
    let absolute = seq![SLASH] + body;
    assert(absolute.skip(1) == body);
    let here = seq![DOT, SLASH] + body;
    assert(here.skip(1) == seq![SLASH] + body);
    assert(Seq::<u8>::empty().push(SLASH) + body == seq![SLASH] + body);
    lemma_names_concat(Seq::empty(), body);
    lemma_names_piece(Seq::empty());
    assert(names(here.skip(1)) == parts);
    assert(body.skip(0) == body);
    if parts.len() > 0 {
        let first = parts[0];
        crate::split::lemma_first_of_joined(parts, SLASH);
        assert(body[0] == first[0]);
        assert(first.contains(first[0]));
        if first[0] == DOT {
            if first.len() == 1 {
                assert(first == seq![DOT]);
            } else {
                assert(first.contains(first[1]));
            }
        }
    }
    assert(lead(body).len() == 0);
    assert(components(body) == parts);
}

proof fn lemma_names_of_joined(parts: Seq<Seq<u8>>)
    requires
        are_names(parts),
    ensures
        names(join_with(parts, SLASH)) == parts,
    decreases parts.len(),
{
    if parts.len() == 0 {
        lemma_names_piece(Seq::empty());
    } else {
        let front = parts.drop_last();
        let last = parts.last();
        assert(are_names(front)) by {
            assert forall|i: int| 0 <= i < front.len() implies (#[trigger] front[i]).len() > 0
                && front[i] != seq![0x2eu8] && !front[i].contains(0x2f) by {
                assert(front[i] == parts[i]);
            }
        }
        lemma_names_of_joined(front);
        assert(last == parts[parts.len() - 1]);
        lemma_names_piece(last);
        if parts.len() == 1 {
            assert(parts == seq![last]);
        } else {
            lemma_names_concat(join_with(front, SLASH), last);
            assert(front + seq![last] == parts);
        }
    }
}

/// A slash more between components, and a dot alone between slashes, make no difference. Neither
/// does a slash, or a slash and a dot, at the end.
pub proof fn law_components_spelling(a: Seq<u8>, b: Seq<u8>)
    ensures
        components(a + seq![0x2fu8, 0x2fu8] + b) == components(a + seq![0x2fu8] + b),
        components(a + seq![0x2fu8, 0x2eu8, 0x2fu8] + b) == components(a + seq![0x2fu8] + b),
        a.len() > 0 ==> components(a.push(0x2f)) == components(a),
        a.len() > 0 ==> components(a + seq![0x2fu8, 0x2eu8]) == components(a),
{
    let slash = seq![SLASH];
    let plain = a + slash + b;
    let twice = a + seq![SLASH, SLASH] + b;
    let dotted = a + seq![SLASH, DOT, SLASH] + b;
    let none = Seq::<u8>::empty();
    lemma_names_piece(none);
    lemma_names_piece(seq![DOT]);
    if a.len() == 0 {
        assert(plain.skip(1) == b);
        assert(twice.skip(1) == none.push(SLASH) + b);
        lemma_names_concat(none, b);
        assert(dotted.skip(1) == seq![DOT].push(SLASH) + b);
        lemma_names_concat(seq![DOT], b);
        assert(names(none) + names(b) == names(b));
    } else {
        let n = lead(a).len() as int;
        let body = a.skip(n);
        assert(lead(plain) == lead(a));
        assert(lead(twice) == lead(a));
        assert(lead(dotted) == lead(a));
        assert(plain.skip(n) == body.push(SLASH) + b);
        lemma_names_concat(body, b);
        assert(twice.skip(n) == body.push(SLASH) + (none.push(SLASH) + b));
        lemma_names_concat(body, none.push(SLASH) + b);
        lemma_names_concat(none, b);
        assert(dotted.skip(n) == body.push(SLASH) + (seq![DOT].push(SLASH) + b));
        lemma_names_concat(body, seq![DOT].push(SLASH) + b);
        lemma_names_concat(seq![DOT], b);
        assert(names(none) + names(b) == names(b));
        let trailing = a.push(SLASH);
        assert(lead(trailing) == lead(a));
        assert(trailing.skip(n) == body.push(SLASH) + none);
        lemma_names_concat(body, none);
        let last = a + seq![SLASH, DOT];
        assert(lead(last) == lead(a));
        assert(last.skip(n) == body.push(SLASH) + seq![DOT]);
        lemma_names_concat(body, seq![DOT]);
        assert(names(body) + names(none) == names(body));
    }
}

/// A joined path is the second path if that is absolute. Otherwise it begins with the first and
/// ends with the second, and between them stands one slash unless there is one already or there
/// is no first.
pub proof fn law_join(base: Seq<u8>, rel: Seq<u8>)
    ensures
        rel.len() > 0 && rel[0] == 0x2f ==> join(base, rel) == rel,
        !(rel.len() > 0 && rel[0] == 0x2f) ==> {
            let whole = join(base, rel);
            let slash = base.len() > 0 && base.last() != 0x2f;
            &&& base.is_prefix_of(whole)
            &&& whole.len() == base.len() + rel.len() + (if slash {
                1int
            } else {
                0int
            })
            &&& whole.skip(whole.len() - rel.len()) == rel
            &&& slash ==> whole[base.len() as int] == 0x2f
        },
{
    let whole = join(base, rel);
    if !is_absolute(rel) {
        assert(whole.skip(whole.len() - rel.len()) == rel);
        assert(base.is_prefix_of(whole));
    }
}

/// What is left of a path is a piece of it. The piece ends where the last component of the path
/// ends, and starts as early as it can.
pub proof fn law_strip_prefix_bytes(p: Seq<u8>, base: Seq<u8>) -> (place: (int, int))
    requires
        strip_prefix(p, base) is Some,
    ensures
        0 <= place.0 <= place.1 <= p.len(),
        strip_prefix(p, base) == Some(p.subrange(place.0, place.1)),
        components(p.take(place.1)) == components(p),
        forall|i: int| 0 <= i < place.1 ==> components(#[trigger] p.take(i)) != components(p),
        forall|i: int|
            0 <= i < place.0 ==> components(#[trigger] p.subrange(i, place.1)) != components(
                p.subrange(place.0, place.1),
            ),
{
    lemma_strip_prefix(p, base);
    let t = trimmed(p);
    let rest = strip_prefix(p, base)->0;
    let want = components(p).skip(components(base).len() as int);
    scan::lemma_trimmed(p);
    assert(p.take(p.len() as int) == p);
    scan::lemma_prefix_with(p, components(p), 0);
    scan::lemma_suffix_with(t, want, 0);
    let end = t.len() as int;
    let start = t.len() - rest.len();
    assert(t == p.take(end));
    assert(rest == p.subrange(start, end));
    assert forall|i: int| 0 <= i < start implies components(#[trigger] p.subrange(i, end))
        != components(p.subrange(start, end)) by {
        assert(t.skip(i) == p.subrange(i, end));
    }
    (start, end)
}

} // verus!
