//! Bytes as text, where they may not be UTF-8.

use vstd::prelude::*;
use vstd::utf8::{
    decode_first_scalar, decode_utf8, is_continuation_byte, length_of_first_scalar,
    pop_first_scalar, take_first_scalar, valid_first_scalar, valid_utf8,
};

verus! {

/// The character that stands for bytes that are no UTF-8.
pub const REPLACEMENT: char = '\u{fffd}';

/// Whether `s` is a character cut short: more bytes could make it one.
pub open spec fn begins_char(s: Seq<u8>) -> bool {
    exists|more: Seq<u8>|
        valid_first_scalar(#[trigger] (s + more)) && s.len() < length_of_first_scalar(s + more)
}

/// The length of the longest of the prefixes of `s` of at most `n` bytes that is a character cut
/// short.
pub open spec fn begun_len(s: Seq<u8>, n: nat) -> nat
    decreases n,
{
    if n == 0 || begins_char(s.take(n as int)) {
        n
    } else {
        begun_len(s, (n - 1) as nat)
    }
}

/// The length of the invalid part that `s` starts with, if no character stands there: the bytes
/// that begin a character which then does not go on, or the one byte that begins none.
pub open spec fn broken_len(s: Seq<u8>) -> nat {
    if begun_len(s, s.len()) == 0 {
        1
    } else {
        begun_len(s, s.len())
    }
}

/// The text of `bytes`, with one replacement character for each invalid part.
pub open spec fn lossy_utf8(bytes: Seq<u8>) -> Seq<char>
    decreases bytes.len(),
{
    if bytes.len() == 0 {
        Seq::empty()
    } else if valid_first_scalar(bytes) {
        seq![decode_first_scalar(bytes) as char] + lossy_utf8(pop_first_scalar(bytes))
    } else {
        proof {
            lemma_broken_len_bounds(bytes);
        }
        seq![REPLACEMENT] + lossy_utf8(bytes.skip(broken_len(bytes) as int))
    }
}

/// Where and how a byte sequence stops being UTF-8.
#[derive(Debug, Clone, Copy, PartialEq, Eq)]
pub struct InvalidUtf8 {
    /// The length of the longest prefix that is valid.
    pub valid_up_to: usize,
    /// The length of the invalid part that follows, or `None` if the bytes end within a character.
    pub error_len: Option<usize>,
}

/// The length of the longest of the prefixes of `bytes` of at most `n` bytes that is valid UTF-8.
pub open spec fn valid_len(bytes: Seq<u8>, n: nat) -> nat
    decreases n,
{
    if n == 0 || valid_utf8(bytes.take(n as int)) {
        n
    } else {
        valid_len(bytes, (n - 1) as nat)
    }
}

/// The error for a byte sequence that is not valid UTF-8.
pub open spec fn utf8_error(bytes: Seq<u8>) -> InvalidUtf8 {
    let valid = valid_len(bytes, bytes.len());
    let rest = bytes.skip(valid as int);
    InvalidUtf8 {
        valid_up_to: valid as usize,
        error_len: if begins_char(rest) {
            None
        } else {
            Some(broken_len(rest) as usize)
        },
    }
}

/// `str::from_utf8` of the standard library: it succeeds exactly on valid UTF-8, with the text
/// that is encoded. The error holds the length of the longest valid prefix; what else it holds is
/// not used.
#[verifier::external_body]
fn str_from_utf8(bytes: &[u8]) -> (res: Result<&str, usize>)
    ensures
        res is Ok <==> valid_utf8(bytes@),
        res matches Ok(text) ==> text@ == decode_utf8(bytes@),
        res matches Err(valid_up_to) ==> valid_up_to == valid_len(bytes@, bytes@.len()),
{
    match std::str::from_utf8(bytes) {
        Ok(text) => Ok(text),
        Err(err) => Err(err.valid_up_to()),
    }
}

// ---------------------------------------------------------------------------------------------
// Characters, byte by byte.

/// How many bytes a character has that starts with `b`; 0 if none does.
spec fn width(b: u8) -> nat {
    if b <= 0x7f {
        1
    } else if 0xc2 <= b <= 0xdf {
        2
    } else if 0xe0 <= b <= 0xef {
        3
    } else if 0xf0 <= b <= 0xf4 {
        4
    } else {
        0
    }
}

/// Whether the byte at `k` goes on with the character that `s` starts with. The second byte keeps
/// out what has a shorter encoding, surrogates, and what is too large.
spec fn goes_on(s: Seq<u8>, k: int) -> bool {
    &&& is_continuation_byte(s[k])
    &&& k == 1 ==> {
        &&& s[0] == 0xe0 ==> s[1] >= 0xa0
        &&& s[0] == 0xed ==> s[1] <= 0x9f
        &&& s[0] == 0xf0 ==> s[1] >= 0x90
        &&& s[0] == 0xf4 ==> s[1] <= 0x8f
    }
}

/// Whether the first `n` bytes go on with the character that `s` starts with.
spec fn all_go_on(s: Seq<u8>, n: int) -> bool {
    forall|k: int| 1 <= k < n ==> goes_on(s, k)
}

proof fn lemma_codepoint_1(a: u8)
    by (bit_vector)
    requires
        a <= 0x7f,
    ensures
        ((a & 0x7f) as u32) < 0xd800,
{
}

proof fn lemma_codepoint_2(a: u8, b: u8)
    by (bit_vector)
    requires
        0xc0 <= a <= 0xdf,
        0x80 <= b <= 0xbf,
    ensures
        0x80 <= ((((a & 0x1f) as u32) << 6) | ((b & 0x3f) as u32)) <==> a >= 0xc2,
        ((((a & 0x1f) as u32) << 6) | ((b & 0x3f) as u32)) < 0xd800,
{
}

proof fn lemma_codepoint_3(a: u8, b: u8, c: u8)
    by (bit_vector)
    requires
        0xe0 <= a <= 0xef,
        0x80 <= b <= 0xbf,
        0x80 <= c <= 0xbf,
    ensures
        0x800 <= ((((a & 0x0f) as u32) << 12) | (((b & 0x3f) as u32) << 6) | ((c & 0x3f) as u32))
            <==> (a == 0xe0 ==> b >= 0xa0),
        (0xd800 <= ((((a & 0x0f) as u32) << 12) | (((b & 0x3f) as u32) << 6) | ((c
            & 0x3f) as u32)) && ((((a & 0x0f) as u32) << 12) | (((b & 0x3f) as u32) << 6) | ((c
            & 0x3f) as u32)) <= 0xdfff) <==> (a == 0xed && b > 0x9f),
{
}

proof fn lemma_codepoint_4(a: u8, b: u8, c: u8, d: u8)
    by (bit_vector)
    requires
        0xf0 <= a <= 0xf7,
        0x80 <= b <= 0xbf,
        0x80 <= c <= 0xbf,
        0x80 <= d <= 0xbf,
    ensures
        (0x10000 <= ((((a & 0x07) as u32) << 18) | (((b & 0x3f) as u32) << 12) | (((c
            & 0x3f) as u32) << 6) | ((d & 0x3f) as u32))) <==> (a == 0xf0 ==> b >= 0x90),
        (((((a & 0x07) as u32) << 18) | (((b & 0x3f) as u32) << 12) | (((c & 0x3f) as u32) << 6)
            | ((d & 0x3f) as u32)) <= 0x10ffff) <==> (a < 0xf4 || a == 0xf4 && b <= 0x8f),
{
}

/// A character is a first byte and as many bytes that go on as the first one asks for.
proof fn lemma_first_scalar(s: Seq<u8>)
    requires
        s.len() > 0,
    ensures
        valid_first_scalar(s) <==> 0 < width(s[0]) <= s.len() && all_go_on(s, width(s[0]) as int),
        valid_first_scalar(s) ==> length_of_first_scalar(s) == width(s[0]),
{
    let w = width(s[0]) as int;
    if s[0] <= 0x7f {
        lemma_codepoint_1(s[0]);
    } else if 0xc0 <= s[0] <= 0xdf {
        if s.len() >= 2 && is_continuation_byte(s[1]) {
            lemma_codepoint_2(s[0], s[1]);
        }
        if valid_first_scalar(s) {
            assert(all_go_on(s, w));
        } else if w > 0 && s.len() >= 2 {
            assert(!goes_on(s, 1));
        }
    } else if 0xe0 <= s[0] <= 0xef {
        if s.len() >= 3 && is_continuation_byte(s[1]) && is_continuation_byte(s[2]) {
            lemma_codepoint_3(s[0], s[1], s[2]);
        }
        if valid_first_scalar(s) {
            assert(all_go_on(s, w));
        } else if s.len() >= 3 {
            assert(!goes_on(s, 1) || !goes_on(s, 2));
        }
    } else if 0xf0 <= s[0] <= 0xf7 {
        if s.len() >= 4 && is_continuation_byte(s[1]) && is_continuation_byte(s[2])
            && is_continuation_byte(s[3]) {
            lemma_codepoint_4(s[0], s[1], s[2], s[3]);
        }
        if valid_first_scalar(s) {
            assert(all_go_on(s, w));
        } else if w > 0 && s.len() >= 4 {
            assert(!goes_on(s, 1) || !goes_on(s, 2) || !goes_on(s, 3));
        }
    }
}

/// What follows the bytes of a character makes no difference to it.
proof fn lemma_first_scalar_alone(s: Seq<u8>, more: Seq<u8>)
    requires
        valid_first_scalar(s),
    ensures
        0 < length_of_first_scalar(s) <= s.len(),
        valid_first_scalar(s + more),
        length_of_first_scalar(s + more) == length_of_first_scalar(s),
        decode_first_scalar(s + more) == decode_first_scalar(s),
        pop_first_scalar(s + more) == pop_first_scalar(s) + more,
{
}

/// A character cut short is a first byte and bytes that go on, but not as many as it asks for.
proof fn lemma_begins_char(s: Seq<u8>)
    requires
        s.len() > 0,
    ensures
        begins_char(s) <==> s.len() < width(s[0]) && all_go_on(s, s.len() as int),
{
    if begins_char(s) {
        let more = choose|more: Seq<u8>|
            valid_first_scalar(#[trigger] (s + more)) && s.len() < length_of_first_scalar(s + more);
        lemma_first_scalar(s + more);
        assert forall|k: int| 1 <= k < s.len() implies goes_on(s, k) by {
            assert(goes_on(s + more, k));
        }
    }
    if s.len() < width(s[0]) && all_go_on(s, s.len() as int) {
        let second: u8 = if s[0] == 0xe0 {
            0xa0
        } else if s[0] == 0xf0 {
            0x90
        } else {
            0x80
        };
        let more = seq![second, 0x80u8, 0x80u8].skip(s.len() - 1);
        let whole = s + more;
        assert forall|k: int| 1 <= k < width(s[0]) implies goes_on(whole, k) by {
            if k < s.len() {
                assert(goes_on(s, k));
            }
        }
        lemma_first_scalar(whole);
        assert(valid_first_scalar(s + more) && s.len() < length_of_first_scalar(s + more));
    }
}

proof fn lemma_begun_len(s: Seq<u8>, k: nat, n: nat)
    requires
        k <= n <= s.len(),
        k == 0 || begins_char(s.take(k as int)),
        forall|j: int| k < j <= n ==> !begins_char(#[trigger] s.take(j)),
    ensures
        begun_len(s, n) == k,
    decreases n,
{
    if k < n {
        assert(!begins_char(s.take(n as int)));
        lemma_begun_len(s, k, (n - 1) as nat);
    }
}

/// How the invalid part is recognised, where no character stands: its bytes go on with the
/// character, and the next one does not.
proof fn lemma_broken_len(s: Seq<u8>, k: nat)
    requires
        0 < k <= s.len(),
        !valid_first_scalar(s),
        all_go_on(s, k as int),
        width(s[0]) == 0 ==> k == 1,
        width(s[0]) > 0 ==> k < width(s[0]) && (k < s.len() ==> !goes_on(s, k as int)),
    ensures
        broken_len(s) == k,
        begins_char(s) <==> width(s[0]) > 0 && k == s.len(),
{
    let begun: nat = if width(s[0]) == 0 {
        0
    } else {
        k
    };
    if begun > 0 {
        let head = s.take(k as int);
        assert forall|j: int| 1 <= j < k implies goes_on(head, j) by {
            assert(goes_on(s, j));
        }
        lemma_begins_char(head);
    }
    assert forall|j: int| begun < j <= s.len() implies !begins_char(#[trigger] s.take(j)) by {
        lemma_begins_char(s.take(j));
        if begun > 0 && begins_char(s.take(j)) {
            assert(goes_on(s.take(j), k as int));
        }
    }
    lemma_begun_len(s, begun, s.len());
    assert(s.take(s.len() as int) == s);
}

/// The invalid part has a byte, and no more than there are.
pub proof fn lemma_broken_len_bounds(s: Seq<u8>)
    requires
        s.len() > 0,
    ensures
        0 < broken_len(s) <= s.len(),
{
    lemma_begun_len_bound(s, s.len());
}

proof fn lemma_begun_len_bound(s: Seq<u8>, n: nat)
    ensures
        begun_len(s, n) <= n,
    decreases n,
{
    if n > 0 && !begins_char(s.take(n as int)) {
        lemma_begun_len_bound(s, (n - 1) as nat);
    }
}

// ---------------------------------------------------------------------------------------------
// Reading bytes.

/// How many bytes a character has that starts with `b`; 0 if none does.
fn width_of(b: u8) -> (w: usize)
    ensures
        w == width(b),
{
    if b <= 0x7f {
        1
    } else if 0xc2 <= b && b <= 0xdf {
        2
    } else if 0xe0 <= b && b <= 0xef {
        3
    } else if 0xf0 <= b && b <= 0xf4 {
        4
    } else {
        0
    }
}

/// Whether the byte at `k` goes on with the character that `s` starts with.
fn goes_on_at(s: &[u8], k: usize) -> (res: bool)
    requires
        1 <= k < s@.len(),
    ensures
        res == goes_on(s@, k as int),
{
    let b = s[k];
    if b < 0x80 || b > 0xbf {
        return false;
    }
    if k > 1 {
        return true;
    }
    let first = s[0];
    !(first == 0xe0 && b < 0xa0) && !(first == 0xed && b > 0x9f) && !(first == 0xf0 && b < 0x90)
        && !(first == 0xf4 && b > 0x8f)
}

/// The length of the invalid part that `s` starts with, and whether `s` ends within a character.
fn broken_of(s: &[u8]) -> (res: (usize, bool))
    requires
        s@.len() > 0,
        !valid_first_scalar(s@),
    ensures
        res.0 == broken_len(s@),
        0 < res.0 <= s@.len(),
        res.1 == begins_char(s@),
{
    let w = width_of(s[0]);
    let mut k: usize = 1;
    while k < s.len() && k < w && goes_on_at(s, k)
        invariant
            1 <= k <= s@.len(),
            w == width(s@[0]),
            w > 0 ==> k <= w,
            w == 0 ==> k == 1,
            all_go_on(s@, k as int),
        decreases s@.len() - k,
    {
        k = k + 1;
    }
    proof {
        lemma_first_scalar(s@);
        lemma_broken_len(s@, k as nat);
    }
    (k, w > 0 && k == s.len())
}

proof fn lemma_valid_len(bytes: Seq<u8>, n: nat)
    requires
        n <= bytes.len(),
    ensures
        valid_len(bytes, n) <= n,
        valid_utf8(bytes.take(valid_len(bytes, n) as int)),
        forall|j: int| valid_len(bytes, n) < j <= n ==> !valid_utf8(#[trigger] bytes.take(j)),
    decreases n,
{
    if n > 0 && !valid_utf8(bytes.take(n as int)) {
        lemma_valid_len(bytes, (n - 1) as nat);
    }
}

/// No character follows the longest valid prefix.
proof fn lemma_after_valid(bytes: Seq<u8>)
    requires
        !valid_utf8(bytes),
    ensures
        valid_len(bytes, bytes.len()) < bytes.len(),
        valid_utf8(bytes.take(valid_len(bytes, bytes.len()) as int)),
        !valid_first_scalar(bytes.skip(valid_len(bytes, bytes.len()) as int)),
{
    lemma_valid_len(bytes, bytes.len());
    assert(bytes.take(bytes.len() as int) == bytes);
    let v = valid_len(bytes, bytes.len()) as int;
    let rest = bytes.skip(v);
    if valid_first_scalar(rest) {
        let first = take_first_scalar(rest);
        let w = length_of_first_scalar(rest);
        lemma_first_scalar(rest);
        assert forall|k: int| 1 <= k < w implies goes_on(first, k) by {
            assert(goes_on(rest, k));
        }
        lemma_first_scalar(first);
        assert(valid_first_scalar(first));
        assert(pop_first_scalar(first) == Seq::<u8>::empty());
        assert(valid_utf8(Seq::<u8>::empty()));
        vstd::utf8::valid_utf8_concat(bytes.take(v), first);
        assert(bytes.take(v) + first == bytes.take(v + w));
    }
}

/// The text of `bytes`, if they are UTF-8.
pub fn from_utf8(bytes: &[u8]) -> (res: Result<&str, InvalidUtf8>)
    ensures
        res is Ok <==> valid_utf8(bytes@),
        res matches Ok(text) ==> text@ == decode_utf8(bytes@),
        res matches Err(err) ==> err == utf8_error(bytes@),
{
    match str_from_utf8(bytes) {
        Ok(text) => Ok(text),
        Err(valid_up_to) => {
            proof {
                lemma_after_valid(bytes@);
            }
            let rest = vstd::slice::slice_subrange(bytes, valid_up_to, bytes.len());
            proof {
                assert(rest@ == bytes@.skip(valid_up_to as int));
            }
            let (len, cut_short) = broken_of(rest);
            let error_len = if cut_short {
                None
            } else {
                Some(len)
            };
            Err(InvalidUtf8 { valid_up_to, error_len })
        },
    }
}

/// A valid prefix reads as it does alone.
pub proof fn lemma_lossy_prefix(valid: Seq<u8>, rest: Seq<u8>)
    requires
        valid_utf8(valid),
    ensures
        lossy_utf8(valid + rest) == decode_utf8(valid) + lossy_utf8(rest),
    decreases valid.len(),
{
    if valid.len() == 0 {
        assert(valid + rest == rest);
    } else {
        lemma_first_scalar_alone(valid, rest);
        lemma_lossy_prefix(pop_first_scalar(valid), rest);
    }
}

/// Bytes that are UTF-8 read as what they encode.
pub proof fn law_lossy_is_exact(bytes: Seq<u8>)
    requires
        valid_utf8(bytes),
    ensures
        lossy_utf8(bytes) == decode_utf8(bytes),
{
    lemma_lossy_prefix(bytes, Seq::empty());
    assert(bytes + Seq::<u8>::empty() == bytes);
}

/// The text of `bytes`, with one replacement character for each invalid part.
pub fn from_utf8_lossy(bytes: &[u8]) -> (text: String)
    ensures
        text@ == lossy_utf8(bytes@),
        valid_utf8(bytes@) ==> text@ == decode_utf8(bytes@),
{
    let mut text = String::new();
    let mut start: usize = 0;
    proof {
        assert(bytes@.skip(0) == bytes@);
    }
    loop
        invariant
            start <= bytes@.len(),
            text@ + lossy_utf8(bytes@.skip(start as int)) == lossy_utf8(bytes@),
        decreases bytes@.len() - start,
    {
        let rest = vstd::slice::slice_subrange(bytes, start, bytes.len());
        proof {
            assert(rest@ == bytes@.skip(start as int));
        }
        match str_from_utf8(rest) {
            Ok(valid) => {
                text.append(valid);
                proof {
                    law_lossy_is_exact(rest@);
                    if valid_utf8(bytes@) {
                        law_lossy_is_exact(bytes@);
                    }
                }
                return text;
            },
            Err(valid_up_to) => {
                proof {
                    lemma_after_valid(rest@);
                }
                let head = vstd::slice::slice_subrange(rest, 0, valid_up_to);
                let tail = vstd::slice::slice_subrange(rest, valid_up_to, rest.len());
                proof {
                    assert(head@ == rest@.take(valid_up_to as int));
                    assert(tail@ == rest@.skip(valid_up_to as int));
                    assert(rest@ == head@ + tail@);
                    lemma_lossy_prefix(head@, tail@);
                }
                let ghost before = text@;
                if let Ok(valid) = str_from_utf8(head) {
                    text.append(valid);
                }
                text.push(REPLACEMENT);
                let (len, _) = broken_of(tail);
                start = start + valid_up_to + len;
                proof {
                    let after = bytes@.skip(start as int);
                    assert(tail@.skip(len as int) == after);
                    assert(text@ + lossy_utf8(after) == before + (decode_utf8(head@) + (
                    seq![REPLACEMENT] + lossy_utf8(after))));
                }
            },
        }
    }
}

// ---------------------------------------------------------------------------------------------
// Laws.

/// A line feed ends what stands before it: the text of two byte sequences, of which the first
/// ends with a line feed, is the text of the first and then that of the second, whether they are
/// UTF-8 or not.
pub proof fn law_lossy_adds_up(a: Seq<u8>, b: Seq<u8>)
    requires
        a.len() > 0,
        a.last() == 0x0a,
    ensures
        lossy_utf8(a + b) == lossy_utf8(a) + lossy_utf8(b),
        lossy_utf8(a).len() > 0,
        lossy_utf8(a).last() == '\n',
    decreases a.len(),
{
    let whole = a + b;
    let n = a.len() - 1;
    lemma_first_scalar(a);
    lemma_first_scalar(whole);
    assert(!goes_on(a, n));
    assert(!goes_on(whole, n));
    if valid_first_scalar(whole) {
        let w = width(a[0]) as int;
        if n >= 1 && n < w {
            assert(goes_on(whole, n));
        }
        assert forall|k: int| 1 <= k < w implies goes_on(a, k) by {
            assert(goes_on(whole, k));
        }
        assert(valid_first_scalar(a));
        lemma_first_scalar_alone(a, b);
        let rest = pop_first_scalar(a);
        let c = decode_first_scalar(a) as char;
        assert(lossy_utf8(a) == seq![c] + lossy_utf8(rest));
        assert(lossy_utf8(whole) == seq![c] + lossy_utf8(rest + b));
        if rest.len() > 0 {
            law_lossy_adds_up(rest, b);
            lemma_one_more_char(c, lossy_utf8(rest), lossy_utf8(b));
        } else {
            assert(a == seq![0x0au8]);
            assert(0x0au8 & 0x7f == 0x0a) by (bit_vector);
            assert(rest + b == b);
            assert(lossy_utf8(rest) == Seq::<char>::empty());
            assert(lossy_utf8(a) == seq![c]);
        }
    } else {
        if valid_first_scalar(a) {
            lemma_first_scalar_alone(a, b);
        }
        let k = lemma_broken_exists(a);
        assert(width(a[0]) != 1);
        if k > n {
            if n >= 1 {
                assert(goes_on(a, n));
            }
        }
        assert forall|j: int| 1 <= j < k implies goes_on(whole, j) by {
            assert(goes_on(a, j));
        }
        if width(a[0]) > 0 && k < a.len() {
            assert(!goes_on(a, k as int));
            assert(!goes_on(whole, k as int));
        }
        lemma_broken_len(whole, k);
        assert(whole.skip(k as int) == a.skip(k as int) + b);
        let rest = a.skip(k as int);
        law_lossy_adds_up(rest, b);
        assert(lossy_utf8(a) == seq![REPLACEMENT] + lossy_utf8(rest));
        assert(lossy_utf8(whole) == seq![REPLACEMENT] + lossy_utf8(rest + b));
        lemma_one_more_char(REPLACEMENT, lossy_utf8(rest), lossy_utf8(b));
    }
}

proof fn lemma_one_more_char(c: char, s: Seq<char>, t: Seq<char>)
    requires
        s.len() > 0,
    ensures
        seq![c] + (s + t) == (seq![c] + s) + t,
        (seq![c] + s).len() > 0,
        (seq![c] + s).last() == s.last(),
{
}

/// The place where the invalid part ends.
proof fn lemma_broken_exists(s: Seq<u8>) -> (k: nat)
    requires
        s.len() > 0,
        !valid_first_scalar(s),
    ensures
        0 < k <= s.len(),
        all_go_on(s, k as int),
        width(s[0]) == 0 ==> k == 1,
        width(s[0]) > 0 ==> k < width(s[0]) && (k < s.len() ==> !goes_on(s, k as int)),
        broken_len(s) == k,
{
    lemma_first_scalar(s);
    let w = width(s[0]);
    let k: nat = if w == 0 || s.len() == 1 || !goes_on(s, 1) {
        1
    } else if s.len() == 2 || !goes_on(s, 2) {
        2
    } else {
        3
    };
    lemma_broken_len(s, k);
    k
}

/// The replacement character is U+FFFD.
pub proof fn law_replacement()
    ensures
        REPLACEMENT as u32 == 0xfffd,
{
}

/// Where no character stands, the longest run of bytes that more bytes could make a character, or
/// the one byte if there is no such run, reads as U+FFFD, and the text goes on after it.
pub proof fn law_lossy_broken(s: Seq<u8>, k: int)
    requires
        0 < k <= s.len(),
        !valid_first_scalar(s),
        k > 1 ==> begins_char(s.take(k)),
        forall|j: int| k < j <= s.len() ==> !begins_char(#[trigger] s.take(j)),
    ensures
        lossy_utf8(s) == seq!['\u{fffd}'] + lossy_utf8(s.skip(k)),
{
    if begins_char(s.take(k)) {
        lemma_begun_len(s, k as nat, s.len());
    } else {
        assert forall|j: int| 0 < j <= s.len() implies !begins_char(#[trigger] s.take(j)) by {
            if j == 1 {
                assert(s.take(j) == s.take(k));
            }
        }
        lemma_begun_len(s, 0, s.len());
    }
}

/// A sequence is a character cut short exactly if some bytes after it make it start with a
/// character that is longer.
pub proof fn law_begins_char(s: Seq<u8>, more: Seq<u8>)
    ensures
        valid_first_scalar(s + more) && s.len() < length_of_first_scalar(s + more) ==> begins_char(s),
        !valid_first_scalar(s) && begins_char(s) ==> s.len() <= 3,
        begins_char(s) && s.len() > 0 ==> s[0] >= 0xc2,
{
    if begins_char(s) && s.len() > 0 {
        lemma_begins_char(s);
    }
}

/// The error names the longest prefix that is UTF-8, and of the rest whether it is a character cut
/// short, or else the longest run that is one, and at least one byte.
pub proof fn law_utf8_error(bytes: Seq<u8>)
    requires
        !valid_utf8(bytes),
        bytes.len() <= usize::MAX,
    ensures
        ({
            let v = utf8_error(bytes).valid_up_to as int;
            let rest = bytes.skip(v);
            &&& v < bytes.len()
            &&& valid_utf8(bytes.take(v))
            &&& forall|j: int| v < j <= bytes.len() ==> !valid_utf8(#[trigger] bytes.take(j))
            &&& match utf8_error(bytes).error_len {
                None => begins_char(rest),
                Some(len) => {
                    &&& !begins_char(rest)
                    &&& 0 < len <= rest.len()
                    &&& len > 1 ==> begins_char(rest.take(len as int))
                    &&& forall|j: int|
                        len < j <= rest.len() ==> !begins_char(#[trigger] rest.take(j))
                },
            }
        }),
{
    lemma_after_valid(bytes);
    lemma_valid_len(bytes, bytes.len());
    let rest = bytes.skip(valid_len(bytes, bytes.len()) as int);
    lemma_broken_len_bounds(rest);
    lemma_begun_len_longest(rest, rest.len());
}

proof fn lemma_begun_len_longest(s: Seq<u8>, n: nat)
    requires
        n <= s.len(),
    ensures
        begun_len(s, n) > 0 ==> begins_char(s.take(begun_len(s, n) as int)),
        forall|j: int| begun_len(s, n) < j <= n ==> !begins_char(#[trigger] s.take(j)),
    decreases n,
{
    if n > 0 && !begins_char(s.take(n as int)) {
        lemma_begun_len_longest(s, (n - 1) as nat);
    }
}

} // verus!
