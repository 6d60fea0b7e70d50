//! Text: decoding bytes, cutting text into lines and words, and reading numbers from it.

mod utf8;

pub use utf8::{
    begins_char, begun_len, broken_len, from_utf8, from_utf8_lossy, law_begins_char,
    law_lossy_adds_up, law_lossy_broken, law_lossy_is_exact, law_replacement, law_utf8_error,
    lemma_broken_len_bounds, lemma_lossy_prefix, lossy_utf8, utf8_error, valid_len, InvalidUtf8,
    REPLACEMENT,
};

use crate::split::{split_chars, split_on, views};
use vstd::prelude::*;

verus! {

/// Whether `c` has the Unicode property `White_Space`.
pub open spec fn is_white_space(c: char) -> bool {
    ||| 0x09 <= c as u32 <= 0x0d
    ||| c as u32 == 0x20
    ||| c as u32 == 0x85
    ||| c as u32 == 0xa0
    ||| c as u32 == 0x1680
    ||| 0x2000 <= c as u32 <= 0x200a
    ||| c as u32 == 0x2028
    ||| c as u32 == 0x2029
    ||| c as u32 == 0x202f
    ||| c as u32 == 0x205f
    ||| c as u32 == 0x3000
}

/// `char::is_whitespace` of the standard library tells whether a character has the Unicode
/// property `White_Space`, which exactly the characters of the spec function of that name have.
pub assume_specification [char::is_whitespace] (c: char) -> (res: bool)
    ensures
        res == is_white_space(c),
;

/// `String::push` of the standard library appends one character.
pub assume_specification [String::push] (s: &mut String, c: char)
    ensures
        final(s)@ == old(s)@.push(c),
;

// ---------------------------------------------------------------------------------------------
// Characters.

/// The characters of `text`.
pub fn chars_of(text: &str) -> (chars: Vec<char>)
    ensures
        chars@ == text@,
{
    let mut chars: Vec<char> = Vec::new();
    for c in it: text.chars()
        invariant
            it.seq() == text@,
            chars@ == it.seq().take(it.index() as int),
    {
        chars.push(c);
    }
    proof {
        assert(text@.take(text@.len() as int) == text@);
    }
    chars
}

/// The text that consists of `chars`.
pub fn text_of(chars: &[char]) -> (text: String)
    ensures
        text@ == chars@,
{
    let mut text = String::new();
    for i in 0..chars.len()
        invariant
            text@ == chars@.take(i as int),
    {
        text.push(chars[i]);
    }
    proof {
        assert(chars@.take(chars@.len() as int) == chars@);
    }
    text
}

// ---------------------------------------------------------------------------------------------
// Lines.

/// A line without the carriage return at its end.
pub open spec fn chomp(line: Seq<char>) -> Seq<char> {
    if line.len() > 0 && line.last() == '\r' {
        line.drop_last()
    } else {
        line
    }
}

/// The lines of a text. A line ends with a line feed, which may follow a carriage return; the
/// last line needs no line feed, and a carriage return at its very end belongs to it.
pub open spec fn lines(text: Seq<char>) -> Seq<Seq<char>> {
    let pieces = split_on(text, '\n');
    let ended = pieces.drop_last().map_values(|line: Seq<char>| chomp(line));
    if pieces.last().len() == 0 {
        ended
    } else {
        ended.push(pieces.last())
    }
}

/// The lines of a text that ends with a line feed, followed by another text, are those of the one
/// and then those of the other.
pub proof fn law_lines_add_up(a: Seq<char>, b: Seq<char>)
    requires
        a.len() > 0 ==> a.last() == '\n',
    ensures
        lines(a + b) == lines(a) + lines(b),
{
    let chomped = |line: Seq<char>| chomp(line);
    if a.len() == 0 {
        assert(a + b == b);
        assert(lines(a) + lines(b) == lines(b));
    } else {
        let front = a.drop_last();
        let first = split_on(front, '\n');
        let second = split_on(b, '\n');
        assert(a == front.push('\n'));
        crate::split::lemma_split_concat(front, b, '\n');
        crate::split::lemma_split_join(b, '\n');
        assert(split_on(a + b, '\n') == first + second);
        assert((first + second).drop_last() == first + second.drop_last());
        assert((first + second).last() == second.last());
        assert(split_on(a, '\n').drop_last() == first);
        assert((first + second.drop_last()).map_values(chomped) == first.map_values(chomped)
            + second.drop_last().map_values(chomped));
    }
}

/// The lines of `text`.
pub fn lines_of(text: &str) -> (res: Vec<Vec<char>>)
    ensures
        views(res@) == lines(text@),
{
    let chars = chars_of(text);
    let mut res = split_chars(chars.as_slice(), '\n');
    let ghost pieces = views(res@);
    proof {
        crate::split::lemma_split_join(text@, '\n');
    }
    let n = res.len();
    let mut i: usize = 0;
    while i + 1 < n
        invariant
            n == res@.len(),
            n == pieces.len(),
            n >= 1,
            i + 1 <= n,
            forall|j: int| 0 <= j < i ==> (#[trigger] res@[j])@ == chomp(pieces[j]),
            forall|j: int| i <= j < n ==> (#[trigger] res@[j])@ == pieces[j],
        decreases n - i,
    {
        let mut line: Vec<char> = Vec::new();
        std::mem::swap(&mut line, &mut res[i]);
        if line.len() > 0 && line[line.len() - 1] == '\r' {
            line.pop();
        }
        proof {
            assert(line@ == chomp(pieces[i as int]));
        }
        res[i] = line;
        i = i + 1;
    }
    if res[n - 1].len() == 0 {
        res.pop();
    }
    proof {
        assert(views(res@) == lines(text@));
    }
    res
}

// ---------------------------------------------------------------------------------------------
// White space.

/// The text from its first character on that is not white space.
pub open spec fn trim_start(s: Seq<char>) -> Seq<char>
    decreases s.len(),
{
    if s.len() > 0 && is_white_space(s[0]) {
        trim_start(s.skip(1))
    } else {
        s
    }
}

/// The text up to its last character that is not white space.
pub open spec fn trim_end(s: Seq<char>) -> Seq<char>
    decreases s.len(),
{
    if s.len() > 0 && is_white_space(s.last()) {
        trim_end(s.drop_last())
    } else {
        s
    }
}

/// The text without the white space around it.
pub open spec fn trim(s: Seq<char>) -> Seq<char> {
    trim_end(trim_start(s))
}

/// The number of characters before the first white space.
pub open spec fn word_len(s: Seq<char>) -> nat
    decreases s.len(),
{
    if s.len() == 0 || is_white_space(s[0]) {
        0
    } else {
        1 + word_len(s.skip(1))
    }
}

/// The first of the words that white space separates.
pub open spec fn first_word(s: Seq<char>) -> Option<Seq<char>> {
    let rest = trim_start(s);
    if rest.len() == 0 {
        None
    } else {
        Some(rest.take(word_len(rest) as int))
    }
}

/// A word ends at the first white space.
pub proof fn lemma_word_len(s: Seq<char>, n: nat)
    requires
        n < s.len(),
        forall|i: int| 0 <= i < n ==> !is_white_space(#[trigger] s[i]),
        is_white_space(s[n as int]),
    ensures
        word_len(s) == n,
    decreases n,
{
    if n > 0 {
        let rest = s.skip(1);
        assert forall|i: int| 0 <= i < n - 1 implies !is_white_space(#[trigger] rest[i]) by {
            assert(rest[i] == s[i + 1]);
        }
        assert(!is_white_space(s[0]));
        lemma_word_len(rest, (n - 1) as nat);
    }
}

/// `s` without the white space before it.
pub fn trim_start_of(s: &[char]) -> (res: &[char])
    ensures
        res@ == trim_start(s@),
{
    let mut i: usize = 0;
    proof {
        assert(s@.skip(0) == s@);
    }
    while i < s.len() && s[i].is_whitespace()
        invariant
            i <= s@.len(),
            trim_start(s@) == trim_start(s@.skip(i as int)),
        decreases s@.len() - i,
    {
        proof {
            assert(s@.skip(i as int).skip(1) == s@.skip(i + 1));
        }
        i = i + 1;
    }
    let res = vstd::slice::slice_subrange(s, i, s.len());
    proof {
        assert(res@ == s@.skip(i as int));
    }
    res
}

/// `s` without the white space after it.
pub fn trim_end_of(s: &[char]) -> (res: &[char])
    ensures
        res@ == trim_end(s@),
{
    let mut e: usize = s.len();
    proof {
        assert(s@.take(s@.len() as int) == s@);
    }
    while e > 0 && s[e - 1].is_whitespace()
        invariant
            e <= s@.len(),
            trim_end(s@) == trim_end(s@.take(e as int)),
        decreases e,
    {
        proof {
            assert(s@.take(e as int).drop_last() == s@.take(e - 1));
        }
        e = e - 1;
    }
    let res = vstd::slice::slice_subrange(s, 0, e);
    proof {
        assert(res@ == s@.take(e as int));
    }
    res
}

/// `s` without the white space around it.
pub fn trim_of(s: &[char]) -> (res: &[char])
    ensures
        res@ == trim(s@),
{
    trim_end_of(trim_start_of(s))
}

/// How many characters of `s` stand before its first white space.
pub fn word_len_of(s: &[char]) -> (n: usize)
    ensures
        n == word_len(s@),
        n <= s@.len(),
{
    let mut i: usize = 0;
    proof {
        assert(s@.skip(0) == s@);
    }
    while i < s.len() && !s[i].is_whitespace()
        invariant
            i <= s@.len(),
            word_len(s@) == i + word_len(s@.skip(i as int)),
        decreases s@.len() - i,
    {
        proof {
            assert(s@.skip(i as int).skip(1) == s@.skip(i + 1));
        }
        i = i + 1;
    }
    i
}

/// The first word of `s`; `None` if there is only white space.
pub fn first_word_of(s: &[char]) -> (res: Option<&[char]>)
    ensures
        match res {
            Some(word) => first_word(s@) == Some(word@),
            None => first_word(s@) is None,
        },
{
    let rest = trim_start_of(s);
    if rest.len() == 0 {
        None
    } else {
        let n = word_len_of(rest);
        let word = vstd::slice::slice_subrange(rest, 0, n);
        proof {
            assert(word@ == rest@.take(word_len(rest@) as int));
        }
        Some(word)
    }
}

// ---------------------------------------------------------------------------------------------
// Numbers.

/// Whether `c` is one of the digits 0 to 7.
pub open spec fn is_octal_digit(c: char) -> bool {
    '0' as u32 <= c as u32 <= '7' as u32
}

/// The number that octal digits stand for.
pub open spec fn octal_value(digits: Seq<char>) -> nat
    decreases digits.len(),
{
    if digits.len() == 0 {
        0
    } else {
        (octal_value(digits.drop_last()) * 8 + (digits.last() as u32 - '0' as u32)) as nat
    }
}

/// Whether there are only octal digits.
pub open spec fn all_octal(digits: Seq<char>) -> bool {
    forall|i: int| 0 <= i < digits.len() ==> is_octal_digit(#[trigger] digits[i])
}

/// The number that one or more octal digits stand for, if it is below 2^32.
pub open spec fn octal_number(digits: Seq<char>) -> Option<u32> {
    if digits.len() > 0 && all_octal(digits) && octal_value(digits) <= u32::MAX {
        Some(octal_value(digits) as u32)
    } else {
        None
    }
}

/// The number that `s` stands for in octal. A plus sign may precede the digits.
pub open spec fn parse_octal(s: Seq<char>) -> Option<u32> {
    if s.len() > 0 && s[0] == '+' {
        octal_number(s.skip(1))
    } else {
        octal_number(s)
    }
}

proof fn lemma_octal_grows(digits: Seq<char>, i: int)
    requires
        0 <= i <= digits.len(),
        all_octal(digits),
    ensures
        octal_value(digits.take(i)) <= octal_value(digits),
    decreases digits.len() - i,
{
    if i < digits.len() {
        lemma_octal_grows(digits, i + 1);
        assert(digits.take(i + 1).drop_last() == digits.take(i));
        assert(is_octal_digit(digits[i]));
    } else {
        assert(digits.take(i) == digits);
    }
}

/// A number has at least one character, and none that is white space.
pub proof fn lemma_octal_chars(s: Seq<char>)
    requires
        parse_octal(s) is Some,
    ensures
        s.len() > 0,
        forall|i: int| 0 <= i < s.len() ==> !is_white_space(#[trigger] s[i]),
{
    let start: int = if s.len() > 0 && s[0] == '+' {
        1
    } else {
        0
    };
    let digits = s.skip(start);
    assert(s.skip(0) == s);
    assert(all_octal(digits));
    assert forall|i: int| 0 <= i < s.len() implies !is_white_space(#[trigger] s[i]) by {
        if i >= start {
            assert(is_octal_digit(digits[i - start]));
        }
    }
}

/// The number that `s` stands for in octal; `None` if it stands for none, or for one that is too
/// large.
pub fn parse_octal_of(s: &[char]) -> (res: Option<u32>)
    ensures
        res == parse_octal(s@),
{
    let start: usize = if s.len() > 0 && s[0] == '+' {
        1
    } else {
        0
    };
    let ghost digits = s@.skip(start as int);
    proof {
        assert(s@.skip(0) == s@);
    }
    if start == s.len() {
        return None;
    }
    let mut value: u64 = 0;
    let mut i: usize = start;
    while i < s.len()
        invariant
            start <= i <= s@.len(),
            digits == s@.skip(start as int),
            forall|j: int| 0 <= j < i - start ==> is_octal_digit(#[trigger] digits[j]),
            value == octal_value(digits.take(i - start)),
            value <= u32::MAX,
            parse_octal(s@) == octal_number(digits),
        decreases s@.len() - i,
    {
        let c = s[i];
        proof {
            assert(digits[i - start] == c);
        }
        let code: u32 = c as u32;
        let zero: u32 = '0' as u32;
        if code < zero || code > '7' as u32 {
            proof {
                assert(!is_octal_digit(digits[i - start]));
            }
            return None;
        }
        let digit: u32 = code - zero;
        value = value * 8 + digit as u64;
        proof {
            assert(digits.take(i - start + 1).drop_last() == digits.take(i - start));
            assert(digits.take(i - start + 1).last() == c);
        }
        if value > 0xffff_ffff {
            proof {
                if all_octal(digits) {
                    lemma_octal_grows(digits, i - start + 1);
                }
            }
            return None;
        }
        i = i + 1;
    }
    proof {
        assert(digits.take(s@.len() - start) == digits);
    }
    Some(value as u32)
}

// ---------------------------------------------------------------------------------------------
// Laws.

/// Whether there is only white space.
pub open spec fn is_blank(s: Seq<char>) -> bool {
    forall|i: int| 0 <= i < s.len() ==> is_white_space(#[trigger] s[i])
}

/// Whether there is no white space.
pub open spec fn is_solid(s: Seq<char>) -> bool {
    forall|i: int| 0 <= i < s.len() ==> !is_white_space(#[trigger] s[i])
}

/// Whether neither end is white space. Nothing has no ends.
pub open spec fn is_bare(s: Seq<char>) -> bool {
    s.len() > 0 ==> !is_white_space(s[0]) && !is_white_space(s.last())
}

/// Among the ASCII characters, white space is the tab, the line feed, the vertical tab, the form
/// feed, the carriage return and the blank.
pub proof fn law_ascii_white_space(c: char)
    requires
        (c as u32) < 0x80,
    ensures
        is_white_space(c) <==> c == '\t' || c == '\n' || c == '\x0b' || c == '\x0c' || c == '\r'
            || c == ' ',
{
}

/// Trimming the start takes all white space before the rest, and nothing else.
pub proof fn law_trim_start(before: Seq<char>, rest: Seq<char>)
    requires
        is_blank(before),
        rest.len() > 0 ==> !is_white_space(rest[0]),
    ensures
        trim_start(before + rest) == rest,
    decreases before.len(),
{
    let s = before + rest;
    if before.len() > 0 {
        let fewer = before.skip(1);
        assert forall|i: int| 0 <= i < fewer.len() implies is_white_space(#[trigger] fewer[i]) by {
            assert(fewer[i] == before[i + 1]);
        }
        law_trim_start(fewer, rest);
        assert(s[0] == before[0]);
        assert(s.skip(1) == fewer + rest);
    } else {
        assert(s == rest);
    }
}

/// Trimming the end takes all white space after the rest, and nothing else.
pub proof fn law_trim_end(rest: Seq<char>, after: Seq<char>)
    requires
        is_blank(after),
        rest.len() > 0 ==> !is_white_space(rest.last()),
    ensures
        trim_end(rest + after) == rest,
    decreases after.len(),
{
    let s = rest + after;
    if after.len() > 0 {
        let fewer = after.drop_last();
        assert forall|i: int| 0 <= i < fewer.len() implies is_white_space(#[trigger] fewer[i]) by {
            assert(fewer[i] == after[i]);
        }
        law_trim_end(rest, fewer);
        assert(s.last() == after.last());
        assert(is_white_space(after[after.len() - 1]));
        assert(s.drop_last() == rest + fewer);
    } else {
        assert(s == rest);
    }
}

/// Trimming takes all white space before and after the rest, and nothing else.
pub proof fn law_trim(before: Seq<char>, rest: Seq<char>, after: Seq<char>)
    requires
        is_blank(before),
        is_bare(rest),
        is_blank(after),
    ensures
        trim(before + rest + after) == rest,
{
    if rest.len() > 0 {
        assert(before + rest + after == before + (rest + after));
        law_trim_start(before, rest + after);
        law_trim_end(rest, after);
    } else {
        let s = before + rest + after;
        assert forall|i: int| 0 <= i < s.len() implies is_white_space(#[trigger] s[i]) by {
            if i < before.len() {
                assert(s[i] == before[i]);
            } else {
                assert(s[i] == after[i - before.len()]);
            }
        }
        assert(s + rest == s);
        law_trim_start(s, rest);
        assert(rest + Seq::<char>::empty() == rest);
        law_trim_end(rest, Seq::empty());
    }
}

/// Every text is white space, what trimming leaves of it, and white space.
pub proof fn lemma_trim_parts(s: Seq<char>) -> (parts: (Seq<char>, Seq<char>))
    ensures
        s == parts.0 + trim(s) + parts.1,
        is_blank(parts.0),
        is_bare(trim(s)),
        is_blank(parts.1),
{
    let before = lemma_trim_start_part(s);
    let after = lemma_trim_end_part(trim_start(s));
    assert(before + trim(s) + after == before + (trim(s) + after));
    (before, after)
}

proof fn lemma_trim_start_part(s: Seq<char>) -> (before: Seq<char>)
    ensures
        s == before + trim_start(s),
        is_blank(before),
        trim_start(s).len() > 0 ==> !is_white_space(trim_start(s)[0]),
    decreases s.len(),
{
    if s.len() > 0 && is_white_space(s[0]) {
        let fewer = lemma_trim_start_part(s.skip(1));
        let before = seq![s[0]] + fewer;
        assert(s == seq![s[0]] + s.skip(1));
        assert(before + trim_start(s) == seq![s[0]] + (fewer + trim_start(s)));
        before
    } else {
        assert(Seq::<char>::empty() + s == s);
        Seq::empty()
    }
}

proof fn lemma_trim_end_part(s: Seq<char>) -> (after: Seq<char>)
    ensures
        s == trim_end(s) + after,
        is_blank(after),
        trim_end(s).len() > 0 ==> !is_white_space(trim_end(s).last()) && trim_end(s)[0] == s[0],
    decreases s.len(),
{
    if s.len() > 0 && is_white_space(s.last()) {
        let fewer = lemma_trim_end_part(s.drop_last());
        assert(s == s.drop_last().push(s.last()));
        assert(trim_end(s) + fewer.push(s.last()) == (trim_end(s) + fewer).push(s.last()));
        fewer.push(s.last())
    } else {
        assert(s + Seq::<char>::empty() == s);
        Seq::empty()
    }
}

/// A word goes up to the white space that follows it, or to the end.
pub proof fn law_word_len(word: Seq<char>, rest: Seq<char>)
    requires
        is_solid(word),
        rest.len() > 0 ==> is_white_space(rest[0]),
    ensures
        word_len(word + rest) == word.len(),
    decreases word.len(),
{
    let s = word + rest;
    if word.len() > 0 {
        let fewer = word.skip(1);
        assert forall|i: int| 0 <= i < fewer.len() implies !is_white_space(#[trigger] fewer[i]) by {
            assert(fewer[i] == word[i + 1]);
        }
        law_word_len(fewer, rest);
        assert(s[0] == word[0]);
        assert(s.skip(1) == fewer + rest);
    } else {
        assert(s == rest);
    }
}

/// The first word is what stands between white space and white space, or the end.
pub proof fn law_first_word(before: Seq<char>, word: Seq<char>, rest: Seq<char>)
    requires
        is_blank(before),
        word.len() > 0,
        is_solid(word),
        rest.len() > 0 ==> is_white_space(rest[0]),
    ensures
        first_word(before + word + rest) == Some(word),
{
    let tail = word + rest;
    assert(before + word + rest == before + tail);
    assert(tail[0] == word[0]);
    law_trim_start(before, tail);
    law_word_len(word, rest);
    assert(tail.take(word.len() as int) == word);
}

/// White space has no first word.
pub proof fn law_no_first_word(s: Seq<char>)
    requires
        is_blank(s),
    ensures
        first_word(s) is None,
{
    law_trim_start(s, Seq::empty());
    assert(s + Seq::<char>::empty() == s);
}

/// A text without a line feed is one line, or none if it is empty. With a line feed at its end it
/// is one line, to which a carriage return before the line feed does not belong.
pub proof fn law_one_line(s: Seq<char>)
    requires
        !s.contains('\n'),
    ensures
        s.len() == 0 ==> lines(s) == Seq::<Seq<char>>::empty(),
        s.len() > 0 ==> lines(s) == seq![s],
        s.len() > 0 && s.last() == '\r' ==> lines(s.push('\n')) == seq![s.drop_last()],
        s.len() == 0 || s.last() != '\r' ==> lines(s.push('\n')) == seq![s],
{
    let none = Seq::<char>::empty();
    crate::split::lemma_split_absent(s, '\n');
    crate::split::lemma_split_absent(none, '\n');
    crate::split::lemma_split_concat(s, none, '\n');
    assert(s.push('\n') + none == s.push('\n'));
    assert(split_on(s.push('\n'), '\n') == seq![s, none]);
    assert(seq![s].drop_last() == Seq::<Seq<char>>::empty());
    assert(seq![s, none].drop_last() == seq![s]);
    if s.len() > 0 {
        assert(lines(s) == seq![s]);
    } else {
        assert(lines(s) == Seq::<Seq<char>>::empty());
    }
    assert(lines(s.push('\n')) == seq![chomp(s)]);
}

/// One character is an octal number if it is a digit from 0 to 7; then it is the value of the
/// digit.
pub proof fn law_octal_digit(c: char)
    ensures
        parse_octal(Seq::empty()) is None,
        parse_octal(seq![c]) == (match c {
            '0' => Some(0u32),
            '1' => Some(1u32),
            '2' => Some(2u32),
            '3' => Some(3u32),
            '4' => Some(4u32),
            '5' => Some(5u32),
            '6' => Some(6u32),
            '7' => Some(7u32),
            _ => None,
        }),
{
    reveal_with_fuel(octal_value, 3);
    let s = seq![c];
    assert(s.drop_last() == Seq::<char>::empty());
    assert(s.skip(1) == Seq::<char>::empty());
    if !is_octal_digit(c) {
        assert(!is_octal_digit(s[0]));
    } else {
        assert(all_octal(s));
    }
}

/// A digit more makes an octal number eight times as large and adds the digit. What is then too
/// large is none, and neither is anything that goes on with another character.
pub proof fn law_octal_more(s: Seq<char>, c: char)
    requires
        parse_octal(s) is Some,
    ensures
        parse_octal(s.push(c)) == (match parse_octal(seq![c]) {
            Some(digit) => if 8 * parse_octal(s)->0 + digit <= 0xffff_ffff {
                Some((8 * parse_octal(s)->0 + digit) as u32)
            } else {
                None
            },
            None => None,
        }),
{
    law_octal_digit(c);
    let start: int = if s[0] == '+' {
        1
    } else {
        0
    };
    let digits = s.skip(start);
    assert(s.skip(0) == s && s.push(c).skip(0) == s.push(c));
    assert(s.push(c).skip(start) == digits.push(c));
    assert(digits.push(c).drop_last() == digits);
    if is_octal_digit(c) {
        assert(all_octal(digits.push(c)));
    } else {
        assert(digits.push(c)[digits.len() as int] == c);
        assert(!all_octal(digits.push(c)));
    }
}

/// What is no octal number does not become one by more characters, unless it was nothing or a
/// plus sign.
pub proof fn law_octal_none(s: Seq<char>, c: char)
    requires
        parse_octal(s) is None,
        s.len() > 0,
        s != seq!['+'],
    ensures
        parse_octal(s.push(c)) is None,
{
    let start: int = if s[0] == '+' {
        1
    } else {
        0
    };
    let digits = s.skip(start);
    assert(s.skip(0) == s && s.push(c).skip(0) == s.push(c));
    assert(s.push(c).skip(start) == digits.push(c));
    if s.len() == start {
        assert(s == seq!['+']);
    }
    assert(digits.push(c).drop_last() == digits);
    if all_octal(digits.push(c)) {
        assert forall|i: int| 0 <= i < digits.len() implies is_octal_digit(#[trigger] digits[i]) by {
            assert(digits.push(c)[i] == digits[i]);
        }
        assert(is_octal_digit(digits.push(c)[digits.len() as int]));
    }
}

/// One plus sign before a number makes no difference; two make it none.
pub proof fn law_octal_sign(s: Seq<char>)
    ensures
        parse_octal(seq!['+'] + s) == (if s.len() > 0 && s[0] == '+' {
            None
        } else {
            parse_octal(s)
        }),
{
    assert((seq!['+'] + s).skip(1) == s);
    if s.len() > 0 && s[0] == '+' {
        assert(!is_octal_digit(s[0]));
    }
}

} // verus!
