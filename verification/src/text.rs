//! Text helpers: trimming, prefixes, and the way between text and UTF-8 bytes.

use vstd::prelude::*;
use vstd::utf8::{decode_utf8, encode_utf8, valid_utf8};

verus! {

/// What an optional text says.
pub open spec fn opt_text(text: Option<String>) -> Option<Seq<char>> {
    match text {
        Some(text) => Some(text@),
        None => None,
    }
}

/// What an optional text says.
pub open spec fn opt_str(text: Option<&str>) -> Option<Seq<char>> {
    match text {
        Some(text) => Some(text@),
        None => None,
    }
}

/// Whether `c` has the Unicode property `White_Space`.
pub open spec fn white_space(c: char) -> bool {
    let v = c as u32;
    ||| 0x09 <= v <= 0x0d
    ||| v == 0x20
    ||| v == 0x85
    ||| v == 0xa0
    ||| v == 0x1680
    ||| 0x2000 <= v <= 0x200a
    ||| v == 0x2028
    ||| v == 0x2029
    ||| v == 0x202f
    ||| v == 0x205f
    ||| v == 0x3000
}

/// `char::is_whitespace` of the standard library: the Unicode property
/// `White_Space`.
#[verifier::external_body]
fn is_whitespace(c: char) -> (yes: bool)
    ensures
        yes == white_space(c),
{
    c.is_whitespace()
}

/// Why bytes are not valid UTF-8.
#[derive(Clone, Copy, Debug, PartialEq, Eq, Structural)]
pub struct InvalidUtf8 {
    /// How many bytes at the front are valid.
    pub valid_up_to: usize,
    /// How many bytes behind them are invalid, unless the end of a character is
    /// missing.
    pub error_len: Option<usize>,
}

/// The largest number up to `n` of bytes at the front of `s` that are valid UTF-8.
pub open spec fn longest_valid(s: Seq<u8>, n: nat) -> nat
    decreases n,
{
    if n == 0 || valid_utf8(s.take(n as int)) {
        n
    } else {
        longest_valid(s, (n - 1) as nat)
    }
}

/// What `std::str::Utf8Error::error_len` gives for bytes that are not valid UTF-8.
pub uninterp spec fn utf8_error_len(s: Seq<u8>) -> Option<usize>;

/// Why bytes that are not valid UTF-8 are not.
pub open spec fn utf8_error(s: Seq<u8>) -> InvalidUtf8 {
    InvalidUtf8 {
        valid_up_to: longest_valid(s, s.len()) as usize,
        error_len: utf8_error_len(s),
    }
}

/// `std::str::from_utf8` of the standard library: the text that the bytes encode,
/// if they are valid UTF-8. Otherwise its error tells the longest valid front, and
/// how many bytes are invalid behind it; where it tells none, the bytes end within
/// a character.
#[verifier::external_body]
pub(crate) fn from_utf8(bytes: &[u8]) -> (result: Result<&str, InvalidUtf8>)
    ensures
        match result {
            Ok(text) => valid_utf8(bytes@) && text@ == decode_utf8(bytes@),
            Err(error) => {
                &&& !valid_utf8(bytes@)
                &&& error.valid_up_to == longest_valid(bytes@, bytes@.len())
                &&& error.error_len == utf8_error_len(bytes@)
                &&& error.error_len is None ==> 1 <= bytes@.len() - error.valid_up_to <= 3
            },
        },
{
    match std::str::from_utf8(bytes) {
        Ok(text) => Ok(text),
        Err(error) => Err(
            InvalidUtf8 { valid_up_to: error.valid_up_to(), error_len: error.error_len() },
        ),
    }
}

/// `s` without the white space at its front.
pub open spec fn trim_start(s: Seq<char>) -> Seq<char>
    decreases s.len(),
{
    if s.len() > 0 && white_space(s[0]) {
        trim_start(s.skip(1))
    } else {
        s
    }
}

/// `s` without the white space at its end.
pub open spec fn trim_end(s: Seq<char>) -> Seq<char>
    decreases s.len(),
{
    if s.len() > 0 && white_space(s.last()) {
        trim_end(s.drop_last())
    } else {
        s
    }
}

/// `s` without the run of `c` at its end.
pub open spec fn without_trailing(s: Seq<char>, c: char) -> Seq<char>
    decreases s.len(),
{
    if s.len() > 0 && s.last() == c {
        without_trailing(s.drop_last(), c)
    } else {
        s
    }
}

/// The characters of a text.
pub(crate) fn chars_of(text: &str) -> (chars: Vec<char>)
    ensures
        chars@ == text@,
{
    let mut chars: Vec<char> = Vec::new();
    for c in it: text.chars()
        invariant
            it.seq() == text@,
            chars@ == text@.take(it.index() as int),
    {
        chars.push(c);
    }
    assert(text@.take(text@.len() as int) =~= text@);
    chars
}

/// Removes white space from both ends of a text.
pub fn trim(text: &str) -> (trimmed: &str)
    ensures
        trimmed@ == trim_end(trim_start(text@)),
{
    let chars = chars_of(text);
    let mut from: usize = 0;
    assert(text@.skip(0) =~= text@);
    while from < chars.len() && is_whitespace(chars[from])
        invariant
            chars@ == text@,
            from <= chars.len(),
            trim_start(text@) == trim_start(text@.skip(from as int)),
        decreases chars.len() - from,
    {
        proof {
            assert(text@.skip(from as int).skip(1) =~= text@.skip(from + 1));
        }
        from += 1;
    }
    let ghost start = text@.skip(from as int);
    let mut to: usize = chars.len();
    assert(start =~= text@.subrange(from as int, to as int));
    while from < to && is_whitespace(chars[to - 1])
        invariant
            chars@ == text@,
            from <= to <= chars.len(),
            trim_end(start) == trim_end(text@.subrange(from as int, to as int)),
        decreases to - from,
    {
        proof {
            assert(text@.subrange(from as int, to as int).drop_last() =~= text@.subrange(
                from as int,
                to - 1,
            ));
        }
        to -= 1;
    }
    text.substring_char(from, to)
}

/// Removes the run of `c` at the end of a text.
pub fn trim_end_matches(text: &str, c: char) -> (trimmed: &str)
    ensures
        trimmed@ == without_trailing(text@, c),
{
    let chars = chars_of(text);
    let mut to: usize = chars.len();
    assert(text@ =~= text@.subrange(0, to as int));
    while 0 < to && chars[to - 1] == c
        invariant
            chars@ == text@,
            to <= chars.len(),
            without_trailing(text@, c) == without_trailing(text@.subrange(0, to as int), c),
        decreases to,
    {
        proof {
            assert(text@.subrange(0, to as int).drop_last() =~= text@.subrange(0, to - 1));
        }
        to -= 1;
    }
    text.substring_char(0, to)
}

/// Whether `s` begins with `prefix`.
pub open spec fn starts_with(s: Seq<char>, prefix: Seq<char>) -> bool {
    prefix.len() <= s.len() && s.take(prefix.len() as int) == prefix
}

/// A text that is made of a prefix and more begins with the prefix, and the rest
/// follows it.
pub proof fn lemma_starts_with(prefix: Seq<char>, rest: Seq<char>)
    ensures
        starts_with(prefix + rest, prefix),
        (prefix + rest).skip(prefix.len() as int) == rest,
{
    assert((prefix + rest).take(prefix.len() as int) =~= prefix);
    assert((prefix + rest).skip(prefix.len() as int) =~= rest);
}

/// What follows `prefix` in a text that begins with it.
pub fn strip_prefix<'a>(text: &'a str, prefix: &str) -> (rest: Option<&'a str>)
    ensures
        match rest {
            Some(rest) => starts_with(text@, prefix@) && rest@ == text@.skip(prefix@.len() as int),
            None => !starts_with(text@, prefix@),
        },
{
    let chars = chars_of(text);
    let wanted = chars_of(prefix);
    if chars.len() < wanted.len() {
        return None;
    }
    let mut i: usize = 0;
    while i < wanted.len()
        invariant
            chars@ == text@,
            wanted@ == prefix@,
            i <= wanted.len() <= chars.len(),
            forall|j: int| 0 <= j < i ==> text@[j] == prefix@[j],
        decreases wanted.len() - i,
    {
        if chars[i] != wanted[i] {
            assert(text@.take(prefix@.len() as int)[i as int] != prefix@[i as int]);
            return None;
        }
        i += 1;
    }
    assert(text@.take(prefix@.len() as int) =~= prefix@);
    assert(text@.subrange(i as int, text@.len() as int) =~= text@.skip(i as int));
    Some(text.substring_char(i, chars.len()))
}

/// Whether every character of `s` is white space.
pub open spec fn is_blank(s: Seq<char>) -> bool {
    forall|i: int| 0 <= i < s.len() ==> white_space(#[trigger] s[i])
}

proof fn lemma_trim_end_blanks(s: Seq<char>, after: Seq<char>)
    requires
        is_blank(after),
    ensures
        trim_end(s + after) == trim_end(s),
    decreases after.len(),
{
    let whole = s + after;
    if after.len() > 0 {
        assert(whole.last() == after.last());
        assert(whole.drop_last() =~= s + after.drop_last());
        lemma_trim_end_blanks(s, after.drop_last());
    } else {
        assert(whole =~= s);
    }
}

proof fn lemma_trim_blanks_after(s: Seq<char>, after: Seq<char>)
    requires
        is_blank(after),
    ensures
        trim_end(trim_start(s + after)) == trim_end(trim_start(s)),
    decreases s.len() + after.len(),
{
    let whole = s + after;
    if s.len() == 0 {
        if after.len() > 0 {
            assert(whole[0] == after[0]);
            assert(whole.skip(1) =~= s + after.skip(1));
            lemma_trim_blanks_after(s, after.skip(1));
        } else {
            assert(whole =~= s);
        }
    } else {
        assert(whole[0] == s[0]);
        if white_space(s[0]) {
            assert(whole.skip(1) =~= s.skip(1) + after);
            lemma_trim_blanks_after(s.skip(1), after);
        } else {
            lemma_trim_end_blanks(s, after);
        }
    }
}

/// Blanks around a text make no difference to trimming, and a text that neither
/// begins nor ends with one is trimmed to itself.
pub proof fn lemma_trim_blanks(before: Seq<char>, s: Seq<char>, after: Seq<char>)
    requires
        is_blank(before),
        is_blank(after),
    ensures
        trim_end(trim_start(before + s + after)) == trim_end(trim_start(s)),
        s.len() > 0 && !white_space(s[0]) && !white_space(s.last()) ==> trim_end(trim_start(s))
            == s,
    decreases before.len(),
{
    let whole = before + s + after;
    if before.len() > 0 {
        assert(whole[0] == before[0]);
        assert(whole.skip(1) =~= before.skip(1) + s + after);
        lemma_trim_blanks(before.skip(1), s, after);
    } else {
        assert(whole =~= s + after);
        lemma_trim_blanks_after(s, after);
    }
}

/// What follows a text that ends without white space is not trimmed off its front,
/// and what stands before trailing white space is not trimmed off its end.
pub proof fn lemma_trim_append(s: Seq<char>, t: Seq<char>)
    requires
        s.len() > 0,
        !white_space(s.last()),
    ensures
        trim_start(s + t) == trim_start(s) + t,
        trim_start(s).len() > 0,
        trim_start(s).last() == s.last(),
        trim_end(s + t) == s + trim_end(t),
    decreases s.len() + t.len(),
{
    let whole = s + t;
    assert(whole[0] == s[0]);
    if white_space(s[0]) {
        assert(whole.skip(1) =~= s.skip(1) + t);
        assert(s.skip(1).last() == s.last());
        lemma_trim_append(s.skip(1), t);
    }
    if t.len() > 0 {
        assert(whole.last() == t.last());
        if white_space(t.last()) {
            assert(whole.drop_last() =~= s + t.drop_last());
            lemma_trim_append(s, t.drop_last());
        }
    } else {
        assert(whole =~= s);
        assert(s + trim_end(t) =~= s);
    }
}

/// A run of `c` behind a text makes no difference to what is removed from its end.
pub proof fn lemma_without_trailing(s: Seq<char>, c: char, n: nat)
    ensures
        without_trailing(s + Seq::new(n, |i: int| c), c) == without_trailing(s, c),
    decreases n,
{
    let whole = s + Seq::new(n, |i: int| c);
    if n > 0 {
        assert(whole.drop_last() =~= s + Seq::new((n - 1) as nat, |i: int| c));
        lemma_without_trailing(s, c, (n - 1) as nat);
    } else {
        assert(whole =~= s);
    }
}

/// The segments of `s` between the occurrences of `c`: one more than there are
/// occurrences.
pub open spec fn split_at(s: Seq<char>, c: char) -> Seq<Seq<char>>
    decreases s.len(),
{
    if s.len() == 0 {
        seq![Seq::empty()]
    } else {
        let front = split_at(s.drop_last(), c);
        if s.last() == c {
            front.push(Seq::empty())
        } else {
            front.drop_last().push(front.last().push(s.last()))
        }
    }
}

/// What the texts of a list say.
pub open spec fn views(list: Seq<&str>) -> Seq<Seq<char>> {
    Seq::new(list.len(), |i: int| list[i]@)
}

/// Splits a text at each occurrence of `c`.
pub fn split<'a>(text: &'a str, c: char) -> (segments: Vec<&'a str>)
    ensures
        views(segments@) == split_at(text@, c),
        segments@.len() >= 1,
{
    let chars = chars_of(text);
    let mut segments: Vec<&'a str> = Vec::new();
    let mut from: usize = 0;
    let mut i: usize = 0;
    assert(text@.subrange(0, 0) =~= Seq::empty());
    assert(views(segments@).push(Seq::empty()) =~= seq![Seq::empty()]);
    assert(text@.take(0) =~= Seq::empty());
    while i < chars.len()
        invariant
            chars@ == text@,
            from <= i <= chars.len(),
            split_at(text@.take(i as int), c) == views(segments@).push(
                text@.subrange(from as int, i as int),
            ),
        decreases chars.len() - i,
    {
        let ghost before = views(segments@);
        let ghost open = text@.subrange(from as int, i as int);
        proof {
            assert(text@.take(i + 1).drop_last() =~= text@.take(i as int));
        }
        if chars[i] == c {
            segments.push(text.substring_char(from, i));
            from = i + 1;
            proof {
                assert(views(segments@) =~= before.push(open));
                assert(text@.subrange(from as int, i + 1) =~= Seq::empty());
            }
        } else {
            proof {
                assert(before.push(open).drop_last() =~= before);
                assert(text@.subrange(from as int, i + 1) =~= open.push(text@[i as int]));
            }
        }
        i += 1;
    }
    let ghost before = views(segments@);
    let last = text.substring_char(from, chars.len());
    segments.push(last);
    proof {
        assert(text@.take(i as int) =~= text@);
        assert(views(segments@) =~= before.push(last@));
    }
    segments
}

/// A text without `c` is one segment, and adding `c` and a text without it adds
/// that text as a segment.
pub proof fn lemma_split_append(s: Seq<char>, c: char, t: Seq<char>)
    requires
        !t.contains(c),
    ensures
        split_at(t, c) == seq![t],
        split_at(s.push(c) + t, c) == split_at(s, c).push(t),
    decreases t.len(),
{
    let whole = s.push(c) + t;
    if t.len() == 0 {
        assert(whole =~= s.push(c));
        assert(whole.drop_last() =~= s);
        assert(t =~= Seq::empty());
    } else {
        let front = t.drop_last();
        assert(!front.contains(c)) by {
            if front.contains(c) {
                let i = choose|i: int| 0 <= i < front.len() && front[i] == c;
                assert(t[i] == c);
            }
        }
        lemma_split_append(s, c, front);
        assert(t.last() != c) by {
            assert(t[t.len() - 1] == t.last());
        }
        assert(whole.last() == t.last());
        assert(whole.drop_last() =~= s.push(c) + front);
        assert(front.push(t.last()) =~= t);
        assert(seq![front].drop_last().push(t) =~= seq![t]);
        assert(split_at(s, c).push(front).drop_last() =~= split_at(s, c));
    }
}

/// Texts are encoded one after the other.
pub proof fn lemma_encode_append(s: Seq<char>, t: Seq<char>)
    ensures
        encode_utf8(s + t) == encode_utf8(s) + encode_utf8(t),
    decreases s.len(),
{
    if s.len() == 0 {
        assert(s + t =~= t);
    } else {
        lemma_encode_append(s.drop_first(), t);
        assert((s + t).drop_first() =~= s.drop_first() + t);
    }
}

/// The zero character is encoded as a zero byte.
pub proof fn lemma_encode_zero()
    ensures
        encode_utf8(seq!['\0']) == seq![0u8],
{
    reveal_with_fuel(encode_utf8, 2);
    assert((0u32 & 0x7f) as u8 == 0) by (bit_vector);
    assert(seq!['\0'].drop_first() =~= Seq::empty());
    assert(encode_utf8(seq!['\0']) =~= seq![0u8]);
}

/// An encoding ends with a zero byte only where the text ends with the zero
/// character.
pub proof fn lemma_encode_last(s: Seq<char>)
    requires
        s.len() > 0,
        s.last() != '\0',
    ensures
        encode_utf8(s).len() > 0,
        encode_utf8(s).last() != 0,
    decreases s.len(),
{
    let rest = s.drop_first();
    if rest.len() > 0 {
        lemma_encode_last(rest);
    } else {
        let v = s[0] as u32;
        assert(s[0] == s.last());
        vstd::utf8::char_u32_cast(s[0], v);
        assert(v != 0);
        assert(encode_utf8(rest) =~= Seq::empty());
        assert(v <= 0x7f && v != 0 ==> (v & 0x7f) as u8 != 0) by (bit_vector);
        assert(0x80u8 | (v & 0x3f) as u8 != 0) by (bit_vector);
        assert(encode_utf8(s) =~= vstd::utf8::encode_scalar(v));
    }
}

/// The decimal digit for `v`.
pub open spec fn digit(v: int) -> char {
    ('0' as int + v) as char
}

/// A number in decimal.
pub open spec fn decimal(n: nat) -> Seq<char>
    decreases n,
{
    if n < 10 {
        seq![digit(n as int)]
    } else {
        decimal(n / 10).push(digit((n % 10) as int))
    }
}

fn digit_text(v: u64) -> (text: &'static str)
    requires
        v < 10,
    ensures
        text@ == seq![digit(v as int)],
{
    proof {
        reveal_strlit("0");
        reveal_strlit("1");
        reveal_strlit("2");
        reveal_strlit("3");
        reveal_strlit("4");
        reveal_strlit("5");
        reveal_strlit("6");
        reveal_strlit("7");
        reveal_strlit("8");
        reveal_strlit("9");
    }
    match v {
        0 => "0",
        1 => "1",
        2 => "2",
        3 => "3",
        4 => "4",
        5 => "5",
        6 => "6",
        7 => "7",
        8 => "8",
        _ => "9",
    }
}

/// A number in decimal.
pub fn decimal_text(n: u64) -> (text: String)
    ensures
        text@ == decimal(n as nat),
    decreases n,
{
    if n < 10 {
        digit_text(n).to_string()
    } else {
        let mut text = decimal_text(n / 10);
        text.append(digit_text(n % 10));
        text
    }
}

} // verus!
