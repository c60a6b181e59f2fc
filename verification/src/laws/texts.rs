//! Trimming, splitting and prefixes of texts, and UTF-8.

use crate::text::{
    is_blank, lemma_split_append, longest_valid, split_at, starts_with, trim_end, trim_start, views,
    white_space, without_trailing,
};
use vstd::prelude::*;
use vstd::utf8::valid_utf8;

verus! {

/// Trimming the front takes off white space only, and all of it.
pub proof fn front_is_trimmed(s: Seq<char>)
    ensures
        trim_start(s).len() <= s.len(),
        trim_start(s) == s.skip(s.len() - trim_start(s).len()),
        is_blank(s.take(s.len() - trim_start(s).len())),
        trim_start(s).len() > 0 ==> !white_space(trim_start(s)[0]),
    decreases s.len(),
{
    if s.len() > 0 && white_space(s[0]) {
        let rest = s.skip(1);
        front_is_trimmed(rest);
        let t = trim_start(rest);
        assert(rest.skip(rest.len() - t.len()) =~= s.skip(s.len() - t.len()));
        let cut = s.take(s.len() - t.len());
        assert forall|i: int| 0 <= i < cut.len() implies white_space(#[trigger] cut[i]) by {
            if i > 0 {
                assert(cut[i] == rest.take(rest.len() - t.len())[i - 1]);
            }
        }
    } else {
        assert(s.skip(0) =~= s);
    }
}

/// Trimming the end takes off white space only, and all of it.
pub proof fn end_is_trimmed(s: Seq<char>)
    ensures
        trim_end(s).len() <= s.len(),
        trim_end(s) == s.take(trim_end(s).len() as int),
        is_blank(s.skip(trim_end(s).len() as int)),
        trim_end(s).len() > 0 ==> !white_space(trim_end(s).last()),
    decreases s.len(),
{
    if s.len() > 0 && white_space(s.last()) {
        let rest = s.drop_last();
        end_is_trimmed(rest);
        let k = trim_end(rest).len() as int;
        assert(rest.take(k) =~= s.take(k));
        let cut = s.skip(k);
        assert forall|i: int| 0 <= i < cut.len() implies white_space(#[trigger] cut[i]) by {
            if i < cut.len() - 1 {
                assert(cut[i] == rest.skip(k)[i]);
            }
        }
    } else {
        assert(s.take(s.len() as int) =~= s);
    }
}

/// Removing a character from the end takes off that character only, and all of it.
pub proof fn trailing_characters_come_off(s: Seq<char>, c: char)
    ensures
        without_trailing(s, c).len() <= s.len(),
        without_trailing(s, c) == s.take(without_trailing(s, c).len() as int),
        forall|i: int| without_trailing(s, c).len() <= i < s.len() ==> #[trigger] s[i] == c,
        without_trailing(s, c).len() > 0 ==> without_trailing(s, c).last() != c,
    decreases s.len(),
{
    if s.len() > 0 && s.last() == c {
        let rest = s.drop_last();
        trailing_characters_come_off(rest, c);
        let k = without_trailing(rest, c).len() as int;
        assert(rest.take(k) =~= s.take(k));
        assert forall|i: int| k <= i < s.len() implies #[trigger] s[i] == c by {
            if i < s.len() - 1 {
                assert(rest[i] == c);
            }
        }
    } else {
        assert(s.take(s.len() as int) =~= s);
    }
}

/// Texts with a separator between them.
pub open spec fn joined(parts: Seq<Seq<char>>, c: char) -> Seq<char>
    decreases parts.len(),
{
    if parts.len() == 0 {
        Seq::empty()
    } else if parts.len() == 1 {
        parts[0]
    } else {
        joined(parts.drop_last(), c).push(c) + parts.last()
    }
}

/// The segments of a text hold no separator, and with separators between them they
/// are the text.
pub proof fn segments_make_the_text(s: Seq<char>, c: char)
    ensures
        split_at(s, c).len() > 0,
        forall|i: int|
            0 <= i < split_at(s, c).len() ==> !(#[trigger] split_at(s, c)[i]).contains(c),
        joined(split_at(s, c), c) == s,
    decreases s.len(),
{
    let parts = split_at(s, c);
    if s.len() == 0 {
        assert(parts[0] =~= s);
    } else {
        let front = s.drop_last();
        segments_make_the_text(front, c);
        let before = split_at(front, c);
        if s.last() == c {
            assert(parts.drop_last() =~= before);
            assert(joined(parts, c) =~= s);
        } else {
            let last = before.last().push(s.last());
            assert(parts.drop_last() =~= before.drop_last());
            assert(parts.last() == last);
            assert forall|i: int| 0 <= i < parts.len() implies !(#[trigger] parts[i]).contains(
                c,
            ) by {
                if i < before.len() - 1 {
                    assert(parts[i] == before[i]);
                } else {
                    assert(!before[before.len() - 1].contains(c));
                    if parts[i].contains(c) {
                        let j = choose|j: int| 0 <= j < last.len() && last[j] == c;
                        assert(before.last()[j] == c);
                    }
                }
            }
            if before.len() > 1 {
                assert(front == joined(before.drop_last(), c).push(c) + before.last());
                assert(joined(parts, c) == joined(before.drop_last(), c).push(c) + last);
                assert(joined(parts, c) =~= front.push(s.last()));
            } else {
                assert(parts.len() == 1 && parts[0] == last);
                assert(before.last() == front);
            }
            assert(front.push(s.last()) =~= s);
        }
    }
}

/// What stands before the first separator is the first segment, and the segments of
/// what stands behind it follow.
pub proof fn segments_behind_a_separator(front: Seq<char>, c: char, back: Seq<char>)
    requires
        !front.contains(c),
    ensures
        split_at(front.push(c) + back, c) == seq![front] + split_at(back, c),
    decreases back.len(),
{
    let whole = front.push(c) + back;
    if back.len() == 0 {
        lemma_split_append(Seq::empty(), c, front);
        assert(whole.drop_last() =~= front);
        assert(whole.last() == c);
        assert(split_at(whole, c) =~= seq![front] + split_at(back, c));
    } else {
        let shorter = back.drop_last();
        segments_behind_a_separator(front, c, shorter);
        assert(whole.drop_last() =~= front.push(c) + shorter);
        assert(whole.last() == back.last());
        assert(split_at(shorter, c).len() > 0) by {
            segments_make_the_text(shorter, c);
        }
        assert(split_at(whole, c) =~= seq![front] + split_at(back, c));
    }
}

/// A text is one segment if and only if it holds no separator.
pub proof fn a_text_without_separator_is_one_segment(s: Seq<char>, c: char)
    ensures
        split_at(s, c).len() > 1 <==> s.contains(c),
        split_at(s, c).len() == 1 ==> split_at(s, c)[0] == s,
    decreases s.len(),
{
    if !s.contains(c) {
        lemma_split_append(Seq::empty(), c, s);
    } else {
        segments_make_the_text(s, c);
        if split_at(s, c).len() == 1 {
            assert(joined(split_at(s, c), c) == split_at(s, c)[0]);
        }
    }
}

/// Where a character occurs first.
pub proof fn first_occurrence(s: Seq<char>, c: char) -> (at: int)
    requires
        s.contains(c),
    ensures
        0 <= at < s.len(),
        s[at] == c,
        !s.take(at).contains(c),
    decreases s.len(),
{
    let i = choose|i: int| 0 <= i < s.len() && s[i] == c;
    let front = s.take(i);
    if front.contains(c) {
        let at = first_occurrence(front, c);
        assert(front.take(at) =~= s.take(at));
        at
    } else {
        i
    }
}

/// A text begins with a prefix if and only if it is the prefix and something behind
/// it.
pub proof fn prefixes_are_in_front(s: Seq<char>, prefix: Seq<char>)
    ensures
        starts_with(s, prefix) <==> exists|rest: Seq<char>| s == #[trigger] (prefix + rest),
        starts_with(s, prefix) ==> s == prefix + s.skip(prefix.len() as int),
{
    if starts_with(s, prefix) {
        assert(s =~= s.take(prefix.len() as int) + s.skip(prefix.len() as int));
    }
    if exists|rest: Seq<char>| s == #[trigger] (prefix + rest) {
        let rest = choose|rest: Seq<char>| s == #[trigger] (prefix + rest);
        assert(s.take(prefix.len() as int) =~= prefix);
    }
}

/// A list of texts says what each of its texts says.
pub proof fn views_of_a_list(list: Seq<&str>)
    ensures
        views(list).len() == list.len(),
        forall|i: int| 0 <= i < list.len() ==> (#[trigger] views(list)[i]) == list[i]@,
{
}

/// The longest valid front is valid, and nothing longer up to the bound is.
pub proof fn longest_valid_front(s: Seq<u8>, n: nat)
    ensures
        longest_valid(s, n) <= n,
        longest_valid(s, n) > 0 ==> valid_utf8(s.take(longest_valid(s, n) as int)),
        forall|k: nat|
            longest_valid(s, n) < k <= n ==> !valid_utf8(#[trigger] s.take(k as int)),
    decreases n,
{
    if n > 0 && !valid_utf8(s.take(n as int)) {
        longest_valid_front(s, (n - 1) as nat);
    }
}

} // verus!
