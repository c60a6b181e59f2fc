//! Messages with an embedded message, written and read.

use crate::text::decimal;
use crate::wire::{
    embedded_field_rest, embedded_skip_failure, envelope_result, field_rest, group_failure,
    group_rest, key_failure,
    lemma_field_rest, lemma_read_varint_shrinks, located, malformed_at, opt_pair, preamble,
    read_bytes, read_envelope, read_key, read_pair, read_value, read_varint, skip_failure,
    value_failure, value_rest, varint, write_envelope, write_pair, MalformedMessage,
    MalformedView, MessageNames, Pair, PairView, Place,
};
use vstd::prelude::*;

verus! {

/// The number that base 128 digits stand for, the lowest first.
pub open spec fn varint_value(digits: Seq<u8>) -> int
    decreases digits.len(),
{
    if digits.len() == 0 {
        0
    } else {
        digits[0] % 128 + 128 * varint_value(digits.skip(1))
    }
}

/// A varint holds the digits of its number in base 128, with a mark on all but the
/// last, and no zero digit at its end unless it is the only one.
pub proof fn a_varint_holds_its_number(v: nat)
    ensures
        varint(v).len() > 0,
        varint(v).last() < 128,
        varint(v).len() > 1 ==> varint(v).last() > 0,
        forall|i: int| 0 <= i < varint(v).len() - 1 ==> #[trigger] varint(v)[i] >= 128,
        varint_value(varint(v)) == v,
    decreases v,
{
    reveal_with_fuel(varint_value, 2);
    let s = varint(v);
    if v >= 128 {
        a_varint_holds_its_number(v / 128);
        let rest = varint(v / 128);
        assert(s.skip(1) =~= rest);
        assert(s.last() == rest.last());
        assert forall|i: int| 0 <= i < s.len() - 1 implies #[trigger] s[i] >= 128 by {
            if i > 0 {
                assert(s[i] == rest[i - 1]);
            }
        }
        if rest.len() == 1 {
            assert(rest.skip(1) =~= Seq::empty());
            assert(varint_value(rest) == rest[0]);
        }
    } else {
        assert(s.skip(1) =~= Seq::empty());
    }
}

/// What is read as a varint is the number that its digits stand for, up to the first
/// one without a mark, in at most ten digits and 64 bits; what follows is left.
pub proof fn a_varint_is_read_to_its_last_digit(s: Seq<u8>)
    ensures
        read_varint(s, 10) matches Some((v, rest)) ==> {
            let k = s.len() - rest.len();
            &&& 1 <= k <= 10 && k <= s.len()
            &&& rest == s.skip(k)
            &&& v == varint_value(s.take(k))
            &&& s[k - 1] < 128
            &&& forall|i: int| 0 <= i < k - 1 ==> #[trigger] s[i] >= 128
        },
        read_varint(s, 10) is None ==> {
            ||| forall|i: int| 0 <= i < s.len() && i < 10 ==> #[trigger] s[i] >= 128
            ||| s.len() >= 10 && s[9] > 1
        },
{
    lemma_read_digits(s, 10);
}

proof fn lemma_read_digits(s: Seq<u8>, room: nat)
    ensures
        read_varint(s, room) matches Some((v, rest)) ==> {
            let k = s.len() - rest.len();
            &&& 1 <= k <= room && k <= s.len()
            &&& rest == s.skip(k)
            &&& v == varint_value(s.take(k))
            &&& s[k - 1] < 128
            &&& forall|i: int| 0 <= i < k - 1 ==> #[trigger] s[i] >= 128
        },
        read_varint(s, room) is None ==> {
            ||| forall|i: int| 0 <= i < s.len() && i < room ==> #[trigger] s[i] >= 128
            ||| s.len() >= room && room > 0 && s[room - 1] > 1
        },
    decreases room,
{
    reveal_with_fuel(varint_value, 2);
    if room > 0 && s.len() > 0 {
        let t = s.skip(1);
        if s[0] < 128 {
            assert(s.take(1).skip(1) =~= Seq::empty());
            assert(varint_value(s.take(1)) == s[0]);
        } else {
            lemma_read_digits(t, (room - 1) as nat);
            match read_varint(t, (room - 1) as nat) {
                Some((v, rest)) => {
                    let k = s.len() - rest.len();
                    assert(t.skip(k - 1) =~= s.skip(k));
                    assert(s.take(k).skip(1) =~= t.take(k - 1));
                    assert(s[k - 1] == t[k - 2]);
                    assert forall|i: int| 0 <= i < k - 1 implies #[trigger] s[i] >= 128 by {
                        if i > 0 {
                            assert(s[i] == t[i - 1]);
                        }
                    }
                },
                None => {
                    if forall|i: int| 0 <= i < t.len() && i < room - 1 ==> #[trigger] t[i] >= 128 {
                        assert forall|i: int| 0 <= i < s.len() && i < room implies #[trigger] s[i]
                            >= 128 by {
                            if i > 0 {
                                assert(s[i] == t[i - 1]);
                            }
                        }
                    } else {
                        assert(s[room - 1] == t[room - 2]);
                    }
                },
            }
        }
    }
}

/// The bytes of a value are as many as the length before them says, all of them in
/// order, and what follows is left; a value is of the wire type that carries a length.
pub proof fn a_value_is_as_long_as_its_length_says(s: Seq<u8>, wire_type: nat)
    ensures
        read_bytes(s) matches Some((value, rest)) ==> (read_varint(s, 10) matches Some((n, t))
            && value.len() == n && value + rest == t),
        read_bytes(s) is None ==> !(read_varint(s, 10) matches Some((n, t)) && n <= t.len()),
        read_value(wire_type, s) == if wire_type == 2 {
            read_bytes(s)
        } else {
            None
        },
{
    if let Some((n, t)) = read_varint(s, 10) {
        if n <= t.len() {
            assert(t.take(n as int) + t.skip(n as int) =~= t);
        }
    }
}

/// A key is eight times its tag and its wire type, of which there are six; a tag is at
/// least one, and a key has 32 bits.
pub proof fn a_key_holds_tag_and_wire_type(s: Seq<u8>, tag: nat, wire_type: nat, t: Seq<u8>)
    ensures
        read_key(s) == Some((tag, wire_type, t)) <==> read_varint(s, 10) == Some(
            (8 * tag + wire_type, t),
        ) && wire_type <= 5 && tag >= 1 && 8 * tag + wire_type <= u32::MAX,
{
}

/// What is left behind a value: behind a number what follows it, behind eight or four
/// bytes what follows them, behind a length what follows its bytes, and behind a group
/// what follows its end.
pub proof fn a_value_of_each_wire_type_is_passed_over(s: Seq<u8>, group: Option<Seq<u8>>)
    ensures
        value_rest(0, s, group) == match read_varint(s, 10) {
            Some((n, t)) => Some(t),
            None => None,
        },
        s.len() >= 8 ==> value_rest(1, s, group) == Some(s.skip(8)),
        s.len() < 8 ==> value_rest(1, s, group) is None,
        value_rest(2, s, group) == match read_bytes(s) {
            Some((value, rest)) => Some(rest),
            None => None,
        },
        value_rest(3, s, group) == group,
        value_rest(4, s, group) is None,
        s.len() >= 4 ==> value_rest(5, s, group) == Some(s.skip(4)),
        s.len() < 4 ==> value_rest(5, s, group) is None,
{
}

/// A group ends with the end key of its own tag; fields before it are passed over, as
/// deep as they may nest.
pub proof fn a_group_is_passed_over_field_by_field(
    tag: nat,
    s: Seq<u8>,
    depth: nat,
    inner: nat,
    wire_type: nat,
    t: Seq<u8>,
)
    requires
        read_key(s) == Some((inner, wire_type, t)),
    ensures
        wire_type == 4 && inner == tag ==> group_rest(tag, s, depth) == Some(t),
        wire_type == 4 && inner != tag ==> group_rest(tag, s, depth) is None,
        wire_type != 4 && depth == 0 ==> group_rest(tag, s, depth) is None,
        wire_type != 4 && depth > 0 ==> match value_rest(
            wire_type,
            t,
            group_rest(inner, t, (depth - 1) as nat),
        ) {
            Some(rest) => rest.len() < s.len() ==> group_rest(tag, s, depth) == group_rest(
                tag,
                rest,
                depth,
            ),
            None => group_rest(tag, s, depth) is None,
        },
        field_rest(tag, 3, s) == group_rest(tag, s, 99),
        embedded_field_rest(tag, 3, s) == group_rest(tag, s, 98),
        wire_type != 3 ==> field_rest(inner, wire_type, t) == value_rest(wire_type, t, None),
        wire_type != 3 ==> embedded_field_rest(inner, wire_type, t) == value_rest(
            wire_type,
            t,
            None,
        ),
{
}

/// The error of a key says what is wrong with it: the number, the key, the wire type or
/// the tag.
pub proof fn an_error_says_what_is_wrong_with_a_key(s: Seq<u8>)
    ensures
        read_varint(s, 10) is None ==> key_failure(s) == "invalid varint"@,
        read_varint(s, 10) matches Some((key, t)) ==> {
            &&& key > u32::MAX ==> key_failure(s) == "invalid key value: "@ + decimal(key)
            &&& key <= u32::MAX && key % 8 > 5 ==> key_failure(s) == "invalid wire type value: "@
                + decimal(key % 8)
            &&& key <= u32::MAX && key % 8 <= 5 ==> key_failure(s) == "invalid tag value: 0"@
        },
{
}

/// The error of a byte field says what is wrong with it: the length, what it announces,
/// or the wire type.
pub proof fn an_error_says_what_is_wrong_with_a_value(s: Seq<u8>)
    ensures
        value_failure(2, s) == if read_varint(s, 10) is None {
            "invalid varint"@
        } else {
            "buffer underflow"@
        },
        value_failure(0, s) == "invalid wire type: "@ + "Varint"@ + " (expected LengthDelimited)"@,
        value_failure(1, s) == "invalid wire type: "@ + "SixtyFourBit"@
            + " (expected LengthDelimited)"@,
        value_failure(3, s) == "invalid wire type: "@ + "StartGroup"@
            + " (expected LengthDelimited)"@,
        value_failure(4, s) == "invalid wire type: "@ + "EndGroup"@
            + " (expected LengthDelimited)"@,
        value_failure(5, s) == "invalid wire type: "@ + "ThirtyTwoBit"@
            + " (expected LengthDelimited)"@,
{
}

/// The error of a field that cannot be passed over says what is wrong with it, and that
/// of a group what is wrong with the first thing in it that cannot.
pub proof fn an_error_says_what_is_wrong_with_a_field(
    tag: nat,
    s: Seq<u8>,
    depth: nat,
    inner: nat,
    wire_type: nat,
    t: Seq<u8>,
)
    ensures
        skip_failure(tag, 0, s) == "invalid varint"@,
        skip_failure(tag, 1, s) == "buffer underflow"@,
        skip_failure(tag, 2, s) == value_failure(2, s),
        skip_failure(tag, 3, s) == group_failure(tag, s, 99),
        skip_failure(tag, 4, s) == "unexpected end group tag"@,
        skip_failure(tag, 5, s) == "buffer underflow"@,
        embedded_skip_failure(tag, 3, s) == group_failure(tag, s, 98),
        wire_type != 3 ==> embedded_skip_failure(tag, wire_type, s) == skip_failure(
            tag,
            wire_type,
            s,
        ),
        read_key(s) is None ==> group_failure(tag, s, depth) == key_failure(s),
        read_key(s) == Some((inner, wire_type, t)) ==> {
            &&& wire_type == 4 ==> group_failure(tag, s, depth) == "unexpected end group tag"@
            &&& wire_type != 4 && depth == 0 ==> group_failure(tag, s, depth)
                == "recursion limit reached"@
            &&& wire_type != 4 && depth > 0 ==> match value_rest(
                wire_type,
                t,
                group_rest(inner, t, (depth - 1) as nat),
            ) {
                Some(rest) => rest.len() < s.len() ==> group_failure(tag, s, depth)
                    == group_failure(tag, rest, depth),
                None => group_failure(tag, s, depth) == if wire_type == 3 {
                    group_failure(inner, t, (depth - 1) as nat)
                } else {
                    skip_failure(inner, wire_type, t)
                },
            }
        },
{
}

/// A message is written as one field with the embedded message in it, whose fields
/// stand in the order of their tags; what is absent is left out.
pub proof fn a_message_is_written_field_by_field(pair: PairView)
    ensures
        write_envelope(None) == Seq::<u8>::empty(),
        write_envelope(Some(pair)) == seq![0x0au8] + varint(write_pair(pair).len()) + write_pair(
            pair,
        ),
        write_pair(pair) == (match pair.first {
            Some(first) => seq![0x0au8] + varint(first.len()) + first,
            None => Seq::empty(),
        }) + (match pair.second {
            Some(second) => seq![0x12u8] + varint(second.len()) + second,
            None => Seq::empty(),
        }),
{
    assert(varint(10) =~= seq![0x0au8]);
    assert(varint(18) =~= seq![0x12u8]);
    assert(write_envelope(Some(pair)) =~= seq![0x0au8] + varint(write_pair(pair).len())
        + write_pair(pair));
}

/// Reading an empty message leaves what was read before; a key that cannot be read is
/// the error.
pub proof fn a_message_is_read_to_its_end(embedded: Option<PairView>, s: Seq<u8>)
    ensures
        s.len() == 0 ==> read_envelope(embedded, s) == Ok::<Option<PairView>, MalformedView>(
            embedded,
        ),
        s.len() > 0 && read_key(s) is None ==> read_envelope(embedded, s) == Err::<
            Option<PairView>,
            MalformedView,
        >(MalformedView { place: Place::Message, description: key_failure(s) }),
{
}

/// A field with another tag makes no difference to what the rest of a message says,
/// and is the error where it cannot be passed over.
pub proof fn unknown_fields_of_a_message_are_passed_over(
    embedded: Option<PairView>,
    s: Seq<u8>,
    tag: nat,
    wire_type: nat,
    t: Seq<u8>,
)
    requires
        s.len() > 0,
        read_key(s) == Some((tag, wire_type, t)),
        tag != 1,
    ensures
        field_rest(tag, wire_type, t) matches Some(rest) ==> read_envelope(embedded, s)
            == read_envelope(embedded, rest),
        field_rest(tag, wire_type, t) is None ==> read_envelope(embedded, s) == Err::<
            Option<PairView>,
            MalformedView,
        >(MalformedView { place: Place::Message, description: skip_failure(tag, wire_type, t) }),
{
    lemma_read_varint_shrinks(s, 10);
    lemma_field_rest(tag, wire_type, t);
}

/// The embedded message is read into what was read of it before, or into nothing, and
/// the rest of the message is read after it; an error in it is the error.
pub proof fn the_embedded_message_is_merged(
    embedded: Option<PairView>,
    s: Seq<u8>,
    wire_type: nat,
    t: Seq<u8>,
)
    requires
        s.len() > 0,
        read_key(s) == Some((1nat, wire_type, t)),
    ensures
        read_value(wire_type, t) is None ==> read_envelope(embedded, s) == Err::<
            Option<PairView>,
            MalformedView,
        >(MalformedView { place: Place::Embedded, description: value_failure(wire_type, t) }),
        read_value(wire_type, t) matches Some((body, rest)) ==> {
            let before = match embedded {
                Some(pair) => pair,
                None => PairView { first: None, second: None },
            };
            match read_pair(before, body + rest, rest.len()) {
                Ok(pair) => read_envelope(embedded, s) == read_envelope(Some(pair), rest),
                Err(error) => read_envelope(embedded, s) == Err::<Option<PairView>, MalformedView>(
                    error,
                ),
            }
        },
{
    lemma_read_varint_shrinks(s, 10);
    lemma_read_varint_shrinks(t, 10);
}

/// The fields of an embedded message end with it: what runs on behind it is an error,
/// and so is a key that cannot be read.
pub proof fn an_embedded_message_is_read_to_its_end(pair: PairView, s: Seq<u8>, limit: nat)
    ensures
        s.len() == limit ==> read_pair(pair, s, limit) == Ok::<PairView, MalformedView>(pair),
        s.len() < limit ==> read_pair(pair, s, limit) == Err::<PairView, MalformedView>(
            MalformedView {
                place: Place::Embedded,
                description: "delimited length exceeded"@,
            },
        ),
        s.len() > limit && read_key(s) is None ==> read_pair(pair, s, limit) == Err::<
            PairView,
            MalformedView,
        >(MalformedView { place: Place::Embedded, description: key_failure(s) }),
{
}

/// The first field of an embedded message replaces the first value, the second field
/// the second, and each leaves the other; a value that cannot be read is the error, in
/// that field.
pub proof fn a_known_field_replaces_its_own_value(
    pair: PairView,
    s: Seq<u8>,
    limit: nat,
    tag: nat,
    wire_type: nat,
    t: Seq<u8>,
)
    requires
        s.len() > limit,
        read_key(s) == Some((tag, wire_type, t)),
        tag == 1 || tag == 2,
    ensures
        read_value(wire_type, t) matches Some((value, rest)) ==> {
            let first = if tag == 1 {
                Some(value)
            } else {
                pair.first
            };
            let second = if tag == 2 {
                Some(value)
            } else {
                pair.second
            };
            read_pair(pair, s, limit) == read_pair(PairView { first, second }, rest, limit)
        },
        read_value(wire_type, t) is None ==> read_pair(pair, s, limit) == Err::<
            PairView,
            MalformedView,
        >(
            MalformedView {
                place: if tag == 1 {
                    Place::First
                } else {
                    Place::Second
                },
                description: value_failure(wire_type, t),
            },
        ),
{
    lemma_read_varint_shrinks(s, 10);
    lemma_read_varint_shrinks(t, 10);
}

/// A field of an embedded message with another tag makes no difference to it, and is
/// the error where it cannot be passed over.
pub proof fn unknown_fields_of_an_embedded_message_are_passed_over(
    pair: PairView,
    s: Seq<u8>,
    limit: nat,
    tag: nat,
    wire_type: nat,
    t: Seq<u8>,
)
    requires
        s.len() > limit,
        read_key(s) == Some((tag, wire_type, t)),
        tag != 1,
        tag != 2,
    ensures
        embedded_field_rest(tag, wire_type, t) matches Some(rest) ==> read_pair(pair, s, limit)
            == read_pair(pair, rest, limit),
        embedded_field_rest(tag, wire_type, t) is None ==> read_pair(pair, s, limit) == Err::<
            PairView,
            MalformedView,
        >(
            MalformedView {
                place: Place::Embedded,
                description: embedded_skip_failure(tag, wire_type, t),
            },
        ),
{
    lemma_read_varint_shrinks(s, 10);
    lemma_field_rest(tag, wire_type, t);
}

/// A pair, an error and what came of reading say what they hold, each field in its own
/// place.
pub proof fn messages_say_what_they_hold(
    pair: Pair,
    error: MalformedMessage,
    result: Result<Option<Pair>, MalformedMessage>,
    bytes: Seq<u8>,
)
    ensures
        pair@.first == Some(bytes) <==> (pair.first matches Some(value) && value@ == bytes),
        pair@.second == Some(bytes) <==> (pair.second matches Some(value) && value@ == bytes),
        opt_pair(Some(pair)) == Some(pair@),
        opt_pair(None) is None,
        error@.place == error.place,
        error@.description == error.description@,
        result matches Ok(read) ==> envelope_result(result) == Ok::<
            Option<PairView>,
            MalformedView,
        >(opt_pair(read)),
        result matches Err(error) ==> envelope_result(result) == Err::<
            Option<PairView>,
            MalformedView,
        >(error@),
{
}

/// An error is located by the fields that it is in, the innermost first, each with its
/// message, behind a fixed front.
pub proof fn an_error_is_located_by_its_fields(names: MessageNames, description: Seq<char>)
    ensures
        preamble() == "failed to decode Protobuf message: "@,
        located(Place::Message, names) == Seq::<char>::empty(),
        located(Place::Embedded, names) == names.message@ + "."@ + names.embedded@ + ": "@,
        located(Place::First, names) == names.inner@ + "."@ + names.first@ + ": "@ + located(
            Place::Embedded,
            names,
        ),
        located(Place::Second, names) == names.inner@ + "."@ + names.second@ + ": "@ + located(
            Place::Embedded,
            names,
        ),
        malformed_at(Place::Message, description).description == description,
        malformed_at(Place::Message, description).place == Place::Message,
{
}

} // verus!
