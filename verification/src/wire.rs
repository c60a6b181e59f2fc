//! The protocol buffer wire format, as far as the messages of this crate use it:
//! a message with one embedded message in field 1, which has two byte fields.

use crate::text::{decimal, lemma_starts_with, strip_prefix};
use vstd::prelude::*;
use vstd::slice::slice_subrange;
use vstd::string::*;

verus! {

/// Where in a message something is malformed.
#[derive(Clone, Copy, Debug, PartialEq, Eq, Structural)]
pub enum Place {
    /// In the message itself.
    Message,
    /// In the embedded message.
    Embedded,
    /// In the first field of the embedded message.
    First,
    /// In the second field of the embedded message.
    Second,
}

/// A buffer does not hold a well-formed message of the expected type.
#[derive(Clone, Debug, PartialEq, Eq)]
pub struct MalformedMessage {
    /// Where it does not.
    pub place: Place,
    /// What is wrong there.
    pub description: String,
}

/// What a [`MalformedMessage`] says.
#[verifier::ext_equal]
pub struct MalformedView {
    pub place: Place,
    pub description: Seq<char>,
}

impl View for MalformedMessage {
    type V = MalformedView;

    open spec fn view(&self) -> MalformedView {
        MalformedView { place: self.place, description: self.description@ }
    }
}

/// The names of a message with an embedded message in one field, and of the
/// embedded message with its two fields.
#[derive(Clone, Copy, Debug, PartialEq, Eq)]
pub struct MessageNames {
    pub message: &'static str,
    pub embedded: &'static str,
    pub inner: &'static str,
    pub first: &'static str,
    pub second: &'static str,
}

/// How every description of a decoding error begins.
pub open spec fn preamble() -> Seq<char> {
    "failed to decode Protobuf message: "@
}

/// The fields in which something is malformed, the innermost first.
pub open spec fn located(place: Place, names: MessageNames) -> Seq<char> {
    let outer = names.message@ + "."@ + names.embedded@ + ": "@;
    match place {
        Place::Message => Seq::empty(),
        Place::Embedded => outer,
        Place::First => names.inner@ + "."@ + names.first@ + ": "@ + outer,
        Place::Second => names.inner@ + "."@ + names.second@ + ": "@ + outer,
    }
}

impl MalformedMessage {
    /// The error in words, with the names of the fields that it is in.
    pub fn text(&self, names: &MessageNames) -> (text: String)
        ensures
            text@ == preamble() + located(self@.place, *names) + self@.description,
    {
        let mut text = "failed to decode Protobuf message: ".to_string();
        match self.place {
            Place::First => {
                text.append(names.inner);
                text.append(".");
                text.append(names.first);
                text.append(": ");
            },
            Place::Second => {
                text.append(names.inner);
                text.append(".");
                text.append(names.second);
                text.append(": ");
            },
            _ => {},
        }
        if self.place != Place::Message {
            text.append(names.message);
            text.append(".");
            text.append(names.embedded);
            text.append(": ");
        }
        text.append(self.description.as_str());
        assert(text@ =~= preamble() + located(self@.place, *names) + self@.description);
        text
    }
}

/// The wire type of a field that carries its length.
pub const LENGTH_DELIMITED: u8 = 2;

/// `v` in base 128, least significant digit first, with the high bit set on all
/// bytes but the last.
pub open spec fn varint(v: nat) -> Seq<u8>
    decreases v,
{
    if v < 128 {
        seq![v as u8]
    } else {
        seq![(v % 128 + 128) as u8] + varint(v / 128)
    }
}

/// The number that a base 128 encoding of at most `room` bytes at the front of
/// `s` stands for, and what follows it. The last byte there is room for holds one
/// bit only: ten bytes hold 64 bits.
pub open spec fn read_varint(s: Seq<u8>, room: nat) -> Option<(nat, Seq<u8>)>
    decreases room,
{
    if room == 0 || s.len() == 0 {
        None
    } else if s[0] < 128 {
        if room == 1 && s[0] > 1 {
            None
        } else {
            Some((s[0] as nat, s.skip(1)))
        }
    } else {
        match read_varint(s.skip(1), (room - 1) as nat) {
            Some((v, rest)) => Some(((s[0] - 128 + 128 * v) as nat, rest)),
            None => None,
        }
    }
}

/// The bytes that a length at the front of `s` announces, and what follows them.
pub open spec fn read_bytes(s: Seq<u8>) -> Option<(Seq<u8>, Seq<u8>)> {
    match read_varint(s, 10) {
        Some((n, rest)) => if n <= rest.len() {
            Some((rest.take(n as int), rest.skip(n as int)))
        } else {
            None
        },
        None => None,
    }
}

/// The value of a byte field whose key has been read, and what follows it.
pub open spec fn read_value(wire_type: nat, s: Seq<u8>) -> Option<(Seq<u8>, Seq<u8>)> {
    if wire_type == LENGTH_DELIMITED {
        read_bytes(s)
    } else {
        None
    }
}

/// The tag and the wire type of the field at the front of `s`, and what follows
/// its key.
pub open spec fn read_key(s: Seq<u8>) -> Option<(nat, nat, Seq<u8>)> {
    match read_varint(s, 10) {
        Some((key, rest)) => if key <= u32::MAX && key % 8 <= 5 && key / 8 >= 1 {
            Some((key / 8, key % 8, rest))
        } else {
            None
        },
        None => None,
    }
}

/// How deep groups may nest in a message. Inside an embedded message it is one
/// level less.
pub const NESTING_LIMIT: u32 = 100;

/// What is left of `s` after the value of a field whose key has been read, where
/// `group` is what is left if the field is a group.
pub open spec fn value_rest(wire_type: nat, s: Seq<u8>, group: Option<Seq<u8>>) -> Option<Seq<u8>> {
    if wire_type == 0 {
        match read_varint(s, 10) {
            Some((_, rest)) => Some(rest),
            None => None,
        }
    } else if wire_type == 1 {
        if s.len() >= 8 {
            Some(s.skip(8))
        } else {
            None
        }
    } else if wire_type == 2 {
        match read_bytes(s) {
            Some((_, rest)) => Some(rest),
            None => None,
        }
    } else if wire_type == 3 {
        group
    } else if wire_type == 5 {
        if s.len() >= 4 {
            Some(s.skip(4))
        } else {
            None
        }
    } else {
        None
    }
}

/// What is left of `s` after a group with this tag whose start key has been read:
/// after fields that nest up to `depth` levels, and the end key with the same tag.
pub open spec fn group_rest(tag: nat, s: Seq<u8>, depth: nat) -> Option<Seq<u8>>
    decreases depth, s.len(),
{
    match read_key(s) {
        Some((inner, wire_type, t)) => if wire_type == 4 {
            if inner == tag {
                Some(t)
            } else {
                None
            }
        } else if depth == 0 {
            None
        } else {
            match value_rest(wire_type, t, group_rest(inner, t, (depth - 1) as nat)) {
                Some(rest) => if rest.len() < s.len() {
                    group_rest(tag, rest, depth)
                } else {
                    None
                },
                None => None,
            }
        },
        None => None,
    }
}

/// What is left of `s` after the value of a field of a message whose key has been
/// read.
pub open spec fn field_rest(tag: nat, wire_type: nat, s: Seq<u8>) -> Option<Seq<u8>> {
    value_rest(wire_type, s, group_rest(tag, s, (NESTING_LIMIT - 1) as nat))
}

/// The same inside an embedded message.
pub open spec fn embedded_field_rest(tag: nat, wire_type: nat, s: Seq<u8>) -> Option<Seq<u8>> {
    value_rest(wire_type, s, group_rest(tag, s, (NESTING_LIMIT - 2) as nat))
}

/// Whether fields, whatever their tags, take `s` down to its last `limit` bytes.
pub open spec fn is_body(s: Seq<u8>, limit: nat) -> bool
    decreases s.len(),
{
    s.len() == limit || (s.len() > limit && match read_key(s) {
        Some((tag, wire_type, t)) => match embedded_field_rest(tag, wire_type, t) {
            Some(rest) => rest.len() < s.len() && is_body(rest, limit),
            None => false,
        },
        None => false,
    })
}

/// Whether `s` begins with a length and a body of that length.
pub open spec fn is_embedded(s: Seq<u8>) -> bool {
    read_varint(s, 10) matches Some((n, t)) && n <= t.len() && is_body(t, (t.len() - n) as nat)
}

/// A length-delimited field with its key.
pub open spec fn field(tag: nat, value: Seq<u8>) -> Seq<u8> {
    varint(tag * 8 + 2) + varint(value.len()) + value
}

/// What is wrong with a key that cannot be read.
pub open spec fn key_failure(s: Seq<u8>) -> Seq<char> {
    match read_varint(s, 10) {
        None => "invalid varint"@,
        Some((key, _)) => if key > u32::MAX {
            "invalid key value: "@ + decimal(key)
        } else if key % 8 > 5 {
            "invalid wire type value: "@ + decimal(key % 8)
        } else {
            "invalid tag value: 0"@
        },
    }
}

/// What is wrong with a length and the bytes that it announces, where they cannot
/// be read.
pub open spec fn bytes_failure(s: Seq<u8>) -> Seq<char> {
    match read_varint(s, 10) {
        None => "invalid varint"@,
        Some(_) => "buffer underflow"@,
    }
}

/// The name of a wire type.
pub open spec fn wire_type_name(wire_type: nat) -> Seq<char> {
    if wire_type == 0 {
        "Varint"@
    } else if wire_type == 1 {
        "SixtyFourBit"@
    } else if wire_type == 2 {
        "LengthDelimited"@
    } else if wire_type == 3 {
        "StartGroup"@
    } else if wire_type == 4 {
        "EndGroup"@
    } else {
        "ThirtyTwoBit"@
    }
}

/// What is wrong with the value of a byte field that cannot be read.
pub open spec fn value_failure(wire_type: nat, s: Seq<u8>) -> Seq<char> {
    if wire_type == LENGTH_DELIMITED {
        bytes_failure(s)
    } else {
        "invalid wire type: "@ + wire_type_name(wire_type) + " (expected LengthDelimited)"@
    }
}

/// What is wrong with a value of which nothing is left, where `group` is what is
/// wrong if the field is a group.
pub open spec fn rest_failure(wire_type: nat, s: Seq<u8>, group: Seq<char>) -> Seq<char> {
    if wire_type == 0 {
        "invalid varint"@
    } else if wire_type == 2 {
        bytes_failure(s)
    } else if wire_type == 3 {
        group
    } else if wire_type == 4 {
        "unexpected end group tag"@
    } else {
        "buffer underflow"@
    }
}

/// What is wrong with a group whose start key has been read: with the first key or
/// field in it that cannot be read.
pub open spec fn group_failure(tag: nat, s: Seq<u8>, depth: nat) -> Seq<char>
    decreases depth, s.len(),
{
    match read_key(s) {
        Some((inner, wire_type, t)) => if wire_type == 4 {
            "unexpected end group tag"@
        } else if depth == 0 {
            "recursion limit reached"@
        } else {
            match value_rest(wire_type, t, group_rest(inner, t, (depth - 1) as nat)) {
                Some(rest) if rest.len() < s.len() => group_failure(tag, rest, depth),
                _ => rest_failure(wire_type, t, group_failure(inner, t, (depth - 1) as nat)),
            }
        },
        None => key_failure(s),
    }
}

/// What is wrong with a field of a message that cannot be passed over.
pub open spec fn skip_failure(tag: nat, wire_type: nat, s: Seq<u8>) -> Seq<char> {
    rest_failure(wire_type, s, group_failure(tag, s, (NESTING_LIMIT - 1) as nat))
}

/// The same inside an embedded message.
pub open spec fn embedded_skip_failure(tag: nat, wire_type: nat, s: Seq<u8>) -> Seq<char> {
    rest_failure(wire_type, s, group_failure(tag, s, (NESTING_LIMIT - 2) as nat))
}

/// What is wrong with fields that do not take `s` down to its last `limit` bytes.
pub open spec fn body_failure(s: Seq<u8>, limit: nat) -> Seq<char>
    decreases s.len(),
{
    if s.len() <= limit {
        "delimited length exceeded"@
    } else {
        match read_key(s) {
            Some((tag, wire_type, t)) => match embedded_field_rest(tag, wire_type, t) {
                Some(rest) if rest.len() < s.len() => body_failure(rest, limit),
                _ => embedded_skip_failure(tag, wire_type, t),
            },
            None => key_failure(s),
        }
    }
}

/// What is wrong with an embedded message that cannot be passed over.
pub open spec fn embedded_failure(s: Seq<u8>) -> Seq<char> {
    match read_varint(s, 10) {
        Some((n, t)) if n <= t.len() => body_failure(t, (t.len() - n) as nat),
        _ => bytes_failure(s),
    }
}

/// `prost::encoding::bytes::encode`: appends the field's key, the length of the
/// value and the value. It panics where the buffer would outgrow an allocation.
#[verifier::external_body]
fn put_bytes(tag: u32, value: &Vec<u8>, buf: &mut Vec<u8>)
    requires
        1 <= tag < 0x2000_0000,
        old(buf)@.len() + field(tag as nat, value@).len() <= isize::MAX,
    ensures
        final(buf)@ == old(buf)@ + field(tag as nat, value@),
{
    prost::encoding::bytes::encode(tag, value, buf)
}

/// `prost::encoding::encode_varint` into an empty buffer.
#[verifier::external_body]
fn varint_bytes(n: usize) -> (bytes: Vec<u8>)
    ensures
        bytes@ == varint(n as nat),
{
    let mut bytes: Vec<u8> = Vec::new();
    prost::encoding::encode_varint(n as u64, &mut bytes);
    bytes
}

/// `prost::encoding::decode_key`: reads the key of a field. It fails on what is no
/// base 128 number, on a number over 32 bits, on an unknown wire type and on tag 0,
/// and the error says on which.
#[verifier::external_body]
fn take_key(buf: &[u8]) -> (result: Result<(u32, u8, &[u8]), String>)
    ensures
        match result {
            Ok((tag, wire_type, rest)) => read_key(buf@) == Some(
                (tag as nat, wire_type as nat, rest@),
            ),
            Err(text) => read_key(buf@) is None && text@ == preamble() + key_failure(buf@),
        },
{
    let mut rest = buf;
    match prost::encoding::decode_key(&mut rest) {
        Ok((tag, wire_type)) => Ok((tag, wire_type as u8, rest)),
        Err(error) => Err(error.to_string()),
    }
}

/// `prost::encoding::bytes::merge` into an empty value: reads the value of a byte
/// field. It fails on another wire type than the length-delimited one and on a
/// length that is malformed or larger than what follows, and the error says on
/// which.
#[verifier::external_body]
fn take_bytes(wire_type: u8, buf: &[u8]) -> (result: Result<(Vec<u8>, &[u8]), String>)
    requires
        wire_type <= 5,
    ensures
        match result {
            Ok((value, rest)) => read_value(wire_type as nat, buf@) == Some((value@, rest@)),
            Err(text) => read_value(wire_type as nat, buf@) is None && text@ == preamble()
                + value_failure(wire_type as nat, buf@),
        },
{
    let mut rest = buf;
    let mut value: Vec<u8> = Vec::new();
    let wire_type = match prost::encoding::WireType::try_from(u64::from(wire_type)) {
        Ok(wire_type) => wire_type,
        Err(error) => return Err(error.to_string()),
    };
    let context = prost::encoding::DecodeContext::default();
    match prost::encoding::bytes::merge(wire_type, &mut value, &mut rest, context) {
        Ok(()) => Ok((value, rest)),
        Err(error) => Err(error.to_string()),
    }
}

/// `prost::encoding::skip_field` at the top level of a message: passes over the
/// value of a field that the message does not know. It fails on a value that is
/// cut off, on the end key of another group and on groups that nest too deep, and
/// the error says on which.
#[verifier::external_body]
fn skip_value(wire_type: u8, tag: u32, buf: &[u8]) -> (result: Result<&[u8], String>)
    requires
        wire_type <= 5,
    ensures
        match result {
            Ok(rest) => field_rest(tag as nat, wire_type as nat, buf@) == Some(rest@),
            Err(text) => field_rest(tag as nat, wire_type as nat, buf@) is None && text@
                == preamble() + skip_failure(tag as nat, wire_type as nat, buf@),
        },
{
    let mut rest = buf;
    let wire_type = match prost::encoding::WireType::try_from(u64::from(wire_type)) {
        Ok(wire_type) => wire_type,
        Err(error) => return Err(error.to_string()),
    };
    let context = prost::encoding::DecodeContext::default();
    match prost::encoding::skip_field(wire_type, tag, &mut rest, context) {
        Ok(()) => Ok(rest),
        Err(error) => Err(error.to_string()),
    }
}

/// `prost::encoding::message::merge` into the message without fields, `()`, from
/// two buffers one after the other: reads an embedded message and passes over
/// every field in it. It fails on a length that is malformed or too large, and on
/// fields that are malformed or do not end with the message, and the error says on
/// which.
#[verifier::external_body]
fn skip_embedded(front: &[u8], back: &[u8]) -> (result: Result<(), String>)
    ensures
        match result {
            Ok(_) => is_embedded(front@ + back@),
            Err(text) => !is_embedded(front@ + back@) && text@ == preamble() + embedded_failure(
                front@ + back@,
            ),
        },
{
    let mut buf = prost::bytes::Buf::chain(front, back);
    let wire_type = prost::encoding::WireType::LengthDelimited;
    let context = prost::encoding::DecodeContext::default();
    match prost::encoding::message::merge(wire_type, &mut (), &mut buf, context) {
        Ok(()) => Ok(()),
        Err(error) => Err(error.to_string()),
    }
}

/// The two byte fields, tags 1 and 2, of an embedded message.
#[derive(Clone, Debug, PartialEq, Eq)]
pub struct Pair {
    pub first: Option<Vec<u8>>,
    pub second: Option<Vec<u8>>,
}

/// What a [`Pair`] holds.
#[verifier::ext_equal]
pub struct PairView {
    pub first: Option<Seq<u8>>,
    pub second: Option<Seq<u8>>,
}

/// The bytes of an optional byte string.
pub open spec fn opt_bytes(value: Option<Vec<u8>>) -> Option<Seq<u8>> {
    match value {
        Some(bytes) => Some(bytes@),
        None => None,
    }
}

impl View for Pair {
    type V = PairView;

    open spec fn view(&self) -> PairView {
        PairView { first: opt_bytes(self.first), second: opt_bytes(self.second) }
    }
}

impl PairView {
    pub open spec fn empty() -> PairView {
        PairView { first: None, second: None }
    }

    /// The pair with the value of one field replaced: the last value that a
    /// message gives a field is the one that counts.
    pub open spec fn with(self, tag: nat, value: Seq<u8>) -> PairView {
        if tag == 1 {
            PairView { first: Some(value), second: self.second }
        } else {
            PairView { first: self.first, second: Some(value) }
        }
    }
}

/// The pair that the fields of an embedded message make of `pair`. The fields take
/// `s` down to its last `limit` bytes, and those with other tags are passed over.
pub open spec fn read_pair(pair: PairView, s: Seq<u8>, limit: nat) -> Result<
    PairView,
    MalformedView,
>
    decreases s.len(),
{
    if s.len() == limit {
        Ok(pair)
    } else if s.len() < limit {
        Err(malformed_at(Place::Embedded, "delimited length exceeded"@))
    } else {
        match read_key(s) {
            Some((tag, wire_type, t)) => if tag == 1 || tag == 2 {
                match read_value(wire_type, t) {
                    Some((value, rest)) if rest.len() < s.len() => read_pair(
                        pair.with(tag, value),
                        rest,
                        limit,
                    ),
                    _ => Err(
                        malformed_at(
                            if tag == 1 {
                                Place::First
                            } else {
                                Place::Second
                            },
                            value_failure(wire_type, t),
                        ),
                    ),
                }
            } else {
                match embedded_field_rest(tag, wire_type, t) {
                    Some(rest) if rest.len() < s.len() => read_pair(pair, rest, limit),
                    _ => Err(
                        malformed_at(Place::Embedded, embedded_skip_failure(tag, wire_type, t)),
                    ),
                }
            },
            None => Err(malformed_at(Place::Embedded, key_failure(s))),
        }
    }
}

/// A malformed message with this description.
pub open spec fn malformed_at(place: Place, description: Seq<char>) -> MalformedView {
    MalformedView { place, description }
}

/// The embedded message that the value of its field makes of `embedded`, and what
/// follows it. Where the field occurs again, the fields of the embedded message are
/// merged into those already read.
pub open spec fn read_embedded(embedded: Option<PairView>, wire_type: nat, s: Seq<u8>) -> Result<
    (PairView, Seq<u8>),
    MalformedView,
> {
    let before = match embedded {
        Some(pair) => pair,
        None => PairView::empty(),
    };
    match read_value(wire_type, s) {
        Some((body, rest)) => match read_pair(before, body + rest, rest.len()) {
            Ok(pair) => Ok((pair, rest)),
            Err(error) => Err(error),
        },
        None => Err(malformed_at(Place::Embedded, value_failure(wire_type, s))),
    }
}

/// The embedded message that the fields of a message make of `embedded`. Fields
/// with other tags are passed over.
pub open spec fn read_envelope(embedded: Option<PairView>, s: Seq<u8>) -> Result<
    Option<PairView>,
    MalformedView,
>
    decreases s.len(),
{
    if s.len() == 0 {
        Ok(embedded)
    } else {
        match read_key(s) {
            Some((tag, wire_type, t)) => if tag == 1 {
                match read_embedded(embedded, wire_type, t) {
                    Ok((pair, rest)) => if rest.len() < s.len() {
                        read_envelope(Some(pair), rest)
                    } else {
                        Ok(Some(pair))
                    },
                    Err(error) => Err(error),
                }
            } else {
                match field_rest(tag, wire_type, t) {
                    Some(rest) if rest.len() < s.len() => read_envelope(embedded, rest),
                    _ => Err(malformed_at(Place::Message, skip_failure(tag, wire_type, t))),
                }
            },
            None => Err(malformed_at(Place::Message, key_failure(s))),
        }
    }
}

/// What came of reading a message.
pub open spec fn envelope_result(result: Result<Option<Pair>, MalformedMessage>) -> Result<
    Option<PairView>,
    MalformedView,
> {
    match result {
        Ok(embedded) => Ok(opt_pair(embedded)),
        Err(error) => Err(error@),
    }
}

/// A byte field, or nothing where it is absent.
pub open spec fn optional_field(tag: nat, value: Option<Seq<u8>>) -> Seq<u8> {
    match value {
        Some(bytes) => field(tag, bytes),
        None => Seq::empty(),
    }
}

/// The body of the embedded message.
pub open spec fn write_pair(pair: PairView) -> Seq<u8> {
    optional_field(1, pair.first) + optional_field(2, pair.second)
}

/// The message around it.
pub open spec fn write_envelope(embedded: Option<PairView>) -> Seq<u8> {
    match embedded {
        Some(pair) => field(1, write_pair(pair)),
        None => Seq::empty(),
    }
}

/// Encodes a message.
pub fn encode_envelope(embedded: &Option<Pair>) -> (bytes: Vec<u8>)
    requires
        write_envelope(opt_pair(*embedded)).len() <= isize::MAX,
    ensures
        bytes@ == write_envelope(opt_pair(*embedded)),
{
    let mut bytes: Vec<u8> = Vec::new();
    if let Some(pair) = embedded {
        let mut body: Vec<u8> = Vec::new();
        if let Some(first) = &pair.first {
            put_bytes(1, first, &mut body);
        }
        if let Some(second) = &pair.second {
            put_bytes(2, second, &mut body);
        }
        assert(body@ =~= write_pair(pair@));
        put_bytes(1, &body, &mut bytes);
    }
    assert(bytes@ =~= write_envelope(opt_pair(*embedded)));
    bytes
}

/// What an optional [`Pair`] holds.
pub open spec fn opt_pair(embedded: Option<Pair>) -> Option<PairView> {
    match embedded {
        Some(pair) => Some(pair@),
        None => None,
    }
}

/// A varint at the front of `s` leaves less than there was.
pub proof fn lemma_read_varint_shrinks(s: Seq<u8>, room: nat)
    ensures
        read_varint(s, room) matches Some((v, rest)) ==> rest.len() < s.len(),
    decreases room,
{
    if room > 0 && s.len() > 0 {
        lemma_read_varint_shrinks(s.skip(1), (room - 1) as nat);
    }
}

proof fn lemma_group_rest(tag: nat, s: Seq<u8>, depth: nat)
    ensures
        group_rest(tag, s, depth) matches Some(rest) ==> {
            &&& rest.len() < s.len()
            &&& group_rest(tag, s, depth + 1) == Some(rest)
        },
    decreases depth, s.len(),
{
    lemma_read_varint_shrinks(s, 10);
    if let Some((inner, wire_type, t)) = read_key(s) {
        if wire_type != 4 && depth > 0 {
            lemma_group_rest(inner, t, (depth - 1) as nat);
            if let Some(rest) = value_rest(
                wire_type,
                t,
                group_rest(inner, t, (depth - 1) as nat),
            ) {
                if rest.len() < s.len() {
                    lemma_group_rest(tag, rest, depth);
                }
            }
        }
    }
}

/// A field leaves less than there was, and groups that may nest in an embedded
/// message may do so in any message.
pub proof fn lemma_field_rest(tag: nat, wire_type: nat, s: Seq<u8>)
    ensures
        field_rest(tag, wire_type, s) matches Some(rest) ==> rest.len() <= s.len(),
        embedded_field_rest(tag, wire_type, s) is Some ==> field_rest(tag, wire_type, s)
            == embedded_field_rest(tag, wire_type, s),
{
    lemma_read_varint_shrinks(s, 10);
    lemma_group_rest(tag, s, (NESTING_LIMIT - 1) as nat);
    lemma_group_rest(tag, s, (NESTING_LIMIT - 2) as nat);
}

/// A varint at the front of `s` leaves the end of `s`.
proof fn lemma_read_varint_rest(s: Seq<u8>, room: nat)
    ensures
        read_varint(s, room) matches Some((v, rest)) ==> rest.len() < s.len() && rest == s.skip(
            s.len() - rest.len(),
        ),
    decreases room,
{
    if room > 0 && s.len() > 0 {
        let t = s.skip(1);
        lemma_read_varint_rest(t, (room - 1) as nat);
        if let Some((v, rest)) = read_varint(t, (room - 1) as nat) {
            assert(t.skip(t.len() - rest.len()) =~= s.skip(s.len() - rest.len()));
        }
    }
}

/// The error with this description, taken from behind the preamble.
fn malformed(place: Place, text: String, Ghost(description): Ghost<Seq<char>>) -> (error:
    MalformedMessage)
    requires
        text@ == preamble() + description,
    ensures
        error@ == malformed_at(place, description),
{
    proof {
        lemma_starts_with(preamble(), description);
    }
    let description = strip_prefix(
        text.as_str(),
        "failed to decode Protobuf message: ",
    ).unwrap().to_string();
    MalformedMessage { place, description }
}

/// Passes over a field of an embedded message that the message does not know.
/// `from` begins with the key of the field, and `after` with its value.
fn skip_embedded_value<'a>(
    tag: u32,
    wire_type: u8,
    from: &'a [u8],
    after: &'a [u8],
) -> (result: Result<&'a [u8], MalformedMessage>)
    requires
        read_key(from@) == Some((tag as nat, wire_type as nat, after@)),
    ensures
        match result {
            Ok(rest) => {
                &&& embedded_field_rest(tag as nat, wire_type as nat, after@) == Some(rest@)
                &&& rest@.len() < from@.len()
            },
            Err(error) => {
                &&& embedded_field_rest(tag as nat, wire_type as nat, after@) is None
                &&& error@ == malformed_at(
                    Place::Embedded,
                    embedded_skip_failure(tag as nat, wire_type as nat, after@),
                )
            },
        },
{
    proof {
        lemma_read_varint_shrinks(from@, 10);
        lemma_field_rest(tag as nat, wire_type as nat, after@);
    }
    if let Ok(rest) = skip_value(wire_type, tag, after) {
        let taken: usize = from.len() - rest.len();
        proof {
            varint_reads_back(taken as nat, from@);
            assert((from@.len() - taken) as nat == rest@.len());
            assert(is_body(rest@, rest@.len()));
        }
        if skip_embedded(varint_bytes(taken).as_slice(), from).is_ok() {
            return Ok(rest);
        }
    }
    let size: usize = from.len();
    proof {
        varint_reads_back(size as nat, from@);
        assert(!is_body(from@, 0));
    }
    let text = skip_embedded(varint_bytes(size).as_slice(), from).unwrap_err();
    Err(
        malformed(
            Place::Embedded,
            text,
            Ghost(embedded_skip_failure(tag as nat, wire_type as nat, after@)),
        ),
    )
}

fn decode_pair(before: Pair, body: &[u8], limit: usize, whole: &[u8]) -> (result: Result<
    Pair,
    MalformedMessage,
>)
    requires
        limit <= body@.len(),
        read_varint(whole@, 10) == Some(((body@.len() - limit) as nat, body@)),
    ensures
        match result {
            Ok(read) => read_pair(before@, body@, limit as nat) == Ok::<
                PairView,
                MalformedView,
            >(read@),
            Err(error) => read_pair(before@, body@, limit as nat) == Err::<
                PairView,
                MalformedView,
            >(error@),
        },
{
    let mut pair = before;
    let mut rest: &[u8] = body;
    while rest.len() > limit
        invariant
            read_pair(before@, body@, limit as nat) == read_pair(pair@, rest@, limit as nat),
            is_body(body@, limit as nat) == is_body(rest@, limit as nat),
            body_failure(body@, limit as nat) == body_failure(rest@, limit as nat),
        decreases rest@.len(),
    {
        proof {
            lemma_read_varint_shrinks(rest@, 10);
        }
        match take_key(rest) {
            Ok((tag, wire_type, after)) => {
                if tag == 1 || tag == 2 {
                    proof {
                        lemma_read_varint_shrinks(after@, 10);
                    }
                    match take_bytes(wire_type, after) {
                        Ok((value, next)) => {
                            if tag == 1 {
                                pair.first = Some(value);
                            } else {
                                pair.second = Some(value);
                            }
                            rest = next;
                        },
                        Err(text) => {
                            let place = if tag == 1 {
                                Place::First
                            } else {
                                Place::Second
                            };
                            return Err(
                                malformed(
                                    place,
                                    text,
                                    Ghost(value_failure(wire_type as nat, after@)),
                                ),
                            );
                        },
                    }
                } else {
                    match skip_embedded_value(tag, wire_type, rest, after) {
                        Ok(next) => {
                            rest = next;
                        },
                        Err(error) => {
                            return Err(error);
                        },
                    }
                }
            },
            Err(text) => {
                return Err(malformed(Place::Embedded, text, Ghost(key_failure(rest@))));
            },
        }
    }
    if rest.len() < limit {
        let front: [u8; 0] = [];
        assert(front@ + whole@ =~= whole@);
        let text = skip_embedded(front.as_slice(), whole).unwrap_err();
        return Err(malformed(Place::Embedded, text, Ghost("delimited length exceeded"@)));
    }
    Ok(pair)
}

/// Decodes a message.
pub fn decode_envelope(bytes: &[u8]) -> (result: Result<Option<Pair>, MalformedMessage>)
    ensures
        envelope_result(result) == read_envelope(None, bytes@),
{
    let mut embedded: Option<Pair> = None;
    let mut rest: &[u8] = bytes;
    while rest.len() > 0
        invariant
            read_envelope(None, bytes@) == read_envelope(opt_pair(embedded), rest@),
        decreases rest@.len(),
    {
        proof {
            lemma_read_varint_shrinks(rest@, 10);
        }
        match take_key(rest) {
            Ok((tag, wire_type, after)) => {
                if tag == 1 {
                    proof {
                        lemma_read_varint_rest(after@, 10);
                    }
                    match take_bytes(wire_type, after) {
                        Ok((value, next)) => {
                            let from: usize = after.len() - next.len() - value.len();
                            let body = slice_subrange(after, from, after.len());
                            proof {
                                let (n, t) = read_varint(after@, 10)->0;
                                assert(value@ + next@ =~= t);
                                assert(body@ =~= t);
                            }
                            let before = match embedded {
                                Some(pair) => pair,
                                None => Pair { first: None, second: None },
                            };
                            match decode_pair(before, body, next.len(), after) {
                                Ok(pair) => {
                                    embedded = Some(pair);
                                    rest = next;
                                },
                                Err(error) => {
                                    return Err(error);
                                },
                            }
                        },
                        Err(text) => {
                            return Err(
                                malformed(
                                    Place::Embedded,
                                    text,
                                    Ghost(value_failure(wire_type as nat, after@)),
                                ),
                            );
                        },
                    }
                } else {
                    proof {
                        lemma_field_rest(tag as nat, wire_type as nat, after@);
                    }
                    match skip_value(wire_type, tag, after) {
                        Ok(next) => {
                            rest = next;
                        },
                        Err(text) => {
                            return Err(
                                malformed(
                                    Place::Message,
                                    text,
                                    Ghost(
                                        skip_failure(tag as nat, wire_type as nat, after@),
                                    ),
                                ),
                            );
                        },
                    }
                }
            },
            Err(text) => {
                return Err(malformed(Place::Message, text, Ghost(key_failure(rest@))));
            },
        }
    }
    Ok(embedded)
}

/// One more than the largest number that `room` bytes of a varint hold.
spec fn varint_bound(room: nat) -> nat
    decreases room,
{
    if room <= 1 {
        2
    } else {
        128 * varint_bound((room - 1) as nat)
    }
}

proof fn lemma_read_varint(v: nat, rest: Seq<u8>, room: nat)
    requires
        room >= 1,
        v < varint_bound(room),
    ensures
        read_varint(varint(v) + rest, room) == Some((v, rest)),
    decreases room,
{
    let s = varint(v) + rest;
    if v < 128 {
        assert(s.skip(1) =~= rest);
    } else {
        lemma_read_varint(v / 128, rest, (room - 1) as nat);
        assert(s.skip(1) =~= varint(v / 128) + rest);
    }
}

/// A number of up to 64 bits is read back from its varint, whatever follows.
pub proof fn varint_reads_back(v: nat, rest: Seq<u8>)
    requires
        v <= u64::MAX,
    ensures
        read_varint(varint(v) + rest, 10) == Some((v, rest)),
{
    reveal_with_fuel(varint_bound, 11);
    lemma_read_varint(v, rest, 10);
}

/// A length-delimited field is read back, whatever follows.
pub proof fn field_reads_back(tag: nat, value: Seq<u8>, rest: Seq<u8>)
    requires
        1 <= tag < 0x2000_0000,
        value.len() <= u64::MAX,
    ensures
        read_key(field(tag, value) + rest) == Some((tag, 2nat, varint(value.len()) + value + rest)),
        read_bytes(varint(value.len()) + value + rest) == Some((value, rest)),
        rest.len() < (field(tag, value) + rest).len(),
{
    let after = varint(value.len()) + value + rest;
    assert(field(tag, value) + rest =~= varint(tag * 8 + 2) + after);
    varint_reads_back(tag * 8 + 2, after);
    assert(after =~= varint(value.len()) + (value + rest));
    varint_reads_back(value.len(), value + rest);
    assert((value + rest).take(value.len() as int) =~= value);
    assert((value + rest).skip(value.len() as int) =~= rest);
}

proof fn lemma_field_then(
    pair: PairView,
    tag: nat,
    value: Seq<u8>,
    rest: Seq<u8>,
    limit: nat,
)
    requires
        tag == 1 || tag == 2,
        value.len() <= u64::MAX,
        limit <= rest.len(),
    ensures
        read_pair(pair, field(tag, value) + rest, limit) == read_pair(
            pair.with(tag, value),
            rest,
            limit,
        ),
{
    field_reads_back(tag, value, rest);
}

/// The fields of an embedded message are read back, whatever follows.
pub proof fn pair_reads_back(pair: PairView, rest: Seq<u8>)
    requires
        write_pair(pair).len() <= u64::MAX,
    ensures
        read_pair(PairView::empty(), write_pair(pair) + rest, rest.len()) == Ok::<
            PairView,
            MalformedView,
        >(pair),
{
    let tail = optional_field(2, pair.second) + rest;
    let after = match pair.first {
        Some(first) => PairView::empty().with(1, first),
        None => PairView::empty(),
    };
    if let Some(second) = pair.second {
        lemma_field_then(after, 2, second, rest, rest.len());
        assert(after.with(2, second) == pair);
    } else {
        assert(tail =~= rest);
        assert(after == pair);
    }
    assert(read_pair(after, tail, rest.len()) == Ok::<PairView, MalformedView>(pair));
    if let Some(first) = pair.first {
        lemma_field_then(PairView::empty(), 1, first, tail, rest.len());
        assert(write_pair(pair) + rest =~= field(1, first) + tail);
    } else {
        assert(write_pair(pair) + rest =~= tail);
    }
}

/// A message is read back from its encoding.
pub proof fn envelope_reads_back(embedded: Option<PairView>)
    requires
        write_envelope(embedded).len() <= u64::MAX,
    ensures
        read_envelope(None, write_envelope(embedded)) == Ok::<Option<PairView>, MalformedView>(
            embedded,
        ),
{
    if let Some(pair) = embedded {
        let body = write_pair(pair);
        let empty = Seq::<u8>::empty();
        field_reads_back(1, body, empty);
        assert(field(1, body) + empty =~= field(1, body));
        pair_reads_back(pair, empty);
        assert(read_envelope(Some(pair), empty) == Ok::<Option<PairView>, MalformedView>(
            Some(pair),
        ));
    }
}

/// The least that a byte field takes: a key and a length of one byte each, and the
/// value.
spec fn least_field(value: Option<Seq<u8>>) -> nat {
    match value {
        Some(bytes) => 2 + bytes.len(),
        None => 0,
    }
}

spec fn least_envelope(embedded: Option<PairView>) -> nat {
    match embedded {
        Some(pair) => 2 + least_field(pair.first) + least_field(pair.second),
        None => 0,
    }
}

proof fn lemma_read_pair_size(pair: PairView, s: Seq<u8>, limit: nat)
    requires
        limit <= s.len(),
    ensures
        read_pair(pair, s, limit) matches Ok(read) ==> least_field(read.first) + least_field(
            read.second,
        ) + limit <= least_field(pair.first) + least_field(pair.second) + s.len(),
    decreases s.len(),
{
    if s.len() > limit {
        if let Some((tag, wire_type, t)) = read_key(s) {
            lemma_read_varint_shrinks(s, 10);
            if tag == 1 || tag == 2 {
                if let Some((value, rest)) = read_value(wire_type, t) {
                    lemma_read_varint_shrinks(t, 10);
                    if limit <= rest.len() < s.len() {
                        lemma_read_pair_size(pair.with(tag, value), rest, limit);
                    }
                }
            } else if let Some(rest) = embedded_field_rest(tag, wire_type, t) {
                if limit <= rest.len() < s.len() {
                    lemma_read_pair_size(pair, rest, limit);
                }
            }
        }
    }
}

proof fn lemma_read_envelope_size(embedded: Option<PairView>, s: Seq<u8>)
    ensures
        read_envelope(embedded, s) matches Ok(read) ==> least_envelope(read) <= least_envelope(
            embedded,
        ) + s.len(),
    decreases s.len(),
{
    if s.len() > 0 {
        if let Some((tag, wire_type, t)) = read_key(s) {
            lemma_read_varint_shrinks(s, 10);
            if tag == 1 {
                if let Some((body, rest)) = read_value(wire_type, t) {
                    lemma_read_varint_shrinks(t, 10);
                    let before = match embedded {
                        Some(pair) => pair,
                        None => PairView::empty(),
                    };
                    lemma_read_pair_size(before, body + rest, rest.len());
                    if let Ok(pair) = read_pair(before, body + rest, rest.len()) {
                        lemma_read_envelope_size(Some(pair), rest);
                    }
                }
            } else if let Some(rest) = field_rest(tag, wire_type, t) {
                if rest.len() < s.len() {
                    lemma_read_envelope_size(embedded, rest);
                }
            }
        }
    }
}

proof fn lemma_varint_len(v: nat, room: nat)
    requires
        room >= 1,
        v < varint_bound(room) * 64,
    ensures
        varint(v).len() <= room,
    decreases room,
{
    if v >= 128 {
        lemma_varint_len(v / 128, (room - 1) as nat);
    }
}

/// A message that was read from `s` takes at most 24 bytes more than `s` when it
/// is encoded again.
pub proof fn envelope_hardly_grows(s: Seq<u8>)
    requires
        s.len() + 24 <= i64::MAX,
    ensures
        read_envelope(None, s) matches Ok(embedded) ==> write_envelope(embedded).len() <= s.len()
            + 24,
{
    lemma_read_envelope_size(None, s);
    if let Ok(Some(pair)) = read_envelope(None, s) {
        reveal_with_fuel(varint_bound, 10);
        assert(varint_bound(9) * 64 == 0x8000_0000_0000_0000);
        if let Some(first) = pair.first {
            lemma_varint_len(first.len(), 9);
        }
        if let Some(second) = pair.second {
            lemma_varint_len(second.len(), 9);
        }
        lemma_varint_len(write_pair(pair).len(), 9);
    }
}

} // verus!
