//! Base64, hexadecimal, UUIDs and decimal numbers.

use crate::base64url::{
    base64_len, base64url, base64url_is_injective, bytes_rejection, decoded, first_invalid,
    is_symbol_byte, lemma_byte_from_sextets, lemma_decoded, lemma_sextet_range, sextet, symbol,
    Base64Error,
};
use crate::hexadecimal::hex;
use crate::text::decimal;
use crate::uuid_bytes::{hyphenated, UUID_LEN};
use vstd::prelude::*;

verus! {

/// What a base64 symbol stands for.
pub open spec fn symbol_value(c: char) -> int {
    if 'A' <= c <= 'Z' {
        c as int - 'A' as int
    } else if 'a' <= c <= 'z' {
        c as int - 'a' as int + 26
    } else if '0' <= c <= '9' {
        c as int - '0' as int + 52
    } else if c == '-' {
        62
    } else {
        63
    }
}

/// The byte at `k`, put together of the bits that two symbols hold of it.
pub open spec fn byte_of_symbols(text: Seq<char>, k: int) -> int {
    let q = 4 * (k / 3);
    if k % 3 == 0 {
        symbol_value(text[q]) * 4 + symbol_value(text[q + 1]) / 16
    } else if k % 3 == 1 {
        (symbol_value(text[q + 1]) % 16) * 16 + symbol_value(text[q + 2]) / 4
    } else {
        (symbol_value(text[q + 2]) % 4) * 64 + symbol_value(text[q + 3])
    }
}

proof fn lemma_symbol_at(bytes: Seq<u8>, i: int)
    requires
        0 <= i < base64_len(bytes.len()),
    ensures
        symbol_value(base64url(bytes)[i]) == sextet(bytes, i),
{
    lemma_sextet_range(bytes, i);
    let v = sextet(bytes, i);
    assert(base64url(bytes)[i] == symbol(v));
}

proof fn lemma_byte_at(bytes: Seq<u8>, k: int)
    requires
        0 <= k < bytes.len(),
    ensures
        bytes[k] == byte_of_symbols(base64url(bytes), k),
{
    let q = 4 * (k / 3);
    lemma_byte_from_sextets(bytes, k);
    lemma_symbol_at(bytes, q + k % 3);
    lemma_symbol_at(bytes, q + k % 3 + 1);
}

proof fn lemma_last_symbol(bytes: Seq<u8>)
    requires
        bytes.len() > 0,
    ensures
        bytes.len() % 3 == 1 ==> symbol_value(base64url(bytes).last()) % 16 == 0,
        bytes.len() % 3 == 2 ==> symbol_value(base64url(bytes).last()) % 4 == 0,
{
    lemma_symbol_at(bytes, base64_len(bytes.len()) - 1);
}

/// Every byte is read off the symbols of its base64, three bytes off four symbols
/// in order.
pub proof fn base64_holds_every_byte(bytes: Seq<u8>, k: int)
    requires
        0 <= k < bytes.len(),
    ensures
        bytes[k] == byte_of_symbols(base64url(bytes), k),
{
    lemma_byte_at(bytes, k);
}

/// Base64 has no more symbols than its bytes take, and the bits left over in the
/// last one are zero.
pub proof fn base64_holds_nothing_else(bytes: Seq<u8>)
    ensures
        bytes.len() % 3 == 0 ==> 3 * base64url(bytes).len() == 4 * bytes.len(),
        bytes.len() % 3 == 1 ==> 3 * base64url(bytes).len() == 4 * bytes.len() + 2
            && symbol_value(base64url(bytes).last()) % 16 == 0,
        bytes.len() % 3 == 2 ==> 3 * base64url(bytes).len() == 4 * bytes.len() + 1
            && symbol_value(base64url(bytes).last()) % 4 == 0,
{
    if bytes.len() > 0 {
        lemma_last_symbol(bytes);
    }
}

/// A text decodes to the bytes whose base64 it is, and to nothing where it is the
/// base64 of none.
pub proof fn decoding_undoes_encoding(text: Seq<char>, bytes: Seq<u8>)
    ensures
        decoded(text) == Some(bytes) <==> base64url(bytes) == text,
        decoded(text) matches Some(found) ==> base64url(found) == text,
{
    if base64url(bytes) == text {
        lemma_decoded(bytes);
    }
    if let Some(found) = decoded(text) {
        assert(exists|b: Seq<u8>| #[trigger] base64url(b) == text);
        if base64url(bytes) == text {
            base64url_is_injective(found, bytes);
        }
    }
}

/// The first byte that is no symbol is one, and no byte before it is.
pub proof fn the_first_invalid_byte_is_first(bytes: Seq<u8>)
    ensures
        first_invalid(bytes) <= bytes.len(),
        forall|i: int| 0 <= i < first_invalid(bytes) ==> is_symbol_byte(#[trigger] bytes[i]),
        first_invalid(bytes) < bytes.len() ==> !is_symbol_byte(bytes[first_invalid(bytes) as int]),
    decreases bytes.len(),
{
    if bytes.len() > 0 && is_symbol_byte(bytes[0]) {
        let rest = bytes.skip(1);
        the_first_invalid_byte_is_first(rest);
        assert forall|i: int| 0 <= i < first_invalid(bytes) implies is_symbol_byte(
            #[trigger] bytes[i],
        ) by {
            if i > 0 {
                assert(bytes[i] == rest[i - 1]);
            }
        }
    }
}

/// What is reported of a text that is no base64 is there: a byte that is reported
/// stands where it is said to and is no symbol, a length is that of the text and one
/// more than groups of four, a last symbol is the last and all are symbols, and padding
/// is at the end.
pub proof fn what_is_reported_of_a_text_is_there(bytes: Seq<u8>)
    requires
        0 < bytes.len() <= usize::MAX,
    ensures
        match bytes_rejection(bytes) {
            Base64Error::InvalidByte(at, byte) => at < bytes.len() && bytes[at as int] == byte
                && !is_symbol_byte(byte) && (at == first_invalid(bytes) || (at == bytes.len() - 1
                && bytes.len() % 4 == 1)),
            Base64Error::InvalidLength(n) => n == bytes.len() && n % 4 == 1 && first_invalid(bytes)
                == n,
            Base64Error::InvalidLastSymbol(at, byte) => at == bytes.len() - 1 && bytes[at as int]
                == byte && bytes.len() % 4 != 1 && first_invalid(bytes) == bytes.len(),
            Base64Error::InvalidPadding => first_invalid(bytes) < bytes.len() && forall|i: int|
                first_invalid(bytes) <= i < bytes.len() ==> #[trigger] bytes[i] == 0x3d,
        },
{
    the_first_invalid_byte_is_first(bytes);
}

/// What a hexadecimal digit stands for.
pub open spec fn hex_value(c: char) -> int {
    if '0' <= c <= '9' {
        c as int - '0' as int
    } else {
        c as int - 'a' as int + 10
    }
}

/// Hexadecimal has two lower-case digits for each byte and for nothing else, and
/// every byte is read off its two digits.
pub proof fn hexadecimal_reads_back(bytes: Seq<u8>)
    ensures
        hex(bytes).len() == 2 * bytes.len(),
        forall|i: int| 0 <= i < hex(bytes).len() ==> '0' <= #[trigger] hex(bytes)[i] <= '9' || 'a'
            <= hex(bytes)[i] <= 'f',
        forall|k: int| 0 <= k < bytes.len() ==> #[trigger] bytes[k] == hex_value(
            hex(bytes)[2 * k],
        ) * 16 + hex_value(hex(bytes)[2 * k + 1]),
{
    assert forall|k: int| 0 <= k < bytes.len() implies #[trigger] bytes[k] == hex_value(
        hex(bytes)[2 * k],
    ) * 16 + hex_value(hex(bytes)[2 * k + 1]) by {
        assert((2 * k) / 2 == k && (2 * k) % 2 == 0);
        assert((2 * k + 1) / 2 == k && (2 * k + 1) % 2 == 1);
    }
}

/// Different bytes have different hexadecimal.
pub proof fn hexadecimal_is_injective(a: Seq<u8>, b: Seq<u8>)
    requires
        hex(a) == hex(b),
    ensures
        a == b,
{
    hexadecimal_reads_back(a);
    hexadecimal_reads_back(b);
    assert(a.len() == b.len());
    assert(a =~= b);
}

/// The text of a UUID is the hexadecimal of its bytes, with a hyphen behind the
/// eighth, twelfth, sixteenth and twentieth digit.
pub proof fn uuid_text_is_hyphenated_hexadecimal(bytes: Seq<u8>)
    requires
        bytes.len() == UUID_LEN,
    ensures
        hyphenated(bytes).len() == 36,
        hyphenated(bytes)[8] == '-' && hyphenated(bytes)[13] == '-' && hyphenated(bytes)[18] == '-'
            && hyphenated(bytes)[23] == '-',
        hyphenated(bytes).subrange(0, 8) + hyphenated(bytes).subrange(9, 13) + hyphenated(
            bytes,
        ).subrange(14, 18) + hyphenated(bytes).subrange(19, 23) + hyphenated(bytes).subrange(24, 36)
            == hex(bytes),
{
    let text = hyphenated(bytes);
    let a = hex(bytes.subrange(0, 4));
    let b = hex(bytes.subrange(4, 6));
    let c = hex(bytes.subrange(6, 8));
    let d = hex(bytes.subrange(8, 10));
    let e = hex(bytes.subrange(10, 16));
    assert(text.subrange(0, 8) =~= a);
    assert(text.subrange(9, 13) =~= b);
    assert(text.subrange(14, 18) =~= c);
    assert(text.subrange(19, 23) =~= d);
    assert(text.subrange(24, 36) =~= e);
    assert(a + b + c + d + e =~= hex(bytes));
}

/// The number that decimal digits stand for.
pub open spec fn decimal_value(digits: Seq<char>) -> int
    decreases digits.len(),
{
    if digits.len() == 0 {
        0
    } else {
        decimal_value(digits.drop_last()) * 10 + (digits.last() as int - '0' as int)
    }
}

/// A number is read off its decimal digits, of which the first is not zero unless
/// it is the only one.
pub proof fn decimal_reads_back(n: nat)
    ensures
        decimal(n).len() > 0,
        forall|i: int| 0 <= i < decimal(n).len() ==> '0' <= #[trigger] decimal(n)[i] <= '9',
        decimal(n).len() > 1 ==> decimal(n)[0] != '0',
        decimal_value(decimal(n)) == n,
    decreases n,
{
    reveal_with_fuel(decimal_value, 2);
    if n >= 10 {
        decimal_reads_back(n / 10);
        assert(decimal(n).drop_last() =~= decimal(n / 10));
        assert(n / 10 > 0);
        if decimal(n / 10).len() == 1 {
            let front = decimal(n / 10);
            assert(front.drop_last() =~= Seq::empty());
            assert(decimal_value(front) == front[0] as int - '0' as int);
        }
    } else {
        assert(decimal(n).drop_last() =~= Seq::empty());
    }
}

} // verus!
