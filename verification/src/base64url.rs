//! URL-safe base64 without padding.

use base64::Engine;
use vstd::prelude::*;
use vstd::utf8::encode_utf8;

verus! {

/// Why a text is not unpadded URL-safe base64.
#[derive(Clone, Copy, Debug, PartialEq, Eq, Structural)]
pub enum Base64Error {
    /// A byte outside the alphabet, with its offset.
    InvalidByte(usize, u8),
    /// A length that no encoding has.
    InvalidLength(usize),
    /// A last symbol with bits set that belong to no byte, with its offset.
    InvalidLastSymbol(usize, u8),
    /// Padding where none is allowed.
    InvalidPadding,
}

/// The symbol of the URL-safe alphabet that stands for the six bits `v`.
pub open spec fn symbol(v: int) -> char {
    if v < 26 {
        ('A' as int + v) as char
    } else if v < 52 {
        ('a' as int + (v - 26)) as char
    } else if v < 62 {
        ('0' as int + (v - 52)) as char
    } else if v == 62 {
        '-'
    } else {
        '_'
    }
}

/// The byte at `k`, or zero past the end.
pub open spec fn byte_or_zero(bytes: Seq<u8>, k: int) -> int {
    if 0 <= k < bytes.len() {
        bytes[k] as int
    } else {
        0
    }
}

/// The six bits of `bytes` that begin at bit `6 * i`, filled up with zero bits.
pub open spec fn sextet(bytes: Seq<u8>, i: int) -> int {
    let k = 6 * i / 8;
    let hi = byte_or_zero(bytes, k);
    let lo = byte_or_zero(bytes, k + 1);
    if i % 4 == 0 {
        hi / 4
    } else if i % 4 == 1 {
        (hi % 4) * 16 + lo / 16
    } else if i % 4 == 2 {
        (hi % 16) * 4 + lo / 64
    } else {
        hi % 64
    }
}

/// How many symbols `n` bytes take.
pub open spec fn base64_len(n: nat) -> nat {
    (4 * n + 2) / 3
}

/// The unpadded URL-safe base64 of `bytes`.
pub open spec fn base64url(bytes: Seq<u8>) -> Seq<char> {
    Seq::new(base64_len(bytes.len()), |i: int| symbol(sextet(bytes, i)))
}

/// The bytes whose unpadded URL-safe base64 is `text`, if there are any.
pub open spec fn decoded(text: Seq<char>) -> Option<Seq<u8>> {
    if exists|bytes: Seq<u8>| #[trigger] base64url(bytes) == text {
        Some(choose|bytes: Seq<u8>| #[trigger] base64url(bytes) == text)
    } else {
        None
    }
}

/// Whether a byte is a symbol of the URL-safe alphabet.
pub open spec fn is_symbol_byte(byte: u8) -> bool {
    ||| 'A' as int <= byte <= 'Z' as int
    ||| 'a' as int <= byte <= 'z' as int
    ||| '0' as int <= byte <= '9' as int
    ||| byte == '-' as int
    ||| byte == '_' as int
}

/// The offset of the first byte that is no symbol, or the length where all are.
pub open spec fn first_invalid(bytes: Seq<u8>) -> nat
    decreases bytes.len(),
{
    if bytes.len() == 0 || !is_symbol_byte(bytes[0]) {
        0
    } else {
        1 + first_invalid(bytes.skip(1))
    }
}

/// Whether the bytes from an offset on are padding to the last group of four, which
/// begins with two symbols or three.
pub open spec fn is_padding_from(bytes: Seq<u8>, at: int) -> bool {
    &&& (bytes.len() - 1) / 4 * 4 + 2 <= at < bytes.len()
    &&& forall|i: int| at <= i < bytes.len() ==> #[trigger] bytes[i] == '=' as int
}

/// Why bytes are not unpadded URL-safe base64, where they are not. The first byte
/// that is no symbol is at fault, unless it begins the padding, or a single byte
/// stands behind the last group of four and is itself neither symbol nor padding.
/// Where all are symbols, the length or the last symbol is at fault.
pub open spec fn bytes_rejection(bytes: Seq<u8>) -> Base64Error {
    let n = bytes.len() as int;
    let at = first_invalid(bytes) as int;
    if n % 4 == 1 && !is_symbol_byte(bytes[n - 1]) && bytes[n - 1] != '=' as int {
        Base64Error::InvalidByte((n - 1) as usize, bytes[n - 1])
    } else if at < n {
        if is_padding_from(bytes, at) {
            Base64Error::InvalidPadding
        } else {
            Base64Error::InvalidByte(at as usize, bytes[at])
        }
    } else if n % 4 == 1 {
        Base64Error::InvalidLength(n as usize)
    } else {
        Base64Error::InvalidLastSymbol((n - 1) as usize, bytes[n - 1])
    }
}

/// Why a text is not unpadded URL-safe base64, where it is not. Offsets and lengths
/// are in bytes.
pub open spec fn base64_rejection(text: Seq<char>) -> Base64Error {
    bytes_rejection(encode_utf8(text))
}

/// `BASE64_URL_SAFE_NO_PAD.encode` of the `base64` crate: the result is the
/// unpadded URL-safe base64 of the bytes. It panics where the text would be
/// longer than an allocation can be.
#[verifier::external_body]
fn engine_encode(bytes: &[u8]) -> (text: String)
    requires
        base64_len(bytes@.len()) <= isize::MAX,
    ensures
        text@ == base64url(bytes@),
{
    base64::prelude::BASE64_URL_SAFE_NO_PAD.encode(bytes)
}

/// `BASE64_URL_SAFE_NO_PAD.decode` of the `base64` crate: it undoes the encoding,
/// and refuses every text that is not the encoding of some bytes, among them
/// texts with padding or with stray bits in the last symbol, and its error says
/// what is at fault.
#[verifier::external_body]
fn engine_decode(text: &str) -> (result: Result<Vec<u8>, Base64Error>)
    ensures
        match result {
            Ok(bytes) => base64url(bytes@) == text@,
            Err(error) => {
                &&& forall|bytes: Seq<u8>| #[trigger] base64url(bytes) != text@
                &&& error == base64_rejection(text@)
            },
        },
{
    match base64::prelude::BASE64_URL_SAFE_NO_PAD.decode(text) {
        Ok(bytes) => Ok(bytes),
        Err(base64::DecodeError::InvalidByte(at, byte)) => Err(Base64Error::InvalidByte(at, byte)),
        Err(base64::DecodeError::InvalidLength(len)) => Err(Base64Error::InvalidLength(len)),
        Err(base64::DecodeError::InvalidLastSymbol(at, byte)) => {
            Err(Base64Error::InvalidLastSymbol(at, byte))
        },
        Err(base64::DecodeError::InvalidPadding) => Err(Base64Error::InvalidPadding),
    }
}

/// Encodes bytes as unpadded URL-safe base64.
pub fn encode(bytes: &[u8]) -> (text: String)
    requires
        base64_len(bytes@.len()) <= isize::MAX,
    ensures
        text@ == base64url(bytes@),
{
    engine_encode(bytes)
}

/// Decodes unpadded URL-safe base64.
pub fn decode(text: &str) -> (result: Result<Vec<u8>, Base64Error>)
    ensures
        match result {
            Ok(bytes) => decoded(text@) == Some(bytes@),
            Err(error) => decoded(text@) is None && error == base64_rejection(text@),
        },
{
    let result = engine_decode(text);
    proof {
        if let Ok(bytes) = &result {
            lemma_decoded(bytes@);
        }
    }
    result
}

proof fn lemma_symbol_injective(v: int, w: int)
    requires
        0 <= v < 64,
        0 <= w < 64,
        symbol(v) == symbol(w),
    ensures
        v == w,
{
}

/// Six bits are a number below 64.
pub proof fn lemma_sextet_range(bytes: Seq<u8>, i: int)
    requires
        0 <= i,
    ensures
        0 <= sextet(bytes, i) < 64,
{
}

/// Each byte is made of the sextets that hold its bits.
pub proof fn lemma_byte_from_sextets(bytes: Seq<u8>, j: int)
    requires
        0 <= j < bytes.len(),
    ensures
        ({
            let q = 4 * (j / 3);
            bytes[j] == if j % 3 == 0 {
                sextet(bytes, q) * 4 + sextet(bytes, q + 1) / 16
            } else if j % 3 == 1 {
                (sextet(bytes, q + 1) % 16) * 16 + sextet(bytes, q + 2) / 4
            } else {
                (sextet(bytes, q + 2) % 4) * 64 + sextet(bytes, q + 3)
            }
        }),
{
}

/// Two byte strings with the same encoding are the same.
pub proof fn base64url_is_injective(a: Seq<u8>, b: Seq<u8>)
    requires
        base64url(a) == base64url(b),
    ensures
        a == b,
{
    assert(base64url(a).len() == base64_len(a.len()));
    assert(base64url(b).len() == base64_len(b.len()));
    assert forall|j: int| 0 <= j < a.len() implies a[j] == b[j] by {
        lemma_byte_from_sextets(a, j);
        lemma_byte_from_sextets(b, j);
        let q = 4 * (j / 3);
        assert forall|i: int| q <= i <= q + j % 3 + 1 implies sextet(a, i) == sextet(b, i) by {
            assert(i < base64_len(a.len()));
            assert(base64url(a)[i] == symbol(sextet(a, i)));
            assert(base64url(b)[i] == symbol(sextet(b, i)));
            lemma_sextet_range(a, i);
            lemma_sextet_range(b, i);
            lemma_symbol_injective(sextet(a, i), sextet(b, i));
        }
    }
    assert(a =~= b);
}

/// Decoding gives back what was encoded.
pub proof fn lemma_decoded(bytes: Seq<u8>)
    ensures
        decoded(base64url(bytes)) == Some(bytes),
{
    let found = choose|b: Seq<u8>| #[trigger] base64url(b) == base64url(bytes);
    base64url_is_injective(found, bytes);
}

/// Whether `c` is one of the 64 symbols.
pub open spec fn is_symbol(c: char) -> bool {
    ||| 'A' <= c <= 'Z'
    ||| 'a' <= c <= 'z'
    ||| '0' <= c <= '9'
    ||| c == '-'
    ||| c == '_'
}

/// An encoding holds symbols only, so neither padding nor anything that a URL
/// fragment would have to escape.
pub proof fn base64url_has_symbols_only(bytes: Seq<u8>)
    ensures
        forall|i: int|
            0 <= i < base64url(bytes).len() ==> is_symbol(#[trigger] base64url(bytes)[i]),
{
    assert forall|i: int| 0 <= i < base64url(bytes).len() implies is_symbol(
        #[trigger] base64url(bytes)[i],
    ) by {
        lemma_sextet_range(bytes, i);
    }
}

} // verus!
