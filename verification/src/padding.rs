//! Padding of plaintexts, so that the length of a ciphertext says little about
//! what it hides.

use crate::profile_cipher::ProfileCipherError;
use vstd::prelude::*;

verus! {

/// `n` zero bytes.
pub open spec fn zeros(n: nat) -> Seq<u8> {
    Seq::new(n, |i: int| 0u8)
}

/// The first of the brackets that `n` bytes fit into.
pub open spec fn bracket(brackets: Seq<usize>, n: nat) -> Option<usize>
    decreases brackets.len(),
{
    if brackets.len() == 0 {
        None
    } else if brackets[0] >= n {
        Some(brackets[0])
    } else {
        bracket(brackets.skip(1), n)
    }
}

/// `bytes` filled up with zero bytes to the first bracket they fit into.
pub open spec fn padded(bytes: Seq<u8>, brackets: Seq<usize>) -> Option<Seq<u8>> {
    match bracket(brackets, bytes.len()) {
        Some(len) => Some(bytes + zeros((len - bytes.len()) as nat)),
        None => None,
    }
}

/// `bytes` without the zero bytes at their end.
pub open spec fn unpadded(bytes: Seq<u8>) -> Seq<u8>
    decreases bytes.len(),
{
    if bytes.len() > 0 && bytes.last() == 0 {
        unpadded(bytes.drop_last())
    } else {
        bytes
    }
}

/// Fills `bytes` up with zero bytes to the first bracket that they fit into, and
/// returns its size.
pub fn pad_plaintext(bytes: &mut Vec<u8>, brackets: &[usize]) -> (result: Result<
    usize,
    ProfileCipherError,
>)
    requires
        bracket(brackets@, old(bytes)@.len()) matches Some(len) ==> len <= isize::MAX,
    ensures
        match result {
            Ok(len) => {
                &&& bracket(brackets@, old(bytes)@.len()) == Some(len)
                &&& padded(old(bytes)@, brackets@) == Some(final(bytes)@)
                &&& final(bytes)@.len() == len
            },
            Err(error) => {
                &&& error == ProfileCipherError::InputTooLong
                &&& bracket(brackets@, old(bytes)@.len()) is None
                &&& final(bytes)@ == old(bytes)@
            },
        },
{
    let ghost start = bytes@;
    let mut i: usize = 0;
    assert(brackets@.skip(0) =~= brackets@);
    while i < brackets.len()
        invariant
            bytes@ == start,
            start == old(bytes)@,
            bracket(brackets@, start.len()) matches Some(len) ==> len <= isize::MAX,
            i <= brackets.len(),
            bracket(brackets@, start.len()) == bracket(brackets@.skip(i as int), start.len()),
        decreases brackets.len() - i,
    {
        let len = brackets[i];
        if len >= bytes.len() {
            assert(brackets@.skip(i as int)[0] == len);
            bytes.resize(len, 0);
            assert(bytes@ =~= start + zeros((len - start.len()) as nat)) by {
                assert(bytes@.subrange(0, start.len() as int) =~= start);
            }
            return Ok(len);
        }
        assert(brackets@.skip(i as int).skip(1) =~= brackets@.skip(i + 1));
        i += 1;
    }
    Err(ProfileCipherError::InputTooLong)
}

/// Removes the zero bytes at the end of a plaintext.
pub fn unpad(plaintext: Vec<u8>) -> (bytes: Vec<u8>)
    ensures
        bytes@ == unpadded(plaintext@),
{
    let mut bytes = plaintext;
    let mut len: usize = bytes.len();
    assert(bytes@.take(len as int) =~= bytes@);
    while len > 0 && bytes[len - 1] == 0
        invariant
            bytes@ == plaintext@,
            len <= bytes.len(),
            unpadded(plaintext@) == unpadded(plaintext@.take(len as int)),
        decreases len,
    {
        assert(plaintext@.take(len as int).drop_last() =~= plaintext@.take(len - 1));
        len -= 1;
    }
    bytes.truncate(len);
    bytes
}

/// Zero bytes behind a plaintext make no difference to unpadding.
pub proof fn zeros_come_off(bytes: Seq<u8>, n: nat)
    ensures
        unpadded(bytes + zeros(n)) == unpadded(bytes),
    decreases n,
{
    let whole = bytes + zeros(n);
    if n > 0 {
        assert(whole.last() == 0);
        assert(whole.drop_last() =~= bytes + zeros((n - 1) as nat));
        zeros_come_off(bytes, (n - 1) as nat);
    } else {
        assert(whole =~= bytes);
    }
}

/// Unpadding gives back what was padded, but for zero bytes that it ended with.
pub proof fn padding_comes_off(bytes: Seq<u8>, brackets: Seq<usize>)
    ensures
        padded(bytes, brackets) matches Some(whole) ==> unpadded(whole) == unpadded(bytes),
        bytes.len() == 0 || bytes.last() != 0 ==> unpadded(bytes) == bytes,
{
    if let Some(len) = bracket(brackets, bytes.len()) {
        zeros_come_off(bytes, (len - bytes.len()) as nat);
    }
}

/// A padded plaintext is as long as one of the brackets.
pub proof fn padded_length_is_a_bracket(bytes: Seq<u8>, brackets: Seq<usize>)
    ensures
        padded(bytes, brackets) matches Some(whole) ==> exists|i: int|
            0 <= i < brackets.len() && #[trigger] brackets[i] == whole.len(),
    decreases brackets.len(),
{
    if brackets.len() > 0 {
        if brackets[0] >= bytes.len() {
            assert(padded(bytes, brackets)->0.len() == brackets[0]);
        } else {
            padded_length_is_a_bracket(bytes, brackets.skip(1));
            if let Some(whole) = padded(bytes, brackets) {
                let j = choose|j: int|
                    0 <= j < brackets.len() - 1 && #[trigger] brackets.skip(1)[j] == whole.len();
                assert(brackets[j + 1] == whole.len());
            }
        }
    }
}

} // verus!
