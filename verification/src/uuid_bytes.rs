//! UUIDs as their sixteen bytes.

use crate::hexadecimal::hex;
use vstd::prelude::*;

verus! {

/// Length of a UUID.
pub const UUID_LEN: usize = 16;

/// The bytes of a UUID as text: groups of 8, 4, 4, 4 and 12 hexadecimal digits
/// with hyphens between them.
pub open spec fn hyphenated(bytes: Seq<u8>) -> Seq<char> {
    hex(bytes.subrange(0, 4)).push('-') + hex(bytes.subrange(4, 6)).push('-') + hex(
        bytes.subrange(6, 8),
    ).push('-') + hex(bytes.subrange(8, 10)).push('-') + hex(bytes.subrange(10, 16))
}

/// `uuid::Uuid::from_slice`: takes exactly sixteen bytes.
#[verifier::external_body]
pub(crate) fn uuid_from_slice(bytes: &[u8]) -> (uuid: Option<[u8; UUID_LEN]>)
    ensures
        match uuid {
            Some(uuid) => uuid@ == bytes@,
            None => bytes@.len() != UUID_LEN,
        },
{
    uuid::Uuid::from_slice(bytes).ok().map(|uuid| uuid.into_bytes())
}

/// `Display` of `uuid::Uuid`: the hyphenated lower-case form.
#[verifier::external_body]
pub(crate) fn uuid_text(uuid: &[u8; UUID_LEN]) -> (text: String)
    ensures
        text@ == hyphenated(uuid@),
{
    format!("{}", uuid::Uuid::from_bytes(*uuid))
}

} // verus!
