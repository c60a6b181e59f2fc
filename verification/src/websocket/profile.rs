//! Profiles as the server stores them, and the requests that read and write them.

use crate::text::from_utf8;
use crate::websocket::request::{asks, Method, Request};
use vstd::prelude::*;
use vstd::string::*;
use vstd::utf8::{decode_utf8, valid_utf8};

verus! {

/// A profile as the server hands it out. The byte fields are encrypted with the
/// profile key, but for the identity key.
#[derive(Clone, Debug, PartialEq, Eq)]
pub struct SignalServiceProfile {
    pub identity_key: Option<Vec<u8>>,
    pub name: Option<Vec<u8>>,
    pub about: Option<Vec<u8>>,
    pub about_emoji: Option<Vec<u8>>,
    pub payment_address: Option<Vec<u8>>,
    pub avatar: Option<String>,
    pub unidentified_access: Option<String>,
    pub unrestricted_unidentified_access: bool,
}

/// What a profile write does with the avatar.
#[derive(Clone, Debug, PartialEq, Eq)]
pub enum AvatarWrite<C> {
    /// Replaces it.
    NewAvatar(C),
    /// Keeps the stored one.
    RetainAvatar,
    /// Removes it.
    NoAvatar,
}

/// What is sent to write a profile. The byte fields are encrypted with the profile
/// key, but for the commitment. A profile write replaces the whole profile, so
/// without a payment address any stored address is cleared.
#[derive(Clone, Debug, PartialEq, Eq)]
pub struct SignalServiceProfileWrite<'s> {
    /// Hexadecimal
    pub version: &'s str,
    pub name: &'s [u8],
    pub about: &'s [u8],
    pub about_emoji: &'s [u8],
    pub payment_address: Option<Vec<u8>>,
    pub avatar: bool,
    pub same_avatar: bool,
    pub commitment: &'s [u8],
}

/// The path of an account's profile, in the version for a profile key if there is
/// one.
pub open spec fn profile_path(service_id: Seq<char>, version: Option<Seq<char>>) -> Seq<char> {
    match version {
        Some(version) => "/v1/profile/"@ + service_id + "/"@ + version,
        None => "/v1/profile/"@ + service_id,
    }
}

/// The text that optional bytes encode.
pub open spec fn opt_utf8(bytes: Option<&[u8]>) -> Option<Seq<char>> {
    match bytes {
        Some(bytes) => Some(decode_utf8(bytes@)),
        None => None,
    }
}

/// Asks for the profile of the account with this service identifier. `version` is
/// the encoded version of its profile key, which is text.
pub fn retrieve_profile_by_id(service_id: &str, version: Option<&[u8]>) -> (request: Request)
    requires
        version matches Some(version) ==> valid_utf8(version@),
    ensures
        request@ == asks(Method::Get, profile_path(service_id@, opt_utf8(version))),
        request.method == Method::Get,
        match version {
            Some(version) => request.path@ == "/v1/profile/"@ + service_id@ + "/"@ + decode_utf8(
                version@,
            ),
            None => request.path@ == "/v1/profile/"@ + service_id@,
        },
{
    let mut path = "/v1/profile/".to_string();
    path.append(service_id);
    if let Some(version) = version {
        path.append("/");
        path.append(from_utf8(version).unwrap());
    }
    Request { method: Method::Get, path }
}

/// Writes a profile: the request, and what goes with it.
///
/// `version` is the encoded version of the profile key, which is text, and
/// `commitment` the encoded commitment to it.
pub fn write_profile<'s, C>(
    version: &'s [u8],
    name: &'s [u8],
    about: &'s [u8],
    emoji: &'s [u8],
    payment_address: Option<Vec<u8>>,
    commitment: &'s [u8],
    avatar: &AvatarWrite<C>,
) -> (request: (Request, SignalServiceProfileWrite<'s>))
    requires
        valid_utf8(version@),
    ensures
        request.0@ == asks(Method::Put, "/v1/profile"@),
        request.0.method == Method::Put,
        request.0.path@ == "/v1/profile"@,
        request.1.version@ == decode_utf8(version@),
        request.1.name == name,
        request.1.about == about,
        request.1.about_emoji == emoji,
        request.1.payment_address == payment_address,
        request.1.commitment == commitment,
        request.1.avatar == !(avatar is NoAvatar),
        request.1.same_avatar == (avatar is RetainAvatar),
{
    let command = SignalServiceProfileWrite {
        version: from_utf8(version).unwrap(),
        name,
        about,
        about_emoji: emoji,
        payment_address,
        avatar: !matches!(avatar, AvatarWrite::NoAvatar),
        same_avatar: matches!(avatar, AvatarWrite::RetainAvatar),
        commitment,
    };
    (Request { method: Method::Put, path: "/v1/profile".to_string() }, command)
}

/// Whether the response to a profile write holds the form with which the new
/// avatar is uploaded. There is one exactly when a new avatar was announced;
/// otherwise the body is empty.
pub fn has_upload_form<C>(avatar: &AvatarWrite<C>) -> (has: bool)
    ensures
        has == (avatar is NewAvatar),
{
    matches!(avatar, AvatarWrite::NewAvatar(_))
}

} // verus!
