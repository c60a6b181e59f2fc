//! What requests ask for, and what their answers lead to.

use crate::base64url::{
    base64_rejection, base64url, base64url_has_symbols_only, decoded, is_symbol, lemma_decoded,
};
use crate::groups_v2::credentials::{credential_path, unexpired, usable, SKEW};
use crate::hexadecimal::hex;
use crate::laws::encodings::{
    hex_value, hexadecimal_reads_back, uuid_text_is_hyphenated_hexadecimal,
};
use crate::laws::texts::{
    a_text_without_separator_is_one_segment, first_occurrence, segments_behind_a_separator,
    segments_make_the_text,
};
use crate::link_url::UrlView;
use crate::service_error::ServiceError;
use crate::service_id::Aci;
use crate::unix_time::{UnixTime, NANOS_PER_SECOND};
use crate::uuid_bytes::{hyphenated, UUID_LEN};
use crate::websocket::profile::profile_path;
use crate::websocket::request::{asks, Method, Request};
use crate::websocket::usernames::{
    encoded_hashes, has_hash, invalid_frame, lemma_read_username_link, read_username_link, texts,
    undecryptable, username_hash_path, username_link, username_link_path, Username,
    USERNAME_LINK_ENTROPY_SIZE,
};
use vstd::prelude::*;

verus! {

/// A request asks with its own method for its own path.
pub proof fn a_request_says_what_it_holds(request: Request, method: Method, path: Seq<char>)
    ensures
        request@ == asks(method, path) <==> request.method == method && request.path@ == path,
{
}

/// The hash of a username is read back from the path at which it is looked up: the
/// path is a fixed front and a segment that decodes to the hash.
pub proof fn the_hash_is_read_back_from_its_path(hash: Seq<u8>)
    ensures
        username_hash_path(hash).take(27) == "/v1/accounts/username_hash/"@,
        decoded(username_hash_path(hash).skip(27)) == Some(hash),
        !username_hash_path(hash).skip(27).contains('/'),
{
    reveal_strlit("/v1/accounts/username_hash/");
    let path = username_hash_path(hash);
    assert(path.take(27) =~= "/v1/accounts/username_hash/"@);
    assert(path.skip(27) =~= base64url(hash));
    lemma_decoded(hash);
    base64url_has_symbols_only(hash);
    if base64url(hash).contains('/') {
        let i = choose|i: int| 0 <= i < base64url(hash).len() && base64url(hash)[i] == '/';
        assert(is_symbol(base64url(hash)[i]));
    }
}

/// Different hashes are looked up at different paths.
pub proof fn different_hashes_have_different_paths(a: Seq<u8>, b: Seq<u8>)
    requires
        a != b,
    ensures
        username_hash_path(a) != username_hash_path(b),
{
    the_hash_is_read_back_from_its_path(a);
    the_hash_is_read_back_from_its_path(b);
}

/// Each text that is sent to reserve a username decodes to the hash of the candidate
/// in the same place.
pub proof fn each_text_sent_is_the_hash_of_its_candidate(candidates: Seq<Username>, i: int)
    requires
        0 <= i < candidates.len(),
    ensures
        encoded_hashes(candidates).len() == candidates.len(),
        decoded(encoded_hashes(candidates)[i]) == Some(candidates[i].hash@),
{
    lemma_decoded(candidates[i].hash@);
}

/// A hash that was picked out of the texts sent is the hash of a candidate, and no
/// other hash is.
pub proof fn a_hash_that_was_sent_belongs_to_a_candidate(candidates: Seq<Username>, hash: Seq<u8>)
    ensures
        (exists|i: int|
            0 <= i < encoded_hashes(candidates).len() && decoded(
                #[trigger] encoded_hashes(candidates)[i],
            ) == Some(hash)) <==> (exists|i: int|
            0 <= i < candidates.len() && (#[trigger] candidates[i]).hash@ == hash),
        forall|i: int|
            0 <= i < candidates.len() ==> has_hash(#[trigger] candidates[i], hash) == (
            candidates[i].hash@ == hash),
{
    let sent = encoded_hashes(candidates);
    if exists|i: int| 0 <= i < sent.len() && decoded(#[trigger] sent[i]) == Some(hash) {
        let i = choose|i: int| 0 <= i < sent.len() && decoded(#[trigger] sent[i]) == Some(hash);
        each_text_sent_is_the_hash_of_its_candidate(candidates, i);
        assert(candidates[i].hash@ == hash);
    }
    if exists|i: int| 0 <= i < candidates.len() && (#[trigger] candidates[i]).hash@ == hash {
        let i = choose|i: int|
            0 <= i < candidates.len() && (#[trigger] candidates[i]).hash@ == hash;
        each_text_sent_is_the_hash_of_its_candidate(candidates, i);
        assert(decoded(sent[i]) == Some(hash));
    }
}

/// A list of texts says what each of its texts says.
pub proof fn texts_of_a_list(list: Seq<String>)
    ensures
        texts(list).len() == list.len(),
        forall|i: int| 0 <= i < list.len() ==> (#[trigger] texts(list)[i]) == list[i]@,
{
}

/// The handle of a link is read back from the path at which the link is looked up:
/// the path is a fixed front and the hexadecimal of the handle with hyphens.
pub proof fn the_handle_is_read_back_from_its_path(handle: Seq<u8>)
    requires
        handle.len() == UUID_LEN,
    ensures
        username_link_path(handle).len() == 63,
        username_link_path(handle).take(27) == "/v1/accounts/username_link/"@,
        ({
            let text = username_link_path(handle).skip(27);
            &&& text[8] == '-' && text[13] == '-' && text[18] == '-' && text[23] == '-'
            &&& text.subrange(0, 8) + text.subrange(9, 13) + text.subrange(14, 18) + text.subrange(
                19,
                23,
            ) + text.subrange(24, 36) == hex(handle)
        }),
{
    reveal_strlit("/v1/accounts/username_link/");
    uuid_text_is_hyphenated_hexadecimal(handle);
    let path = username_link_path(handle);
    let text = hyphenated(handle);
    assert(path.take(27) =~= "/v1/accounts/username_link/"@);
    assert(path.skip(27) =~= text);
}

/// A username link is an `https://signal.me/` URL whose fragment is `eu/` and the
/// base64 of the entropy, all of it first, and the handle behind it.
pub proof fn a_username_link_holds_entropy_and_handle(handle: Seq<u8>, entropy: Seq<u8>)
    ensures
        username_link(handle, entropy).scheme == "https"@,
        username_link(handle, entropy).host == Some("signal.me"@),
        ({
            let fragment = username_link(handle, entropy).fragment->0;
            &&& username_link(handle, entropy).fragment is Some
            &&& username_link(handle, entropy).serialization == "https://signal.me/#"@ + fragment
            &&& fragment.take(3) == "eu/"@
            &&& decoded(fragment.skip(3)) matches Some(bytes) && bytes.len() == entropy.len()
                + handle.len() && bytes.take(entropy.len() as int) == entropy && bytes.skip(
                entropy.len() as int,
            ) == handle
        }),
{
    reveal_strlit("eu/");
    let bytes = entropy + handle;
    let fragment = "eu/"@ + base64url(bytes);
    lemma_decoded(bytes);
    assert(fragment.take(3) =~= "eu/"@);
    assert(fragment.skip(3) =~= base64url(bytes));
    assert(bytes.take(entropy.len() as int) =~= entropy);
    assert(bytes.skip(entropy.len() as int) =~= handle);
}

/// A link is read to a handle and an entropy if and only if it is an
/// `https://signal.me/` URL whose fragment is `eu/` and the base64 of the entropy with
/// the handle behind it.
pub proof fn a_username_link_is_read_exactly(link: UrlView, handle: Seq<u8>, entropy: Seq<u8>)
    requires
        handle.len() == UUID_LEN,
        entropy.len() == USERNAME_LINK_ENTROPY_SIZE,
    ensures
        read_username_link(link) == Ok::<(Seq<u8>, Seq<u8>), ServiceError>((handle, entropy)) <==> {
            &&& link.scheme == "https"@
            &&& link.host == Some("signal.me"@)
            &&& link.fragment == Some("eu/"@ + base64url(entropy + handle))
        },
{
    lemma_read_username_link(link);
    if let Ok((h, e)) = read_username_link(link) {
        if link.fragment == Some("eu/"@ + base64url(entropy + handle)) {
            reveal_strlit("eu/");
            let a = "eu/"@ + base64url(e + h);
            let b = "eu/"@ + base64url(entropy + handle);
            assert(a.skip(3) =~= base64url(e + h));
            assert(b.skip(3) =~= base64url(entropy + handle));
            lemma_decoded(e + h);
            lemma_decoded(entropy + handle);
            let n = USERNAME_LINK_ENTROPY_SIZE as int;
            assert((e + h).take(n) =~= e);
            assert((e + h).skip(n) =~= h);
            assert((entropy + handle).take(n) =~= entropy);
            assert((entropy + handle).skip(n) =~= handle);
        }
    }
}

/// The error with a reason holds that reason.
pub proof fn an_error_holds_its_reason(reason: &'static str)
    ensures
        invalid_frame(reason) == (ServiceError::InvalidFrame { reason }),
        undecryptable() == (ServiceError::InvalidFrame { reason: "undecryptable username link" }),
{
}

/// A link that is no `https://signal.me/` URL is refused for that, and one without a
/// fragment for that.
pub proof fn a_link_with_another_base_is_refused(link: UrlView)
    ensures
        link.scheme != "https"@ || link.host != Some("signal.me"@) ==> read_username_link(link)
            == Err::<(Seq<u8>, Seq<u8>), ServiceError>(
            ServiceError::InvalidFrame { reason: "username link base is not https://signal.me" },
        ),
        link.scheme == "https"@ && link.host == Some("signal.me"@) && link.fragment is None
            ==> read_username_link(link) == Err::<(Seq<u8>, Seq<u8>), ServiceError>(
            ServiceError::InvalidFrame { reason: "username link missing fragment" },
        ),
{
}

/// A link whose fragment does not begin with `eu` and a slash, or with `eu` alone, is
/// refused for that; one with `eu` alone because its payload is missing.
pub proof fn a_link_without_marker_is_refused(link: UrlView, fragment: Seq<char>)
    requires
        link.scheme == "https"@,
        link.host == Some("signal.me"@),
        link.fragment == Some(fragment),
    ensures
        fragment == "eu"@ ==> read_username_link(link) == Err::<(Seq<u8>, Seq<u8>), ServiceError>(
            ServiceError::InvalidFrame { reason: "username link payload missing" },
        ),
        fragment != "eu"@ && (fragment.len() < 3 || fragment.take(3) != "eu/"@)
            ==> read_username_link(link) == Err::<(Seq<u8>, Seq<u8>), ServiceError>(
            ServiceError::InvalidFrame { reason: "username link must start with #eu/" },
        ),
{
    reveal_strlit("eu");
    reveal_strlit("eu/");
    a_text_without_separator_is_one_segment(fragment, '/');
    if fragment.contains('/') {
        let at = first_occurrence(fragment, '/');
        let front = fragment.take(at);
        let back = fragment.skip(at + 1);
        assert(fragment =~= front.push('/') + back);
        segments_behind_a_separator(front, '/', back);
        if front == "eu"@ {
            assert(fragment.take(3) =~= "eu/"@);
        }
        assert(fragment != "eu"@) by {
            if fragment == "eu"@ {
                assert(!"eu"@.contains('/'));
            }
        }
    }
}

/// A link with a payload is refused for what is wrong with the payload: for a slash
/// in it, for what base64 says of it, or for the number of bytes that it decodes to.
pub proof fn a_link_with_a_bad_payload_is_refused(link: UrlView, payload: Seq<char>)
    requires
        link.scheme == "https"@,
        link.host == Some("signal.me"@),
        link.fragment == Some("eu/"@ + payload),
    ensures
        payload.contains('/') ==> read_username_link(link) == Err::<
            (Seq<u8>, Seq<u8>),
            ServiceError,
        >(ServiceError::InvalidFrame { reason: "username link has extra path segments" }),
        !payload.contains('/') ==> (decoded(payload) is None ==> read_username_link(link) == Err::<
            (Seq<u8>, Seq<u8>),
            ServiceError,
        >(ServiceError::Base64(base64_rejection(payload)))),
        !payload.contains('/') ==> (decoded(payload) matches Some(bytes) ==> {
            &&& bytes.len() < 32 ==> read_username_link(link) == Err::<
                (Seq<u8>, Seq<u8>),
                ServiceError,
            >(ServiceError::InvalidFrame { reason: "username link payload shorter than entropy" })
            &&& bytes.len() >= 32 && bytes.len() != 48 ==> read_username_link(link) == Err::<
                (Seq<u8>, Seq<u8>),
                ServiceError,
            >(ServiceError::InvalidFrame { reason: "username link payload missing handle UUID" })
            &&& bytes.len() == 48 ==> read_username_link(link) == Ok::<
                (Seq<u8>, Seq<u8>),
                ServiceError,
            >((bytes.skip(32), bytes.take(32)))
        }),
{
    reveal_strlit("eu");
    reveal_strlit("eu/");
    assert("eu/"@ =~= "eu"@.push('/'));
    assert(!"eu"@.contains('/'));
    segments_behind_a_separator("eu"@, '/', payload);
    a_text_without_separator_is_one_segment(payload, '/');
    segments_make_the_text(payload, '/');
}

/// The path of a profile is the service identifier behind a fixed front, with a slash
/// and the version behind it where there is one.
pub proof fn a_profile_path_names_account_and_version(service_id: Seq<char>, version: Seq<char>)
    ensures
        profile_path(service_id, None) == "/v1/profile/"@ + service_id,
        profile_path(service_id, Some(version)) == profile_path(service_id, None) + "/"@ + version,
{
}

/// A credential request is read back from its path: behind the path of the profile
/// version and a slash stand two digits for each byte of the request, off which the
/// byte is read, and then the query.
pub proof fn the_credential_request_is_read_back_from_its_path(
    service_id: Seq<char>,
    version: Seq<char>,
    request: Seq<u8>,
)
    ensures
        ({
            let front = profile_path(service_id, Some(version)) + "/"@;
            let query = "?credentialType=expiringProfileKey"@;
            let path = credential_path(service_id, version, request);
            let digits = path.subrange(front.len() as int, path.len() - query.len());
            &&& path.len() == front.len() + 2 * request.len() + query.len()
            &&& path.take(front.len() as int) == front
            &&& path.skip(path.len() - query.len()) == query
            &&& digits.len() == 2 * request.len()
            &&& forall|k: int|
                0 <= k < request.len() ==> #[trigger] request[k] == hex_value(digits[2 * k]) * 16
                    + hex_value(digits[2 * k + 1])
        }),
{
    let front = profile_path(service_id, Some(version)) + "/"@;
    let query = "?credentialType=expiringProfileKey"@;
    let path = credential_path(service_id, version, request);
    hexadecimal_reads_back(request);
    assert(path =~= front + hex(request) + query);
    assert(path.take(front.len() as int) =~= front);
    assert(path.skip(path.len() - query.len()) =~= query);
    assert(path.subrange(front.len() as int, path.len() - query.len()) =~= hex(request));
}

/// Different credential requests have different paths.
pub proof fn different_credential_requests_have_different_paths(
    service_id: Seq<char>,
    version: Seq<char>,
    a: Seq<u8>,
    b: Seq<u8>,
)
    requires
        a != b,
    ensures
        credential_path(service_id, version, a) != credential_path(service_id, version, b),
{
    if credential_path(service_id, version, a) == credential_path(service_id, version, b) {
        the_credential_request_is_read_back_from_its_path(service_id, version, a);
        the_credential_request_is_read_back_from_its_path(service_id, version, b);
        assert(a.len() == b.len());
        assert(a =~= b);
    }
}

/// Eviction leaves each entry that it keeps as it was, and evicting again at an
/// earlier time changes nothing.
pub proof fn eviction_leaves_entries_as_they_were<C>(
    entries: Map<u128, (C, i128)>,
    uuid: u128,
    now: UnixTime,
    earlier: UnixTime,
)
    requires
        earlier.nanos <= now.nanos,
    ensures
        unexpired(entries, now).contains_key(uuid) <==> entries.contains_key(uuid)
            && entries[uuid].1 > now.nanos,
        unexpired(entries, now).contains_key(uuid) ==> unexpired(entries, now)[uuid]
            == entries[uuid],
        unexpired(unexpired(entries, now), earlier) == unexpired(entries, now),
{
    assert(unexpired(unexpired(entries, now), earlier) =~= unexpired(entries, now));
}

/// A credential is found if and only if it is stored for that account and expires
/// more than an hour later, and what is found is what is stored.
pub proof fn a_credential_is_found_an_hour_ahead<C>(
    entries: Map<u128, (C, i128)>,
    aci: Aci,
    now: UnixTime,
)
    ensures
        SKEW == 3600 * NANOS_PER_SECOND,
        NANOS_PER_SECOND == 1_000_000_000,
        usable(entries, aci, now) is Some <==> entries.contains_key(aci.uuid) && entries[aci.uuid].1
            - now.nanos > 3_600_000_000_000,
        usable(entries, aci, now) matches Some(credential) ==> credential == entries[aci.uuid].0,
{
}

} // verus!
