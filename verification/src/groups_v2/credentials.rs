//! Profile key credential flow for groups.
//!
//! Adding a user as a *full* member of a group requires proving to the groups
//! server that you know their profile key, without revealing it. That proof is a
//! credential, issued by the chat server and presented (blinded) to the groups
//! server.
//!
//! The flow is:
//!
//! 1. Build a request context from the target's ACI and profile key. The context
//!    holds the blinding secrets; the derived *request* is what goes over the
//!    wire.
//! 2. `GET /v1/profile/{aci}/{version}/{request}`: the versioned profile
//!    endpoint, with the hex-encoded request appended. The response carries the
//!    usual profile fields plus a `credential`.
//! 3. Feed the response back through the context to unblind it into a
//!    credential.
//!
//! Credentials are day-aligned and valid for at most 7 days; anything outside that
//! window is rejected at receive time, so callers must cache with expiry and
//! refetch rather than treating a stale credential as fatal.

use crate::hexadecimal::{hex, hex_encode};
use crate::octets::array_of;
use crate::profile_cipher::ProfileKey;
use crate::random::random_bytes;
use crate::service_error::ServiceError;
use crate::service_id::Aci;
use crate::text::{decimal, decimal_text, from_utf8};
use crate::unix_time::{UnixTime, NANOS_PER_SECOND};
use crate::websocket::profile::{profile_path, SignalServiceProfile};
use crate::websocket::request::{asks, Method, Request};
use std::collections::HashMap;
use vstd::prelude::*;
use vstd::std_specs::hash::*;
use vstd::std_specs::iter::IteratorSpec;
use vstd::string::*;
use vstd::utf8::{decode_utf8, valid_utf8};

verus! {

/// A versioned profile response that also carries a profile key credential.
///
/// This is the same body as [`SignalServiceProfile`], plus the `credential` field
/// the server adds when the request path includes a credential request.
#[derive(Clone, Debug, PartialEq, Eq)]
pub struct SignalServiceProfileWithCredential {
    pub profile: SignalServiceProfile,
    /// Serialized credential response. Absent if the server declined to issue one
    /// (e.g. the profile key version did not match the stored profile).
    pub credential: Option<Vec<u8>>,
}

/// What the request context of a profile key credential is derived from.
pub struct CredentialRequestInputs {
    pub randomness: [u8; 32],
    pub aci: Aci,
    pub profile_key: ProfileKey,
}

/// Takes the given randomness for the request context of a profile key credential.
pub fn credential_request_inputs(
    randomness: [u8; 32],
    aci: Aci,
    profile_key: ProfileKey,
) -> (inputs: CredentialRequestInputs)
    ensures
        inputs.randomness == randomness,
        inputs.aci == aci,
        inputs.profile_key == profile_key,
{
    CredentialRequestInputs { randomness, aci, profile_key }
}

/// Draws the randomness of the request context for a profile key credential. Of
/// the randomness, nothing can be said.
///
/// The context must be kept until the server response arrives: it holds the
/// blinding secrets needed to unblind the issued credential.
pub fn create_credential_request_context(
    aci: Aci,
    profile_key: ProfileKey,
    rng: &mut rand::rngs::ThreadRng,
) -> (inputs: CredentialRequestInputs)
    ensures
        inputs.aci == aci,
        inputs.profile_key == profile_key,
{
    let randomness = array_of::<32>(random_bytes(rng, 32).as_slice()).unwrap();
    credential_request_inputs(randomness, aci, profile_key)
}

/// Asks for the credential in a response, as of `current_time`: the response, if
/// it could be read, and the seconds since the epoch, if the clock does not stand
/// before it.
///
/// Both go on into unblinding, which ends with [`received_credential`].
pub fn receive_credential<R>(response: Option<R>, current_time: UnixTime) -> (result: Result<
    (R, u64),
    ServiceError,
>)
    requires
        current_time.nanos / NANOS_PER_SECOND <= u64::MAX,
    ensures
        result == (match response {
            Some(response) if current_time.nanos >= 0 => Ok(
                (response, (current_time.nanos / NANOS_PER_SECOND) as u64),
            ),
            _ => Err(ServiceError::GroupsV2Error),
        }),
{
    match response {
        Some(response) => match current_time.epoch_seconds() {
            Some(now) => Ok((response, now)),
            None => Err(ServiceError::GroupsV2Error),
        },
        None => Err(ServiceError::GroupsV2Error),
    }
}

/// The credential, unless unblinding refused it.
pub fn received_credential<C>(credential: Option<C>) -> (result: Result<C, ServiceError>)
    ensures
        result == (match credential {
            Some(credential) => Ok(credential),
            None => Err(ServiceError::GroupsV2Error),
        }),
{
    match credential {
        Some(credential) => Ok(credential),
        None => Err(ServiceError::GroupsV2Error),
    }
}

/// Refetch a credential this close to its expiry rather than risk it lapsing
/// mid-flight between the fetch and the groups-server call.
pub const SKEW: i128 = 3_600_000_000_000;

/// An expiry-aware cache of profile key credentials, keyed by ACI.
///
/// Credentials are valid for at most 7 days and an expired one cannot be
/// received, so a stale entry must be dropped and refetched rather than surfaced
/// as an error. [`get`][Self::get] applies that policy: an entry within [`SKEW`]
/// of expiry is treated as absent.
#[derive(Clone)]
pub struct ProfileKeyCredentialCache<C> {
    entries: HashMap<u128, (C, i128)>,
}

impl<C> View for ProfileKeyCredentialCache<C> {
    /// By UUID, each credential with the nanoseconds since the epoch at which it
    /// expires.
    type V = Map<u128, (C, i128)>;

    closed spec fn view(&self) -> Map<u128, (C, i128)> {
        self.entries@
    }
}

/// The credential for `aci` that may still be used at `now`, if there is one.
pub open spec fn usable<C>(entries: Map<u128, (C, i128)>, aci: Aci, now: UnixTime) -> Option<C> {
    if entries.contains_key(aci.uuid) && entries[aci.uuid].1 > now.nanos + SKEW {
        Some(entries[aci.uuid].0)
    } else {
        None
    }
}

/// The entries that have not expired as of `now`.
pub open spec fn unexpired<C>(entries: Map<u128, (C, i128)>, now: UnixTime) -> Map<
    u128,
    (C, i128),
> {
    entries.restrict(Set::new(|uuid: u128| entries[uuid].1 > now.nanos))
}

impl<C> Default for ProfileKeyCredentialCache<C> {
    fn default() -> (cache: Self)
        ensures
            cache@ == Map::<u128, (C, i128)>::empty(),
    {
        ProfileKeyCredentialCache { entries: HashMap::new() }
    }
}

impl<C> ProfileKeyCredentialCache<C> {
    pub fn new() -> (cache: Self)
        ensures
            cache@ == Map::<u128, (C, i128)>::empty(),
    {
        Self::default()
    }

    /// Returns a cached credential for `aci`, if one is present and not within
    /// [`SKEW`] of expiring at `now`.
    pub fn get(&self, aci: &Aci, now: UnixTime) -> (credential: Option<&C>)
        ensures
            match credential {
                Some(credential) => usable(self@, *aci, now) == Some(*credential),
                None => usable(self@, *aci, now) is None,
            },
            credential is Some <==> self@.contains_key(aci.uuid) && self@[aci.uuid].1 - now.nanos
                > SKEW,
            credential matches Some(credential) ==> *credential == self@[aci.uuid].0,
    {
        broadcast use group_hash_axioms;

        let (credential, expiry) = match self.entries.get(&aci.uuid) {
            Some((credential, expiry)) => (credential, *expiry),
            None => {
                return None;
            },
        };
        match now.nanos.checked_add(SKEW) {
            Some(limit) => if expiry > limit {
                Some(credential)
            } else {
                None
            },
            None => None,
        }
    }

    /// Stores a credential, which expires this many seconds after the epoch. It
    /// takes the place of the one that was stored for `aci`.
    pub fn insert(&mut self, aci: Aci, credential: C, expiration: u64)
        ensures
            final(self)@ == old(self)@.insert(
                aci.uuid,
                (credential, (expiration * NANOS_PER_SECOND) as i128),
            ),
    {
        broadcast use group_hash_axioms;

        let expiry: i128 = UnixTime::from_epoch_seconds(expiration).nanos;
        self.entries.insert(aci.uuid, (credential, expiry));
    }

    /// Drops entries that have expired as of `now`, ignoring skew.
    pub fn evict_expired(&mut self, now: UnixTime)
        ensures
            final(self)@ == unexpired(old(self)@, now),
            forall|uuid: u128| #[trigger]
                final(self)@.contains_key(uuid) <==> old(self)@.contains_key(uuid) && old(
                    self,
                )@[uuid].1 > now.nanos,
            forall|uuid: u128| #[trigger]
                final(self)@.contains_key(uuid) ==> final(self)@[uuid] == old(self)@[uuid],
    {
        broadcast use group_hash_axioms;

        let ghost before = self.entries@;
        let mut expired: Vec<u128> = Vec::new();
        for (uuid, entry) in iter: self.entries.iter()
            invariant
                before == self.entries@,
                forall|i: int|
                    0 <= i < iter.index() ==> (#[trigger] iter.seq()[i]).1.1 > now.nanos
                        || expired@.contains(*iter.seq()[i].0),
                forall|i: int|
                    0 <= i < expired@.len() ==> before[#[trigger] expired@[i]].1 <= now.nanos,
        {
            if entry.1 <= now.nanos {
                let ghost earlier = expired@;
                expired.push(*uuid);
                proof {
                    assert(expired@.last() == *uuid);
                    assert forall|key: u128| earlier.contains(key) implies expired@.contains(
                        key,
                    ) by {
                        let j = choose|j: int| 0 <= j < earlier.len() && earlier[j] == key;
                        assert(expired@[j] == key);
                    }
                }
            }
        }
        assert forall|key: u128| before.contains_key(key) && before[key].1 <= now.nanos implies
            expired@.contains(key) by {
            let pairs = spec_hash_map_iter(&self.entries).remaining();
            assert(pairs.contains((&key, &before[key])));
        }
        let mut i: usize = 0;
        while i < expired.len()
            invariant
                i <= expired.len(),
                forall|key: u128| #[trigger]
                    self.entries@.contains_key(key) <==> before.contains_key(key)
                        && !expired@.take(i as int).contains(key),
                forall|key: u128| #[trigger]
                    self.entries@.contains_key(key) ==> self.entries@[key] == before[key],
            decreases expired.len() - i,
        {
            proof {
                let done = expired@.take(i as int);
                assert(expired@.take(i + 1) =~= done.push(expired@[i as int]));
                assert forall|key: u128|
                    done.push(expired@[i as int]).contains(key) == (done.contains(key) || key
                        == expired@[i as int]) by {
                    lemma_push_contains(done, expired@[i as int], key);
                }
            }
            self.entries.remove(&expired[i]);
            i += 1;
        }
        assert(expired@.take(i as int) =~= expired@);
        assert(self.entries@ =~= unexpired(before, now));
    }

    pub fn clear(&mut self)
        ensures
            final(self)@ == Map::<u128, (C, i128)>::empty(),
    {
        self.entries.clear();
    }

    /// The text that stands for a cache in logs. It shows how many entries there
    /// are, and never what is in them.
    pub fn debug_text(&self) -> (text: String)
        ensures
            text@ == "ProfileKeyCredentialCache { entries: "@ + decimal(self@.len()) + " }"@,
    {
        broadcast use group_hash_axioms;

        let mut text = "ProfileKeyCredentialCache { entries: ".to_string();
        text.append(decimal_text(self.entries.len() as u64).as_str());
        text.append(" }");
        text
    }
}

/// The path of an account's profile in the version for a profile key, with a
/// credential request.
pub open spec fn credential_path(
    service_id: Seq<char>,
    version: Seq<char>,
    request: Seq<u8>,
) -> Seq<char> {
    profile_path(service_id, Some(version)) + "/"@ + hex(request)
        + "?credentialType=expiringProfileKey"@
}

/// Asks for a versioned profile together with an expiring profile key
/// credential. The response holds the serialized credential response, which is
/// unblinded from [`receive_credential`] on.
///
/// `version` is the encoded version of the account's profile key, which is text,
/// and `request` the serialized credential request.
pub fn retrieve_profile_with_credential(
    service_id: &str,
    version: &[u8],
    request: &[u8],
) -> (asked: Request)
    requires
        valid_utf8(version@),
        2 * request@.len() <= isize::MAX,
    ensures
        asked@ == asks(
            Method::Get,
            credential_path(service_id@, decode_utf8(version@), request@),
        ),
        asked.method == Method::Get,
        asked.path@ == "/v1/profile/"@ + service_id@ + "/"@ + decode_utf8(version@) + "/"@ + hex(
            request@,
        ) + "?credentialType=expiringProfileKey"@,
{
    let mut path = "/v1/profile/".to_string();
    path.append(service_id);
    path.append("/");
    path.append(from_utf8(version).unwrap());
    path.append("/");
    path.append(hex_encode(request).as_str());
    path.append("?credentialType=expiringProfileKey");
    Request { method: Method::Get, path }
}

/// A stored credential is found for its account while its expiry is more than
/// [`SKEW`] away, and no longer; what is found for other accounts stays as it was.
pub proof fn stored_credential_is_found<C>(
    entries: Map<u128, (C, i128)>,
    aci: Aci,
    credential: C,
    expiry: i128,
    other: Aci,
    now: UnixTime,
)
    ensures
        usable(entries.insert(aci.uuid, (credential, expiry)), aci, now) == (if expiry > now.nanos
            + SKEW {
            Some(credential)
        } else {
            None
        }),
        other != aci ==> usable(entries.insert(aci.uuid, (credential, expiry)), other, now)
            == usable(entries, other, now),
{
}

/// Eviction keeps every credential that may be used, then or later, and nothing
/// that has expired.
pub proof fn eviction_keeps_what_is_usable<C>(
    entries: Map<u128, (C, i128)>,
    aci: Aci,
    now: UnixTime,
    later: UnixTime,
)
    requires
        now.nanos <= later.nanos,
    ensures
        usable(unexpired(entries, now), aci, later) == usable(entries, aci, later),
        unexpired(entries, now).contains_key(aci.uuid) <==> entries.contains_key(aci.uuid)
            && entries[aci.uuid].1 > now.nanos,
{
}

/// A credential that is found does not expire within [`SKEW`], and once it is no
/// longer found it stays so.
pub proof fn found_credential_is_fresh<C>(
    entries: Map<u128, (C, i128)>,
    aci: Aci,
    now: UnixTime,
    later: UnixTime,
)
    requires
        now.nanos <= later.nanos,
    ensures
        usable(entries, aci, now) is Some ==> entries[aci.uuid].1 - now.nanos > SKEW,
        usable(entries, aci, now) is None ==> usable(entries, aci, later) is None,
{
}

/// Nothing is found in an empty cache.
pub proof fn nothing_is_found_in_an_empty_cache<C>(aci: Aci, now: UnixTime)
    ensures
        usable(Map::<u128, (C, i128)>::empty(), aci, now) is None,
{
}

proof fn lemma_push_contains(list: Seq<u128>, last: u128, key: u128)
    ensures
        list.push(last).contains(key) == (list.contains(key) || key == last),
{
    let whole = list.push(last);
    assert(whole[list.len() as int] == last);
    if list.contains(key) {
        let j = choose|j: int| 0 <= j < list.len() && list[j] == key;
        assert(whole[j] == key);
    }
}

} // verus!
