//! Usernames: the links that share them, and the requests that look them up,
//! reserve and confirm them.

use crate::base64url::{
    base64_rejection, base64url, base64url_has_symbols_only, decode, decoded, encode, lemma_decoded,
};
use crate::link_url::{is_plain_fragment, signal_me, Url, UrlView};
use crate::laws::encodings::decoding_undoes_encoding;
use crate::laws::texts::{joined, segments_make_the_text};
use crate::octets::{array_of, same_bytes};
use crate::random::random_bytes;
use crate::service_error::ServiceError;
use crate::service_id::{Aci, ServiceIdKind};
use crate::text::{lemma_split_append, split, split_at, views};
use crate::uuid_bytes::{hyphenated, uuid_from_slice, uuid_text, UUID_LEN};
use crate::websocket::request::{asks, Method, Request, NOT_FOUND};
use vstd::prelude::*;
use vstd::slice::{slice_subrange, slice_to_vec};
use vstd::string::*;

verus! {

/// Length of the entropy that a username link carries.
pub const USERNAME_LINK_ENTROPY_SIZE: usize = 32;

/// Length of the hash of a username.
pub const USERNAME_HASH_SIZE: usize = 32;

/// The error for something that does not have the expected form.
pub open spec fn invalid_frame(reason: &'static str) -> ServiceError {
    ServiceError::InvalidFrame { reason }
}

/// The payload of a username link: the entropy, then the handle.
pub open spec fn link_payload(handle: Seq<u8>, entropy: Seq<u8>) -> Seq<char> {
    base64url(entropy + handle)
}

/// The username link with this handle and this entropy.
pub open spec fn username_link(handle: Seq<u8>, entropy: Seq<u8>) -> UrlView {
    signal_me("eu/"@ + link_payload(handle, entropy))
}

/// The handle and the entropy in the decoded payload of a username link.
pub open spec fn read_link_payload(bytes: Seq<u8>) -> Result<(Seq<u8>, Seq<u8>), ServiceError> {
    if bytes.len() < USERNAME_LINK_ENTROPY_SIZE {
        Err(invalid_frame("username link payload shorter than entropy"))
    } else if bytes.len() != USERNAME_LINK_ENTROPY_SIZE + UUID_LEN {
        Err(invalid_frame("username link payload missing handle UUID"))
    } else {
        Ok(
            (
                bytes.skip(USERNAME_LINK_ENTROPY_SIZE as int),
                bytes.take(USERNAME_LINK_ENTROPY_SIZE as int),
            ),
        )
    }
}

/// The handle and the entropy in a username link.
pub open spec fn read_username_link(link: UrlView) -> Result<(Seq<u8>, Seq<u8>), ServiceError> {
    if link.scheme != "https"@ || link.host != Some("signal.me"@) {
        Err(invalid_frame("username link base is not https://signal.me"))
    } else {
        match link.fragment {
            None => Err(invalid_frame("username link missing fragment")),
            Some(fragment) => {
                let segments = split_at(fragment, '/');
                if segments[0] != "eu"@ {
                    Err(invalid_frame("username link must start with #eu/"))
                } else if segments.len() < 2 {
                    Err(invalid_frame("username link payload missing"))
                } else if segments.len() > 2 {
                    Err(invalid_frame("username link has extra path segments"))
                } else {
                    match decoded(segments[1]) {
                        Some(bytes) => read_link_payload(bytes),
                        None => Err(ServiceError::Base64(base64_rejection(segments[1]))),
                    }
                }
            },
        }
    }
}

/// What came of reading a username link.
pub open spec fn link_result(
    result: Result<([u8; UUID_LEN], [u8; USERNAME_LINK_ENTROPY_SIZE]), ServiceError>,
) -> Result<(Seq<u8>, Seq<u8>), ServiceError> {
    match result {
        Ok((handle, entropy)) => Ok((handle@, entropy@)),
        Err(error) => Err(error),
    }
}

/// Whether two texts are the same.
fn same_text(a: &str, b: &str) -> (same: bool)
    ensures
        same == (a@ == b@),
{
    a.to_string() == b.to_string()
}

/// Splits the decoded payload of a username link.
pub fn parse_link_payload(bytes: &[u8]) -> (result: Result<
    ([u8; UUID_LEN], [u8; USERNAME_LINK_ENTROPY_SIZE]),
    ServiceError,
>)
    ensures
        link_result(result) == read_link_payload(bytes@),
        match result {
            Ok((handle, entropy)) => bytes@ == entropy@ + handle@,
            Err(error) => {
                &&& bytes@.len() != USERNAME_LINK_ENTROPY_SIZE + UUID_LEN
                &&& error == if bytes@.len() < USERNAME_LINK_ENTROPY_SIZE {
                    ServiceError::InvalidFrame {
                        reason: "username link payload shorter than entropy",
                    }
                } else {
                    ServiceError::InvalidFrame {
                        reason: "username link payload missing handle UUID",
                    }
                }
            },
        },
{
    if bytes.len() < USERNAME_LINK_ENTROPY_SIZE {
        return Err(
            ServiceError::InvalidFrame { reason: "username link payload shorter than entropy" },
        );
    }
    let entropy = array_of::<USERNAME_LINK_ENTROPY_SIZE>(
        slice_subrange(bytes, 0, USERNAME_LINK_ENTROPY_SIZE),
    ).unwrap();
    let rest = slice_subrange(bytes, USERNAME_LINK_ENTROPY_SIZE, bytes.len());
    proof {
        assert(entropy@ =~= bytes@.take(USERNAME_LINK_ENTROPY_SIZE as int));
        assert(rest@ =~= bytes@.skip(USERNAME_LINK_ENTROPY_SIZE as int));
    }
    assert(bytes@ =~= entropy@ + rest@);
    match uuid_from_slice(rest) {
        Some(handle) => Ok((handle, entropy)),
        None => Err(
            ServiceError::InvalidFrame { reason: "username link payload missing handle UUID" },
        ),
    }
}

/// Splits a username link into its link handle UUID and link entropy.
///
/// `link` must be a full `https://signal.me/#eu/<payload>` URL. The payload is
/// URL-safe base64 (no padding) of the 32-byte entropy followed by the 16-byte
/// handle UUID.
pub fn parse_username_link(link: &Url) -> (result: Result<
    ([u8; UUID_LEN], [u8; USERNAME_LINK_ENTROPY_SIZE]),
    ServiceError,
>)
    ensures
        link_result(result) == read_username_link(link@),
        match result {
            Ok((handle, entropy)) => {
                &&& link@.scheme == "https"@
                &&& link@.host == Some("signal.me"@)
                &&& link@.fragment == Some("eu/"@ + base64url(entropy@ + handle@))
            },
            Err(error) => forall|handle: Seq<u8>, entropy: Seq<u8>|
                handle.len() == UUID_LEN && entropy.len() == USERNAME_LINK_ENTROPY_SIZE
                    && link@.scheme == "https"@ && link@.host == Some("signal.me"@)
                    ==> link@.fragment != Some("eu/"@ + #[trigger] base64url(entropy + handle)),
        },
        result matches Err(error) ==> read_username_link(link@) == Err::<
            (Seq<u8>, Seq<u8>),
            ServiceError,
        >(error),
{
    proof {
        lemma_read_username_link(link@);
    }
    let base = ServiceError::InvalidFrame { reason: "username link base is not https://signal.me" };
    if !same_text(link.scheme(), "https") {
        return Err(base);
    }
    match link.host_str() {
        Some(host) => {
            if !same_text(host, "signal.me") {
                return Err(base);
            }
        },
        None => {
            return Err(base);
        },
    }
    let fragment = match link.fragment() {
        Some(fragment) => fragment,
        None => {
            return Err(ServiceError::InvalidFrame { reason: "username link missing fragment" });
        },
    };
    let segments = split(fragment, '/');
    proof {
        assert(views(segments@)[0] == segments@[0]@);
        assert(segments@.len() > 1 ==> views(segments@)[1] == segments@[1]@);
    }
    if !same_text(segments[0], "eu") {
        return Err(ServiceError::InvalidFrame { reason: "username link must start with #eu/" });
    }
    if segments.len() < 2 {
        return Err(ServiceError::InvalidFrame { reason: "username link payload missing" });
    }
    if segments.len() > 2 {
        return Err(ServiceError::InvalidFrame { reason: "username link has extra path segments" });
    }
    match decode(segments[1]) {
        Ok(bytes) => parse_link_payload(bytes.as_slice()),
        Err(error) => Err(ServiceError::Base64(error)),
    }
}

/// Builds the `https://signal.me/#eu/<base64url>` link from its parts.
///
/// `entropy` is the 32-byte link entropy; `handle` is the server-assigned link
/// handle UUID. The payload is the URL-safe base64 (no padding) of
/// `entropy || handle`.
pub fn generate_username_link(
    handle: [u8; UUID_LEN],
    entropy: &[u8; USERNAME_LINK_ENTROPY_SIZE],
) -> (link: Url)
    ensures
        link@ == username_link(handle@, entropy@),
        link@.scheme == "https"@,
        link@.host == Some("signal.me"@),
        link@.fragment == Some("eu/"@ + base64url(entropy@ + handle@)),
        link@.serialization == "https://signal.me/#"@ + ("eu/"@ + base64url(entropy@ + handle@)),
{
    let mut payload: Vec<u8> = Vec::new();
    payload.extend_from_slice(entropy.as_slice());
    payload.extend_from_slice(handle.as_slice());
    assert(payload@ =~= entropy@ + handle@);
    let mut text = "https://signal.me/#".to_string();
    text.append("eu/");
    text.append(encode(payload.as_slice()).as_str());
    let ghost fragment = "eu/"@ + link_payload(handle@, entropy@);
    proof {
        assert(text@ =~= signal_me(fragment).serialization);
        lemma_link_fragment(handle@, entropy@);
    }
    let url = Url::parse(text.as_str());
    url.unwrap()
}

/// A link is read to a handle and an entropy exactly where its payload is the base64
/// of the entropy with the handle behind it.
pub proof fn lemma_read_username_link(link: UrlView)
    ensures
        match read_username_link(link) {
            Ok((handle, entropy)) => {
                &&& handle.len() == UUID_LEN
                &&& entropy.len() == USERNAME_LINK_ENTROPY_SIZE
                &&& link.scheme == "https"@
                &&& link.host == Some("signal.me"@)
                &&& link.fragment == Some("eu/"@ + base64url(entropy + handle))
            },
            Err(error) => forall|handle: Seq<u8>, entropy: Seq<u8>|
                handle.len() == UUID_LEN && entropy.len() == USERNAME_LINK_ENTROPY_SIZE
                    && link.scheme == "https"@ && link.host == Some("signal.me"@)
                    ==> link.fragment != Some("eu/"@ + #[trigger] base64url(entropy + handle)),
        },
{
    match read_username_link(link) {
        Ok((handle, entropy)) => {
            let fragment = link.fragment->0;
            let segments = split_at(fragment, '/');
            segments_make_the_text(fragment, '/');
            reveal_with_fuel(joined, 2);
            assert(segments.drop_last() =~= seq![segments[0]]);
            reveal_strlit("eu");
            reveal_strlit("eu/");
            assert("eu"@.push('/') =~= "eu/"@);
            assert(fragment == "eu/"@ + segments[1]);
            let bytes = decoded(segments[1])->0;
            assert(entropy + handle =~= bytes);
            decoding_undoes_encoding(segments[1], bytes);
        },
        Err(error) => {
            assert forall|handle: Seq<u8>, entropy: Seq<u8>|
                handle.len() == UUID_LEN && entropy.len() == USERNAME_LINK_ENTROPY_SIZE
                    && link.scheme == "https"@ && link.host == Some(
                    "signal.me"@,
                ) implies link.fragment != Some("eu/"@ + #[trigger] base64url(entropy + handle)) by {
                username_link_reads_back(handle, entropy);
                if link.fragment == Some("eu/"@ + base64url(entropy + handle)) {
                    let whole = username_link(handle, entropy);
                    assert(read_username_link(link) == read_username_link(whole));
                }
            }
        },
    }
}

proof fn lemma_link_fragment(handle: Seq<u8>, entropy: Seq<u8>)
    ensures
        is_plain_fragment("eu/"@ + link_payload(handle, entropy)),
{
    reveal_strlit("eu/");
    base64url_has_symbols_only(entropy + handle);
    let payload = link_payload(handle, entropy);
    let fragment = "eu/"@ + payload;
    assert forall|i: int| 0 <= i < fragment.len() implies crate::base64url::is_symbol(
        #[trigger] fragment[i],
    ) || fragment[i] == '/' by {
        if i >= 3 {
            assert(fragment[i] == payload[i - 3]);
        }
    }
}

/// A username link is split into the handle and the entropy that it was built
/// from.
pub proof fn username_link_reads_back(handle: Seq<u8>, entropy: Seq<u8>)
    requires
        handle.len() == UUID_LEN,
        entropy.len() == USERNAME_LINK_ENTROPY_SIZE,
    ensures
        read_username_link(username_link(handle, entropy)) == Ok::<
            (Seq<u8>, Seq<u8>),
            ServiceError,
        >((handle, entropy)),
{
    let bytes = entropy + handle;
    let payload = link_payload(handle, entropy);
    reveal_strlit("eu/");
    reveal_strlit("eu");
    base64url_has_symbols_only(bytes);
    lemma_decoded(bytes);
    assert(!payload.contains('/')) by {
        if payload.contains('/') {
            let i = choose|i: int| 0 <= i < payload.len() && payload[i] == '/';
            assert(crate::base64url::is_symbol(payload[i]));
        }
    }
    assert("eu/"@ =~= "eu"@.push('/'));
    lemma_split_append("eu"@, '/', payload);
    assert(!"eu"@.contains('/'));
    lemma_split_append(Seq::empty(), '/', "eu"@);
    assert(bytes.take(USERNAME_LINK_ENTROPY_SIZE as int) =~= entropy);
    assert(bytes.skip(USERNAME_LINK_ENTROPY_SIZE as int) =~= handle);
}

/// A username with the hash that the server knows it by.
#[derive(Clone, Debug, PartialEq, Eq)]
pub struct Username {
    pub text: String,
    pub hash: [u8; USERNAME_HASH_SIZE],
}

/// The path at which the account with a username of this hash is found.
pub open spec fn username_hash_path(hash: Seq<u8>) -> Seq<char> {
    "/v1/accounts/username_hash/"@ + base64url(hash)
}

/// A step in looking up the account behind a username.
pub enum HashStep {
    /// Send the request, and go on with [`username_hash_answered`].
    Send(Request),
    /// Read the service identifier in the body, and go on with
    /// [`username_hash_parsed`].
    ReadBody,
    /// The look-up has come to its end.
    Finish(Result<Option<Aci>, ServiceError>),
}

/// Looks up the account with a username.
pub fn look_up_username(username: &Username) -> (step: HashStep)
    ensures
        step matches HashStep::Send(request) && request@ == asks(
            Method::Get,
            username_hash_path(username.hash@),
        ) && request.method == Method::Get && request.path@ == "/v1/accounts/username_hash/"@
            + base64url(username.hash@),
{
    assert("/v1/accounts/username_hash/"@.len() == 27) by {
        reveal_strlit("/v1/accounts/username_hash/");
    }
    look_up_username_hash(username.hash.as_slice())
}

/// Looks up the account with a username of this hash.
pub fn look_up_username_hash(hash: &[u8]) -> (step: HashStep)
    requires
        username_hash_path(hash@).len() <= isize::MAX,
    ensures
        step matches HashStep::Send(request) && request@ == asks(
            Method::Get,
            username_hash_path(hash@),
        ) && request.method == Method::Get && request.path@ == "/v1/accounts/username_hash/"@
            + base64url(hash@),
{
    let mut path = "/v1/accounts/username_hash/".to_string();
    path.append(encode(hash).as_str());
    HashStep::Send(Request { method: Method::Get, path })
}

/// Goes on with the status of the response. A username that nobody has is no
/// error.
pub fn username_hash_answered(status: u16) -> (step: HashStep)
    ensures
        step == (if status == NOT_FOUND {
            HashStep::Finish(Ok(None))
        } else {
            HashStep::ReadBody
        }),
{
    if status == NOT_FOUND {
        HashStep::Finish(Ok(None))
    } else {
        HashStep::ReadBody
    }
}

/// Ends with the account identifier that the service identifier in the body
/// spells, if it spells one.
pub fn username_hash_parsed(aci: Option<Aci>) -> (step: HashStep)
    ensures
        step == HashStep::Finish(
            match aci {
                Some(aci) => Ok(Some(aci)),
                None => Err(ServiceError::InvalidAddressType(ServiceIdKind::Aci)),
            },
        ),
{
    match aci {
        Some(aci) => HashStep::Finish(Ok(Some(aci))),
        None => HashStep::Finish(Err(ServiceError::InvalidAddressType(ServiceIdKind::Aci))),
    }
}

/// The path at which the encrypted username behind a link handle is found.
pub open spec fn username_link_path(handle: Seq<u8>) -> Seq<char> {
    "/v1/accounts/username_link/"@ + hyphenated(handle)
}

/// A request for the encrypted username behind a link.
pub struct LinkRequest {
    pub request: Request,
    pub entropy: [u8; USERNAME_LINK_ENTROPY_SIZE],
}

/// A response whose body holds an encrypted username.
pub struct LinkBody {
    pub entropy: [u8; USERNAME_LINK_ENTROPY_SIZE],
}

/// A username to be decrypted with the entropy of its link.
pub struct LinkDecryption {
    pub entropy: [u8; USERNAME_LINK_ENTROPY_SIZE],
    pub encrypted_username: Vec<u8>,
}

/// A decrypted username, of which it is not known yet whether it is valid.
pub struct LinkValidation {
    pub plaintext_username: String,
}

/// A step in looking up the username behind a link.
pub enum LinkStep {
    /// Send the request, and go on with [`LinkRequest::answered`].
    Send(LinkRequest),
    /// Read the encrypted username in the body, and go on with
    /// [`LinkBody::received`].
    ReadBody(LinkBody),
    /// Decrypt the username, and go on with [`LinkDecryption::decrypted`].
    Decrypt(LinkDecryption),
    /// Check the username, and go on with [`LinkValidation::validated`].
    Validate(LinkValidation),
    /// The look-up has come to its end.
    Finish(Result<Option<Username>, ServiceError>),
}

/// The error for a link behind which there is no username.
pub open spec fn undecryptable() -> ServiceError {
    invalid_frame("undecryptable username link")
}

/// Looks up the encrypted username stored at a username link handle and
/// decrypts it.
///
/// `link` must be a full `https://signal.me/#eu/<payload>` URL. The payload is
/// the URL-safe base64 encoding of the 32-byte link entropy followed by the
/// 16-byte link handle UUID.
pub fn look_up_username_link(link: &Url) -> (step: LinkStep)
    ensures
        match read_username_link(link@) {
            Ok((handle, entropy)) => {
                &&& step matches LinkStep::Send(next)
                &&& next.request@ == asks(Method::Get, username_link_path(handle))
                &&& next.request.method == Method::Get
                &&& next.request.path@ == "/v1/accounts/username_link/"@ + hyphenated(handle)
                &&& next.entropy@ == entropy
                &&& link@.fragment == Some("eu/"@ + base64url(entropy + handle))
            },
            Err(error) => step == LinkStep::Finish(Err(error)),
        },
{
    match parse_username_link(link) {
        Ok((handle, entropy)) => {
            let mut path = "/v1/accounts/username_link/".to_string();
            path.append(uuid_text(&handle).as_str());
            LinkStep::Send(LinkRequest { request: Request { method: Method::Get, path }, entropy })
        },
        Err(error) => LinkStep::Finish(Err(error)),
    }
}

impl LinkRequest {
    /// Goes on with the status of the response. A handle that is not in use is
    /// no error.
    pub fn answered(self, status: u16) -> (step: LinkStep)
        ensures
            step == (if status == NOT_FOUND {
                LinkStep::Finish(Ok(None))
            } else {
                LinkStep::ReadBody(LinkBody { entropy: self.entropy })
            }),
    {
        if status == NOT_FOUND {
            LinkStep::Finish(Ok(None))
        } else {
            LinkStep::ReadBody(LinkBody { entropy: self.entropy })
        }
    }
}

impl LinkBody {
    /// Goes on with the encrypted username.
    pub fn received(self, encrypted_username: Vec<u8>) -> (step: LinkStep)
        ensures
            step == LinkStep::Decrypt(
                (LinkDecryption { entropy: self.entropy, encrypted_username }),
            ),
    {
        LinkStep::Decrypt(LinkDecryption { entropy: self.entropy, encrypted_username })
    }
}

impl LinkDecryption {
    /// Goes on with the username, if it could be decrypted.
    pub fn decrypted(self, plaintext_username: Option<String>) -> (step: LinkStep)
        ensures
            step == (match plaintext_username {
                Some(plaintext_username) => LinkStep::Validate(
                    LinkValidation { plaintext_username },
                ),
                None => LinkStep::Finish(Err(undecryptable())),
            }),
    {
        match plaintext_username {
            Some(plaintext_username) => LinkStep::Validate(LinkValidation { plaintext_username }),
            None => LinkStep::Finish(
                Err(ServiceError::InvalidFrame { reason: "undecryptable username link" }),
            ),
        }
    }
}

impl LinkValidation {
    /// Ends with the username, if it is valid. The user never typed this
    /// username, so it does not matter in which way it is invalid: it is as if
    /// the link had led to something else.
    pub fn validated(self, username: Option<Username>) -> (step: LinkStep)
        ensures
            step == LinkStep::Finish(
                match username {
                    Some(username) => Ok(Some(username)),
                    None => Err(undecryptable()),
                },
            ),
    {
        match username {
            Some(username) => LinkStep::Finish(Ok(Some(username))),
            None => LinkStep::Finish(
                Err(ServiceError::InvalidFrame { reason: "undecryptable username link" }),
            ),
        }
    }
}

/// What is asked of the server to reserve a username: the candidates' hashes.
#[derive(Clone, Debug, PartialEq, Eq)]
pub struct ReserveUsernameRequest {
    pub username_hashes: Vec<String>,
}

/// The texts in a list.
pub open spec fn texts(list: Seq<String>) -> Seq<Seq<char>> {
    Seq::new(list.len(), |i: int| list[i]@)
}

/// The base64 of each candidate's hash.
pub open spec fn encoded_hashes(candidates: Seq<Username>) -> Seq<Seq<char>> {
    Seq::new(candidates.len(), |i: int| base64url(candidates[i].hash@))
}

/// Reserves one of the candidate usernames: the request, and what goes with it.
///
/// The reservation is tentative until the username is confirmed. The server
/// answers with status 409 when every candidate is taken, and with 429 when there
/// were too many requests.
pub fn reserve_username(candidates: &[Username]) -> (request: (Request, ReserveUsernameRequest))
    ensures
        request.0@ == asks(Method::Put, "/v1/accounts/username_hash/reserve"@),
        texts(request.1.username_hashes@) == encoded_hashes(candidates@),
        request.0.method == Method::Put,
        request.0.path@ == "/v1/accounts/username_hash/reserve"@,
        request.1.username_hashes@.len() == candidates@.len(),
        forall|i: int|
            0 <= i < candidates@.len() ==> (#[trigger] request.1.username_hashes@[i])@ == base64url(
                candidates@[i].hash@,
            ),
{
    let mut username_hashes: Vec<String> = Vec::new();
    let mut i: usize = 0;
    while i < candidates.len()
        invariant
            i <= candidates.len(),
            username_hashes@.len() == i,
            forall|j: int|
                0 <= j < i ==> (#[trigger] username_hashes@[j])@ == base64url(candidates@[j].hash@),
        decreases candidates.len() - i,
    {
        username_hashes.push(encode(candidates[i].hash.as_slice()));
        i += 1;
    }
    assert(texts(username_hashes@) =~= encoded_hashes(candidates@));
    let path = "/v1/accounts/username_hash/reserve".to_string();
    (Request { method: Method::Put, path }, ReserveUsernameRequest { username_hashes })
}

/// Whether a candidate has this hash.
pub open spec fn has_hash(candidate: Username, hash: Seq<u8>) -> bool {
    candidate.hash@ == hash
}

/// The index of the candidate that the server reserved, told by its hash: the
/// first one that has it.
pub fn reserved_username(candidates: &[Username], username_hash: &[u8]) -> (result: Result<
    usize,
    ServiceError,
>)
    ensures
        match result {
            Ok(index) => {
                &&& index < candidates@.len()
                &&& has_hash(candidates@[index as int], username_hash@)
                &&& forall|i: int|
                    0 <= i < index ==> !has_hash(#[trigger] candidates@[i], username_hash@)
                &&& candidates@[index as int].hash@ == username_hash@
                &&& forall|i: int| 0 <= i < index ==> (#[trigger] candidates@[i]).hash@ != username_hash@
            },
            Err(error) => {
                &&& error == invalid_frame("server reserved a hash we did not offer")
                &&& forall|i: int|
                    0 <= i < candidates@.len() ==> (#[trigger] candidates@[i]).hash@ != username_hash@
                &&& forall|i: int|
                    0 <= i < candidates@.len() ==> !has_hash(
                        #[trigger] candidates@[i],
                        username_hash@,
                    )
            },
        },
{
    let mut i: usize = 0;
    while i < candidates.len()
        invariant
            i <= candidates.len(),
            forall|j: int| 0 <= j < i ==> !has_hash(#[trigger] candidates@[j], username_hash@),
        decreases candidates.len() - i,
    {
        if same_bytes(candidates[i].hash.as_slice(), username_hash) {
            return Ok(i);
        }
        i += 1;
    }
    Err(ServiceError::InvalidFrame { reason: "server reserved a hash we did not offer" })
}

/// A confirmed username: the account's new username, its server-assigned link
/// handle, and the link entropy needed to reconstruct the shareable URL (via
/// [`generate_username_link`]).
#[derive(Clone, Debug, PartialEq, Eq)]
pub struct ConfirmedUsername {
    pub username: Username,
    pub link_handle: [u8; UUID_LEN],
    pub link_entropy: [u8; USERNAME_LINK_ENTROPY_SIZE],
}

impl ConfirmedUsername {
    /// The link that shares the username.
    pub fn link(&self) -> (link: Url)
        ensures
            link@ == username_link(self.link_handle@, self.link_entropy@),
            link@.serialization == "https://signal.me/#"@ + ("eu/"@ + base64url(
                self.link_entropy@ + self.link_handle@,
            )),
    {
        generate_username_link(self.link_handle, &self.link_entropy)
    }
}

/// What is sent to confirm a username.
#[derive(Clone, Debug, PartialEq, Eq)]
pub struct ConfirmUsernameRequest {
    pub username_hash: Vec<u8>,
    pub zk_proof: Vec<u8>,
    pub encrypted_username: Vec<u8>,
}

/// What the proof of a username is made of.
pub struct UsernameProof {
    pub username: Username,
    pub link_entropy: Option<[u8; USERNAME_LINK_ENTROPY_SIZE]>,
    pub randomness: [u8; 32],
}

/// What the link of a proven username is made of. Passing the previous link
/// entropy back in reclaims the existing link URL; `None` mints a fresh link.
pub struct UsernameLink {
    pub username: Username,
    pub link_entropy: Option<[u8; USERNAME_LINK_ENTROPY_SIZE]>,
    pub zk_proof: Vec<u8>,
}

/// A confirmation that is ready to be sent.
pub struct UsernameConfirmation {
    pub request: Request,
    pub body: ConfirmUsernameRequest,
    pub username: Username,
    pub link_entropy: [u8; USERNAME_LINK_ENTROPY_SIZE],
}

/// A step in confirming a username.
pub enum ConfirmStep {
    /// Prove the username with the randomness, and go on with
    /// [`UsernameProof::proven`].
    Prove(UsernameProof),
    /// Encrypt the username for its link, and go on with
    /// [`UsernameLink::created`].
    CreateLink(UsernameLink),
    /// Send the request with its body, and go on with
    /// [`UsernameConfirmation::confirmed`].
    Send(UsernameConfirmation),
    /// The confirmation has come to its end.
    Finish(Result<ConfirmedUsername, ServiceError>),
}

/// Confirms a username previously reserved with [`reserve_username`],
/// simultaneously establishing its username link (the encrypted username that is
/// sent along is the link blob).
///
/// The server answers with status 409 when the reservation is missing or does not
/// match, with 410 when the username has become unavailable, and with 429 when
/// there were too many requests. Of the randomness, nothing can be said.
pub fn confirm_username(
    username: Username,
    link_entropy: Option<[u8; USERNAME_LINK_ENTROPY_SIZE]>,
    rng: &mut rand::rngs::ThreadRng,
) -> (step: ConfirmStep)
    ensures
        step matches ConfirmStep::Prove(next) && next.username == username && next.link_entropy
            == link_entropy,
{
    let randomness = array_of::<32>(random_bytes(rng, 32).as_slice()).unwrap();
    ConfirmStep::Prove(UsernameProof { username, link_entropy, randomness })
}

impl UsernameProof {
    /// Goes on with the proof, if there is one.
    pub fn proven(self, zk_proof: Option<Vec<u8>>) -> (step: ConfirmStep)
        ensures
            step == (match zk_proof {
                Some(zk_proof) => ConfirmStep::CreateLink(
                    UsernameLink {
                        username: self.username,
                        link_entropy: self.link_entropy,
                        zk_proof,
                    },
                ),
                None => ConfirmStep::Finish(
                    Err(invalid_frame("failed to generate username proof")),
                ),
            }),
    {
        match zk_proof {
            Some(zk_proof) => ConfirmStep::CreateLink(
                UsernameLink { username: self.username, link_entropy: self.link_entropy, zk_proof },
            ),
            None => ConfirmStep::Finish(
                Err(ServiceError::InvalidFrame { reason: "failed to generate username proof" }),
            ),
        }
    }
}

impl UsernameLink {
    /// Goes on with the entropy of the link and the encrypted username, if the
    /// username could be encrypted.
    pub fn created(
        self,
        link: Option<([u8; USERNAME_LINK_ENTROPY_SIZE], Vec<u8>)>,
    ) -> (step: ConfirmStep)
        ensures
            match link {
                Some((entropy, encrypted_username)) => {
                    &&& step matches ConfirmStep::Send(next)
                    &&& next.request@ == asks(Method::Put, "/v1/accounts/username_hash/confirm"@)
                    &&& next.request.method == Method::Put
                    &&& next.request.path@ == "/v1/accounts/username_hash/confirm"@
                    &&& next.body.username_hash@ == self.username.hash@
                    &&& next.body.zk_proof == self.zk_proof
                    &&& next.body.encrypted_username == encrypted_username
                    &&& next.username == self.username
                    &&& next.link_entropy == entropy
                },
                None => step == ConfirmStep::Finish(
                    Err(invalid_frame("username too long to encrypt")),
                ),
            },
    {
        match link {
            Some((link_entropy, encrypted_username)) => {
                let path = "/v1/accounts/username_hash/confirm".to_string();
                let username_hash = slice_to_vec(self.username.hash.as_slice());
                ConfirmStep::Send(
                    UsernameConfirmation {
                        request: Request { method: Method::Put, path },
                        body: ConfirmUsernameRequest {
                            username_hash,
                            zk_proof: self.zk_proof,
                            encrypted_username,
                        },
                        username: self.username,
                        link_entropy,
                    },
                )
            },
            None => ConfirmStep::Finish(
                Err(ServiceError::InvalidFrame { reason: "username too long to encrypt" }),
            ),
        }
    }
}

impl UsernameConfirmation {
    /// Ends with the handle that the server assigned.
    pub fn confirmed(self, link_handle: [u8; UUID_LEN]) -> (step: ConfirmStep)
        ensures
            step == ConfirmStep::Finish(
                Ok(
                    (ConfirmedUsername {
                        username: self.username,
                        link_handle,
                        link_entropy: self.link_entropy,
                    }),
                ),
            ),
    {
        ConfirmStep::Finish(
            Ok(
                ConfirmedUsername {
                    username: self.username,
                    link_handle,
                    link_entropy: self.link_entropy,
                },
            ),
        )
    }
}

/// Clears the account's username (and thereby its username link).
pub fn delete_username() -> (request: Request)
    ensures
        request@ == asks(Method::Delete, "/v1/accounts/username_hash"@),
        request.method == Method::Delete,
        request.path@ == "/v1/accounts/username_hash"@,
{
    Request { method: Method::Delete, path: "/v1/accounts/username_hash".to_string() }
}

/// Deletes the account's username link (the username itself remains).
pub fn delete_username_link() -> (request: Request)
    ensures
        request@ == asks(Method::Delete, "/v1/accounts/username_link"@),
        request.method == Method::Delete,
        request.path@ == "/v1/accounts/username_link"@,
{
    Request { method: Method::Delete, path: "/v1/accounts/username_link".to_string() }
}

/// What is sent to set a username link.
#[derive(Clone, Debug, PartialEq, Eq)]
pub struct SetUsernameLinkRequest {
    pub username_link_encrypted_value: Vec<u8>,
    pub keep_link_handle: bool,
}

/// A username to be encrypted with fresh entropy for its link.
pub struct LinkCreation {
    pub plaintext_username: String,
    pub keep_link_handle: bool,
}

/// A username link that is ready to be set.
pub struct LinkSetting {
    pub request: Request,
    pub body: SetUsernameLinkRequest,
    pub entropy: [u8; USERNAME_LINK_ENTROPY_SIZE],
}

/// Sets the account's username link to encrypt `username`: encrypt it with fresh
/// entropy, go on with [`LinkCreation::created`], send the request with its body,
/// and go on with [`LinkSetting::finished`].
///
/// Unless `keep_link_handle` is `true` and the account already has a link handle,
/// the server assigns a fresh handle.
pub fn set_username_link(username: &Username, keep_link_handle: bool) -> (next: LinkCreation)
    ensures
        next.plaintext_username@ == username.text@,
        next.keep_link_handle == keep_link_handle,
{
    LinkCreation { plaintext_username: username.text.as_str().to_string(), keep_link_handle }
}

impl LinkCreation {
    /// Goes on with the entropy of the link and the encrypted username, if the
    /// username could be encrypted.
    pub fn created(self, link: Option<([u8; USERNAME_LINK_ENTROPY_SIZE], Vec<u8>)>) -> (result:
        Result<LinkSetting, ServiceError>)
        ensures
            match link {
                Some((entropy, encrypted_username)) => {
                    &&& result matches Ok(next)
                    &&& next.request@ == asks(Method::Put, "/v1/accounts/username_link"@)
                    &&& next.request.method == Method::Put
                    &&& next.request.path@ == "/v1/accounts/username_link"@
                    &&& next.body.username_link_encrypted_value == encrypted_username
                    &&& next.body.keep_link_handle == self.keep_link_handle
                    &&& next.entropy == entropy
                },
                None => result == Err::<LinkSetting, ServiceError>(
                    invalid_frame("username too long to encrypt"),
                ),
            },
    {
        match link {
            Some((entropy, username_link_encrypted_value)) => Ok(
                LinkSetting {
                    request: Request {
                        method: Method::Put,
                        path: "/v1/accounts/username_link".to_string(),
                    },
                    body: SetUsernameLinkRequest {
                        username_link_encrypted_value,
                        keep_link_handle: self.keep_link_handle,
                    },
                    entropy,
                },
            ),
            None => Err(ServiceError::InvalidFrame { reason: "username too long to encrypt" }),
        }
    }
}

impl LinkSetting {
    /// Ends with the shareable `https://signal.me/#eu/...` link for the handle
    /// that the server answered with.
    pub fn finished(self, handle: [u8; UUID_LEN]) -> (link: Url)
        ensures
            link@ == username_link(handle@, self.entropy@),
            link@.serialization == "https://signal.me/#"@ + ("eu/"@ + base64url(
                self.entropy@ + handle@,
            )),
    {
        generate_username_link(handle, &self.entropy)
    }
}

} // verus!
