//! Group invite links: `https://signal.group/#<base64url(GroupInviteLink)>`.
//!
//! The fragment carries the group master key and the current invite-link
//! password. Anyone holding the link can therefore read the group's join
//! info; the password (not the key alone) is what the server checks when
//! they try to join, so rotating the password invalidates old links.

use crate::base64url::{
    base64_len, base64_rejection, base64url, base64url_has_symbols_only, decode, decoded, encode,
    is_symbol, lemma_decoded, Base64Error,
};
use crate::octets::array_of;
use crate::random::random_bytes;
use crate::text::{
    is_blank, lemma_starts_with, lemma_trim_append, lemma_trim_blanks, lemma_without_trailing,
    starts_with, strip_prefix, trim, trim_end, trim_end_matches, trim_start, white_space,
    without_trailing,
};
use crate::wire::{
    decode_envelope, encode_envelope, envelope_reads_back, field, read_envelope, write_envelope,
    write_pair, MalformedMessage, MalformedView, MessageNames, Pair, PairView,
};
use vstd::prelude::*;
use vstd::string::*;

verus! {

/// Length of the password Signal's clients generate for a new link.
pub const INVITE_LINK_PASSWORD_LEN: usize = 16;

/// Length of a group master key.
pub const GROUP_MASTER_KEY_LEN: usize = 32;

/// Why a text is no invite link.
#[derive(Clone, Debug, PartialEq, Eq)]
pub enum InviteLinkError {
    /// Not a signal.group invite link.
    NotAnInviteLink,
    /// The fragment is not valid base64url.
    Base64(Base64Error),
    /// The contents could not be decoded.
    Decode(MalformedMessage),
    /// The link is of an unsupported version.
    UnsupportedVersion,
    /// The link carries a master key of the wrong length.
    WrongMasterKeyLength,
}

/// What an [`InviteLinkError`] says.
pub enum LinkErrorView {
    NotAnInviteLink,
    Base64(Base64Error),
    Decode(MalformedView),
    UnsupportedVersion,
    WrongMasterKeyLength,
}

impl View for InviteLinkError {
    type V = LinkErrorView;

    open spec fn view(&self) -> LinkErrorView {
        match *self {
            InviteLinkError::NotAnInviteLink => LinkErrorView::NotAnInviteLink,
            InviteLinkError::Base64(error) => LinkErrorView::Base64(error),
            InviteLinkError::Decode(error) => LinkErrorView::Decode(error@),
            InviteLinkError::UnsupportedVersion => LinkErrorView::UnsupportedVersion,
            InviteLinkError::WrongMasterKeyLength => LinkErrorView::WrongMasterKeyLength,
        }
    }
}

/// The names by which a decoding error tells where it is.
pub fn invite_link_names() -> (names: MessageNames)
    ensures
        names.message@ == "GroupInviteLink"@,
        names.embedded@ == "contents"@,
        names.inner@ == "GroupInviteLinkContentsV1"@,
        names.first@ == "group_master_key"@,
        names.second@ == "invite_link_password"@,
{
    MessageNames {
        message: "GroupInviteLink",
        embedded: "contents",
        inner: "GroupInviteLinkContentsV1",
        first: "group_master_key",
        second: "invite_link_password",
    }
}

/// The decoded contents of an invite link. Both fields are secrets: the key lets
/// anyone read the group.
#[derive(Clone, PartialEq, Eq)]
pub struct GroupInviteLink {
    pub master_key: [u8; GROUP_MASTER_KEY_LEN],
    pub password: Vec<u8>,
}

/// What a link holds.
#[verifier::ext_equal]
pub struct InviteLinkView {
    pub master_key: Seq<u8>,
    pub password: Seq<u8>,
}

impl View for GroupInviteLink {
    type V = InviteLinkView;

    open spec fn view(&self) -> InviteLinkView {
        InviteLinkView { master_key: self.master_key@, password: self.password@ }
    }
}

/// A byte field that is left out of a message where it is empty.
pub open spec fn unless_empty(bytes: Seq<u8>) -> Option<Seq<u8>> {
    if bytes.len() == 0 {
        None
    } else {
        Some(bytes)
    }
}

/// The bytes of a field, none where the message left it out.
pub open spec fn or_empty(value: Option<Seq<u8>>) -> Seq<u8> {
    match value {
        Some(bytes) => bytes,
        None => Seq::empty(),
    }
}

impl InviteLinkView {
    /// The message that the fragment carries.
    pub open spec fn contents(self) -> Seq<u8> {
        write_envelope(
            Some(
                PairView {
                    first: unless_empty(self.master_key),
                    second: unless_empty(self.password),
                },
            ),
        )
    }

    /// The shareable URL.
    pub open spec fn url(self) -> Seq<char> {
        "https://signal.group/#"@ + base64url(self.contents())
    }

    /// What a message says, taken as the contents of a link.
    pub open spec fn read_contents(bytes: Seq<u8>) -> Result<InviteLinkView, LinkErrorView> {
        match read_envelope(None, bytes) {
            Err(error) => Err(LinkErrorView::Decode(error)),
            Ok(None) => Err(LinkErrorView::UnsupportedVersion),
            Ok(Some(pair)) => if or_empty(pair.first).len() == GROUP_MASTER_KEY_LEN {
                Ok(
                    InviteLinkView {
                        master_key: or_empty(pair.first),
                        password: or_empty(pair.second),
                    },
                )
            } else {
                Err(LinkErrorView::WrongMasterKeyLength)
            },
        }
    }

    /// What a fragment says, taken as that of a link. Padding at its end does not
    /// count.
    pub open spec fn read_fragment(fragment: Seq<char>) -> Result<InviteLinkView, LinkErrorView> {
        let text = without_trailing(fragment, '=');
        match decoded(text) {
            None => Err(LinkErrorView::Base64(base64_rejection(text))),
            Some(bytes) => Self::read_contents(bytes),
        }
    }

    /// What a text says, taken as a link.
    pub open spec fn read(text: Seq<char>) -> Result<InviteLinkView, LinkErrorView> {
        match link_fragment(trim_end(trim_start(text))) {
            None => Err(LinkErrorView::NotAnInviteLink),
            Some(fragment) => Self::read_fragment(fragment),
        }
    }
}

/// What follows `prefix` in `s`, if `s` begins with it.
pub open spec fn after_prefix(s: Seq<char>, prefix: Seq<char>) -> Option<Seq<char>> {
    if starts_with(s, prefix) {
        Some(s.skip(prefix.len() as int))
    } else {
        None
    }
}

/// The fragment of a URL `https://signal.group/#…` or `sgnl://signal.group/#…`.
pub open spec fn link_fragment(url: Seq<char>) -> Option<Seq<char>> {
    let rest = match after_prefix(url, "https://"@) {
        Some(rest) => Some(rest),
        None => after_prefix(url, "sgnl://"@),
    };
    match rest {
        Some(rest) => match after_prefix(rest, "signal.group"@) {
            Some(path) => after_prefix(path, "/#"@),
            None => None,
        },
        None => None,
    }
}

/// What came of reading a link.
pub open spec fn link_result(result: Result<GroupInviteLink, InviteLinkError>) -> Result<
    InviteLinkView,
    LinkErrorView,
> {
    match result {
        Ok(link) => Ok(link@),
        Err(error) => Err(error@),
    }
}

impl GroupInviteLink {
    /// Generates a fresh random password of the standard length.
    pub fn generate_password(rng: &mut rand::rngs::ThreadRng) -> (password: Vec<u8>)
        ensures
            password@.len() == INVITE_LINK_PASSWORD_LEN,
            password@.len() == 16,
    {
        random_bytes(rng, INVITE_LINK_PASSWORD_LEN)
    }

    /// The password as it appears in groups-server paths and queries.
    pub fn encode_password(password: &[u8]) -> (text: String)
        requires
            base64_len(password@.len()) <= isize::MAX,
        ensures
            text@ == base64url(password@),
    {
        encode(password)
    }

    /// Renders the shareable `https://signal.group/#…` URL.
    pub fn to_url(&self) -> (url: String)
        requires
            self@.url().len() <= isize::MAX,
        ensures
            url@ == self@.url(),
            url@ == "https://signal.group/#"@ + base64url(
                field(
                    1,
                    field(1, self.master_key@) + (if self.password@.len() == 0 {
                        Seq::empty()
                    } else {
                        field(2, self.password@)
                    }),
                ),
            ),
    {
        let key = vstd::slice::slice_to_vec(self.master_key.as_slice());
        let pair = Pair {
            first: Some(key),
            second: if self.password.len() == 0 {
                None
            } else {
                Some(self.password.clone())
            },
        };
        let contents = Some(pair);
        let bytes = encode_envelope(&contents);
        let mut url = "https://signal.group/#".to_string();
        url.append(encode(bytes.as_slice()).as_str());
        url
    }

    /// Parses an `https://signal.group/#…` or `sgnl://signal.group/#…` URL.
    pub fn parse(url: &str) -> (result: Result<Self, InviteLinkError>)
        ensures
            link_result(result) == InviteLinkView::read(url@),
    {
        let url = trim(url);
        let rest = match strip_prefix(url, "https://") {
            Some(rest) => rest,
            None => match strip_prefix(url, "sgnl://") {
                Some(rest) => rest,
                None => {
                    return Err(InviteLinkError::NotAnInviteLink);
                },
            },
        };
        let path = match strip_prefix(rest, "signal.group") {
            Some(path) => path,
            None => {
                return Err(InviteLinkError::NotAnInviteLink);
            },
        };
        match strip_prefix(path, "/#") {
            Some(fragment) => Self::from_fragment(fragment),
            None => Err(InviteLinkError::NotAnInviteLink),
        }
    }

    /// Parses the fragment of a link. It is lenient about padding: links are made
    /// without it, but one pasted through a tool that "fixes" base64 may have gained
    /// some.
    pub fn from_fragment(fragment: &str) -> (result: Result<Self, InviteLinkError>)
        ensures
            link_result(result) == InviteLinkView::read_fragment(fragment@),
    {
        match decode(trim_end_matches(fragment, '=')) {
            Ok(bytes) => Self::from_contents(bytes.as_slice()),
            Err(error) => Err(InviteLinkError::Base64(error)),
        }
    }

    /// Reads the message that the fragment of a link encodes.
    pub fn from_contents(bytes: &[u8]) -> (result: Result<Self, InviteLinkError>)
        ensures
            link_result(result) == InviteLinkView::read_contents(bytes@),
            result matches Ok(link) ==> {
                &&& read_envelope(None, bytes@) matches Ok(Some(pair))
                &&& pair.first == Some(link.master_key@)
                &&& pair.second == Some(link.password@) || (pair.second is None && link.password@
                    =~= Seq::empty())
            },
    {
        match decode_envelope(bytes) {
            Err(error) => Err(InviteLinkError::Decode(error)),
            Ok(None) => Err(InviteLinkError::UnsupportedVersion),
            Ok(Some(pair)) => {
                let key = match pair.first {
                    Some(key) => key,
                    None => Vec::new(),
                };
                let password = match pair.second {
                    Some(password) => password,
                    None => Vec::new(),
                };
                match array_of::<GROUP_MASTER_KEY_LEN>(key.as_slice()) {
                    Some(master_key) => Ok(GroupInviteLink { master_key, password }),
                    None => Err(InviteLinkError::WrongMasterKeyLength),
                }
            },
        }
    }

    /// The text that stands for a link in logs. It shows neither the key nor the
    /// password.
    pub fn debug_text(&self) -> (text: String)
        ensures
            text@ == "GroupInviteLink { .. }"@,
    {
        "GroupInviteLink { .. }".to_string()
    }
}

proof fn lemma_contents(link: InviteLinkView)
    requires
        link.master_key.len() == GROUP_MASTER_KEY_LEN,
        link.contents().len() <= u64::MAX,
    ensures
        InviteLinkView::read_contents(link.contents()) == Ok::<InviteLinkView, LinkErrorView>(
            link,
        ),
        base64url(link.contents()).len() > 0,
{
    let pair = PairView {
        first: unless_empty(link.master_key),
        second: unless_empty(link.password),
    };
    envelope_reads_back(Some(pair));
    assert(or_empty(pair.first) =~= link.master_key);
    assert(or_empty(pair.second) =~= link.password);
    assert(link.contents() == field(1, write_pair(pair)));
    assert(link.contents().len() > 0);
}

proof fn lemma_after_prefix(prefix: Seq<char>, rest: Seq<char>)
    ensures
        after_prefix(prefix + rest, prefix) == Some(rest),
{
    lemma_starts_with(prefix, rest);
}

proof fn lemma_link_fragment(scheme: Seq<char>, fragment: Seq<char>)
    requires
        scheme == "https://"@ || scheme == "sgnl://"@,
    ensures
        link_fragment(scheme + ("signal.group"@ + ("/#"@ + fragment))) == Some(fragment),
        scheme.len() > 0,
        !white_space(scheme[0]),
{
    let path = "/#"@ + fragment;
    let rest = "signal.group"@ + path;
    let url = scheme + rest;
    lemma_after_prefix(scheme, rest);
    lemma_after_prefix("signal.group"@, path);
    lemma_after_prefix("/#"@, fragment);
    reveal_strlit("https://");
    reveal_strlit("sgnl://");
    if scheme == "sgnl://"@ {
        assert(url[0] == 's');
        if starts_with(url, "https://"@) {
            assert(url.take(8)[0] == 'h');
        }
    }
}

/// A link is read back from its URL in each of the two schemes, with white space
/// around it and with padding at its end.
pub proof fn link_reads_back(
    link: InviteLinkView,
    before: Seq<char>,
    scheme: Seq<char>,
    padding: nat,
    after: Seq<char>,
)
    requires
        link.master_key.len() == GROUP_MASTER_KEY_LEN,
        link.contents().len() <= u64::MAX,
        is_blank(before),
        scheme == "https://"@ || scheme == "sgnl://"@,
        is_blank(after),
    ensures
        InviteLinkView::read(
            before + (scheme + "signal.group"@ + "/#"@ + base64url(link.contents()) + Seq::new(
                padding,
                |i: int| '=',
            )) + after,
        ) == Ok::<InviteLinkView, LinkErrorView>(link),
{
    let code = base64url(link.contents());
    let pad = Seq::new(padding, |i: int| '=');
    let fragment = code + pad;
    let url = scheme + ("signal.group"@ + ("/#"@ + fragment));
    assert(scheme + "signal.group"@ + "/#"@ + code + pad =~= url);
    assert(code.len() > 0) by {
        lemma_contents(link);
    }
    assert(code.last() != '=' && !white_space(code.last())) by {
        base64url_has_symbols_only(link.contents());
        assert(is_symbol(code.last()));
    }
    lemma_link_fragment(scheme, fragment);
    assert(url[0] == scheme[0]);
    assert(url.last() == if padding > 0 {
        '='
    } else {
        code.last()
    });
    lemma_trim_blanks(before, url, after);
    lemma_without_trailing(code, '=', padding);
    assert(InviteLinkView::read_fragment(fragment) == Ok::<InviteLinkView, LinkErrorView>(link))
        by {
        lemma_contents(link);
        lemma_decoded(link.contents());
    }
}

/// White space around a text makes no difference to what it says as a link.
pub proof fn white_space_around_a_link_does_not_count(
    before: Seq<char>,
    text: Seq<char>,
    after: Seq<char>,
)
    requires
        is_blank(before),
        is_blank(after),
    ensures
        InviteLinkView::read(before + text + after) == InviteLinkView::read(text),
{
    lemma_trim_blanks(before, text, after);
}

/// The two schemes make no difference to what a text says as a link.
pub proof fn the_scheme_of_a_link_does_not_count(rest: Seq<char>)
    ensures
        InviteLinkView::read("sgnl://"@ + rest) == InviteLinkView::read("https://"@ + rest),
{
    reveal_strlit("https://");
    reveal_strlit("sgnl://");
    let r = trim_end(rest);
    lemma_trim_append("https://"@, rest);
    lemma_trim_append("sgnl://"@, rest);
    let https = "https://"@ + rest;
    let sgnl = "sgnl://"@ + rest;
    assert(https[0] == 'h');
    assert(sgnl[0] == 's');
    lemma_after_prefix("https://"@, r);
    lemma_after_prefix("sgnl://"@, r);
    let url = "sgnl://"@ + r;
    if starts_with(url, "https://"@) {
        assert(url[0] == 's');
        assert(url.take(8)[0] == 'h');
    }
}

/// A prefix without padding is found in front of padding if and only if it is found
/// without it.
proof fn lemma_prefix_before_padding(text: Seq<char>, prefix: Seq<char>, padding: Seq<char>)
    requires
        forall|i: int| 0 <= i < padding.len() ==> padding[i] == '=',
        !prefix.contains('='),
    ensures
        after_prefix(text + padding, prefix) == match after_prefix(text, prefix) {
            Some(rest) => Some(rest + padding),
            None => None,
        },
{
    let whole = text + padding;
    let k = prefix.len() as int;
    if k <= text.len() {
        assert(whole.take(k) =~= text.take(k));
        assert(whole.skip(k) =~= text.skip(k) + padding);
    } else if starts_with(whole, prefix) {
        let i = text.len() as int;
        assert(prefix[i] == whole.take(k)[i]);
        assert(whole[i] == padding[0]);
        assert(prefix.contains('='));
    }
}

/// Padding behind a text makes no difference to what it says as a link, unless
/// white space stands before it.
pub proof fn padding_behind_a_link_does_not_count(text: Seq<char>, padding: nat)
    requires
        text.len() > 0 ==> !white_space(text.last()),
    ensures
        InviteLinkView::read(text + Seq::new(padding, |i: int| '=')) == InviteLinkView::read(text),
{
    let pad = Seq::new(padding, |i: int| '=');
    let whole = text + pad;
    let url = trim_start(text);
    assert(trim_end(trim_start(whole)) == url + pad && trim_end(url) == url) by {
        if text.len() > 0 {
            lemma_trim_append(text, pad);
        } else {
            assert(whole =~= pad);
            assert(url + pad =~= pad);
        }
        if padding > 0 {
            assert((url + pad).last() == '=');
        } else {
            assert(url + pad =~= url);
            assert(whole =~= text);
        }
    }
    assert(!"https://"@.contains('=')) by {
        reveal_strlit("https://");
    }
    assert(!"sgnl://"@.contains('=')) by {
        reveal_strlit("sgnl://");
    }
    assert(!"signal.group"@.contains('=')) by {
        reveal_strlit("signal.group");
    }
    assert(!"/#"@.contains('=')) by {
        reveal_strlit("/#");
    }
    lemma_prefix_before_padding(url, "https://"@, pad);
    lemma_prefix_before_padding(url, "sgnl://"@, pad);
    let rest = match after_prefix(url, "https://"@) {
        Some(rest) => Some(rest),
        None => after_prefix(url, "sgnl://"@),
    };
    if let Some(rest) = rest {
        lemma_prefix_before_padding(rest, "signal.group"@, pad);
        if let Some(path) = after_prefix(rest, "signal.group"@) {
            lemma_prefix_before_padding(path, "/#"@, pad);
        }
    }
    if let Some(fragment) = link_fragment(url) {
        lemma_without_trailing(fragment, '=', padding);
    }
}

/// A link is read back from the URL that it renders.
pub proof fn url_reads_back(link: InviteLinkView)
    requires
        link.master_key.len() == GROUP_MASTER_KEY_LEN,
        link.contents().len() <= u64::MAX,
    ensures
        InviteLinkView::read(link.url()) == Ok::<InviteLinkView, LinkErrorView>(link),
{
    let none = Seq::<char>::empty();
    let code = base64url(link.contents());
    let pad = Seq::new(0, |i: int| '=');
    assert("https://"@ + "signal.group"@ + "/#"@ =~= "https://signal.group/#"@) by {
        reveal_strlit("https://");
        reveal_strlit("signal.group");
        reveal_strlit("/#");
        reveal_strlit("https://signal.group/#");
    }
    link_reads_back(link, none, "https://"@, 0, none);
    assert(link.url() + pad =~= link.url());
    assert(none + link.url() + none =~= link.url());
}

/// A rendered URL holds no padding.
pub proof fn url_has_no_padding(link: InviteLinkView)
    ensures
        !link.url().contains('='),
{
    reveal_strlit("https://signal.group/#");
    base64url_has_symbols_only(link.contents());
    let code = base64url(link.contents());
    assert forall|i: int| 0 <= i < link.url().len() implies link.url()[i] != '=' by {
        if i >= 22 {
            assert(link.url()[i] == code[i - 22]);
            assert(is_symbol(code[i - 22]));
        }
    }
}

} // verus!
