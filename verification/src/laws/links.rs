//! Group invite links, written and read.

use crate::base64url::{base64_rejection, base64url, decoded, lemma_decoded};
use crate::groups_v2::invite_link::{
    after_prefix, link_fragment, link_result, or_empty, unless_empty, GroupInviteLink,
    InviteLinkError, InviteLinkView, LinkErrorView, GROUP_MASTER_KEY_LEN,
};
use crate::laws::texts::prefixes_are_in_front;
use crate::text::{lemma_starts_with, starts_with, trim_end, trim_start, without_trailing};
use crate::wire::{envelope_reads_back, field, read_envelope, MalformedView, PairView};
use vstd::prelude::*;

verus! {

/// The URL of a link is a fixed front and base64, which decodes to a message that
/// carries the key in its first field and the password, unless it is empty, in its
/// second.
pub proof fn a_link_carries_key_and_password(link: InviteLinkView)
    requires
        link.master_key.len() == GROUP_MASTER_KEY_LEN,
        link.contents().len() <= u64::MAX,
    ensures
        link.url().take(22) == "https://signal.group/#"@,
        decoded(link.url().skip(22)) == Some(link.contents()),
        read_envelope(None, link.contents()) == Ok::<Option<PairView>, MalformedView>(
            Some(
                PairView {
                    first: Some(link.master_key),
                    second: if link.password.len() == 0 {
                        None
                    } else {
                        Some(link.password)
                    },
                },
            ),
        ),
        link.contents() == field(
            1,
            field(1, link.master_key) + (if link.password.len() == 0 {
                Seq::empty()
            } else {
                field(2, link.password)
            }),
        ),
{
    reveal_strlit("https://signal.group/#");
    let url = link.url();
    assert(url.take(22) =~= "https://signal.group/#"@);
    assert(url.skip(22) =~= base64url(link.contents()));
    lemma_decoded(link.contents());
    envelope_reads_back(
        Some(
            PairView {
                first: unless_empty(link.master_key),
                second: unless_empty(link.password),
            },
        ),
    );
}

/// Different links have different URLs.
pub proof fn different_links_have_different_urls(a: InviteLinkView, b: InviteLinkView)
    requires
        a.master_key.len() == GROUP_MASTER_KEY_LEN,
        b.master_key.len() == GROUP_MASTER_KEY_LEN,
        a.contents().len() <= u64::MAX,
        b.contents().len() <= u64::MAX,
        a != b,
    ensures
        a.url() != b.url(),
{
    if a.url() == b.url() {
        a_link_carries_key_and_password(a);
        a_link_carries_key_and_password(b);
        assert(a.password =~= b.password);
    }
}

/// A message is read as a link exactly where its embedded message holds a key of 32
/// bytes; the link is that key and the password, empty where there is none.
pub proof fn a_message_is_read_as_a_link_exactly(bytes: Seq<u8>, link: InviteLinkView)
    ensures
        InviteLinkView::read_contents(bytes) == Ok::<InviteLinkView, LinkErrorView>(link) <==> {
            &&& link.master_key.len() == 32
            &&& read_envelope(None, bytes) matches Ok(Some(pair))
            &&& pair.first == Some(link.master_key)
            &&& pair.second == Some(link.password) || (pair.second is None && link.password
                == Seq::<u8>::empty())
        },
        read_envelope(None, bytes) matches Err(error) ==> InviteLinkView::read_contents(bytes)
            == Err::<InviteLinkView, LinkErrorView>(LinkErrorView::Decode(error)),
        read_envelope(None, bytes) == Ok::<Option<PairView>, MalformedView>(None)
            ==> InviteLinkView::read_contents(bytes) == Err::<InviteLinkView, LinkErrorView>(
            LinkErrorView::UnsupportedVersion,
        ),
        read_envelope(None, bytes) matches Ok(Some(pair)) ==> (!(pair.first matches Some(key)
            && key.len() == 32) ==> InviteLinkView::read_contents(bytes) == Err::<
            InviteLinkView,
            LinkErrorView,
        >(LinkErrorView::WrongMasterKeyLength)),
{
    if let Ok(Some(pair)) = read_envelope(None, bytes) {
        if let Ok(read) = InviteLinkView::read_contents(bytes) {
            assert(read.password == or_empty(pair.second));
            assert(read.master_key == or_empty(pair.first));
        }
    }
}

/// A fragment is read as what it decodes to without the padding at its end, and where
/// it does not decode, what base64 says of it is the error.
pub proof fn a_fragment_is_read_as_what_it_decodes_to(fragment: Seq<char>, bytes: Seq<u8>)
    ensures
        decoded(without_trailing(fragment, '=')) == Some(bytes) ==> InviteLinkView::read_fragment(
            fragment,
        ) == InviteLinkView::read_contents(bytes),
        decoded(without_trailing(fragment, '=')) is None ==> InviteLinkView::read_fragment(fragment)
            == Err::<InviteLinkView, LinkErrorView>(
            LinkErrorView::Base64(base64_rejection(without_trailing(fragment, '='))),
        ),
{
}

proof fn lemma_after_prefix_exact(s: Seq<char>, prefix: Seq<char>, rest: Seq<char>)
    ensures
        after_prefix(s, prefix) == Some(rest) <==> s == prefix + rest,
{
    lemma_starts_with(prefix, rest);
    prefixes_are_in_front(s, prefix);
}

/// A URL has a link fragment exactly where it is `https://signal.group/#` or
/// `sgnl://signal.group/#` and that fragment.
pub proof fn a_fragment_stands_behind_scheme_and_host(url: Seq<char>, fragment: Seq<char>)
    ensures
        link_fragment(url) == Some(fragment) <==> url == "https://"@ + ("signal.group"@ + ("/#"@
            + fragment)) || url == "sgnl://"@ + ("signal.group"@ + ("/#"@ + fragment)),
{
    let path = "/#"@ + fragment;
    let rest = "signal.group"@ + path;
    lemma_after_prefix_exact(url, "https://"@, rest);
    lemma_after_prefix_exact(url, "sgnl://"@, rest);
    lemma_after_prefix_exact(rest, "signal.group"@, path);
    lemma_after_prefix_exact(path, "/#"@, fragment);
    reveal_strlit("https://");
    reveal_strlit("sgnl://");
    if url == "sgnl://"@ + rest {
        assert(url[0] == 's');
        if starts_with(url, "https://"@) {
            assert(url.take(8)[0] == 'h');
        }
    }
    if link_fragment(url) == Some(fragment) {
        let r = match after_prefix(url, "https://"@) {
            Some(r) => r,
            None => after_prefix(url, "sgnl://"@)->0,
        };
        let p = after_prefix(r, "signal.group"@)->0;
        lemma_after_prefix_exact(p, "/#"@, fragment);
        lemma_after_prefix_exact(r, "signal.group"@, p);
        lemma_after_prefix_exact(url, "https://"@, r);
        lemma_after_prefix_exact(url, "sgnl://"@, r);
    }
}

/// A text is read as the fragment that it has when it is trimmed, and is no invite
/// link where it has none.
pub proof fn a_trimmed_text_is_read_by_its_fragment(text: Seq<char>, fragment: Seq<char>)
    ensures
        link_fragment(trim_end(trim_start(text))) == Some(fragment) ==> InviteLinkView::read(text)
            == InviteLinkView::read_fragment(fragment),
        link_fragment(trim_end(trim_start(text))) is None ==> InviteLinkView::read(text) == Err::<
            InviteLinkView,
            LinkErrorView,
        >(LinkErrorView::NotAnInviteLink),
{
}

/// A link and what came of reading one say what they hold.
pub proof fn links_say_what_they_hold(
    link: GroupInviteLink,
    result: Result<GroupInviteLink, InviteLinkError>,
    bytes: Seq<u8>,
)
    ensures
        link@.master_key == link.master_key@,
        link@.password == link.password@,
        result matches Ok(read) ==> link_result(result) == Ok::<InviteLinkView, LinkErrorView>(
            read@,
        ),
        result matches Err(error) ==> link_result(result) == Err::<InviteLinkView, LinkErrorView>(
            error@,
        ),
        unless_empty(bytes) == Some(bytes) <==> bytes.len() > 0,
        or_empty(Some(bytes)) == bytes,
        or_empty(None).len() == 0,
{
}

/// An error says which it is, and what it holds.
pub proof fn link_errors_say_what_they_are(error: InviteLinkError)
    ensures
        error is NotAnInviteLink <==> error@ is NotAnInviteLink,
        error is UnsupportedVersion <==> error@ is UnsupportedVersion,
        error is WrongMasterKeyLength <==> error@ is WrongMasterKeyLength,
        error matches InviteLinkError::Base64(inner) ==> error@ == LinkErrorView::Base64(inner),
        error matches InviteLinkError::Decode(inner) ==> error@ == LinkErrorView::Decode(inner@),
{
}

} // verus!
