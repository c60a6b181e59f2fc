//! The fields of a profile, padded, encrypted, decrypted and put together.

use crate::aes_gcm_256::{opened, sealed, MAX_PLAINTEXT};
use crate::laws::texts::segments_behind_a_separator;
use crate::padding::{bracket, padded, unpadded};
use crate::payment_address::{Address, PaymentAddress};
use crate::profile_cipher::{
    bytes_result, decrypted, decrypted_avatar, decrypted_fields, decrypted_name,
    decrypted_payment_address, decrypted_text, encrypts, is_padded, is_padded_encryption,
    is_padded_encryption_or_too_long, is_padded_encryption_under, length_comes_off, length_prefix,
    name_result, opt_check, opt_slice, payment_address_result, prefixed_payment_address,
    profile_result, signature_check_of, text_result, then_read, without_length, CipherErrorView,
    DecryptedFields, FieldsView, Profile, ProfileCipherError, ProfileView, SignatureCheck,
    ABOUT_PADDING_BRACKETS, EMOJI_PADDED_LENGTH, NAME_PADDING_BRACKETS,
    PAYMENT_ADDRESS_CONTENT_SIZE,
};
use crate::profile_name::{opt_name, text_is_spelled, NameView, ProfileName};
use crate::text::{
    lemma_encode_append, lemma_encode_zero, lemma_split_append, opt_str, opt_text, utf8_error,
    InvalidUtf8,
};
use crate::websocket::profile::SignalServiceProfile;
use crate::wire::{opt_bytes, read_envelope, write_envelope, PairView};
use vstd::prelude::*;
use vstd::utf8::{
    decode_utf8_encode_utf8, encode_utf8, encode_utf8_decode_utf8, encode_utf8_valid_utf8,
    valid_utf8,
};

verus! {

/// Each field of a decrypted profile depends on that field alone: the name, the about
/// text and the emoji are there exactly where the server sent them and they decrypt,
/// whatever else is absent, and the avatar path and the access flag are the server's.
pub proof fn each_field_of_a_profile_is_its_own(
    key: Seq<u8>,
    profile: SignalServiceProfile,
    verifies: bool,
    name: NameView,
    text: Seq<char>,
)
    ensures
        decrypted_fields(key, profile).assembled(
            opt_bytes(profile.identity_key),
            opt_text(profile.avatar),
            profile.unrestricted_unidentified_access,
            verifies,
        ) matches Ok(shown) ==> {
            &&& shown.name == Some(name) <==> (profile.name matches Some(bytes) && decrypted_name(
                key,
                bytes@,
            ) == Ok::<Option<NameView>, CipherErrorView>(Some(name)))
            &&& shown.about == Some(text) <==> (profile.about matches Some(bytes) && decrypted_text(
                key,
                bytes@,
            ) == Ok::<Seq<char>, CipherErrorView>(text))
            &&& shown.about_emoji == Some(text) <==> (profile.about_emoji matches Some(bytes)
                && decrypted_text(key, bytes@) == Ok::<Seq<char>, CipherErrorView>(text))
            &&& shown.avatar == Some(text) <==> (profile.avatar matches Some(path) && path@ == text)
            &&& shown.unrestricted_unidentified_access == profile.unrestricted_unidentified_access
        },
{
}

/// A profile shows a payment address exactly where the server sent one with an
/// identity key, it decrypts to an address with a signature, and the signature
/// verified; what is shown is the address encoded again.
pub proof fn a_payment_address_is_shown_exactly_where_it_is_trusted(
    key: Seq<u8>,
    profile: SignalServiceProfile,
    verifies: bool,
    shown_bytes: Seq<u8>,
)
    ensures
        decrypted_fields(key, profile).assembled(
            opt_bytes(profile.identity_key),
            opt_text(profile.avatar),
            profile.unrestricted_unidentified_access,
            verifies,
        ) matches Ok(shown) ==> (shown.payment_address == Some(shown_bytes) <==> {
            &&& verifies
            &&& profile.identity_key is Some
            &&& profile.payment_address matches Some(bytes)
            &&& decrypted_payment_address(key, bytes@) matches Ok(Some(pair))
            &&& pair.first is Some
            &&& pair.second is Some
            &&& shown_bytes == write_envelope(Some(pair))
        }),
{
}

/// A profile fails to decrypt exactly where its name, its about text or its emoji
/// does, with the error of the first of them; the payment address never fails it.
pub proof fn a_profile_fails_with_its_first_error(
    key: Seq<u8>,
    profile: SignalServiceProfile,
    verifies: bool,
)
    ensures
        ({
            let read = decrypted_fields(key, profile).assembled(
                opt_bytes(profile.identity_key),
                opt_text(profile.avatar),
                profile.unrestricted_unidentified_access,
                verifies,
            );
            let name_fails = profile.name matches Some(bytes) && decrypted_name(key, bytes@) is Err;
            let about_fails = profile.about matches Some(bytes) && decrypted_text(
                key,
                bytes@,
            ) is Err;
            let emoji_fails = profile.about_emoji matches Some(bytes) && decrypted_text(
                key,
                bytes@,
            ) is Err;
            &&& read is Err <==> name_fails || about_fails || emoji_fails
            &&& name_fails ==> read->Err_0 == decrypted_name(key, profile.name->0@)->Err_0
            &&& !name_fails && about_fails ==> read->Err_0 == decrypted_text(
                key,
                profile.about->0@,
            )->Err_0
            &&& !name_fails && !about_fails && emoji_fails ==> read->Err_0 == decrypted_text(
                key,
                profile.about_emoji->0@,
            )->Err_0
        }),
{
}

/// Decrypted fields are put together one by one, whatever was decrypted: each shown
/// field is the field of that name.
pub proof fn fields_are_put_together_one_by_one(
    fields: FieldsView,
    identity_key: Option<Seq<u8>>,
    avatar: Option<Seq<char>>,
    unrestricted: bool,
    verifies: bool,
    name: NameView,
    text: Seq<char>,
)
    ensures
        fields.assembled(identity_key, avatar, unrestricted, verifies) matches Ok(shown) ==> {
            &&& shown.name == Some(name) <==> fields.name == Some(
                Ok::<Option<NameView>, CipherErrorView>(Some(name)),
            )
            &&& shown.about == Some(text) <==> fields.about == Some(
                Ok::<Seq<char>, CipherErrorView>(text),
            )
            &&& shown.about_emoji == Some(text) <==> fields.about_emoji == Some(
                Ok::<Seq<char>, CipherErrorView>(text),
            )
            &&& shown.avatar == avatar
            &&& shown.unrestricted_unidentified_access == unrestricted
        },
        fields.assembled(identity_key, avatar, unrestricted, verifies) is Err <==> (
        fields.name matches Some(Err(_))) || (fields.about matches Some(Err(_))) || (
        fields.about_emoji matches Some(Err(_))),
{
}

/// The check of a payment address asks for the signature of the address, over the
/// bytes of the address, with the given identity key; there is one exactly where all
/// three are there.
pub proof fn the_signature_is_checked_over_the_address(
    address: Option<PairView>,
    identity_key: Option<Seq<u8>>,
)
    ensures
        signature_check_of(address, identity_key) is Some <==> identity_key is Some && (
        address matches Some(pair) && pair.first is Some && pair.second is Some),
        signature_check_of(address, identity_key) matches Some(check) ==> {
            &&& identity_key == Some(check.identity_key)
            &&& address matches Some(pair)
            &&& pair.first == Some(check.message)
            &&& pair.second == Some(check.signature)
        },
{
}

/// A plaintext is filled up with zero bytes to the first bracket that is large enough
/// for it, and only a plaintext larger than every bracket is refused.
pub proof fn padding_goes_to_the_first_bracket(bytes: Seq<u8>, brackets: Seq<usize>)
    ensures
        match padded(bytes, brackets) {
            Some(whole) => {
                &&& whole.len() >= bytes.len()
                &&& whole.take(bytes.len() as int) == bytes
                &&& forall|i: int| bytes.len() <= i < whole.len() ==> #[trigger] whole[i] == 0
                &&& exists|i: int|
                    0 <= i < brackets.len() && #[trigger] brackets[i] == whole.len() && (forall|
                        j: int,
                    |
                        0 <= j < i ==> #[trigger] brackets[j] < bytes.len())
            },
            None => forall|i: int| 0 <= i < brackets.len() ==> #[trigger] brackets[i] < bytes.len(),
        },
    decreases brackets.len(),
{
    if brackets.len() > 0 {
        if brackets[0] >= bytes.len() {
            let whole = padded(bytes, brackets)->0;
            assert(whole.take(bytes.len() as int) =~= bytes);
            assert(brackets[0] == whole.len());
        } else {
            let rest = brackets.skip(1);
            padding_goes_to_the_first_bracket(bytes, rest);
            assert(bracket(brackets, bytes.len()) == bracket(rest, bytes.len()));
            match padded(bytes, brackets) {
                Some(whole) => {
                    let i = choose|i: int|
                        0 <= i < rest.len() && #[trigger] rest[i] == whole.len() && (forall|j: int|
                            0 <= j < i ==> #[trigger] rest[j] < bytes.len());
                    assert forall|j: int| 0 <= j < i + 1 implies #[trigger] brackets[j]
                        < bytes.len() by {
                        if j > 0 {
                            assert(rest[j - 1] < bytes.len());
                        }
                    }
                    assert(brackets[i + 1] == whole.len());
                },
                None => {
                    assert forall|i: int| 0 <= i < brackets.len() implies #[trigger] brackets[i]
                        < bytes.len() by {
                        if i > 0 {
                            assert(rest[i - 1] < bytes.len());
                        }
                    }
                },
            }
        }
    }
}

/// Unpadding takes off zero bytes only, and all of them.
pub proof fn unpadding_takes_off_zeros_only(bytes: Seq<u8>)
    ensures
        unpadded(bytes).len() <= bytes.len(),
        unpadded(bytes) == bytes.take(unpadded(bytes).len() as int),
        forall|i: int| unpadded(bytes).len() <= i < bytes.len() ==> #[trigger] bytes[i] == 0,
        unpadded(bytes).len() > 0 ==> unpadded(bytes).last() != 0,
    decreases bytes.len(),
{
    if bytes.len() > 0 && bytes.last() == 0 {
        let rest = bytes.drop_last();
        unpadding_takes_off_zeros_only(rest);
        let k = unpadded(rest).len() as int;
        assert(rest.take(k) =~= bytes.take(k));
        assert forall|i: int| k <= i < bytes.len() implies #[trigger] bytes[i] == 0 by {
            if i < bytes.len() - 1 {
                assert(rest[i] == 0);
            }
        }
    } else {
        assert(bytes.take(bytes.len() as int) =~= bytes);
    }
}

/// A plaintext is padded, and encrypted, exactly where some bracket is large enough
/// for it; otherwise it is too long.
pub proof fn encryption_is_owed_where_a_bracket_fits(
    key: Seq<u8>,
    nonce: Seq<u8>,
    plaintext: Seq<u8>,
    brackets: Seq<usize>,
    result: Result<Vec<u8>, ProfileCipherError>,
)
    ensures
        is_padded(plaintext, brackets, result) || is_padded_encryption(
            key,
            plaintext,
            brackets,
            result,
        ) || is_padded_encryption_under(key, nonce, plaintext, brackets, result) ==> {
            &&& result is Ok <==> exists|i: int|
                0 <= i < brackets.len() && #[trigger] brackets[i] >= plaintext.len()
            &&& result matches Err(error) ==> error == ProfileCipherError::InputTooLong
        },
        is_padded(plaintext, brackets, result) ==> (result matches Ok(bytes) ==> padded(
            plaintext,
            brackets,
        ) == Some(bytes@)),
        is_padded_encryption(key, plaintext, brackets, result) ==> (result matches Ok(bytes) ==> (
        padded(plaintext, brackets) matches Some(whole) && decrypted(key, bytes@) == Ok::<
            Seq<u8>,
            CipherErrorView,
        >(whole))),
        is_padded_encryption_under(key, nonce, plaintext, brackets, result) ==> (
        result matches Ok(bytes) ==> (padded(plaintext, brackets) matches Some(whole) && bytes@
            == nonce + sealed(key, nonce, whole) && decrypted(key, bytes@) == Ok::<
            Seq<u8>,
            CipherErrorView,
        >(whole))),
{
    padding_goes_to_the_first_bracket(plaintext, brackets);
    if let Some(whole) = padded(plaintext, brackets) {
        let i = choose|i: int|
            0 <= i < brackets.len() && #[trigger] brackets[i] == whole.len() && (forall|j: int|
                0 <= j < i ==> #[trigger] brackets[j] < plaintext.len());
        assert(brackets[i] >= plaintext.len());
    }
}

/// A ciphertext is a nonce of twelve bytes and what is sealed under it; it is opened
/// under that nonce, and is too short where it holds less than nonce and tag.
pub proof fn a_ciphertext_carries_its_nonce(key: Seq<u8>, plaintext: Seq<u8>, bytes: Seq<u8>)
    ensures
        bytes.len() < 28 ==> decrypted(key, bytes) == Err::<Seq<u8>, CipherErrorView>(
            CipherErrorView::CiphertextTooShort,
        ),
        bytes.len() >= 28 ==> (decrypted(key, bytes) == Ok::<Seq<u8>, CipherErrorView>(plaintext)
            <==> opened(key, bytes.take(12), bytes.skip(12)) == Some(plaintext)),
        bytes.len() >= 28 && opened(key, bytes.take(12), bytes.skip(12)) is None ==> decrypted(
            key,
            bytes,
        ) == Err::<Seq<u8>, CipherErrorView>(CipherErrorView::EncryptionError),
        encrypts(key, plaintext, bytes) ==> bytes.len() == plaintext.len() + 28 && bytes.skip(12)
            == sealed(key, bytes.take(12), plaintext) && decrypted(key, bytes) == Ok::<
            Seq<u8>,
            CipherErrorView,
        >(plaintext),
{
    if encrypts(key, plaintext, bytes) {
        let nonce = bytes.take(12);
        let rest = sealed(key, nonce, plaintext);
        assert((nonce + rest).skip(12) =~= rest);
    }
}

/// A decrypted text is the text of which the plaintext without padding is the UTF-8,
/// and where it is the UTF-8 of none, that is the error. What cannot be decrypted is
/// not read.
pub proof fn a_text_is_read_from_its_whole_plaintext(
    key: Seq<u8>,
    bytes: Seq<u8>,
    plaintext: Seq<u8>,
    text: Seq<char>,
)
    ensures
        decrypted(key, bytes) == Ok::<Seq<u8>, CipherErrorView>(plaintext) ==> {
            &&& decrypted_text(key, bytes) == Ok::<Seq<char>, CipherErrorView>(text) <==> unpadded(
                plaintext,
            ) == encode_utf8(text)
            &&& !valid_utf8(unpadded(plaintext)) ==> decrypted_text(key, bytes) == Err::<
                Seq<char>,
                CipherErrorView,
            >(CipherErrorView::Utf8Error(utf8_error(unpadded(plaintext))))
            &&& decrypted_avatar(key, bytes) == Ok::<Seq<u8>, CipherErrorView>(unpadded(plaintext))
            &&& decrypted_name(key, bytes) is Ok <==> valid_utf8(unpadded(plaintext))
            &&& !valid_utf8(unpadded(plaintext)) ==> decrypted_name(key, bytes) == Err::<
                Option<NameView>,
                CipherErrorView,
            >(CipherErrorView::Utf8Error(utf8_error(unpadded(plaintext))))
            &&& unpadded(plaintext) == encode_utf8(text) ==> decrypted_name(key, bytes) == Ok::<
                Option<NameView>,
                CipherErrorView,
            >(NameView::spelled(text))
        },
        decrypted(key, bytes) matches Err(error) ==> {
            &&& decrypted_text(key, bytes) == Err::<Seq<char>, CipherErrorView>(error)
            &&& decrypted_name(key, bytes) == Err::<Option<NameView>, CipherErrorView>(error)
            &&& decrypted_avatar(key, bytes) == Err::<Seq<u8>, CipherErrorView>(error)
            &&& decrypted_payment_address(key, bytes) == Err::<Option<PairView>, CipherErrorView>(
                error,
            )
        },
{
    encode_utf8_valid_utf8(text);
    encode_utf8_decode_utf8(text);
    if valid_utf8(unpadded(plaintext)) {
        decode_utf8_encode_utf8(unpadded(plaintext));
    }
}

/// A payment address is read from what stands behind the length in its plaintext,
/// and fails as that or as the message does.
pub proof fn a_payment_address_fails_as_its_plaintext_does(
    key: Seq<u8>,
    bytes: Seq<u8>,
    plaintext: Seq<u8>,
)
    requires
        decrypted(key, bytes) == Ok::<Seq<u8>, CipherErrorView>(plaintext),
    ensures
        without_length(plaintext) matches Err(error) ==> decrypted_payment_address(key, bytes)
            == Err::<Option<PairView>, CipherErrorView>(error),
        without_length(plaintext) matches Ok(message) ==> match read_envelope(None, message) {
            Ok(address) => decrypted_payment_address(key, bytes) == Ok::<
                Option<PairView>,
                CipherErrorView,
            >(address),
            Err(error) => decrypted_payment_address(key, bytes) == Err::<
                Option<PairView>,
                CipherErrorView,
            >(CipherErrorView::ProtobufError(error)),
        },
{
}

/// What follows decryption sees the plaintext, and is left out where there is none.
pub proof fn reading_follows_decryption<T>(
    plaintext: Seq<u8>,
    error: CipherErrorView,
    read: spec_fn(Seq<u8>) -> Result<T, CipherErrorView>,
)
    ensures
        then_read(Ok(plaintext), read) == read(plaintext),
        then_read(Err(error), read) == Err::<T, CipherErrorView>(error),
{
}

/// How long a padded field is: a name has 53 or 257 bytes, an about text 128, 254 or
/// 512, an emoji 32 and a payment address 554, the least that it fits into; a longer
/// one is not padded at all.
pub proof fn a_padded_field_is_as_long_as_the_least_that_it_fits_into(bytes: Seq<u8>)
    ensures
        match padded(bytes, NAME_PADDING_BRACKETS@) {
            Some(whole) => bytes.len() <= 257 && whole.len() == if bytes.len() <= 53 {
                53int
            } else {
                257
            },
            None => bytes.len() > 257,
        },
        match padded(bytes, ABOUT_PADDING_BRACKETS@) {
            Some(whole) => bytes.len() <= 512 && whole.len() == if bytes.len() <= 128 {
                128int
            } else if bytes.len() <= 254 {
                254
            } else {
                512
            },
            None => bytes.len() > 512,
        },
        match padded(bytes, seq![EMOJI_PADDED_LENGTH]) {
            Some(whole) => bytes.len() <= 32 && whole.len() == 32,
            None => bytes.len() > 32,
        },
        match padded(bytes, seq![PAYMENT_ADDRESS_CONTENT_SIZE]) {
            Some(whole) => bytes.len() <= 554 && whole.len() == 554,
            None => bytes.len() > 554,
        },
{
    reveal_with_fuel(bracket, 4);
}

/// With brackets of any size, encryption is refused for a bracket over the limit of
/// the cipher and otherwise comes out as it does with smaller ones.
pub proof fn a_bracket_over_the_limit_is_refused(
    key: Seq<u8>,
    plaintext: Seq<u8>,
    brackets: Seq<usize>,
    result: Result<Vec<u8>, ProfileCipherError>,
)
    requires
        is_padded_encryption_or_too_long(key, plaintext, brackets, result),
    ensures
        MAX_PLAINTEXT == 68_719_476_704,
        match padded(plaintext, brackets) {
            Some(whole) => if whole.len() > 68_719_476_704 {
                result == Err::<Vec<u8>, ProfileCipherError>(ProfileCipherError::EncryptionError)
            } else {
                result matches Ok(bytes) && bytes@.len() == whole.len() + 28 && decrypted(
                    key,
                    bytes@,
                ) == Ok::<Seq<u8>, CipherErrorView>(whole)
            },
            None => result == Err::<Vec<u8>, ProfileCipherError>(ProfileCipherError::InputTooLong),
        },
{
    lemma_bracket_holds(brackets, plaintext.len());
}

proof fn lemma_bracket_holds(brackets: Seq<usize>, n: nat)
    ensures
        bracket(brackets, n) matches Some(len) ==> len >= n,
    decreases brackets.len(),
{
    if brackets.len() > 0 && brackets[0] < n {
        lemma_bracket_holds(brackets.skip(1), n);
    }
}

/// The bytes of a name are read as what their text spells, and where they are the
/// UTF-8 of none, that is the error.
pub proof fn a_name_is_read_from_all_its_bytes(bytes: Seq<u8>, text: Seq<char>)
    ensures
        bytes == encode_utf8(text) ==> NameView::deserialized(bytes) == Ok::<
            Option<NameView>,
            InvalidUtf8,
        >(NameView::spelled(text)),
        !valid_utf8(bytes) ==> NameView::deserialized(bytes) == Err::<
            Option<NameView>,
            InvalidUtf8,
        >(utf8_error(bytes)),
{
    text_is_spelled(text);
}

/// A decrypted payment address is read from the bytes that the length in front of
/// them announces, and from no others.
pub proof fn a_payment_address_is_read_behind_its_length(
    key: Seq<u8>,
    bytes: Seq<u8>,
    message: Seq<u8>,
    padding: Seq<u8>,
)
    requires
        message.len() <= i32::MAX,
        decrypted(key, bytes) == Ok::<Seq<u8>, CipherErrorView>(
            length_prefix(message.len() as int) + message + padding,
        ),
    ensures
        match read_envelope(None, message) {
            Ok(address) => decrypted_payment_address(key, bytes) == Ok::<
                Option<PairView>,
                CipherErrorView,
            >(address),
            Err(error) => decrypted_payment_address(key, bytes) == Err::<
                Option<PairView>,
                CipherErrorView,
            >(CipherErrorView::ProtobufError(error)),
        },
{
    length_comes_off(message, padding);
}

/// The four bytes of a length are its digits in base 256, the lowest first.
pub proof fn a_length_is_little_endian(n: int)
    requires
        0 <= n <= i32::MAX,
    ensures
        length_prefix(n).len() == 4,
        length_prefix(n)[0] + 256 * length_prefix(n)[1] + 65536 * length_prefix(n)[2] + 16777216
            * length_prefix(n)[3] == n,
{
}

/// What stands behind a length is exactly as many bytes as it says, and is refused
/// where the length is cut off, negative or larger than what there is.
pub proof fn a_length_says_how_much_follows(s: Seq<u8>)
    ensures
        ({
            let n = s[0] + 256 * s[1] + 65536 * s[2] + 16777216 * s[3];
            match without_length(s) {
                Ok(bytes) => {
                    &&& s.len() >= 4 + n
                    &&& n <= i32::MAX
                    &&& bytes.len() == n
                    &&& forall|i: int| 0 <= i < bytes.len() ==> #[trigger] bytes[i] == s[4 + i]
                },
                Err(error) => {
                    &&& error == CipherErrorView::CiphertextTooShort
                    &&& s.len() < 4 || n > i32::MAX || s.len() < 4 + n
                },
            }
        }),
{
}

/// A payment address is padded behind its length: four bytes, then its encoding.
pub proof fn a_payment_address_stands_behind_its_length(address: Option<PairView>)
    ensures
        prefixed_payment_address(address).len() == 4 + write_envelope(address).len(),
        prefixed_payment_address(address).skip(4) == write_envelope(address),
        prefixed_payment_address(address).take(4) == length_prefix(
            write_envelope(address).len() as int,
        ),
{
    let bytes = write_envelope(address);
    let whole = prefixed_payment_address(address);
    assert(whole.skip(4) =~= bytes);
    assert(whole.take(4) =~= length_prefix(bytes.len() as int));
}

/// The bytes of a name are those of the given name, and where there is a family name
/// a zero byte and those of the family name.
pub proof fn a_name_is_serialized_part_by_part(name: NameView)
    ensures
        match name.family {
            Some(family) => name.serialized() == encode_utf8(name.given) + seq![0u8] + encode_utf8(
                family,
            ),
            None => name.serialized() == encode_utf8(name.given),
        },
{
    if let Some(family) = name.family {
        lemma_encode_append(name.given.push('\0'), family);
        lemma_encode_append(name.given, seq!['\0']);
        lemma_encode_zero();
        assert(name.given.push('\0') =~= name.given + seq!['\0']);
    }
}

/// A text spells a name by its parts between zero characters: the first is the given
/// name, the second the family name, and the rest does not count.
pub proof fn a_text_spells_its_parts(given: Seq<char>, family: Seq<char>, rest: Seq<char>)
    requires
        !given.contains('\0'),
        !family.contains('\0'),
    ensures
        NameView::spelled(Seq::empty()) is None,
        given.len() > 0 ==> NameView::spelled(given) == Some(NameView { given, family: None }),
        NameView::spelled(given.push('\0') + family) == Some(
            NameView { given, family: Some(family) },
        ),
        NameView::spelled(given.push('\0') + (family.push('\0') + rest)) == Some(
            NameView { given, family: Some(family) },
        ),
{
    lemma_split_append(Seq::empty(), '\0', given);
    lemma_split_append(Seq::empty(), '\0', family);
    segments_behind_a_separator(given, '\0', family);
    segments_behind_a_separator(given, '\0', family.push('\0') + rest);
    segments_behind_a_separator(family, '\0', rest);
}

/// What came of an operation says what it holds: a value by its view, an error by its
/// view.
pub proof fn results_say_what_they_hold(
    text: Result<String, ProfileCipherError>,
    name: Result<Option<ProfileName<String>>, ProfileCipherError>,
    address: Result<PaymentAddress, ProfileCipherError>,
    bytes: Result<Vec<u8>, ProfileCipherError>,
    profile: Result<Profile, ProfileCipherError>,
)
    ensures
        text_result(text) == match text {
            Ok(value) => Ok::<Seq<char>, CipherErrorView>(value@),
            Err(error) => Err(error@),
        },
        name_result(name) == match name {
            Ok(Some(value)) => Ok::<Option<NameView>, CipherErrorView>(Some(value@)),
            Ok(None) => Ok(None),
            Err(error) => Err(error@),
        },
        address matches Ok(value) ==> payment_address_result(address) == Ok::<
            Option<PairView>,
            CipherErrorView,
        >(value@),
        address matches Err(error) ==> payment_address_result(address) == Err::<
            Option<PairView>,
            CipherErrorView,
        >(error@),
        bytes_result(bytes) == match bytes {
            Ok(value) => Ok::<Seq<u8>, CipherErrorView>(value@),
            Err(error) => Err(error@),
        },
        profile_result(profile) == match profile {
            Ok(value) => Ok::<ProfileView, CipherErrorView>(value@),
            Err(error) => Err(error@),
        },
{
}

/// An error says which it is, and what it holds.
pub proof fn errors_say_what_they_are(error: ProfileCipherError)
    ensures
        error is EncryptionError <==> error@ is EncryptionError,
        error is InputTooLong <==> error@ is InputTooLong,
        error is CiphertextTooShort <==> error@ is CiphertextTooShort,
        error matches ProfileCipherError::Utf8Error(inner) ==> error@
            == CipherErrorView::Utf8Error(inner),
        error matches ProfileCipherError::ProtobufError(inner) ==> error@
            == CipherErrorView::ProtobufError(inner@),
{
}

/// A profile, a name and a check say what their fields hold, each field in its own
/// place.
pub proof fn profiles_say_what_they_hold(
    profile: Profile,
    owned: ProfileName<String>,
    borrowed: ProfileName<&str>,
    check: SignatureCheck,
    text: Seq<char>,
    bytes: Seq<u8>,
)
    ensures
        profile@.name is Some <==> profile.name is Some,
        profile.name matches Some(name) ==> profile@.name == Some(name@),
        profile@.about == Some(text) <==> (profile.about matches Some(value) && value@ == text),
        profile@.about_emoji == Some(text) <==> (profile.about_emoji matches Some(value) && value@
            == text),
        profile@.avatar == Some(text) <==> (profile.avatar matches Some(value) && value@ == text),
        profile@.payment_address == Some(bytes) <==> (profile.payment_address matches Some(value)
            && value@ == bytes),
        profile@.unrestricted_unidentified_access == profile.unrestricted_unidentified_access,
        owned@.given == owned.given_name@,
        owned@.family == Some(text) <==> (owned.family_name matches Some(value) && value@ == text),
        borrowed@.given == borrowed.given_name@,
        borrowed@.family == Some(text) <==> (borrowed.family_name matches Some(value) && value@
            == text),
        check@.identity_key == check.identity_key@,
        check@.message == check.message@,
        check@.signature == check.signature@,
{
}

/// A payment address says its public address first and its signature second.
pub proof fn payment_addresses_say_what_they_hold(address: PaymentAddress, bytes: Seq<u8>)
    ensures
        address@ is Some <==> address.address is Some,
        address.address matches Some(Address::MobileCoin(coin)) ==> {
            &&& address@->0.first == Some(bytes) <==> (coin.public_address matches Some(value)
                && value@ == bytes)
            &&& address@->0.second == Some(bytes) <==> (coin.signature matches Some(value) && value@
                == bytes)
        },
{
}

/// Optional values say what they hold.
pub proof fn optional_values_say_what_they_hold(
    text: Option<String>,
    borrowed: Option<&str>,
    bytes: Option<Vec<u8>>,
    slice: Option<&[u8]>,
    name: Option<ProfileName<String>>,
    check: Option<SignatureCheck>,
)
    ensures
        opt_text(text) == match text {
            Some(value) => Some(value@),
            None => None,
        },
        opt_str(borrowed) == match borrowed {
            Some(value) => Some(value@),
            None => None,
        },
        opt_bytes(bytes) == match bytes {
            Some(value) => Some(value@),
            None => None,
        },
        opt_slice(slice) == match slice {
            Some(value) => Some(value@),
            None => None,
        },
        opt_name(name) == match name {
            Some(value) => Some(value@),
            None => None,
        },
        opt_check(check) == match check {
            Some(value) => Some(value@),
            None => None,
        },
{
}

/// Decrypted fields say what they hold, each field in its own place.
pub proof fn fields_say_what_they_hold(fields: DecryptedFields)
    ensures
        fields@.name == match fields.name {
            Some(value) => Some(name_result(value)),
            None => None,
        },
        fields@.about == match fields.about {
            Some(value) => Some(text_result(value)),
            None => None,
        },
        fields@.about_emoji == match fields.about_emoji {
            Some(value) => Some(text_result(value)),
            None => None,
        },
        fields@.payment_address == match fields.payment_address {
            Some(value) => Some(payment_address_result(value)),
            None => None,
        },
{
}

} // verus!
