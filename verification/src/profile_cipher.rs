//! Encryption and decryption of a profile's name and of the other fields of a
//! profile.

use crate::aes_gcm_256;
use crate::aes_gcm_256::{opened, sealed, KEY_LEN, MAX_PLAINTEXT, NONCE_LEN, TAG_LEN};
use crate::base64url::base64_len;
use crate::octets::array_of;
use crate::padding::{
    bracket, pad_plaintext, padded, padded_length_is_a_bracket, padding_comes_off, unpad, unpadded,
    zeros,
};
use crate::payment_address::{Address, PaymentAddress};
use crate::profile_name::{name_reads_back, opt_name, text_is_spelled, NameView, ProfileName};
use crate::random::random_bytes;
use crate::text::{
    from_utf8, lemma_encode_append, lemma_encode_last, lemma_encode_zero, opt_text, utf8_error,
    without_trailing, InvalidUtf8,
};
use crate::websocket::profile::SignalServiceProfile;
use crate::wire::{
    envelope_hardly_grows, envelope_reads_back, opt_bytes, read_envelope, write_envelope,
    MalformedMessage, MalformedView, PairView,
};
use vstd::prelude::*;
use vstd::slice::{slice_subrange, slice_to_vec};
use vstd::string::*;
use vstd::utf8::{
    decode_utf8, encode_utf8, encode_utf8_decode_utf8, encode_utf8_valid_utf8, valid_utf8,
};

verus! {

pub const NAME_PADDED_LENGTH_1: usize = 53;

pub const NAME_PADDED_LENGTH_2: usize = 257;

/// The lengths that a name is padded to.
pub const NAME_PADDING_BRACKETS: [usize; 2] = [NAME_PADDED_LENGTH_1, NAME_PADDED_LENGTH_2];

pub const ABOUT_PADDED_LENGTH_1: usize = 128;

pub const ABOUT_PADDED_LENGTH_2: usize = 254;

pub const ABOUT_PADDED_LENGTH_3: usize = 512;

/// The lengths that an about text is padded to.
pub const ABOUT_PADDING_BRACKETS: [usize; 3] = [
    ABOUT_PADDED_LENGTH_1,
    ABOUT_PADDED_LENGTH_2,
    ABOUT_PADDED_LENGTH_3,
];

/// The length that an emoji is padded to.
pub const EMOJI_PADDED_LENGTH: usize = 32;

/// What encryption adds to a plaintext: the nonce and the tag.
pub const ENCRYPTION_OVERHEAD: usize = 28;

/// The length of the base64 field that carries an encrypted payment address.
pub const PAYMENT_ADDRESS_BASE64_FIELD_SIZE: usize = 776;

/// The length that a payment address is padded to, so that its base64
/// representation fills the field.
pub const PAYMENT_ADDRESS_CONTENT_SIZE: usize = PAYMENT_ADDRESS_BASE64_FIELD_SIZE * 6 / 8
    - ENCRYPTION_OVERHEAD;

/// Why a profile field could not be encrypted or decrypted.
#[derive(Clone, Debug, PartialEq, Eq)]
pub enum ProfileCipherError {
    /// Encryption error.
    EncryptionError,
    /// UTF-8 decode error.
    Utf8Error(InvalidUtf8),
    /// Input name too long.
    InputTooLong,
    /// Ciphertext too short.
    CiphertextTooShort,
    /// Protobuf decode error.
    ProtobufError(MalformedMessage),
}

/// What a [`ProfileCipherError`] says.
pub enum CipherErrorView {
    EncryptionError,
    Utf8Error(InvalidUtf8),
    InputTooLong,
    CiphertextTooShort,
    ProtobufError(MalformedView),
}

impl View for ProfileCipherError {
    type V = CipherErrorView;

    open spec fn view(&self) -> CipherErrorView {
        match *self {
            ProfileCipherError::EncryptionError => CipherErrorView::EncryptionError,
            ProfileCipherError::Utf8Error(error) => CipherErrorView::Utf8Error(error),
            ProfileCipherError::InputTooLong => CipherErrorView::InputTooLong,
            ProfileCipherError::CiphertextTooShort => CipherErrorView::CiphertextTooShort,
            ProfileCipherError::ProtobufError(error) => CipherErrorView::ProtobufError(error@),
        }
    }
}

/// The key that a profile is encrypted with.
#[derive(Clone, Copy)]
pub struct ProfileKey {
    bytes: [u8; KEY_LEN],
}

impl View for ProfileKey {
    type V = Seq<u8>;

    closed spec fn view(&self) -> Seq<u8> {
        self.bytes@
    }
}

impl ProfileKey {
    /// The key with these bytes.
    pub fn create(bytes: [u8; KEY_LEN]) -> (key: ProfileKey)
        ensures
            key@ == bytes@,
    {
        ProfileKey { bytes }
    }

    /// The bytes of the key.
    pub fn get_bytes(&self) -> (bytes: [u8; KEY_LEN])
        ensures
            bytes@ == self@,
    {
        self.bytes
    }
}

/// The plaintext of `nonce || ciphertext || tag`.
pub open spec fn decrypted(key: Seq<u8>, bytes: Seq<u8>) -> Result<Seq<u8>, CipherErrorView> {
    if bytes.len() < ENCRYPTION_OVERHEAD {
        Err(CipherErrorView::CiphertextTooShort)
    } else {
        match opened(key, bytes.take(NONCE_LEN as int), bytes.skip(NONCE_LEN as int)) {
            Some(plaintext) => Ok(plaintext),
            None => Err(CipherErrorView::EncryptionError),
        }
    }
}

/// Whether `bytes` is `plaintext` encrypted under some nonce, which comes first.
pub open spec fn encrypts(key: Seq<u8>, plaintext: Seq<u8>, bytes: Seq<u8>) -> bool {
    &&& bytes.len() == plaintext.len() + ENCRYPTION_OVERHEAD
    &&& bytes == bytes.take(NONCE_LEN as int) + sealed(key, bytes.take(NONCE_LEN as int), plaintext)
    &&& decrypted(key, bytes) == Ok::<Seq<u8>, CipherErrorView>(plaintext)
}

/// A length as four bytes, least significant first.
pub open spec fn length_prefix(n: int) -> Seq<u8> {
    seq![
        (n % 256) as u8,
        (n / 256 % 256) as u8,
        (n / 65536 % 256) as u8,
        (n / 16777216 % 256) as u8,
    ]
}

/// The number that the first four bytes of a plaintext stand for.
pub open spec fn prefixed_length(s: Seq<u8>) -> int {
    s[0] + 256 * s[1] + 65536 * s[2] + 16777216 * s[3]
}

/// What a plaintext holds behind its length, which is a signed 32-bit number.
pub open spec fn without_length(s: Seq<u8>) -> Result<Seq<u8>, CipherErrorView> {
    if s.len() < 4 || prefixed_length(s) > i32::MAX || s.len() < 4 + prefixed_length(s) {
        Err(CipherErrorView::CiphertextTooShort)
    } else {
        Ok(s.subrange(4, 4 + prefixed_length(s)))
    }
}

/// The text in a padded plaintext.
pub open spec fn text_in(plaintext: Seq<u8>) -> Result<Seq<char>, CipherErrorView> {
    if valid_utf8(unpadded(plaintext)) {
        Ok(decode_utf8(unpadded(plaintext)))
    } else {
        Err(CipherErrorView::Utf8Error(utf8_error(unpadded(plaintext))))
    }
}

/// The name in a padded plaintext.
pub open spec fn name_in(plaintext: Seq<u8>) -> Result<Option<NameView>, CipherErrorView> {
    match NameView::deserialized(unpadded(plaintext)) {
        Ok(name) => Ok(name),
        Err(error) => Err(CipherErrorView::Utf8Error(error)),
    }
}

/// The payment address in a padded plaintext.
pub open spec fn payment_address_in(plaintext: Seq<u8>) -> Result<
    Option<PairView>,
    CipherErrorView,
> {
    match without_length(plaintext) {
        Ok(bytes) => match read_envelope(None, bytes) {
            Ok(address) => Ok(address),
            Err(error) => Err(CipherErrorView::ProtobufError(error)),
        },
        Err(error) => Err(error),
    }
}

/// What came of reading a text.
pub open spec fn text_result(result: Result<String, ProfileCipherError>) -> Result<
    Seq<char>,
    CipherErrorView,
> {
    match result {
        Ok(text) => Ok(text@),
        Err(error) => Err(error@),
    }
}

/// What came of reading a name.
pub open spec fn name_result(
    result: Result<Option<ProfileName<String>>, ProfileCipherError>,
) -> Result<Option<NameView>, CipherErrorView> {
    match result {
        Ok(name) => Ok(opt_name(name)),
        Err(error) => Err(error@),
    }
}

/// What came of reading a payment address.
pub open spec fn payment_address_result(
    result: Result<PaymentAddress, ProfileCipherError>,
) -> Result<Option<PairView>, CipherErrorView> {
    match result {
        Ok(address) => Ok(address@),
        Err(error) => Err(error@),
    }
}

/// What came of reading bytes.
pub open spec fn bytes_result(result: Result<Vec<u8>, ProfileCipherError>) -> Result<
    Seq<u8>,
    CipherErrorView,
> {
    match result {
        Ok(bytes) => Ok(bytes@),
        Err(error) => Err(error@),
    }
}

/// What a decrypted field reads as: `read` of the plaintext, or the error of
/// decryption.
pub open spec fn then_read<T>(
    plaintext: Result<Seq<u8>, CipherErrorView>,
    read: spec_fn(Seq<u8>) -> Result<T, CipherErrorView>,
) -> Result<T, CipherErrorView> {
    match plaintext {
        Ok(plaintext) => read(plaintext),
        Err(error) => Err(error),
    }
}

/// Reads the name in a padded plaintext.
pub fn read_name(plaintext: Vec<u8>) -> (result: Result<
    Option<ProfileName<String>>,
    ProfileCipherError,
>)
    ensures
        name_result(result) == name_in(plaintext@),
{
    let bytes = unpad(plaintext);
    match ProfileName::deserialize(bytes.as_slice()) {
        Ok(name) => Ok(name),
        Err(error) => Err(ProfileCipherError::Utf8Error(error)),
    }
}

/// Reads the text in a padded plaintext.
pub fn read_text(plaintext: Vec<u8>) -> (result: Result<String, ProfileCipherError>)
    ensures
        text_result(result) == text_in(plaintext@),
{
    let bytes = unpad(plaintext);
    match from_utf8(bytes.as_slice()) {
        Ok(text) => Ok(text.to_string()),
        Err(error) => Err(ProfileCipherError::Utf8Error(error)),
    }
}

/// Puts the length of `bytes`, as a signed 32-bit number, before them.
pub fn put_length(bytes: &[u8]) -> (result: Result<Vec<u8>, ProfileCipherError>)
    ensures
        match result {
            Ok(prefixed) => {
                &&& bytes@.len() <= i32::MAX
                &&& prefixed@ == length_prefix(bytes@.len() as int) + bytes@
            },
            Err(error) => error == ProfileCipherError::InputTooLong && bytes@.len() > i32::MAX,
        },
{
    if bytes.len() > 0x7fff_ffff {
        return Err(ProfileCipherError::InputTooLong);
    }
    let len: u32 = bytes.len() as u32;
    let mut prefixed: Vec<u8> = Vec::new();
    prefixed.push((len % 256) as u8);
    prefixed.push((len / 256 % 256) as u8);
    prefixed.push((len / 65536 % 256) as u8);
    prefixed.push((len / 16777216 % 256) as u8);
    assert(prefixed@ =~= length_prefix(bytes@.len() as int));
    prefixed.extend_from_slice(bytes);
    assert(prefixed@ =~= length_prefix(bytes@.len() as int) + bytes@);
    Ok(prefixed)
}

/// Takes what a plaintext holds behind its length.
pub fn strip_length(plaintext: Vec<u8>) -> (result: Result<Vec<u8>, ProfileCipherError>)
    ensures
        bytes_result(result) == without_length(plaintext@),
{
    if plaintext.len() < 4 {
        return Err(ProfileCipherError::CiphertextTooShort);
    }
    let len: u32 = plaintext[0] as u32 + 256 * plaintext[1] as u32 + 65536 * plaintext[2] as u32
        + 16777216 * plaintext[3] as u32;
    if len > 0x7fff_ffff {
        return Err(ProfileCipherError::CiphertextTooShort);
    }
    let len: usize = len as usize;
    if plaintext.len() < 4 + len {
        return Err(ProfileCipherError::CiphertextTooShort);
    }
    Ok(slice_to_vec(slice_subrange(plaintext.as_slice(), 4, 4 + len)))
}

/// Reads the payment address in a padded plaintext.
pub fn read_payment_address(plaintext: Vec<u8>) -> (result: Result<
    PaymentAddress,
    ProfileCipherError,
>)
    ensures
        payment_address_result(result) == payment_address_in(plaintext@),
{
    match strip_length(plaintext) {
        Ok(bytes) => match PaymentAddress::decode(bytes.as_slice()) {
            Ok(address) => Ok(address),
            Err(error) => Err(ProfileCipherError::ProtobufError(error)),
        },
        Err(error) => Err(error),
    }
}

/// What an encrypted text reads as.
pub open spec fn decrypted_text(key: Seq<u8>, bytes: Seq<u8>) -> Result<
    Seq<char>,
    CipherErrorView,
> {
    then_read(decrypted(key, bytes), |plaintext: Seq<u8>| text_in(plaintext))
}

/// What an encrypted name reads as.
pub open spec fn decrypted_name(key: Seq<u8>, bytes: Seq<u8>) -> Result<
    Option<NameView>,
    CipherErrorView,
> {
    then_read(decrypted(key, bytes), |plaintext: Seq<u8>| name_in(plaintext))
}

/// What an encrypted payment address reads as.
pub open spec fn decrypted_payment_address(key: Seq<u8>, bytes: Seq<u8>) -> Result<
    Option<PairView>,
    CipherErrorView,
> {
    then_read(decrypted(key, bytes), |plaintext: Seq<u8>| payment_address_in(plaintext))
}

/// What an encrypted avatar reads as.
pub open spec fn decrypted_avatar(key: Seq<u8>, bytes: Seq<u8>) -> Result<
    Seq<u8>,
    CipherErrorView,
> {
    match decrypted(key, bytes) {
        Ok(plaintext) => Ok(unpadded(plaintext)),
        Err(error) => Err(error),
    }
}

/// What came of padding a plaintext to a bracket and encrypting it: the
/// encryption of the padded plaintext, unless it fits no bracket.
pub open spec fn is_padded_encryption(
    key: Seq<u8>,
    plaintext: Seq<u8>,
    brackets: Seq<usize>,
    result: Result<Vec<u8>, ProfileCipherError>,
) -> bool {
    match (padded(plaintext, brackets), result) {
        (Some(whole), Ok(bytes)) => encrypts(key, whole, bytes@),
        (None, Err(error)) => error == ProfileCipherError::InputTooLong,
        _ => false,
    }
}

/// The same for any brackets: a bracket may be too large for encryption.
pub open spec fn is_padded_encryption_or_too_long(
    key: Seq<u8>,
    plaintext: Seq<u8>,
    brackets: Seq<usize>,
    result: Result<Vec<u8>, ProfileCipherError>,
) -> bool {
    if bracket(brackets, plaintext.len()) matches Some(len) && len > MAX_PLAINTEXT {
        result == Err::<Vec<u8>, ProfileCipherError>(ProfileCipherError::EncryptionError)
    } else {
        is_padded_encryption(key, plaintext, brackets, result)
    }
}

/// Whether the ciphertext of `n` padded bytes fits into an allocation.
pub open spec fn fits_memory(brackets: Seq<usize>, n: nat) -> bool {
    bracket(brackets, n) matches Some(len) ==> {
        &&& len <= isize::MAX
        &&& len <= MAX_PLAINTEXT ==> len + ENCRYPTION_OVERHEAD <= isize::MAX
    }
}

/// What came of padding a plaintext: the padded plaintext, unless it fits no bracket.
pub open spec fn is_padded(
    plaintext: Seq<u8>,
    brackets: Seq<usize>,
    result: Result<Vec<u8>, ProfileCipherError>,
) -> bool {
    match (padded(plaintext, brackets), result) {
        (Some(whole), Ok(bytes)) => bytes@ == whole,
        (None, Err(error)) => error == ProfileCipherError::InputTooLong,
        _ => false,
    }
}

/// What came of padding a plaintext and encrypting it under a nonce: the nonce and
/// what the padded plaintext is sealed to, unless it fits no bracket.
pub open spec fn is_padded_encryption_under(
    key: Seq<u8>,
    nonce: Seq<u8>,
    plaintext: Seq<u8>,
    brackets: Seq<usize>,
    result: Result<Vec<u8>, ProfileCipherError>,
) -> bool {
    &&& is_padded_encryption(key, plaintext, brackets, result)
    &&& padded(plaintext, brackets) matches Some(whole) ==> (result matches Ok(bytes) && bytes@
        == nonce + sealed(key, nonce, whole))
}

/// Pads the bytes of a name.
pub fn pad_name(name: &ProfileName<&str>) -> (result: Result<Vec<u8>, ProfileCipherError>)
    ensures
        is_padded(name@.serialized(), NAME_PADDING_BRACKETS@, result),
{
    let mut bytes = name.serialize();
    let brackets = NAME_PADDING_BRACKETS;
    proof {
        padded_length_is_a_bracket(bytes@, brackets@);
    }
    match pad_plaintext(&mut bytes, brackets.as_slice()) {
        Ok(_len) => Ok(bytes),
        Err(error) => Err(error),
    }
}

/// Pads the bytes of an about text.
pub fn pad_about(about: &str) -> (result: Result<Vec<u8>, ProfileCipherError>)
    ensures
        is_padded(encode_utf8(about@), ABOUT_PADDING_BRACKETS@, result),
{
    let mut bytes = about.as_bytes_vec();
    let brackets = ABOUT_PADDING_BRACKETS;
    proof {
        padded_length_is_a_bracket(bytes@, brackets@);
    }
    match pad_plaintext(&mut bytes, brackets.as_slice()) {
        Ok(_len) => Ok(bytes),
        Err(error) => Err(error),
    }
}

/// Pads the bytes of an emoji.
pub fn pad_emoji(emoji: &str) -> (result: Result<Vec<u8>, ProfileCipherError>)
    ensures
        is_padded(encode_utf8(emoji@), seq![EMOJI_PADDED_LENGTH], result),
{
    let mut bytes = emoji.as_bytes_vec();
    let brackets: [usize; 1] = [EMOJI_PADDED_LENGTH];
    proof {
        assert(brackets@ =~= seq![EMOJI_PADDED_LENGTH]);
        padded_length_is_a_bracket(bytes@, brackets@);
    }
    match pad_plaintext(&mut bytes, brackets.as_slice()) {
        Ok(_len) => Ok(bytes),
        Err(error) => Err(error),
    }
}

/// The bytes of a payment address with their length before them.
pub open spec fn prefixed_payment_address(address: Option<PairView>) -> Seq<u8> {
    let bytes = write_envelope(address);
    length_prefix(bytes.len() as int) + bytes
}

/// Pads the bytes of a payment address, with their length before them.
pub fn pad_payment_address(payment_address: &PaymentAddress) -> (result: Result<
    Vec<u8>,
    ProfileCipherError,
>)
    requires
        write_envelope(payment_address@).len() <= isize::MAX,
    ensures
        is_padded(
            prefixed_payment_address(payment_address@),
            seq![PAYMENT_ADDRESS_CONTENT_SIZE],
            result,
        ),
{
    let bytes = payment_address.encode_to_vec();
    let brackets: [usize; 1] = [PAYMENT_ADDRESS_CONTENT_SIZE];
    proof {
        assert(brackets@ =~= seq![PAYMENT_ADDRESS_CONTENT_SIZE]);
        padded_length_is_a_bracket(prefixed_payment_address(payment_address@), brackets@);
        reveal_with_fuel(bracket, 2);
    }
    match put_length(bytes.as_slice()) {
        Ok(prefixed) => {
            let mut plaintext = prefixed;
            match pad_plaintext(&mut plaintext, brackets.as_slice()) {
                Ok(_len) => Ok(plaintext),
                Err(error) => Err(error),
            }
        },
        Err(error) => Err(error),
    }
}

/// What must hold for a payment address to be trusted: `signature` verifies over
/// `message` against the key that `identity_key` encodes.
#[derive(Clone, Debug, PartialEq, Eq)]
pub struct SignatureCheck {
    pub identity_key: Vec<u8>,
    pub message: Vec<u8>,
    pub signature: Vec<u8>,
}

/// What a [`SignatureCheck`] asks.
#[verifier::ext_equal]
pub struct SignatureCheckView {
    pub identity_key: Seq<u8>,
    pub message: Seq<u8>,
    pub signature: Seq<u8>,
}

impl View for SignatureCheck {
    type V = SignatureCheckView;

    open spec fn view(&self) -> SignatureCheckView {
        SignatureCheckView {
            identity_key: self.identity_key@,
            message: self.message@,
            signature: self.signature@,
        }
    }
}

/// What an optional check asks.
pub open spec fn opt_check(check: Option<SignatureCheck>) -> Option<SignatureCheckView> {
    match check {
        Some(check) => Some(check@),
        None => None,
    }
}

/// The check that decides whether a payment address is trusted. There is none,
/// and the address is not trusted, where the identity key, the address or the
/// signature is missing.
pub open spec fn signature_check_of(
    address: Option<PairView>,
    identity_key: Option<Seq<u8>>,
) -> Option<SignatureCheckView> {
    match (identity_key, address) {
        (Some(identity_key), Some(pair)) => match (pair.first, pair.second) {
            (Some(message), Some(signature)) => Some(
                SignatureCheckView { identity_key, message, signature },
            ),
            _ => None,
        },
        _ => None,
    }
}

/// The check that decides whether a payment address is trusted.
pub fn signature_check(payment_address: &PaymentAddress, identity_key: Option<&[u8]>) -> (check:
    Option<SignatureCheck>)
    ensures
        opt_check(check) == signature_check_of(payment_address@, opt_slice(identity_key)),
        match check {
            Some(check) => {
                &&& identity_key matches Some(key)
                &&& check.identity_key@ == key@
                &&& payment_address.address matches Some(Address::MobileCoin(coin))
                &&& coin.public_address matches Some(address)
                &&& check.message@ == address@
                &&& coin.signature matches Some(signature)
                &&& check.signature@ == signature@
            },
            None => identity_key is None || !(payment_address.address matches Some(
                Address::MobileCoin(coin),
            ) && coin.public_address is Some && coin.signature is Some),
        },
{
    match identity_key {
        Some(identity_key) => match &payment_address.address {
            Some(Address::MobileCoin(coin)) => match (&coin.public_address, &coin.signature) {
                (Some(address), Some(signature)) => Some(
                    SignatureCheck {
                        identity_key: slice_to_vec(identity_key),
                        message: slice_to_vec(address.as_slice()),
                        signature: slice_to_vec(signature.as_slice()),
                    },
                ),
                _ => None,
            },
            None => None,
        },
        None => None,
    }
}

/// The bytes of an optional slice.
pub open spec fn opt_slice(bytes: Option<&[u8]>) -> Option<Seq<u8>> {
    match bytes {
        Some(bytes) => Some(bytes@),
        None => None,
    }
}

/// A payment address is only trustworthy if its signature over the raw MobileCoin
/// address verifies against the profile owner's identity key: `verifies` is
/// whether the [`signature_check`] does.
pub fn verify_payment_address_signature(
    payment_address: &PaymentAddress,
    identity_key: Option<&[u8]>,
    verifies: bool,
) -> (trusted: bool)
    ensures
        trusted == (verifies && signature_check_of(
            payment_address@,
            opt_slice(identity_key),
        ) is Some),
        trusted <==> verifies && identity_key is Some && (payment_address.address matches Some(
            Address::MobileCoin(coin),
        ) && coin.public_address is Some && coin.signature is Some),
{
    verifies && signature_check(payment_address, identity_key).is_some()
}

/// A decrypted profile.
#[derive(Clone, Debug, PartialEq, Eq)]
pub struct Profile {
    pub name: Option<ProfileName<String>>,
    pub about: Option<String>,
    pub about_emoji: Option<String>,
    pub avatar: Option<String>,
    pub unrestricted_unidentified_access: bool,
    pub payment_address: Option<Vec<u8>>,
}

/// What a [`Profile`] says.
#[verifier::ext_equal]
pub struct ProfileView {
    pub name: Option<NameView>,
    pub about: Option<Seq<char>>,
    pub about_emoji: Option<Seq<char>>,
    pub avatar: Option<Seq<char>>,
    pub unrestricted_unidentified_access: bool,
    pub payment_address: Option<Seq<u8>>,
}

impl View for Profile {
    type V = ProfileView;

    open spec fn view(&self) -> ProfileView {
        ProfileView {
            name: opt_name(self.name),
            about: opt_text(self.about),
            about_emoji: opt_text(self.about_emoji),
            avatar: opt_text(self.avatar),
            unrestricted_unidentified_access: self.unrestricted_unidentified_access,
            payment_address: opt_bytes(self.payment_address),
        }
    }
}

/// The fields of a profile, each as it was decrypted, where the server sent it.
pub struct DecryptedFields {
    pub name: Option<Result<Option<ProfileName<String>>, ProfileCipherError>>,
    pub about: Option<Result<String, ProfileCipherError>>,
    pub about_emoji: Option<Result<String, ProfileCipherError>>,
    pub payment_address: Option<Result<PaymentAddress, ProfileCipherError>>,
}

/// What [`DecryptedFields`] say.
#[verifier::ext_equal]
pub struct FieldsView {
    pub name: Option<Result<Option<NameView>, CipherErrorView>>,
    pub about: Option<Result<Seq<char>, CipherErrorView>>,
    pub about_emoji: Option<Result<Seq<char>, CipherErrorView>>,
    pub payment_address: Option<Result<Option<PairView>, CipherErrorView>>,
}

impl View for DecryptedFields {
    type V = FieldsView;

    open spec fn view(&self) -> FieldsView {
        FieldsView {
            name: match self.name {
                Some(result) => Some(name_result(result)),
                None => None,
            },
            about: match self.about {
                Some(result) => Some(text_result(result)),
                None => None,
            },
            about_emoji: match self.about_emoji {
                Some(result) => Some(text_result(result)),
                None => None,
            },
            payment_address: match self.payment_address {
                Some(result) => Some(payment_address_result(result)),
                None => None,
            },
        }
    }
}

/// The fields of a profile, each decrypted where the server sent it.
pub open spec fn decrypted_fields(key: Seq<u8>, profile: SignalServiceProfile) -> FieldsView {
    FieldsView {
        name: match profile.name {
            Some(bytes) => Some(decrypted_name(key, bytes@)),
            None => None,
        },
        about: match profile.about {
            Some(bytes) => Some(decrypted_text(key, bytes@)),
            None => None,
        },
        about_emoji: match profile.about_emoji {
            Some(bytes) => Some(decrypted_text(key, bytes@)),
            None => None,
        },
        payment_address: match profile.payment_address {
            Some(bytes) => Some(decrypted_payment_address(key, bytes@)),
            None => None,
        },
    }
}

impl FieldsView {
    /// The payment address, if it was decrypted and its signature verified.
    pub open spec fn trusted_payment_address(
        self,
        identity_key: Option<Seq<u8>>,
        verifies: bool,
    ) -> Option<Seq<u8>> {
        match self.payment_address {
            Some(Ok(address)) => if verifies && signature_check_of(address, identity_key) is Some {
                Some(write_envelope(address))
            } else {
                None
            },
            _ => None,
        }
    }

    /// The profile that the fields make, or the first error among the name, the
    /// about text and the emoji. A stale, malformed or improperly signed payment
    /// address does not fail the whole profile: it is absent instead.
    pub open spec fn assembled(
        self,
        identity_key: Option<Seq<u8>>,
        avatar: Option<Seq<char>>,
        unrestricted_unidentified_access: bool,
        verifies: bool,
    ) -> Result<ProfileView, CipherErrorView> {
        match (self.name, self.about, self.about_emoji) {
            (Some(Err(error)), _, _) => Err(error),
            (_, Some(Err(error)), _) => Err(error),
            (_, _, Some(Err(error))) => Err(error),
            (name, about, about_emoji) => Ok(
                ProfileView {
                    name: match name {
                        Some(Ok(name)) => name,
                        _ => None,
                    },
                    about: match about {
                        Some(Ok(text)) => Some(text),
                        _ => None,
                    },
                    about_emoji: match about_emoji {
                        Some(Ok(text)) => Some(text),
                        _ => None,
                    },
                    avatar,
                    unrestricted_unidentified_access,
                    payment_address: self.trusted_payment_address(identity_key, verifies),
                },
            ),
        }
    }
}

/// What came of reading a profile.
pub open spec fn profile_result(result: Result<Profile, ProfileCipherError>) -> Result<
    ProfileView,
    CipherErrorView,
> {
    match result {
        Ok(profile) => Ok(profile@),
        Err(error) => Err(error@),
    }
}

/// Makes a profile of its decrypted fields. `verifies` is whether the
/// [`signature_check`] of the payment address does.
pub fn assemble(
    fields: DecryptedFields,
    identity_key: Option<&[u8]>,
    avatar: Option<String>,
    unrestricted_unidentified_access: bool,
    verifies: bool,
) -> (result: Result<Profile, ProfileCipherError>)
    requires
        fields@.payment_address matches Some(Ok(address)) ==> write_envelope(address).len()
            <= isize::MAX,
    ensures
        profile_result(result) == fields@.assembled(
            opt_slice(identity_key),
            opt_text(avatar),
            unrestricted_unidentified_access,
            verifies,
        ),
        result matches Ok(profile) ==> {
            &&& match fields.name {
                Some(Ok(name)) => profile.name == name,
                _ => profile.name is None,
            }
            &&& match fields.about {
                Some(Ok(text)) => profile.about == Some(text),
                _ => profile.about is None,
            }
            &&& match fields.about_emoji {
                Some(Ok(text)) => profile.about_emoji == Some(text),
                _ => profile.about_emoji is None,
            }
            &&& profile.avatar == avatar
            &&& profile.unrestricted_unidentified_access == unrestricted_unidentified_access
        },
        result matches Err(error) ==> fields.name == Some(
            Err::<Option<ProfileName<String>>, ProfileCipherError>(error),
        ) || fields.about == Some(Err::<String, ProfileCipherError>(error)) || fields.about_emoji
            == Some(Err::<String, ProfileCipherError>(error)),
{
    let name = match fields.name {
        Some(Ok(name)) => name,
        Some(Err(error)) => {
            return Err(error);
        },
        None => None,
    };
    let about = match fields.about {
        Some(Ok(text)) => Some(text),
        Some(Err(error)) => {
            return Err(error);
        },
        None => None,
    };
    let about_emoji = match fields.about_emoji {
        Some(Ok(text)) => Some(text),
        Some(Err(error)) => {
            return Err(error);
        },
        None => None,
    };
    let payment_address = match fields.payment_address {
        Some(Ok(address)) => if verify_payment_address_signature(&address, identity_key, verifies) {
            Some(address.encode_to_vec())
        } else {
            None
        },
        _ => None,
    };
    Ok(
        Profile {
            name,
            about,
            about_emoji,
            avatar,
            unrestricted_unidentified_access,
            payment_address,
        },
    )
}

/// Encrypts and decrypts the fields of a profile.
pub struct ProfileCipher {
    profile_key: ProfileKey,
}

impl View for ProfileCipher {
    type V = Seq<u8>;

    /// The bytes of the profile key.
    closed spec fn view(&self) -> Seq<u8> {
        self.profile_key@
    }
}

/// Draws a nonce. Any bytes may come: what its callers state holds for each nonce.
fn random_nonce(csprng: &mut rand::rngs::ThreadRng) -> [u8; NONCE_LEN] {
    let bytes = random_bytes(csprng, NONCE_LEN);
    array_of::<NONCE_LEN>(bytes.as_slice()).unwrap()
}

impl ProfileCipher {
    pub fn new(profile_key: ProfileKey) -> (cipher: Self)
        ensures
            cipher@ == profile_key@,
    {
        ProfileCipher { profile_key }
    }

    pub fn into_inner(self) -> (profile_key: ProfileKey)
        ensures
            profile_key@ == self@,
    {
        self.profile_key
    }

    /// AES-256-GCM without padding, under the given nonce:
    /// `nonce (12) || ciphertext || tag (16)`.
    pub fn encrypt_raw(&self, bytes: Vec<u8>, nonce: &[u8; NONCE_LEN]) -> (result: Result<
        Vec<u8>,
        ProfileCipherError,
    >)
        requires
            bytes@.len() <= MAX_PLAINTEXT ==> bytes@.len() + ENCRYPTION_OVERHEAD <= isize::MAX,
        ensures
            match result {
                Ok(whole) => {
                    &&& bytes@.len() <= MAX_PLAINTEXT
                    &&& whole@ == nonce@ + sealed(self@, nonce@, bytes@)
                    &&& encrypts(self@, bytes@, whole@)
                },
                Err(error) => {
                    &&& error == ProfileCipherError::EncryptionError
                    &&& bytes@.len() > MAX_PLAINTEXT
                },
            },
    {
        let key = self.profile_key.get_bytes();
        match aes_gcm_256::encrypt_in_place(&key, nonce, bytes) {
            Ok(ciphertext) => {
                let mut whole: Vec<u8> = Vec::new();
                whole.extend_from_slice(nonce.as_slice());
                whole.extend_from_slice(ciphertext.as_slice());
                proof {
                    assert(whole@ =~= nonce@ + ciphertext@);
                    assert(whole@.take(NONCE_LEN as int) =~= nonce@);
                    assert(whole@.skip(NONCE_LEN as int) =~= ciphertext@);
                }
                Ok(whole)
            },
            Err(_) => Err(ProfileCipherError::EncryptionError),
        }
    }

    /// Undoes [`Self::encrypt_raw`].
    pub fn decrypt_raw(&self, bytes: &[u8]) -> (result: Result<Vec<u8>, ProfileCipherError>)
        ensures
            bytes_result(result) == decrypted(self@, bytes@),
            match result {
                Ok(plaintext) => bytes@.len() >= 28 && opened(
                    self@,
                    bytes@.take(12),
                    bytes@.skip(12),
                ) == Some(plaintext@),
                Err(ProfileCipherError::CiphertextTooShort) => bytes@.len() < 28,
                Err(error) => bytes@.len() >= 28 && error == ProfileCipherError::EncryptionError
                    && opened(self@, bytes@.take(12), bytes@.skip(12)) is None,
            },
            result matches Ok(plaintext) ==> plaintext@.len() + ENCRYPTION_OVERHEAD == bytes@.len(),
    {
        if bytes.len() < NONCE_LEN + TAG_LEN {
            return Err(ProfileCipherError::CiphertextTooShort);
        }
        let nonce = array_of::<NONCE_LEN>(slice_subrange(bytes, 0, NONCE_LEN)).unwrap();
        let ciphertext = slice_subrange(bytes, NONCE_LEN, bytes.len());
        let key = self.profile_key.get_bytes();
        proof {
            assert(nonce@ =~= bytes@.take(NONCE_LEN as int));
            assert(ciphertext@ =~= bytes@.skip(NONCE_LEN as int));
        }
        match aes_gcm_256::decrypt(&key, &nonce, ciphertext) {
            Ok(plaintext) => Ok(plaintext),
            Err(_) => Err(ProfileCipherError::EncryptionError),
        }
    }

    /// Pads a plaintext to the first bracket it fits into and encrypts it. The nonce
    /// is drawn once the plaintext is known to fit.
    pub fn pad_and_encrypt(
        &self,
        bytes: Vec<u8>,
        padding_brackets: &[usize],
        csprng: &mut rand::rngs::ThreadRng,
    ) -> (result: Result<Vec<u8>, ProfileCipherError>)
        requires
            fits_memory(padding_brackets@, bytes@.len()),
        ensures
            is_padded_encryption_or_too_long(self@, bytes@, padding_brackets@, result),
            bracket(padding_brackets@, bytes@.len()) is None ==> *final(csprng) == *old(csprng),
    {
        let mut plaintext = bytes;
        match pad_plaintext(&mut plaintext, padding_brackets) {
            Ok(_len) => {
                let nonce = random_nonce(csprng);
                self.encrypt_raw(plaintext, &nonce)
            },
            Err(error) => Err(error),
        }
    }

    /// Like [`Self::pad_and_encrypt`], with the length of the plaintext before it
    /// as a 4-byte little-endian integer, so that binary content survives
    /// zero-padding.
    pub fn pad_and_encrypt_with_length(
        &self,
        bytes: &[u8],
        padding_brackets: &[usize],
        csprng: &mut rand::rngs::ThreadRng,
    ) -> (result: Result<Vec<u8>, ProfileCipherError>)
        requires
            fits_memory(padding_brackets@, bytes@.len() + 4),
        ensures
            if bytes@.len() <= i32::MAX {
                is_padded_encryption_or_too_long(
                    self@,
                    length_prefix(bytes@.len() as int) + bytes@,
                    padding_brackets@,
                    result,
                )
            } else {
                result == Err::<Vec<u8>, ProfileCipherError>(ProfileCipherError::InputTooLong)
            },
            bytes@.len() > i32::MAX || bracket(padding_brackets@, bytes@.len() + 4) is None
                ==> *final(csprng) == *old(csprng),
    {
        match put_length(bytes) {
            Ok(prefixed) => self.pad_and_encrypt(prefixed, padding_brackets, csprng),
            Err(error) => Err(error),
        }
    }

    /// Undoes [`Self::pad_and_encrypt_with_length`].
    pub fn decrypt_with_length(&self, bytes: &[u8]) -> (result: Result<Vec<u8>, ProfileCipherError>)
        ensures
            bytes_result(result) == then_read(
                decrypted(self@, bytes@),
                |plaintext: Seq<u8>| without_length(plaintext),
            ),
    {
        match self.decrypt_raw(bytes) {
            Ok(plaintext) => strip_length(plaintext),
            Err(error) => Err(error),
        }
    }

    /// Decrypts a field and removes the zero bytes at its end.
    pub fn decrypt_and_unpad(&self, bytes: &[u8]) -> (result: Result<Vec<u8>, ProfileCipherError>)
        ensures
            bytes_result(result) == decrypted_avatar(self@, bytes@),
            match result {
                Ok(read) => decrypted_avatar(self@, bytes@) == Ok::<Seq<u8>, CipherErrorView>(
                    read@,
                ),
                Err(error) => decrypted_avatar(self@, bytes@) == Err::<Seq<u8>, CipherErrorView>(
                    error@,
                ),
            },
    {
        match self.decrypt_raw(bytes) {
            Ok(plaintext) => Ok(unpad(plaintext)),
            Err(error) => Err(error),
        }
    }

    pub fn decrypt_avatar(&self, bytes: &[u8]) -> (result: Result<Vec<u8>, ProfileCipherError>)
        ensures
            bytes_result(result) == decrypted_avatar(self@, bytes@),
            match result {
                Ok(read) => decrypted_avatar(self@, bytes@) == Ok::<Seq<u8>, CipherErrorView>(
                    read@,
                ),
                Err(error) => decrypted_avatar(self@, bytes@) == Err::<Seq<u8>, CipherErrorView>(
                    error@,
                ),
            },
    {
        self.decrypt_and_unpad(bytes)
    }

    /// Encrypts an avatar image for upload. No padding is applied.
    pub fn encrypt_avatar(&self, bytes: Vec<u8>, csprng: &mut rand::rngs::ThreadRng) -> (result:
        Result<Vec<u8>, ProfileCipherError>)
        requires
            bytes@.len() <= MAX_PLAINTEXT ==> bytes@.len() + ENCRYPTION_OVERHEAD <= isize::MAX,
        ensures
            match result {
                Ok(whole) => bytes@.len() <= MAX_PLAINTEXT && encrypts(self@, bytes@, whole@),
                Err(error) => {
                    &&& error == ProfileCipherError::EncryptionError
                    &&& bytes@.len() > MAX_PLAINTEXT
                },
            },
    {
        let nonce = random_nonce(csprng);
        self.encrypt_raw(bytes, &nonce)
    }

    /// Encrypts a payment address for the `paymentAddress` profile field
    /// (length-prefixed, padded to a fixed bracket of 554 bytes).
    pub fn encrypt_payment_address(
        &self,
        payment_address: &PaymentAddress,
        csprng: &mut rand::rngs::ThreadRng,
    ) -> (result: Result<Vec<u8>, ProfileCipherError>)
        requires
            write_envelope(payment_address@).len() <= isize::MAX,
        ensures
            ({
                let bytes = write_envelope(payment_address@);
                if bytes.len() + 4 <= PAYMENT_ADDRESS_CONTENT_SIZE {
                    is_padded_encryption(
                        self@,
                        length_prefix(bytes.len() as int) + bytes,
                        seq![PAYMENT_ADDRESS_CONTENT_SIZE],
                        result,
                    ) && result is Ok
                } else {
                    result == Err::<Vec<u8>, ProfileCipherError>(ProfileCipherError::InputTooLong)
                }
            }),
            result is Err ==> *final(csprng) == *old(csprng),
    {
        let bytes = payment_address.encode_to_vec();
        let brackets: [usize; 1] = [PAYMENT_ADDRESS_CONTENT_SIZE];
        proof {
            assert(brackets@ =~= seq![PAYMENT_ADDRESS_CONTENT_SIZE]);
            assert(brackets@.skip(1) =~= Seq::empty());
            reveal_with_fuel(bracket, 2);
        }
        self.pad_and_encrypt_with_length(bytes.as_slice(), brackets.as_slice(), csprng)
    }

    /// Encrypts a payment address under the given nonce.
    pub fn encrypt_payment_address_under(
        &self,
        payment_address: &PaymentAddress,
        nonce: &[u8; NONCE_LEN],
    ) -> (result: Result<Vec<u8>, ProfileCipherError>)
        requires
            write_envelope(payment_address@).len() <= isize::MAX,
        ensures
            is_padded_encryption_under(
                self@,
                nonce@,
                prefixed_payment_address(payment_address@),
                seq![PAYMENT_ADDRESS_CONTENT_SIZE],
                result,
            ),
    {
        proof {
            padded_length_is_a_bracket(
                prefixed_payment_address(payment_address@),
                seq![PAYMENT_ADDRESS_CONTENT_SIZE],
            );
        }
        match pad_payment_address(payment_address) {
            Ok(plaintext) => self.encrypt_raw(plaintext, nonce),
            Err(error) => Err(error),
        }
    }

    /// Decrypts the `paymentAddress` profile field.
    pub fn decrypt_payment_address(&self, bytes: &[u8]) -> (result: Result<
        PaymentAddress,
        ProfileCipherError,
    >)
        ensures
            payment_address_result(result) == decrypted_payment_address(self@, bytes@),
            match result {
                Ok(address) => decrypted_payment_address(self@, bytes@) == Ok::<
                    Option<PairView>,
                    CipherErrorView,
                >(address@),
                Err(error) => decrypted_payment_address(self@, bytes@) == Err::<
                    Option<PairView>,
                    CipherErrorView,
                >(error@),
            },
            result matches Ok(address) ==> (bytes@.len() <= isize::MAX ==> write_envelope(
                address@,
            ).len() <= bytes@.len()),
    {
        match self.decrypt_raw(bytes) {
            Ok(plaintext) => {
                proof {
                    if let Ok(payload) = without_length(plaintext@) {
                        if bytes@.len() <= isize::MAX {
                            envelope_hardly_grows(payload);
                        }
                    }
                }
                read_payment_address(plaintext)
            },
            Err(error) => Err(error),
        }
    }

    pub fn encrypt_name(
        &self,
        name: &ProfileName<&str>,
        csprng: &mut rand::rngs::ThreadRng,
    ) -> (result: Result<Vec<u8>, ProfileCipherError>)
        ensures
            is_padded_encryption(self@, name@.serialized(), NAME_PADDING_BRACKETS@, result),
            result is Ok <==> name@.serialized().len() <= NAME_PADDED_LENGTH_2,
            result is Err ==> *final(csprng) == *old(csprng),
    {
        let bytes = name.serialize();
        let brackets = NAME_PADDING_BRACKETS;
        proof {
            fitting_plaintexts_are_accepted(bytes@);
            padded_length_is_a_bracket(bytes@, brackets@);
        }
        self.pad_and_encrypt(bytes, brackets.as_slice(), csprng)
    }

    /// Encrypts a name under the given nonce.
    pub fn encrypt_name_under(&self, name: &ProfileName<&str>, nonce: &[u8; NONCE_LEN]) -> (result:
        Result<Vec<u8>, ProfileCipherError>)
        ensures
            is_padded_encryption_under(
                self@,
                nonce@,
                name@.serialized(),
                NAME_PADDING_BRACKETS@,
                result,
            ),
    {
        proof {
            padded_length_is_a_bracket(name@.serialized(), NAME_PADDING_BRACKETS@);
        }
        match pad_name(name) {
            Ok(plaintext) => self.encrypt_raw(plaintext, nonce),
            Err(error) => Err(error),
        }
    }

    pub fn decrypt_name(&self, bytes: &[u8]) -> (result: Result<
        Option<ProfileName<String>>,
        ProfileCipherError,
    >)
        ensures
            name_result(result) == decrypted_name(self@, bytes@),
            match result {
                Ok(Some(name)) => decrypted_name(self@, bytes@) == Ok::<
                    Option<NameView>,
                    CipherErrorView,
                >(Some(name@)),
                Ok(None) => decrypted_name(self@, bytes@) == Ok::<
                    Option<NameView>,
                    CipherErrorView,
                >(None),
                Err(error) => decrypted_name(self@, bytes@) == Err::<
                    Option<NameView>,
                    CipherErrorView,
                >(error@),
            },
    {
        match self.decrypt_raw(bytes) {
            Ok(plaintext) => read_name(plaintext),
            Err(error) => Err(error),
        }
    }

    pub fn encrypt_about(&self, about: String, csprng: &mut rand::rngs::ThreadRng) -> (result:
        Result<Vec<u8>, ProfileCipherError>)
        ensures
            is_padded_encryption(self@, encode_utf8(about@), ABOUT_PADDING_BRACKETS@, result),
            result is Ok <==> encode_utf8(about@).len() <= ABOUT_PADDED_LENGTH_3,
            result is Err ==> *final(csprng) == *old(csprng),
    {
        let bytes = about.as_str().as_bytes_vec();
        let brackets = ABOUT_PADDING_BRACKETS;
        proof {
            fitting_plaintexts_are_accepted(bytes@);
            padded_length_is_a_bracket(bytes@, brackets@);
        }
        self.pad_and_encrypt(bytes, brackets.as_slice(), csprng)
    }

    /// Encrypts an about text under the given nonce.
    pub fn encrypt_about_under(&self, about: &str, nonce: &[u8; NONCE_LEN]) -> (result: Result<
        Vec<u8>,
        ProfileCipherError,
    >)
        ensures
            is_padded_encryption_under(
                self@,
                nonce@,
                encode_utf8(about@),
                ABOUT_PADDING_BRACKETS@,
                result,
            ),
    {
        proof {
            padded_length_is_a_bracket(encode_utf8(about@), ABOUT_PADDING_BRACKETS@);
        }
        match pad_about(about) {
            Ok(plaintext) => self.encrypt_raw(plaintext, nonce),
            Err(error) => Err(error),
        }
    }

    pub fn decrypt_about(&self, bytes: &[u8]) -> (result: Result<String, ProfileCipherError>)
        ensures
            text_result(result) == decrypted_text(self@, bytes@),
            match result {
                Ok(read) => decrypted_text(self@, bytes@) == Ok::<Seq<char>, CipherErrorView>(
                    read@,
                ),
                Err(error) => decrypted_text(self@, bytes@) == Err::<Seq<char>, CipherErrorView>(
                    error@,
                ),
            },
    {
        match self.decrypt_raw(bytes) {
            Ok(plaintext) => read_text(plaintext),
            Err(error) => Err(error),
        }
    }

    pub fn encrypt_emoji(&self, emoji: String, csprng: &mut rand::rngs::ThreadRng) -> (result:
        Result<Vec<u8>, ProfileCipherError>)
        ensures
            is_padded_encryption(self@, encode_utf8(emoji@), seq![EMOJI_PADDED_LENGTH], result),
            result is Ok <==> encode_utf8(emoji@).len() <= EMOJI_PADDED_LENGTH,
            result is Err ==> *final(csprng) == *old(csprng),
    {
        let bytes = emoji.as_str().as_bytes_vec();
        let brackets: [usize; 1] = [EMOJI_PADDED_LENGTH];
        proof {
            fitting_plaintexts_are_accepted(bytes@);
            assert(brackets@ =~= seq![EMOJI_PADDED_LENGTH]);
            padded_length_is_a_bracket(bytes@, brackets@);
        }
        self.pad_and_encrypt(bytes, brackets.as_slice(), csprng)
    }

    /// Encrypts an emoji under the given nonce.
    pub fn encrypt_emoji_under(&self, emoji: &str, nonce: &[u8; NONCE_LEN]) -> (result: Result<
        Vec<u8>,
        ProfileCipherError,
    >)
        ensures
            is_padded_encryption_under(
                self@,
                nonce@,
                encode_utf8(emoji@),
                seq![EMOJI_PADDED_LENGTH],
                result,
            ),
    {
        proof {
            padded_length_is_a_bracket(encode_utf8(emoji@), seq![EMOJI_PADDED_LENGTH]);
        }
        match pad_emoji(emoji) {
            Ok(plaintext) => self.encrypt_raw(plaintext, nonce),
            Err(error) => Err(error),
        }
    }

    pub fn decrypt_emoji(&self, bytes: &[u8]) -> (result: Result<String, ProfileCipherError>)
        ensures
            text_result(result) == decrypted_text(self@, bytes@),
            match result {
                Ok(read) => decrypted_text(self@, bytes@) == Ok::<Seq<char>, CipherErrorView>(
                    read@,
                ),
                Err(error) => decrypted_text(self@, bytes@) == Err::<Seq<char>, CipherErrorView>(
                    error@,
                ),
            },
    {
        match self.decrypt_raw(bytes) {
            Ok(plaintext) => read_text(plaintext),
            Err(error) => Err(error),
        }
    }

    /// Decrypts each field that the server sent.
    fn decrypt_fields(&self, encrypted_profile: &SignalServiceProfile) -> (fields: DecryptedFields)
        ensures
            fields@ == decrypted_fields(self@, *encrypted_profile),
            fields@.payment_address matches Some(Ok(address)) ==> (
            encrypted_profile.payment_address matches Some(bytes) && (bytes@.len() <= isize::MAX
                ==> write_envelope(address).len() <= bytes@.len())),
    {
        DecryptedFields {
            name: match &encrypted_profile.name {
                Some(data) => Some(self.decrypt_name(data.as_slice())),
                None => None,
            },
            about: match &encrypted_profile.about {
                Some(data) => Some(self.decrypt_about(data.as_slice())),
                None => None,
            },
            about_emoji: match &encrypted_profile.about_emoji {
                Some(data) => Some(self.decrypt_emoji(data.as_slice())),
                None => None,
            },
            payment_address: match &encrypted_profile.payment_address {
                Some(data) => Some(self.decrypt_payment_address(data.as_slice())),
                None => None,
            },
        }
    }

    /// The check that decides whether [`Self::decrypt`] may show the payment
    /// address of a profile. There is none where it may not in any case.
    pub fn payment_signature_check(&self, encrypted_profile: &SignalServiceProfile) -> (check:
        Option<SignatureCheck>)
        ensures
            opt_check(check) == match decrypted_fields(self@, *encrypted_profile).payment_address {
                Some(Ok(address)) => signature_check_of(
                    address,
                    opt_bytes(encrypted_profile.identity_key),
                ),
                _ => None,
            },
            check matches Some(check) ==> {
                &&& encrypted_profile.identity_key matches Some(key)
                &&& check.identity_key@ == key@
                &&& encrypted_profile.payment_address matches Some(bytes)
                &&& decrypted_payment_address(self@, bytes@) matches Ok(Some(pair))
                &&& pair.first == Some(check.message@)
                &&& pair.second == Some(check.signature@)
            },
            check is None ==> encrypted_profile.identity_key is None || !(
            encrypted_profile.payment_address matches Some(bytes) && decrypted_payment_address(
                self@,
                bytes@,
            ) matches Ok(Some(pair)) && pair.first is Some && pair.second is Some),
    {
        let identity_key = match &encrypted_profile.identity_key {
            Some(bytes) => Some(bytes.as_slice()),
            None => None,
        };
        match self.decrypt_fields(encrypted_profile).payment_address {
            Some(Ok(address)) => signature_check(&address, identity_key),
            _ => None,
        }
    }

    /// Decrypts a profile. `verifies` is whether the
    /// [`Self::payment_signature_check`] of the profile does.
    pub fn decrypt(&self, encrypted_profile: SignalServiceProfile, verifies: bool) -> (result:
        Result<Profile, ProfileCipherError>)
        requires
            encrypted_profile.payment_address matches Some(bytes) ==> bytes@.len() <= isize::MAX,
        ensures
            profile_result(result) == decrypted_fields(self@, encrypted_profile).assembled(
                opt_bytes(encrypted_profile.identity_key),
                opt_text(encrypted_profile.avatar),
                encrypted_profile.unrestricted_unidentified_access,
                verifies,
            ),
            result matches Ok(profile) ==> {
                &&& match encrypted_profile.name {
                    Some(bytes) => decrypted_name(self@, bytes@) == Ok::<
                        Option<NameView>,
                        CipherErrorView,
                    >(opt_name(profile.name)),
                    None => profile.name is None,
                }
                &&& match encrypted_profile.about {
                    Some(bytes) => profile.about matches Some(text) && decrypted_text(self@, bytes@)
                        == Ok::<Seq<char>, CipherErrorView>(text@),
                    None => profile.about is None,
                }
                &&& match encrypted_profile.about_emoji {
                    Some(bytes) => profile.about_emoji matches Some(text) && decrypted_text(
                        self@,
                        bytes@,
                    ) == Ok::<Seq<char>, CipherErrorView>(text@),
                    None => profile.about_emoji is None,
                }
                &&& profile.avatar == encrypted_profile.avatar
                &&& profile.unrestricted_unidentified_access
                    == encrypted_profile.unrestricted_unidentified_access
            },
            result is Err <==> {
                ||| encrypted_profile.name matches Some(bytes) && decrypted_name(
                    self@,
                    bytes@,
                ) is Err
                ||| encrypted_profile.about matches Some(bytes) && decrypted_text(
                    self@,
                    bytes@,
                ) is Err
                ||| encrypted_profile.about_emoji matches Some(bytes) && decrypted_text(
                    self@,
                    bytes@,
                ) is Err
            },
    {
        let fields = self.decrypt_fields(&encrypted_profile);
        let identity_key = match &encrypted_profile.identity_key {
            Some(bytes) => Some(bytes.as_slice()),
            None => None,
        };
        assemble(
            fields,
            identity_key,
            encrypted_profile.avatar,
            encrypted_profile.unrestricted_unidentified_access,
            verifies,
        )
    }
}

/// Unpadding the bytes of a text takes off the zero characters at its end.
proof fn lemma_unpadded_text(text: Seq<char>)
    ensures
        unpadded(encode_utf8(text)) == encode_utf8(without_trailing(text, '\0')),
    decreases text.len(),
{
    if text.len() > 0 {
        let front = text.drop_last();
        if text.last() == '\0' {
            assert(text =~= front + seq!['\0']);
            lemma_encode_append(front, seq!['\0']);
            lemma_encode_zero();
            assert(encode_utf8(text).drop_last() =~= encode_utf8(front));
            lemma_unpadded_text(front);
        } else {
            lemma_encode_last(text);
        }
    }
}

/// An encrypted name is decrypted to what its text spells without the zero
/// characters at its end. That is the name itself, if it says something, its parts
/// hold no zero character and no empty family name ends it.
pub proof fn encrypted_name_reads_back(key: Seq<u8>, name: NameView, bytes: Seq<u8>)
    requires
        padded(name.serialized(), NAME_PADDING_BRACKETS@) matches Some(whole) && encrypts(
            key,
            whole,
            bytes,
        ),
    ensures
        decrypted_name(key, bytes) == Ok::<Option<NameView>, CipherErrorView>(
            NameView::spelled(without_trailing(name.text(), '\0')),
        ),
        name.is_plain() && name.text().last() != '\0' ==> NameView::spelled(
            without_trailing(name.text(), '\0'),
        ) == Some(name),
{
    let text = without_trailing(name.text(), '\0');
    padding_comes_off(name.serialized(), NAME_PADDING_BRACKETS@);
    lemma_unpadded_text(name.text());
    text_is_spelled(text);
    if name.is_plain() && name.text().last() != '\0' {
        name_reads_back(name);
        text_is_spelled(name.text());
    }
}

/// An encrypted about text or emoji is decrypted to itself, but for zero characters
/// that it ends with.
pub proof fn encrypted_text_reads_back(
    key: Seq<u8>,
    text: Seq<char>,
    brackets: Seq<usize>,
    bytes: Seq<u8>,
)
    requires
        padded(encode_utf8(text), brackets) matches Some(whole) && encrypts(key, whole, bytes),
    ensures
        decrypted_text(key, bytes) == Ok::<Seq<char>, CipherErrorView>(
            without_trailing(text, '\0'),
        ),
{
    let read = without_trailing(text, '\0');
    padding_comes_off(encode_utf8(text), brackets);
    lemma_unpadded_text(text);
    encode_utf8_valid_utf8(read);
    encode_utf8_decode_utf8(read);
}

/// An encrypted avatar is decrypted to itself, but for zero bytes that it ends with:
/// avatars are not padded, but decryption strips padding all the same.
pub proof fn encrypted_avatar_reads_back(key: Seq<u8>, avatar: Seq<u8>, bytes: Seq<u8>)
    requires
        encrypts(key, avatar, bytes),
    ensures
        decrypted_avatar(key, bytes) == Ok::<Seq<u8>, CipherErrorView>(unpadded(avatar)),
        avatar.len() == 0 || avatar.last() != 0 ==> unpadded(avatar) == avatar,
{
}

/// What follows a length is taken off again, whatever padding stands behind it.
pub proof fn length_comes_off(bytes: Seq<u8>, padding: Seq<u8>)
    requires
        bytes.len() <= i32::MAX,
    ensures
        without_length(length_prefix(bytes.len() as int) + bytes + padding) == Ok::<
            Seq<u8>,
            CipherErrorView,
        >(bytes),
{
    let n = bytes.len() as int;
    let s = length_prefix(n) + bytes + padding;
    assert(s[0] == (n % 256) as u8);
    assert(s[1] == (n / 256 % 256) as u8);
    assert(s[2] == (n / 65536 % 256) as u8);
    assert(s[3] == (n / 16777216 % 256) as u8);
    assert(prefixed_length(s) == n);
    assert(s.subrange(4, 4 + n) =~= bytes);
}

/// An encrypted payment address is decrypted to itself, whatever bytes it holds.
pub proof fn encrypted_payment_address_reads_back(
    key: Seq<u8>,
    address: Option<PairView>,
    bytes: Seq<u8>,
)
    requires
        ({
            let message = write_envelope(address);
            padded(
                length_prefix(message.len() as int) + message,
                seq![PAYMENT_ADDRESS_CONTENT_SIZE],
            ) matches Some(whole) && encrypts(key, whole, bytes)
        }),
    ensures
        decrypted_payment_address(key, bytes) == Ok::<Option<PairView>, CipherErrorView>(address),
        bytes.len() == PAYMENT_ADDRESS_CONTENT_SIZE + ENCRYPTION_OVERHEAD,
{
    let message = write_envelope(address);
    let prefixed = length_prefix(message.len() as int) + message;
    let brackets = seq![PAYMENT_ADDRESS_CONTENT_SIZE];
    reveal_with_fuel(bracket, 2);
    assert(bracket(brackets, prefixed.len()) == Some(PAYMENT_ADDRESS_CONTENT_SIZE));
    length_comes_off(message, zeros((PAYMENT_ADDRESS_CONTENT_SIZE - prefixed.len()) as nat));
    envelope_reads_back(address);
}

/// The base64 representation of an encrypted payment address fills its field.
pub proof fn payment_address_fills_its_field()
    ensures
        base64_len((PAYMENT_ADDRESS_CONTENT_SIZE + ENCRYPTION_OVERHEAD) as nat)
            == PAYMENT_ADDRESS_BASE64_FIELD_SIZE,
{
}

/// The length of a padded ciphertext is that of a bracket and the overhead, so it
/// tells no more about the plaintext than which bracket it fits into.
pub proof fn ciphertext_length_is_a_bracket(
    key: Seq<u8>,
    plaintext: Seq<u8>,
    brackets: Seq<usize>,
    bytes: Seq<u8>,
)
    requires
        padded(plaintext, brackets) matches Some(whole) && encrypts(key, whole, bytes),
    ensures
        exists|i: int|
            0 <= i < brackets.len() && bytes.len() == #[trigger] brackets[i] + ENCRYPTION_OVERHEAD,
{
    padded_length_is_a_bracket(plaintext, brackets);
    let whole = padded(plaintext, brackets)->0;
    let i = choose|i: int| 0 <= i < brackets.len() && #[trigger] brackets[i] == whole.len();
    assert(bytes.len() == brackets[i] + ENCRYPTION_OVERHEAD);
}

/// A name can be encrypted if and only if its bytes fit into the largest bracket;
/// so can an about text and an emoji.
pub proof fn fitting_plaintexts_are_accepted(plaintext: Seq<u8>)
    ensures
        padded(plaintext, NAME_PADDING_BRACKETS@) is Some <==> plaintext.len()
            <= NAME_PADDED_LENGTH_2,
        padded(plaintext, ABOUT_PADDING_BRACKETS@) is Some <==> plaintext.len()
            <= ABOUT_PADDED_LENGTH_3,
        padded(plaintext, seq![EMOJI_PADDED_LENGTH]) is Some <==> plaintext.len()
            <= EMOJI_PADDED_LENGTH,
{
    reveal_with_fuel(bracket, 4);
}

/// A payment address that was not decrypted, or whose signature did not verify,
/// leaves the profile as if the server had sent none.
pub proof fn untrusted_payment_address_is_absent(
    fields: FieldsView,
    identity_key: Option<Seq<u8>>,
    avatar: Option<Seq<char>>,
    unrestricted_unidentified_access: bool,
    verifies: bool,
)
    requires
        !verifies || !(fields.payment_address matches Some(Ok(address)) && signature_check_of(
            address,
            identity_key,
        ) is Some),
    ensures
        fields.assembled(identity_key, avatar, unrestricted_unidentified_access, verifies)
            == (FieldsView { payment_address: None, ..fields }).assembled(
            identity_key,
            avatar,
            unrestricted_unidentified_access,
            verifies,
        ),
{
}

/// A profile shows a payment address only if the signature over it verified
/// against the identity key that came with the profile.
pub proof fn shown_payment_address_is_verified(
    fields: FieldsView,
    identity_key: Option<Seq<u8>>,
    avatar: Option<Seq<char>>,
    unrestricted_unidentified_access: bool,
    verifies: bool,
)
    ensures
        fields.assembled(identity_key, avatar, unrestricted_unidentified_access, verifies) matches Ok(
            profile,
        ) ==> (profile.payment_address is Some ==> verifies && (
        fields.payment_address matches Some(Ok(address)) && signature_check_of(address, identity_key)
            is Some)),
{
}

/// A profile whose fields were encrypted one by one is decrypted to them, but for
/// zero characters at their ends, and with the payment address as it was encoded if
/// its signature verifies.
pub proof fn encrypted_profile_reads_back(
    key: Seq<u8>,
    profile: SignalServiceProfile,
    name: NameView,
    about: Seq<char>,
    emoji: Seq<char>,
    address: Option<PairView>,
    verifies: bool,
)
    requires
        profile.name matches Some(bytes) && is_padded_encryption(
            key,
            name.serialized(),
            NAME_PADDING_BRACKETS@,
            Ok(bytes),
        ),
        profile.about matches Some(bytes) && is_padded_encryption(
            key,
            encode_utf8(about),
            ABOUT_PADDING_BRACKETS@,
            Ok(bytes),
        ),
        profile.about_emoji matches Some(bytes) && is_padded_encryption(
            key,
            encode_utf8(emoji),
            seq![EMOJI_PADDED_LENGTH],
            Ok(bytes),
        ),
        profile.payment_address matches Some(bytes) && is_padded_encryption(
            key,
            length_prefix(write_envelope(address).len() as int) + write_envelope(address),
            seq![PAYMENT_ADDRESS_CONTENT_SIZE],
            Ok(bytes),
        ),
    ensures
        decrypted_fields(key, profile).assembled(
            opt_bytes(profile.identity_key),
            opt_text(profile.avatar),
            profile.unrestricted_unidentified_access,
            verifies,
        ) == Ok::<ProfileView, CipherErrorView>(
            ProfileView {
                name: NameView::spelled(without_trailing(name.text(), '\0')),
                about: Some(without_trailing(about, '\0')),
                about_emoji: Some(without_trailing(emoji, '\0')),
                avatar: opt_text(profile.avatar),
                unrestricted_unidentified_access: profile.unrestricted_unidentified_access,
                payment_address: if verifies && signature_check_of(
                    address,
                    opt_bytes(profile.identity_key),
                ) is Some {
                    Some(write_envelope(address))
                } else {
                    None
                },
            },
        ),
{
    encrypted_name_reads_back(key, name, profile.name->0@);
    encrypted_text_reads_back(key, about, ABOUT_PADDING_BRACKETS@, profile.about->0@);
    encrypted_text_reads_back(key, emoji, seq![EMOJI_PADDED_LENGTH], profile.about_emoji->0@);
    encrypted_payment_address_reads_back(key, address, profile.payment_address->0@);
}

} // verus!
