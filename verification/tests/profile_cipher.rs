use rand::Rng;
use signal_profiles::padding::pad_plaintext;
use signal_profiles::payment_address::{Address, MobileCoin, PaymentAddress};
use signal_profiles::profile_cipher::{
    pad_about, pad_emoji, pad_name, pad_payment_address, read_name, read_payment_address,
    signature_check, verify_payment_address_signature,
    ProfileCipher, ProfileCipherError, ProfileKey, SignatureCheck, NAME_PADDED_LENGTH_1,
};
use signal_profiles::profile_name::ProfileName;
use signal_profiles::text::InvalidUtf8;
use signal_profiles::websocket::profile::SignalServiceProfile;
use signal_profiles::wire::{MalformedMessage, Place};

fn cipher() -> ProfileCipher {
    let some_randomness = rand::rng().random();
    ProfileCipher::new(ProfileKey::create(some_randomness))
}

#[test]
fn roundtrip_name() {
    let names = [
        "Me and my guitar",                                            // shorter that 53
        "abcdefghijklmnopqrstuvwxyzabcdefghijklmnopqrstuvwxyz",        // one shorter than 53
        "abcdefghijklmnopqrstuvwxyzabcdefghijklmnopqrstuvwxyzx",       // exactly 53
        "abcdefghijklmnopqrstuvwxyzabcdefghijklmnopqrstuvwxyzxf",      // one more than 53
        "abcdefghijklmnopqrstuvwxyzabcdefghijklmnopqrstuvwxyzxfoobar", // a bit more than 53
    ];

    // Test the test cases
    assert_eq!(names[1].len(), NAME_PADDED_LENGTH_1 - 1);
    assert_eq!(names[2].len(), NAME_PADDED_LENGTH_1);
    assert_eq!(names[3].len(), NAME_PADDED_LENGTH_1 + 1);

    let mut rng = rand::rng();
    let some_randomness = rng.random();
    let profile_key = ProfileKey::create(some_randomness);
    let cipher = ProfileCipher::new(profile_key);
    for name in &names {
        let profile_name = ProfileName::<&str> { given_name: name, family_name: None };
        assert_eq!(profile_name.serialize().len(), name.len());
        let encrypted = cipher.encrypt_name(&profile_name, &mut rng).unwrap();
        let decrypted = cipher.decrypt_name(&encrypted).unwrap().unwrap();

        assert_eq!(decrypted.as_ref(), profile_name);
        assert_eq!(decrypted.serialize(), profile_name.serialize());
        assert_eq!(&decrypted.given_name, name);
    }
}

#[test]
fn roundtrip_about() {
    let abouts = [
        "Me and my guitar", // shorter that 53
    ];

    let mut rng = rand::rng();
    let some_randomness = rng.random();
    let profile_key = ProfileKey::create(some_randomness);
    let cipher = ProfileCipher::new(profile_key);

    for &about in &abouts {
        let encrypted = cipher.encrypt_about(about.into(), &mut rng).unwrap();
        let decrypted = cipher.decrypt_about(&encrypted).unwrap();

        assert_eq!(decrypted, about);
    }
}

#[test]
fn roundtrip_payment_address() {
    let mut rng = rand::rng();
    let some_randomness = rng.random();
    let profile_key = ProfileKey::create(some_randomness);
    let cipher = ProfileCipher::new(profile_key);

    let address = PaymentAddress {
        address: Some(Address::MobileCoin(MobileCoin {
            public_address: Some(vec![0xAB; 100]),
            signature: Some(vec![0xCD; 64]),
        })),
    };
    let encrypted = cipher.encrypt_payment_address(&address, &mut rng).unwrap();
    // 4-byte length prefix + content padded to 554, plus 28 bytes
    // AES-GCM overhead; base64 of this is the fixed 776-char field.
    assert_eq!(encrypted.len(), 554 + 28);
    let decrypted = cipher.decrypt_payment_address(&encrypted).unwrap();
    assert_eq!(decrypted, address);
}

/// Stands for the owner of an identity key: says whether a signature is theirs.
fn signed_by(owner: &[u8], signature: &[u8], check: &SignatureCheck) -> bool {
    check.identity_key == owner && check.message == vec![0x42; 100] && check.signature == signature
}

fn trusted(address: &PaymentAddress, identity_key: Option<&[u8]>, owner: &[u8]) -> bool {
    let verifies = match signature_check(address, identity_key) {
        Some(check) => signed_by(owner, &[0x51; 64], &check),
        None => true,
    };
    verify_payment_address_signature(address, identity_key, verifies)
}

#[test]
fn payment_address_signature_verification() {
    let address_bytes = vec![0x42; 100];
    let signature = [0x51; 64];

    let address = PaymentAddress {
        address: Some(Address::MobileCoin(MobileCoin {
            public_address: Some(address_bytes.clone()),
            signature: Some(signature.to_vec()),
        })),
    };
    let identity = [5u8; 33];
    assert!(trusted(&address, Some(&identity), &identity));

    // Wrong identity key → rejected.
    let other_identity = [6u8; 33];
    assert!(!trusted(&address, Some(&other_identity), &identity));
    // Missing identity key → rejected.
    assert!(!trusted(&address, None, &identity));
}

#[test]
fn roundtrip_avatar() {
    let mut rng = rand::rng();
    let some_randomness = rng.random();
    let profile_key = ProfileKey::create(some_randomness);
    let cipher = ProfileCipher::new(profile_key);

    // Trailing zero bytes must survive (decrypt_avatar strips padding,
    // but avatars are not padded — content ending in zeroes is the one
    // lossy case).
    let avatar = vec![0x89, 0x50, 0x4E, 0x47, 0x01, 0x02, 0x03];
    let encrypted = cipher.encrypt_avatar(avatar.clone(), &mut rng).unwrap();
    assert_eq!(encrypted.len(), avatar.len() + 28);
    let decrypted = cipher.decrypt_avatar(&encrypted).unwrap();
    assert_eq!(decrypted, avatar);
}

#[test]
fn roundtrip_emoji() {
    let emojii = ["❤️", "💩", "🤣", "😲", "🐠"];

    let mut rng = rand::rng();
    let some_randomness = rng.random();
    let profile_key = ProfileKey::create(some_randomness);
    let cipher = ProfileCipher::new(profile_key);

    for &emoji in &emojii {
        let encrypted = cipher.encrypt_emoji(emoji.into(), &mut rng).unwrap();
        let decrypted = cipher.decrypt_emoji(&encrypted).unwrap();

        assert_eq!(decrypted, emoji);
    }
}

#[test]
fn the_key_comes_back() {
    let cipher = ProfileCipher::new(ProfileKey::create([9; 32]));
    assert_eq!(cipher.into_inner().get_bytes(), [9; 32]);
}

/// AES-256-GCM with a zero key and a zero nonce.
#[test]
fn known_ciphertexts() {
    let cipher = ProfileCipher::new(ProfileKey::create([0; 32]));
    let tag = [
        0x53, 0x0f, 0x8a, 0xfb, 0xc7, 0x45, 0x36, 0xb9, 0xa9, 0x63, 0xb4, 0xf1, 0xc4, 0xcb, 0x73,
        0x8b,
    ];
    let mut expected = vec![0; 12];
    expected.extend_from_slice(&tag);
    assert_eq!(cipher.encrypt_raw(vec![], &[0; 12]).unwrap(), expected);
    assert_eq!(cipher.decrypt_raw(&expected).unwrap(), Vec::<u8>::new());

    let sealed = [
        0xce, 0xa7, 0x40, 0x3d, 0x4d, 0x60, 0x6b, 0x6e, 0x07, 0x4e, 0xc5, 0xd3, 0xba, 0xf3, 0x9d,
        0x18, 0xd0, 0xd1, 0xc8, 0xa7, 0x99, 0x99, 0x6b, 0xf0, 0x26, 0x5b, 0x98, 0xb5, 0xd4, 0x8a,
        0xb9, 0x19,
    ];
    let mut expected = vec![0; 12];
    expected.extend_from_slice(&sealed);
    assert_eq!(cipher.encrypt_raw(vec![0; 16], &[0; 12]).unwrap(), expected);
    assert_eq!(cipher.decrypt_raw(&expected).unwrap(), vec![0; 16]);
}

#[test]
fn fields_are_encrypted_under_a_given_nonce() {
    let cipher = cipher();
    let nonce = [7; 12];
    let raw = |mut bytes: Vec<u8>, len: usize| {
        bytes.resize(len, 0);
        cipher.encrypt_raw(bytes, &nonce)
    };
    let name = ProfileName::<&str> { given_name: "Ada", family_name: Some("Byron") };
    assert_eq!(cipher.encrypt_name_under(&name, &nonce), raw(b"Ada\0Byron".to_vec(), 53));
    assert_eq!(cipher.encrypt_about_under("countess", &nonce), raw(b"countess".to_vec(), 128));
    assert_eq!(cipher.encrypt_emoji_under("x", &nonce), raw(b"x".to_vec(), 32));
    let address = PaymentAddress {
        address: Some(Address::MobileCoin(MobileCoin {
            public_address: Some(vec![1]),
            signature: None,
        })),
    };
    let bytes = vec![5, 0, 0, 0, 0x0a, 3, 0x0a, 1, 1];
    assert_eq!(cipher.encrypt_payment_address_under(&address, &nonce), raw(bytes, 554));
    assert_eq!(cipher.encrypt_name_under(&name, &nonce).unwrap()[..12], nonce);

    let too_long = Err(ProfileCipherError::InputTooLong);
    let text = "x".repeat(513);
    let name = ProfileName::<&str> { given_name: &text, family_name: None };
    assert_eq!(cipher.encrypt_name_under(&name, &nonce), too_long);
    assert_eq!(cipher.encrypt_about_under(&text, &nonce), too_long);
    assert_eq!(cipher.encrypt_emoji_under(&text, &nonce), too_long);
    let address = PaymentAddress {
        address: Some(Address::MobileCoin(MobileCoin {
            public_address: Some(vec![1; 600]),
            signature: None,
        })),
    };
    assert_eq!(cipher.encrypt_payment_address_under(&address, &nonce), too_long);
}

#[test]
fn plaintexts_are_padded_to_their_brackets() {
    let name = ProfileName::<&str> { given_name: "Ada", family_name: None };
    let padded = pad_name(&name).unwrap();
    assert_eq!(padded.len(), 53);
    assert_eq!(padded[..4], *b"Ada\0");
    assert_eq!(pad_about("x").unwrap().len(), 128);
    assert_eq!(pad_emoji("x").unwrap().len(), 32);
    let padded = pad_payment_address(&PaymentAddress { address: None }).unwrap();
    assert_eq!(padded, vec![0; 554]);
    assert_eq!(pad_emoji(&"x".repeat(33)), Err(ProfileCipherError::InputTooLong));
}

#[test]
fn zero_characters_at_the_end_of_a_text_are_lost() {
    let mut rng = rand::rng();
    let cipher = cipher();
    let encrypted = cipher.encrypt_about("a\0b\0\0".to_string(), &mut rng).unwrap();
    assert_eq!(cipher.decrypt_about(&encrypted).unwrap(), "a\0b");
    let encrypted = cipher.encrypt_emoji("\0".to_string(), &mut rng).unwrap();
    assert_eq!(cipher.decrypt_emoji(&encrypted).unwrap(), "");
    let name = ProfileName::<&str> { given_name: "Ada", family_name: Some("") };
    let encrypted = cipher.encrypt_name(&name, &mut rng).unwrap();
    let decrypted = cipher.decrypt_name(&encrypted).unwrap().unwrap();
    assert_eq!(decrypted, ProfileName { given_name: "Ada".to_string(), family_name: None });
    let name = ProfileName::<&str> { given_name: "", family_name: None };
    let encrypted = cipher.encrypt_name(&name, &mut rng).unwrap();
    assert_eq!(cipher.decrypt_name(&encrypted).unwrap(), None);
}

#[test]
fn nonces_differ() {
    let mut rng = rand::rng();
    let cipher = cipher();
    let a = cipher.encrypt_avatar(vec![1, 2, 3], &mut rng).unwrap();
    let b = cipher.encrypt_avatar(vec![1, 2, 3], &mut rng).unwrap();
    assert_ne!(a[..12], b[..12]);
    assert_ne!(a[12..], b[12..]);
}

#[test]
fn decryption_errors_are_told_apart() {
    let mut rng = rand::rng();
    let cipher = cipher();
    assert_eq!(cipher.decrypt_raw(&[0; 27]), Err(ProfileCipherError::CiphertextTooShort));
    assert_eq!(cipher.decrypt_raw(&[0; 28]), Err(ProfileCipherError::EncryptionError));
    let mut encrypted = cipher.encrypt_avatar(vec![1, 2, 3], &mut rng).unwrap();
    encrypted[13] ^= 1;
    assert_eq!(cipher.decrypt_avatar(&encrypted), Err(ProfileCipherError::EncryptionError));

    for (bytes, valid_up_to, error_len) in [
        (&b"\xff"[..], 0, Some(1)),
        (b"ab\xc3", 2, None),
        (b"\xe2\x82x", 0, Some(2)),
        ("\u{20ac}\u{20ac}".as_bytes().split_last().unwrap().1, 3, None),
    ] {
        let invalid = cipher.encrypt_avatar(bytes.to_vec(), &mut rng).unwrap();
        let error = ProfileCipherError::Utf8Error(InvalidUtf8 { valid_up_to, error_len });
        assert_eq!(cipher.decrypt_about(&invalid), Err(error.clone()));
        assert_eq!(cipher.decrypt_emoji(&invalid), Err(error.clone()));
        assert_eq!(cipher.decrypt_name(&invalid), Err(error));
    }

    let short = cipher.encrypt_avatar(vec![1, 0, 0], &mut rng).unwrap();
    assert_eq!(
        cipher.decrypt_payment_address(&short),
        Err(ProfileCipherError::CiphertextTooShort)
    );
    let malformed = cipher.encrypt_avatar(vec![2, 0, 0, 0, 0x0a, 9], &mut rng).unwrap();
    assert_eq!(
        cipher.decrypt_payment_address(&malformed),
        Err(ProfileCipherError::ProtobufError(MalformedMessage {
            place: Place::Embedded,
            description: "buffer underflow".to_string()
        }))
    );
}

#[test]
fn plaintexts_that_fit_no_bracket_are_refused() {
    let mut rng = rand::rng();
    let cipher = cipher();
    let encrypt_name = |len: usize| {
        let text = "x".repeat(len);
        let name = ProfileName::<&str> { given_name: &text, family_name: None };
        cipher.encrypt_name(&name, &mut rand::rng()).map(|bytes| bytes.len())
    };
    assert_eq!(encrypt_name(0), Ok(53 + 28));
    assert_eq!(encrypt_name(53), Ok(53 + 28));
    assert_eq!(encrypt_name(54), Ok(257 + 28));
    assert_eq!(encrypt_name(257), Ok(257 + 28));
    assert_eq!(encrypt_name(258), Err(ProfileCipherError::InputTooLong));

    let encrypt_about =
        |len: usize| cipher.encrypt_about("x".repeat(len), &mut rand::rng()).map(|b| b.len());
    assert_eq!(encrypt_about(128), Ok(128 + 28));
    assert_eq!(encrypt_about(129), Ok(254 + 28));
    assert_eq!(encrypt_about(255), Ok(512 + 28));
    assert_eq!(encrypt_about(512), Ok(512 + 28));
    assert_eq!(encrypt_about(513), Err(ProfileCipherError::InputTooLong));

    assert_eq!(cipher.encrypt_emoji("x".repeat(32), &mut rng).unwrap().len(), 32 + 28);
    assert_eq!(
        cipher.encrypt_emoji("x".repeat(33), &mut rng),
        Err(ProfileCipherError::InputTooLong)
    );

    let address = |len: usize| PaymentAddress {
        address: Some(Address::MobileCoin(MobileCoin {
            public_address: Some(vec![1; len]),
            signature: None,
        })),
    };
    // Two keys and two lengths of two bytes each stand before the address.
    assert_eq!(cipher.encrypt_payment_address(&address(544), &mut rng).unwrap().len(), 582);
    assert_eq!(
        cipher.encrypt_payment_address(&address(545), &mut rng),
        Err(ProfileCipherError::InputTooLong)
    );
}

#[test]
fn padding_goes_to_the_first_bracket_that_is_large_enough() {
    let mut bytes = vec![1, 2, 3];
    assert_eq!(pad_plaintext(&mut bytes, &[2, 5, 4]), Ok(5));
    assert_eq!(bytes, [1, 2, 3, 0, 0]);
    let mut bytes = vec![1, 2, 3];
    assert_eq!(pad_plaintext(&mut bytes, &[1, 2]), Err(ProfileCipherError::InputTooLong));
    assert_eq!(bytes, [1, 2, 3]);
    let mut bytes = vec![1, 2, 3];
    assert_eq!(pad_plaintext(&mut bytes, &[3]), Ok(3));
    assert_eq!(bytes, [1, 2, 3]);
    let mut bytes = vec![1, 2, 3];
    assert_eq!(pad_plaintext(&mut bytes, &[4, usize::MAX]), Ok(4));
    assert_eq!(bytes, [1, 2, 3, 0]);
    let mut bytes = vec![];
    assert_eq!(pad_plaintext(&mut bytes, &[]), Err(ProfileCipherError::InputTooLong));
}

#[test]
fn zero_bytes_at_the_end_of_an_avatar_are_lost() {
    let mut rng = rand::rng();
    let cipher = cipher();
    let encrypted = cipher.encrypt_avatar(vec![1, 0, 2, 0, 0], &mut rng).unwrap();
    assert_eq!(cipher.decrypt_avatar(&encrypted).unwrap(), vec![1, 0, 2]);
    let encrypted = cipher.encrypt_avatar(vec![0, 0], &mut rng).unwrap();
    assert_eq!(cipher.decrypt_avatar(&encrypted).unwrap(), Vec::<u8>::new());
}

#[test]
fn zero_bytes_at_the_end_of_a_payment_address_survive() {
    let mut rng = rand::rng();
    let cipher = cipher();
    let address = PaymentAddress {
        address: Some(Address::MobileCoin(MobileCoin {
            public_address: Some(vec![1, 0, 0]),
            signature: Some(vec![0, 0, 0]),
        })),
    };
    let encrypted = cipher.encrypt_payment_address(&address, &mut rng).unwrap();
    assert_eq!(cipher.decrypt_payment_address(&encrypted).unwrap(), address);
    let none = PaymentAddress { address: None };
    let encrypted = cipher.encrypt_payment_address(&none, &mut rng).unwrap();
    assert_eq!(encrypted.len(), 582);
    assert_eq!(cipher.decrypt_payment_address(&encrypted).unwrap(), none);
}

#[test]
fn lengths_are_little_endian_and_signed() {
    let cipher = cipher();
    let encrypted =
        cipher.pad_and_encrypt_with_length(&[7; 300], &[400], &mut rand::rng()).unwrap();
    let plaintext = cipher.decrypt_raw(&encrypted).unwrap();
    assert_eq!(plaintext[..5], [0x2c, 0x01, 0, 0, 7]);
    assert_eq!(plaintext.len(), 400);
    assert_eq!(cipher.decrypt_with_length(&encrypted).unwrap(), vec![7; 300]);

    let read = |bytes: Vec<u8>| {
        let encrypted = cipher.encrypt_raw(bytes, &[1; 12]).unwrap();
        cipher.decrypt_with_length(&encrypted)
    };
    assert_eq!(read(vec![2, 0, 0, 0, 8, 9, 10]), Ok(vec![8, 9]));
    assert_eq!(read(vec![4, 0, 0, 0, 8, 9, 10]), Err(ProfileCipherError::CiphertextTooShort));
    assert_eq!(
        read(vec![0xff, 0xff, 0xff, 0xff, 1]),
        Err(ProfileCipherError::CiphertextTooShort)
    );
}

#[test]
fn names_have_two_parts() {
    let name = ProfileName::<&str> { given_name: "Ada", family_name: Some("Byron") };
    assert_eq!(name.serialize(), b"Ada\0Byron");
    let read = |bytes: &[u8]| read_name(bytes.to_vec()).unwrap();
    let read_back = read(b"Ada\0Byron\0\0\0").unwrap();
    assert_eq!(read_back.as_ref(), name);
    assert_eq!(read(b"\0\0"), None);
    assert_eq!(
        read("Zo\u{eb}".as_bytes()),
        Some(ProfileName { given_name: "Zo\u{eb}".to_string(), family_name: None })
    );
    assert_eq!(
        read(b"a\0b\0c"),
        Some(ProfileName { given_name: "a".to_string(), family_name: Some("b".to_string()) })
    );
}

#[test]
fn payment_addresses_are_messages() {
    let address = PaymentAddress {
        address: Some(Address::MobileCoin(MobileCoin {
            public_address: Some(vec![1, 2]),
            signature: None,
        })),
    };
    assert_eq!(address.encode_to_vec(), [0x0a, 4, 0x0a, 2, 1, 2]);
    assert_eq!(PaymentAddress { address: None }.encode_to_vec(), Vec::<u8>::new());
    assert_eq!(read_payment_address(vec![6, 0, 0, 0, 0x0a, 4, 0x0a, 2, 1, 2, 0]), Ok(address));
    assert_eq!(
        read_payment_address(vec![2, 0, 0, 0, 0x0a, 0]),
        Ok(PaymentAddress {
            address: Some(Address::MobileCoin(MobileCoin {
                public_address: None,
                signature: None
            }))
        })
    );
    assert_eq!(
        read_payment_address(vec![0, 0, 0]),
        Err(ProfileCipherError::CiphertextTooShort)
    );
}

#[test]
fn a_signature_is_checked_only_where_everything_is_there() {
    let address = |public_address: Option<Vec<u8>>, signature: Option<Vec<u8>>| PaymentAddress {
        address: Some(Address::MobileCoin(MobileCoin { public_address, signature })),
    };
    let whole = address(Some(vec![1]), Some(vec![2]));
    assert_eq!(
        signature_check(&whole, Some(&[3])),
        Some(SignatureCheck { identity_key: vec![3], message: vec![1], signature: vec![2] })
    );
    assert!(verify_payment_address_signature(&whole, Some(&[3]), true));
    assert!(!verify_payment_address_signature(&whole, Some(&[3]), false));
    for (missing, key) in [
        (address(None, Some(vec![2])), Some(&[3u8][..])),
        (address(Some(vec![1]), None), Some(&[3u8][..])),
        (PaymentAddress { address: None }, Some(&[3u8][..])),
        (whole, None),
    ] {
        assert_eq!(signature_check(&missing, key), None);
        assert!(!verify_payment_address_signature(&missing, key, true));
    }
}

fn encrypted_profile(cipher: &ProfileCipher) -> SignalServiceProfile {
    let mut rng = rand::rng();
    let name = ProfileName::<&str> { given_name: "Ada", family_name: Some("Byron") };
    let address = PaymentAddress {
        address: Some(Address::MobileCoin(MobileCoin {
            public_address: Some(vec![1]),
            signature: Some(vec![2]),
        })),
    };
    SignalServiceProfile {
        identity_key: Some(vec![3]),
        name: Some(cipher.encrypt_name(&name, &mut rng).unwrap()),
        about: Some(cipher.encrypt_about("countess".to_string(), &mut rng).unwrap()),
        about_emoji: Some(cipher.encrypt_emoji("🐠".to_string(), &mut rng).unwrap()),
        payment_address: Some(cipher.encrypt_payment_address(&address, &mut rng).unwrap()),
        avatar: Some("profiles/abc".to_string()),
        unidentified_access: None,
        unrestricted_unidentified_access: true,
    }
}

#[test]
fn a_whole_profile_is_decrypted() {
    let cipher = cipher();
    let encrypted = encrypted_profile(&cipher);
    assert_eq!(
        cipher.payment_signature_check(&encrypted),
        Some(SignatureCheck { identity_key: vec![3], message: vec![1], signature: vec![2] })
    );
    let profile = cipher.decrypt(encrypted.clone(), true).unwrap();
    let name = profile.name.unwrap();
    assert_eq!(name.given_name, "Ada");
    assert_eq!(name.family_name.unwrap(), "Byron");
    assert_eq!(profile.about.unwrap(), "countess");
    assert_eq!(profile.about_emoji.unwrap(), "🐠");
    assert_eq!(profile.avatar.unwrap(), "profiles/abc");
    assert!(profile.unrestricted_unidentified_access);
    assert_eq!(profile.payment_address.unwrap(), [0x0a, 6, 0x0a, 1, 1, 0x12, 1, 2]);

    let unverified = cipher.decrypt(encrypted, false).unwrap();
    assert_eq!(unverified.payment_address, None);
    assert_eq!(unverified.about.unwrap(), "countess");
}

#[test]
fn an_unreadable_payment_address_does_not_fail_a_profile() {
    let cipher = cipher();
    let mut encrypted = encrypted_profile(&cipher);
    encrypted.payment_address = Some(vec![0; 100]);
    assert_eq!(cipher.payment_signature_check(&encrypted), None);
    let profile = cipher.decrypt(encrypted.clone(), true).unwrap();
    assert_eq!(profile.payment_address, None);
    encrypted.payment_address = None;
    assert_eq!(cipher.decrypt(encrypted, true).unwrap(), profile);
}

#[test]
fn an_unreadable_text_fails_a_profile() {
    let cipher = cipher();
    let mut encrypted = encrypted_profile(&cipher);
    encrypted.about = Some(vec![0; 3]);
    assert_eq!(
        cipher.decrypt(encrypted.clone(), true),
        Err(ProfileCipherError::CiphertextTooShort)
    );
    // The name comes first.
    encrypted.name = Some(vec![0; 40]);
    assert_eq!(cipher.decrypt(encrypted, true), Err(ProfileCipherError::EncryptionError));
}

#[test]
fn absent_fields_stay_absent() {
    let cipher = cipher();
    let encrypted = SignalServiceProfile {
        identity_key: None,
        name: None,
        about: None,
        about_emoji: None,
        payment_address: None,
        avatar: None,
        unidentified_access: None,
        unrestricted_unidentified_access: false,
    };
    assert_eq!(cipher.payment_signature_check(&encrypted), None);
    let profile = cipher.decrypt(encrypted, true).unwrap();
    assert_eq!(profile.name, None);
    assert_eq!(profile.about, None);
    assert_eq!(profile.about_emoji, None);
    assert_eq!(profile.avatar, None);
    assert_eq!(profile.payment_address, None);
    assert!(!profile.unrestricted_unidentified_access);
}
