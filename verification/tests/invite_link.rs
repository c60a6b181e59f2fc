use signal_profiles::base64url::Base64Error;
use signal_profiles::groups_v2::invite_link::{
    invite_link_names, GroupInviteLink, InviteLinkError, GROUP_MASTER_KEY_LEN,
    INVITE_LINK_PASSWORD_LEN,
};
use signal_profiles::wire::Place;

fn link() -> GroupInviteLink {
    GroupInviteLink {
        master_key: [7u8; GROUP_MASTER_KEY_LEN],
        password: (0..16).collect(),
    }
}

#[test]
fn url_round_trips() {
    let url = link().to_url();
    assert!(url.starts_with("https://signal.group/#"));
    assert!(!url.contains('='), "no padding: {url}");
    assert!(GroupInviteLink::parse(&url).unwrap() == link());
}

#[test]
fn sgnl_scheme_and_padding_are_accepted() {
    let url = link().to_url();
    let padded = format!("{url}==");
    assert!(GroupInviteLink::parse(&padded).unwrap() == link());
    let sgnl = url.replacen("https://", "sgnl://", 1);
    assert!(GroupInviteLink::parse(&sgnl).unwrap() == link());
}

#[test]
fn foreign_urls_are_rejected() {
    assert!(matches!(
        GroupInviteLink::parse("https://example.com/#abc"),
        Err(InviteLinkError::NotAnInviteLink)
    ));
    assert!(matches!(
        GroupInviteLink::parse("https://signal.group/#!!!"),
        Err(InviteLinkError::Base64(_))
    ));
}

#[test]
fn generated_password_has_standard_length_and_is_random() {
    let mut rng = rand::rng();
    let a = GroupInviteLink::generate_password(&mut rng);
    let b = GroupInviteLink::generate_password(&mut rng);
    assert_eq!(a.len(), INVITE_LINK_PASSWORD_LEN);
    assert_ne!(a, b);
}

#[test]
fn debug_never_prints_secrets() {
    let text = link().debug_text();
    assert!(!text.contains("7, 7"));
    assert!(!text.contains("password"));
}

/// A message that holds a pair in its first field.
fn envelope(pair: &[u8]) -> Vec<u8> {
    let mut bytes = vec![0x0a, pair.len() as u8];
    bytes.extend_from_slice(pair);
    bytes
}

fn parse_contents(bytes: &[u8]) -> Result<GroupInviteLink, InviteLinkError> {
    let text = signal_profiles::base64url::encode(bytes);
    GroupInviteLink::parse(&format!("https://signal.group/#{text}"))
}

/// The bytes of a link with the key `[7; 32]` and the password `[1, 2, 3]`.
fn contents() -> Vec<u8> {
    let mut pair = vec![0x0a, 32];
    pair.extend_from_slice(&[7u8; 32]);
    pair.extend_from_slice(&[0x12, 3, 1, 2, 3]);
    envelope(&pair)
}

#[test]
fn url_has_the_expected_text() {
    let link = GroupInviteLink { master_key: [7u8; 32], password: vec![1, 2, 3] };
    let text = signal_profiles::base64url::encode(&contents());
    assert_eq!(link.to_url(), format!("https://signal.group/#{text}"));
    assert!(text.starts_with("CicKIAcHBwcH"));
}

#[test]
fn an_empty_password_is_left_out() {
    let link = GroupInviteLink { master_key: [7u8; 32], password: vec![] };
    let url = link.to_url();
    assert_eq!(url.len(), "https://signal.group/#".len() + (4 * 36 + 2) / 3);
    assert!(GroupInviteLink::parse(&url).unwrap() == link);
}

#[test]
fn white_space_around_a_link_is_ignored() {
    let url = link().to_url();
    let spaced = format!(" \t\u{2003}{url}\u{a0}\n");
    assert!(GroupInviteLink::parse(&spaced).unwrap() == link());
    // The zero-width space is no white space.
    let other = format!("\u{200b}{url}");
    assert!(matches!(GroupInviteLink::parse(&other), Err(InviteLinkError::NotAnInviteLink)));
}

#[test]
fn white_space_scheme_and_padding_do_not_count() {
    let url = link().to_url();
    for rest in [
        url["https://".len()..].to_string(),
        "signal.group/#!!!".to_string(),
        "signal.group/#AB".to_string(),
        "signal.group/#".to_string(),
        "signal.group/".to_string(),
        "example.com/#abc".to_string(),
        String::new(),
    ] {
        let plain = GroupInviteLink::parse(&format!("https://{rest}"));
        for text in [
            format!("sgnl://{rest}"),
            format!("https://{rest}="),
            format!("https://{rest}==="),
            format!("\n https://{rest}\t"),
            format!(" sgnl://{rest}== \u{3000}"),
        ] {
            assert!(GroupInviteLink::parse(&text) == plain, "{text}");
        }
    }
}

#[test]
fn the_host_and_the_fragment_must_follow_each_other() {
    for text in ["", "https://", "https://signal.group", "https://signal.group#abc",
        "https://signal.group/abc", "http://signal.group/#abc", "HTTPS://signal.group/#abc"]
    {
        assert!(matches!(GroupInviteLink::parse(text), Err(InviteLinkError::NotAnInviteLink)));
    }
}

#[test]
fn base64_errors_are_told_apart() {
    assert!(matches!(
        GroupInviteLink::parse("https://signal.group/#!!!"),
        Err(InviteLinkError::Base64(Base64Error::InvalidByte(0, b'!')))
    ));
    assert!(matches!(
        GroupInviteLink::parse("https://signal.group/#AAAAA"),
        Err(InviteLinkError::Base64(Base64Error::InvalidLength(5)))
    ));
    assert!(matches!(
        GroupInviteLink::parse("https://signal.group/#AB"),
        Err(InviteLinkError::Base64(Base64Error::InvalidLastSymbol(1, b'B')))
    ));
}

/// Where and why contents are malformed, in words.
fn decode_failure(bytes: &[u8]) -> (Place, String) {
    match parse_contents(bytes) {
        Err(InviteLinkError::Decode(error)) => (error.place, error.text(&invite_link_names())),
        _ => panic!("not malformed"),
    }
}

#[test]
fn contents_that_are_no_message_are_rejected() {
    for (bytes, place, text) in [
        (&[0x0a, 5, 1][..], Place::Embedded, "GroupInviteLink.contents: buffer underflow"),
        (&[0x0a, 0xff], Place::Embedded, "GroupInviteLink.contents: invalid varint"),
        (
            &[0x08, 1],
            Place::Embedded,
            "GroupInviteLink.contents: invalid wire type: Varint (expected LengthDelimited)",
        ),
        (&[0x02, 0], Place::Message, "invalid tag value: 0"),
        (&[0x0e], Place::Message, "invalid wire type value: 6"),
        (&[0x18], Place::Message, "invalid varint"),
        (&[0x1c], Place::Message, "unexpected end group tag"),
        (&[0x0a, 1, 0x80], Place::Embedded, "GroupInviteLink.contents: invalid varint"),
        (&[0x0a, 1, 0x07], Place::Embedded, "GroupInviteLink.contents: invalid wire type value: 7"),
        (
            &[0x0a, 2, 0x0a, 9],
            Place::First,
            "GroupInviteLinkContentsV1.group_master_key: GroupInviteLink.contents: buffer underflow",
        ),
        (
            &[0x0a, 2, 0x10, 9],
            Place::Second,
            "GroupInviteLinkContentsV1.invite_link_password: GroupInviteLink.contents: \
             invalid wire type: Varint (expected LengthDelimited)",
        ),
        (&[0x0a, 2, 0x18, 0x80], Place::Embedded, "GroupInviteLink.contents: invalid varint"),
        // A password that runs on behind the embedded message
        (
            &[0x0a, 2, 0x12, 3, 1, 2, 3],
            Place::Embedded,
            "GroupInviteLink.contents: delimited length exceeded",
        ),
    ] {
        let text = format!("failed to decode Protobuf message: {text}");
        assert_eq!(decode_failure(bytes), (place, text));
    }
}

#[test]
fn an_empty_message_has_an_unsupported_version() {
    assert!(matches!(
        GroupInviteLink::parse("https://signal.group/#"),
        Err(InviteLinkError::UnsupportedVersion)
    ));
    // A later version, in a field that is not known
    assert!(matches!(
        parse_contents(&[0x12, 2, 0x0a, 0]),
        Err(InviteLinkError::UnsupportedVersion)
    ));
}

#[test]
fn a_key_of_the_wrong_length_is_rejected() {
    assert!(matches!(
        parse_contents(&envelope(&[0x0a, 3, 1, 2, 3])),
        Err(InviteLinkError::WrongMasterKeyLength)
    ));
    assert!(matches!(
        parse_contents(&envelope(&[])),
        Err(InviteLinkError::WrongMasterKeyLength)
    ));
}

#[test]
fn unknown_fields_are_skipped() {
    let expected = GroupInviteLink { master_key: [7u8; 32], password: vec![1, 2, 3] };
    // A number, a 64-bit value, a string, a group and a 32-bit value
    let unknown: [&[u8]; 5] = [
        &[0x18, 0x96, 0x01],
        &[0x19, 1, 2, 3, 4, 5, 6, 7, 8],
        &[0x1a, 2, 9, 9],
        &[0x1b, 0x08, 1, 0x1c],
        &[0x1d, 1, 2, 3, 4],
    ];
    for field in unknown {
        let mut before = field.to_vec();
        before.extend_from_slice(&contents());
        assert!(parse_contents(&before).unwrap() == expected);
        let mut after = contents();
        after.extend_from_slice(field);
        assert!(parse_contents(&after).unwrap() == expected);
        let mut pair = contents()[2..].to_vec();
        pair.extend_from_slice(field);
        assert!(parse_contents(&envelope(&pair)).unwrap() == expected);
    }
    // A group that ends with another number
    let mut bytes = contents();
    bytes.extend_from_slice(&[0x1b, 0x24]);
    assert!(matches!(parse_contents(&bytes), Err(InviteLinkError::Decode(_))));
}

/// `depth` groups of the third field, one in the other.
fn nested_groups(depth: usize) -> Vec<u8> {
    let mut bytes = vec![0x1b; depth];
    bytes.extend(vec![0x1c; depth]);
    bytes
}

#[test]
fn groups_nest_to_a_limit() {
    for (depth, fits) in [(1, true), (99, true), (100, true), (101, false)] {
        let mut bytes = contents();
        bytes.extend(nested_groups(depth));
        assert_eq!(parse_contents(&bytes).is_ok(), fits, "{depth}");
    }
    for (depth, fits) in [(1, true), (99, true), (100, false)] {
        let mut pair = contents()[2..].to_vec();
        pair.extend(nested_groups(depth));
        let mut bytes = vec![0x0a, (pair.len() & 0x7f) as u8 | 0x80, (pair.len() >> 7) as u8];
        bytes.extend(pair);
        assert_eq!(parse_contents(&bytes).is_ok(), fits, "{depth}");
        if !fits {
            let text = "failed to decode Protobuf message: GroupInviteLink.contents: \
                        recursion limit reached";
            assert_eq!(decode_failure(&bytes), (Place::Embedded, text.to_string()));
        }
    }
}

#[test]
fn a_repeated_field_counts_in_its_last_occurrence() {
    let mut bytes = contents();
    bytes.extend_from_slice(&envelope(&[0x12, 1, 9]));
    let link = parse_contents(&bytes).unwrap();
    assert!(link == GroupInviteLink { master_key: [7u8; 32], password: vec![9] });
}

#[test]
fn a_password_is_encoded_for_paths() {
    assert_eq!(GroupInviteLink::encode_password(&[0xfb, 0xff, 0xfe]), "-__-");
    assert_eq!(GroupInviteLink::encode_password(b"hello"), "aGVsbG8");
}

#[test]
fn debug_text_is_fixed() {
    assert_eq!(link().debug_text(), "GroupInviteLink { .. }");
}
