use signal_profiles::groups_v2::credentials::{
    create_credential_request_context, credential_request_inputs, receive_credential,
    received_credential,
    retrieve_profile_with_credential, ProfileKeyCredentialCache,
};
use signal_profiles::profile_cipher::ProfileKey;
use signal_profiles::service_error::ServiceError;
use signal_profiles::service_id::Aci;
use signal_profiles::unix_time::UnixTime;
use signal_profiles::websocket::profile::{
    has_upload_form, retrieve_profile_by_id, write_profile, AvatarWrite,
};
use signal_profiles::websocket::request::Method;

const SECOND: i128 = 1_000_000_000;

fn at(seconds: i128) -> UnixTime {
    UnixTime { nanos: seconds * SECOND }
}

const ADA: Aci = Aci { uuid: 1 };
const BOB: Aci = Aci { uuid: 2 };

#[test]
fn a_stored_credential_is_found_until_shortly_before_it_expires() {
    let mut cache = ProfileKeyCredentialCache::new();
    assert_eq!(cache.get(&ADA, at(0)), None);
    cache.insert(ADA, "a", 10_000);
    assert_eq!(cache.get(&ADA, at(-50)), Some(&"a"));
    assert_eq!(cache.get(&ADA, at(6_399)), Some(&"a"));
    assert_eq!(cache.get(&ADA, UnixTime { nanos: 6_400 * SECOND - 1 }), Some(&"a"));
    assert_eq!(cache.get(&ADA, at(6_400)), None);
    assert_eq!(cache.get(&ADA, at(20_000)), None);
    assert_eq!(cache.get(&ADA, UnixTime { nanos: i128::MAX }), None);
    assert_eq!(cache.get(&BOB, at(0)), None);
}

#[test]
fn a_stored_credential_replaces_the_one_before() {
    let mut cache = ProfileKeyCredentialCache::new();
    cache.insert(ADA, "old", 10_000);
    cache.insert(BOB, "other", 10_000);
    cache.insert(ADA, "new", 4_000);
    assert_eq!(cache.get(&ADA, at(0)), Some(&"new"));
    assert_eq!(cache.get(&ADA, at(400)), None);
    assert_eq!(cache.get(&BOB, at(400)), Some(&"other"));
}

#[test]
fn eviction_drops_what_has_expired() {
    let mut cache = ProfileKeyCredentialCache::new();
    for i in 0..20u128 {
        cache.insert(Aci { uuid: i }, i, 10_000 + i as u64);
    }
    cache.evict_expired(at(10_009));
    assert_eq!(cache.debug_text(), "ProfileKeyCredentialCache { entries: 10 }");
    for i in 0..20u128 {
        let found = cache.get(&Aci { uuid: i }, at(0));
        assert_eq!(found, if i > 9 { Some(&i) } else { None });
    }
    // Within the skew, but not expired
    assert_eq!(cache.get(&Aci { uuid: 10 }, at(10_009)), None);
    cache.evict_expired(at(10_019));
    assert_eq!(cache.debug_text(), "ProfileKeyCredentialCache { entries: 0 }");
}

#[test]
fn a_cleared_cache_is_empty() {
    let mut cache = ProfileKeyCredentialCache::default();
    for i in 0..123u128 {
        cache.insert(Aci { uuid: i }, i, 10_000);
    }
    let copy = cache.clone();
    assert_eq!(cache.debug_text(), "ProfileKeyCredentialCache { entries: 123 }");
    cache.clear();
    assert_eq!(cache.debug_text(), "ProfileKeyCredentialCache { entries: 0 }");
    assert_eq!(cache.get(&ADA, at(0)), None);
    assert_eq!(copy.get(&ADA, at(0)), Some(&1));
}

#[test]
fn request_contexts_take_the_given_randomness() {
    let inputs = credential_request_inputs([3; 32], BOB, ProfileKey::create([8; 32]));
    assert_eq!(inputs.randomness, [3; 32]);
    assert_eq!(inputs.aci, BOB);
    assert_eq!(inputs.profile_key.get_bytes(), [8; 32]);
}

#[test]
fn request_contexts_are_random() {
    let mut rng = rand::rng();
    let key = ProfileKey::create([8; 32]);
    let a = create_credential_request_context(ADA, key, &mut rng);
    let b = create_credential_request_context(ADA, key, &mut rng);
    assert_eq!(a.aci, ADA);
    assert_eq!(a.profile_key.get_bytes(), [8; 32]);
    assert_ne!(a.randomness, b.randomness);
}

#[test]
fn a_credential_is_received_after_the_epoch() {
    let late = UnixTime { nanos: 5 * SECOND + 999_999_999 };
    assert_eq!(receive_credential(Some("response"), late), Ok(("response", 5)));
    assert_eq!(receive_credential(Some("response"), at(0)), Ok(("response", 0)));
    let early = UnixTime { nanos: -1 };
    assert_eq!(receive_credential(Some("response"), early), Err(ServiceError::GroupsV2Error));
    assert_eq!(receive_credential::<&str>(None, late), Err(ServiceError::GroupsV2Error));
    assert_eq!(received_credential(Some("credential")), Ok("credential"));
    assert_eq!(received_credential::<&str>(None), Err(ServiceError::GroupsV2Error));
}

const ID: &str = "9d0652a3-dcc3-4d11-975f-74d61598733f";

#[test]
fn profiles_are_asked_for_by_path() {
    let request = retrieve_profile_by_id(ID, None);
    assert_eq!(request.method, Method::Get);
    assert_eq!(request.path, format!("/v1/profile/{ID}"));
    assert_eq!(retrieve_profile_by_id(ID, Some(b"00ff")).path, format!("/v1/profile/{ID}/00ff"));
    let request = retrieve_profile_with_credential(ID, b"00ff", &[0x01, 0xab, 0x7f]);
    assert_eq!(request.method, Method::Get);
    assert_eq!(
        request.path,
        format!("/v1/profile/{ID}/00ff/01ab7f?credentialType=expiringProfileKey")
    );
}

#[test]
fn profiles_are_written_with_or_without_an_avatar() {
    for (avatar, there, same) in [
        (AvatarWrite::NewAvatar(7), true, false),
        (AvatarWrite::RetainAvatar, true, true),
        (AvatarWrite::NoAvatar, false, false),
    ] {
        let (request, body) =
            write_profile(b"00ff", &[1], &[2], &[3], Some(vec![4]), &[5], &avatar);
        assert_eq!(request.method, Method::Put);
        assert_eq!(request.path, "/v1/profile");
        assert_eq!(body.version, "00ff");
        assert_eq!(body.name, [1]);
        assert_eq!(body.about, [2]);
        assert_eq!(body.about_emoji, [3]);
        assert_eq!(body.payment_address, Some(vec![4]));
        assert_eq!(body.commitment, [5]);
        assert_eq!(body.avatar, there);
        assert_eq!(body.same_avatar, same);
        assert_eq!(has_upload_form(&avatar), there && !same);
    }
}
