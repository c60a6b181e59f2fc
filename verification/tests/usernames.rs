use signal_profiles::base64url::{encode, Base64Error};
use signal_profiles::link_url::Url;
use signal_profiles::service_error::ServiceError;
use signal_profiles::service_id::{Aci, ServiceIdKind};
use signal_profiles::websocket::request::{Method, Request};
use signal_profiles::websocket::usernames::{
    confirm_username, delete_username, delete_username_link, generate_username_link,
    look_up_username, look_up_username_hash, look_up_username_link, parse_username_link,
    reserve_username, reserved_username, set_username_link, username_hash_answered,
    username_hash_parsed, ConfirmStep, ConfirmedUsername, HashStep, LinkStep, Username,
    USERNAME_LINK_ENTROPY_SIZE,
};

fn uuid(text: &str) -> [u8; 16] {
    uuid::Uuid::parse_str(text).unwrap().into_bytes()
}

#[test]
fn generate_and_parse_link_round_trip() {
    let entropy = [0x42; USERNAME_LINK_ENTROPY_SIZE];
    let handle = uuid("9d0652a3-dcc3-4d11-975f-74d61598733f");
    // deliberately chosen to round-trip cleanly through URL-safe base64
    let link = generate_username_link(handle, &entropy);
    assert!(link.as_str().starts_with("https://signal.me/#eu/"));

    let (parsed_handle, parsed_entropy) = parse_username_link(&link).unwrap();
    assert_eq!(parsed_handle, handle);
    assert_eq!(parsed_entropy, entropy);
}

#[test]
fn parse_link_rejects_wrong_base() {
    let entropy = [0x42; USERNAME_LINK_ENTROPY_SIZE];
    let handle = uuid("9d0652a3-dcc3-4d11-975f-74d61598733f");
    let bad_link =
        generate_username_link(handle, &entropy).as_str().replace("signal.me", "example.com");
    let bad_link = Url::parse(&bad_link).unwrap();
    assert!(parse_username_link(&bad_link).is_err());
}

#[test]
fn parse_link_rejects_missing_eu_marker() {
    let bad_link = Url::parse(
        "https://signal.me/#foo/R_rHg5IQLE60Qad5l8rV-6x2TMcVnDYvOV-igYXJj6GK1NuNeE9LKI3V_VZ8IH2p",
    )
    .unwrap();
    assert!(parse_username_link(&bad_link).is_err());
}

#[test]
fn parse_link_rejects_extra_fragment_segments() {
    let bad_link = Url::parse("https://signal.me/#eu/payload/extra").unwrap();
    assert!(parse_username_link(&bad_link).is_err());
}

fn rejection(text: &str) -> ServiceError {
    parse_username_link(&Url::parse(text).unwrap()).unwrap_err()
}

fn frame(reason: &'static str) -> ServiceError {
    ServiceError::InvalidFrame { reason }
}

#[test]
fn link_errors_are_told_apart() {
    let base = frame("username link base is not https://signal.me");
    assert_eq!(rejection("http://signal.me/#eu/AAAA"), base);
    assert_eq!(rejection("https://www.signal.me/#eu/AAAA"), base);
    assert_eq!(rejection("data:text/plain,x#eu/AAAA"), base);
    assert_eq!(rejection("https://signal.me/eu/AAAA"), frame("username link missing fragment"));
    assert_eq!(rejection("https://signal.me/#"), frame("username link must start with #eu/"));
    assert_eq!(rejection("https://signal.me/#EU/AAAA"), frame("username link must start with #eu/"));
    assert_eq!(rejection("https://signal.me/#eu"), frame("username link payload missing"));
    assert_eq!(
        rejection("https://signal.me/#eu/payload/"),
        frame("username link has extra path segments")
    );
    assert_eq!(
        rejection("https://signal.me/#eu/AA=="),
        ServiceError::Base64(Base64Error::InvalidPadding)
    );
    assert_eq!(
        rejection("https://signal.me/#eu/A*AA"),
        ServiceError::Base64(Base64Error::InvalidByte(1, b'*'))
    );
    assert_eq!(
        rejection("https://signal.me/#eu/"),
        frame("username link payload shorter than entropy")
    );
    let link = |len: usize| format!("https://signal.me/#eu/{}", encode(&vec![1; len]));
    assert_eq!(rejection(&link(31)), frame("username link payload shorter than entropy"));
    assert_eq!(rejection(&link(32)), frame("username link payload missing handle UUID"));
    assert_eq!(rejection(&link(47)), frame("username link payload missing handle UUID"));
    assert_eq!(rejection(&link(49)), frame("username link payload missing handle UUID"));
    assert_eq!(
        parse_username_link(&Url::parse(&link(48)).unwrap()),
        Ok(([1; 16], [1; 32]))
    );
}

#[test]
fn urls_are_normalized() {
    assert!(Url::parse("signal.me").is_none());
    let url = Url::parse(" HTTPS://SIGNAL.me?x#eu/a b ").unwrap();
    assert_eq!(url.as_str(), "https://signal.me/?x#eu/a%20b");
    assert_eq!(url.scheme(), "https");
    assert_eq!(url.host_str(), Some("signal.me"));
    assert_eq!(url.fragment(), Some("eu/a%20b"));
}

#[test]
fn link_has_the_expected_text() {
    let link = generate_username_link([0; 16], &[0; 32]);
    assert_eq!(link.as_str(), format!("https://signal.me/#eu/{}", "A".repeat(64)));
    assert_eq!(link.scheme(), "https");
    assert_eq!(link.host_str(), Some("signal.me"));
}

fn username(text: &str, hash: u8) -> Username {
    Username { text: text.to_string(), hash: [hash; 32] }
}

fn sent(step: HashStep) -> Request {
    match step {
        HashStep::Send(request) => request,
        _ => panic!("no request"),
    }
}

#[test]
fn a_username_is_looked_up_by_its_hash() {
    let request = sent(look_up_username(&username("ada.42", 0)));
    assert_eq!(request.method, Method::Get);
    assert_eq!(request.path, format!("/v1/accounts/username_hash/{}", "A".repeat(43)));
    assert_eq!(
        sent(look_up_username_hash(&[0xfb, 0xff])).path,
        "/v1/accounts/username_hash/-_8"
    );

    assert!(matches!(username_hash_answered(404), HashStep::Finish(Ok(None))));
    assert!(matches!(username_hash_answered(200), HashStep::ReadBody));
    assert!(matches!(username_hash_answered(500), HashStep::ReadBody));
    let aci = Aci { uuid: 7 };
    match username_hash_parsed(Some(aci)) {
        HashStep::Finish(result) => assert_eq!(result, Ok(Some(aci))),
        _ => panic!("not finished"),
    }
    match username_hash_parsed(None) {
        HashStep::Finish(result) => {
            assert_eq!(result, Err(ServiceError::InvalidAddressType(ServiceIdKind::Aci)))
        }
        _ => panic!("not finished"),
    }
}

/// Runs a look-up with these answers.
fn look_up(
    link: &Url,
    status: u16,
    plaintext: Option<&str>,
    valid: Option<Username>,
) -> Result<Option<Username>, ServiceError> {
    let mut step = look_up_username_link(link);
    let mut valid = valid;
    loop {
        step = match step {
            LinkStep::Send(next) => {
                assert_eq!(next.request.method, Method::Get);
                assert_eq!(
                    next.request.path,
                    "/v1/accounts/username_link/9d0652a3-dcc3-4d11-975f-74d61598733f"
                );
                next.answered(status)
            }
            LinkStep::ReadBody(next) => next.received(vec![1, 2, 3]),
            LinkStep::Decrypt(next) => {
                assert_eq!(next.entropy, [0x42; 32]);
                assert_eq!(next.encrypted_username, [1, 2, 3]);
                next.decrypted(plaintext.map(|text| text.to_string()))
            }
            LinkStep::Validate(next) => {
                assert_eq!(Some(&next.plaintext_username[..]), plaintext);
                next.validated(valid.take())
            }
            LinkStep::Finish(result) => return result,
        }
    }
}

#[test]
fn a_username_link_is_looked_up() {
    let handle = uuid("9d0652a3-dcc3-4d11-975f-74d61598733f");
    let link = generate_username_link(handle, &[0x42; 32]);
    let ada = username("ada.42", 3);
    assert_eq!(look_up(&link, 200, Some("ada.42"), Some(ada.clone())), Ok(Some(ada.clone())));
    assert_eq!(look_up(&link, 404, Some("ada.42"), Some(ada.clone())), Ok(None));
    assert_eq!(look_up(&link, 200, Some("ada"), None), Err(frame("undecryptable username link")));
    assert_eq!(look_up(&link, 200, None, Some(ada.clone())), Err(frame("undecryptable username link")));
    let other = Url::parse("https://signal.me/#p/+123").unwrap();
    assert_eq!(
        look_up(&other, 200, Some("ada.42"), Some(ada)),
        Err(frame("username link must start with #eu/"))
    );
}

#[test]
fn the_first_candidate_with_the_reserved_hash_wins() {
    let candidates =
        [username("ada.1", 1), username("ada.2", 2), username("ada.3", 2), username("ada.4", 4)];
    let (request, body) = reserve_username(&candidates);
    assert_eq!(request.method, Method::Put);
    assert_eq!(request.path, "/v1/accounts/username_hash/reserve");
    let hashes: Vec<String> = [1u8, 2, 2, 4].iter().map(|hash| encode(&[*hash; 32])).collect();
    assert_eq!(body.username_hashes, hashes);
    assert_eq!(reserved_username(&candidates, &[2; 32]), Ok(1));
    assert_eq!(reserved_username(&candidates, &[4; 32]), Ok(3));
    let foreign = Err(frame("server reserved a hash we did not offer"));
    assert_eq!(reserved_username(&candidates, &[3; 32]), foreign);
    assert_eq!(reserved_username(&candidates, &[2; 31]), foreign);
    assert_eq!(reserved_username(&[], &[]), foreign);
    assert!(reserve_username(&[]).1.username_hashes.is_empty());
}

/// Runs a confirmation with these answers.
fn confirm(
    link_entropy: Option<[u8; 32]>,
    proof: Option<Vec<u8>>,
    link: Option<([u8; 32], Vec<u8>)>,
) -> Result<ConfirmedUsername, ServiceError> {
    let mut rng = rand::rng();
    let mut step = confirm_username(username("ada.42", 3), link_entropy, &mut rng);
    loop {
        step = match step {
            ConfirmStep::Prove(next) => {
                assert_eq!(next.username, username("ada.42", 3));
                assert_ne!(next.randomness, [0; 32]);
                next.proven(proof.clone())
            }
            ConfirmStep::CreateLink(next) => {
                assert_eq!(next.username.text, "ada.42");
                assert_eq!(next.link_entropy, link_entropy);
                next.created(link.clone())
            }
            ConfirmStep::Send(next) => {
                assert_eq!(next.request.method, Method::Put);
                assert_eq!(next.request.path, "/v1/accounts/username_hash/confirm");
                assert_eq!(next.body.username_hash, [3; 32]);
                assert_eq!(Some(&next.body.zk_proof), proof.as_ref());
                assert_eq!(next.body.encrypted_username, link.as_ref().unwrap().1);
                next.confirmed([9; 16])
            }
            ConfirmStep::Finish(result) => return result,
        }
    }
}

#[test]
fn a_username_is_confirmed() {
    let confirmed = confirm(Some([5; 32]), Some(vec![1]), Some(([5; 32], vec![2]))).unwrap();
    assert_eq!(
        confirmed,
        ConfirmedUsername {
            username: username("ada.42", 3),
            link_handle: [9; 16],
            link_entropy: [5; 32]
        }
    );
    let link = confirmed.link();
    assert_eq!(link, generate_username_link([9; 16], &[5; 32]));
    assert_eq!(parse_username_link(&link), Ok(([9; 16], [5; 32])));

    assert_eq!(
        confirm(None, None, Some(([5; 32], vec![2]))),
        Err(frame("failed to generate username proof"))
    );
    assert_eq!(
        confirm(None, Some(vec![1]), None),
        Err(frame("username too long to encrypt"))
    );
}

#[test]
fn randomness_is_drawn_anew() {
    let mut rng = rand::rng();
    let mut drawn = Vec::new();
    for _ in 0..2 {
        if let ConfirmStep::Prove(next) = confirm_username(username("a.42", 3), None, &mut rng) {
            drawn.push(next.randomness);
        }
    }
    assert_eq!(drawn.len(), 2);
    assert_ne!(drawn[0], drawn[1]);
}

#[test]
fn a_username_link_is_set() {
    let next = set_username_link(&username("ada.42", 3), true);
    assert_eq!(next.plaintext_username, "ada.42");
    let next = next.created(Some(([5; 32], vec![2]))).ok().unwrap();
    assert_eq!(next.request.method, Method::Put);
    assert_eq!(next.request.path, "/v1/accounts/username_link");
    assert_eq!(next.body.username_link_encrypted_value, [2]);
    assert!(next.body.keep_link_handle);
    assert_eq!(parse_username_link(&next.finished([9; 16])), Ok(([9; 16], [5; 32])));

    let next = set_username_link(&username("ada.42", 3), false);
    assert!(!next.keep_link_handle);
    assert_eq!(next.created(None).err(), Some(frame("username too long to encrypt")));
}

#[test]
fn usernames_and_links_are_deleted() {
    let request = delete_username();
    assert_eq!(request.method, Method::Delete);
    assert_eq!(request.path, "/v1/accounts/username_hash");
    let request = delete_username_link();
    assert_eq!(request.method, Method::Delete);
    assert_eq!(request.path, "/v1/accounts/username_link");
}
