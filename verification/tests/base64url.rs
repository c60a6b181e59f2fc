use rand::Rng;
use signal_profiles::base64url::{decode, encode, Base64Error};

fn is_symbol(byte: u8) -> bool {
    byte.is_ascii_alphanumeric() || byte == b'-' || byte == b'_'
}

/// What is at fault with a text that is not unpadded URL-safe base64.
fn rejection(text: &str) -> Base64Error {
    let bytes = text.as_bytes();
    let n = bytes.len();
    if n % 4 == 1 && !is_symbol(bytes[n - 1]) && bytes[n - 1] != b'=' {
        return Base64Error::InvalidByte(n - 1, bytes[n - 1]);
    }
    match bytes.iter().position(|byte| !is_symbol(*byte)) {
        Some(at) => {
            let padding = bytes[at..].iter().all(|byte| *byte == b'=');
            if padding && at >= (n - 1) / 4 * 4 + 2 {
                Base64Error::InvalidPadding
            } else {
                Base64Error::InvalidByte(at, bytes[at])
            }
        }
        None if n % 4 == 1 => Base64Error::InvalidLength(n),
        None => Base64Error::InvalidLastSymbol(n - 1, bytes[n - 1]),
    }
}

fn check(text: &str) -> bool {
    match decode(text) {
        Ok(bytes) => {
            assert_eq!(encode(&bytes), text);
            true
        }
        Err(error) => {
            assert_eq!(error, rejection(text), "{text:?}");
            false
        }
    }
}

#[test]
fn short_texts_are_decoded_or_rejected() {
    let alphabet = ['A', 'Q', 'B', '_', '=', '+', '\u{e9}'];
    let mut texts = vec![String::new()];
    for _ in 0..6 {
        let mut longer = Vec::new();
        for text in &texts {
            for c in alphabet {
                longer.push(format!("{text}{c}"));
            }
        }
        for text in &longer {
            check(text);
        }
        texts = longer;
    }
    assert!(check(""));
}

#[test]
fn long_texts_are_decoded_or_rejected() {
    let mut rng = rand::rng();
    let (mut decoded, mut rejected) = (0, 0);
    for _ in 0..20_000 {
        let bytes: Vec<u8> = (0..rng.random_range(0..120)).map(|_| rng.random()).collect();
        let mut text: Vec<char> = encode(&bytes).chars().collect();
        for _ in 0..rng.random_range(0..3) {
            let at = rng.random_range(0..text.len() + 1);
            text.insert(at, ['A', '=', '\n', '/', '\u{20ac}'][rng.random_range(0..5)]);
        }
        text.extend(["", "=", "==", "\n"][rng.random_range(0..4)].chars());
        if check(&text.into_iter().collect::<String>()) {
            decoded += 1;
        } else {
            rejected += 1;
        }
    }
    assert!(decoded > 1_000 && rejected > 1_000);
}

#[test]
fn known_texts() {
    assert_eq!(encode(b""), "");
    assert_eq!(encode(b"f"), "Zg");
    assert_eq!(encode(b"fo"), "Zm8");
    assert_eq!(encode(b"foo"), "Zm9v");
    assert_eq!(encode(&[0xff, 0xef, 0xbe]), "_---");
    assert_eq!(decode("_---"), Ok(vec![0xff, 0xef, 0xbe]));
}
