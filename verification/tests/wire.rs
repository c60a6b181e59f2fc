use prost::bytes::{Buf, BufMut};
use prost::encoding::{bytes, message, skip_field, DecodeContext, WireType};
use prost::{DecodeError, Message};
use rand::Rng;
use signal_profiles::payment_address::{
    payment_address_names, Address, MobileCoin, PaymentAddress,
};

/// The embedded message, as `prost` reads it.
#[derive(Debug, Default)]
struct Inner {
    public_address: Option<Vec<u8>>,
    signature: Option<Vec<u8>>,
}

/// The message around it.
#[derive(Debug, Default)]
struct Outer {
    address: Option<Inner>,
}

impl Message for Inner {
    fn encode_raw(&self, buf: &mut impl BufMut) {
        if let Some(value) = &self.public_address {
            bytes::encode(1, value, buf);
        }
        if let Some(value) = &self.signature {
            bytes::encode(2, value, buf);
        }
    }

    fn merge_field(
        &mut self,
        tag: u32,
        wire_type: WireType,
        buf: &mut impl Buf,
        ctx: DecodeContext,
    ) -> Result<(), DecodeError> {
        let (value, name) = match tag {
            1 => (&mut self.public_address, "public_address"),
            2 => (&mut self.signature, "signature"),
            _ => return skip_field(wire_type, tag, buf, ctx),
        };
        let value = value.get_or_insert_with(Default::default);
        bytes::merge(wire_type, value, buf, ctx).map_err(|mut error| {
            error.push("MobileCoin", name);
            error
        })
    }

    fn encoded_len(&self) -> usize {
        let len = |tag: u32, value: &Option<Vec<u8>>| match value {
            Some(value) => bytes::encoded_len(tag, value),
            None => 0,
        };
        len(1, &self.public_address) + len(2, &self.signature)
    }

    fn clear(&mut self) {
        *self = Self::default();
    }
}

impl Message for Outer {
    fn encode_raw(&self, buf: &mut impl BufMut) {
        if let Some(value) = &self.address {
            message::encode(1, value, buf);
        }
    }

    fn merge_field(
        &mut self,
        tag: u32,
        wire_type: WireType,
        buf: &mut impl Buf,
        ctx: DecodeContext,
    ) -> Result<(), DecodeError> {
        if tag != 1 {
            return skip_field(wire_type, tag, buf, ctx);
        }
        let value = self.address.get_or_insert_with(Default::default);
        message::merge(wire_type, value, buf, ctx).map_err(|mut error| {
            error.push("PaymentAddress", "address");
            error
        })
    }

    fn encoded_len(&self) -> usize {
        match &self.address {
            Some(value) => message::encoded_len(1, value),
            None => 0,
        }
    }

    fn clear(&mut self) {
        *self = Self::default();
    }
}

fn from_outer(outer: Outer) -> PaymentAddress {
    PaymentAddress {
        address: outer.address.map(|inner| {
            Address::MobileCoin(MobileCoin {
                public_address: inner.public_address,
                signature: inner.signature,
            })
        }),
    }
}

/// Decodes both ways. Returns whether the bytes are a message.
fn compare(data: &[u8]) -> bool {
    let expected = Outer::decode(data);
    let encoded = expected.as_ref().ok().map(|outer| outer.encode_to_vec());
    let expected = expected.map(from_outer).map_err(|error| error.to_string());
    let names = payment_address_names();
    let actual = PaymentAddress::decode(data).map_err(|error| error.text(&names));
    assert_eq!(actual, expected, "{data:?}");
    if let Ok(address) = &actual {
        assert_eq!(Some(address.encode_to_vec()), encoded);
    }
    actual.is_ok()
}

/// Bytes that are often fields, in messages and groups.
fn random_fields(rng: &mut rand::rngs::ThreadRng, depth: usize, out: &mut Vec<u8>) {
    for _ in 0..rng.random_range(0..4) {
        let tag = rng.random_range(1..4u8);
        match rng.random_range(0..8) {
            0 => out.extend([tag << 3, 0x80 | rng.random::<u8>(), 1]),
            1 => out.extend([tag << 3 | 5, 1, 2, 3, 4]),
            2 => out.extend([tag << 3 | 1, 1, 2, 3, 4, 5, 6, 7, 8]),
            3 if depth > 0 => {
                out.push(tag << 3 | 3);
                random_fields(rng, depth - 1, out);
                out.push(tag << 3 | 4);
            }
            4 if depth > 0 => {
                let mut body = Vec::new();
                random_fields(rng, depth - 1, &mut body);
                out.extend([1 << 3 | 2, body.len().min(127) as u8]);
                out.extend(body);
            }
            5 => out.push(rng.random()),
            _ => {
                let value = vec![7; rng.random_range(0..4)];
                out.extend([tag << 3 | 2, value.len() as u8]);
                out.extend(value);
            }
        }
    }
}

#[test]
fn messages_are_decoded_as_by_prost() {
    let mut rng = rand::rng();
    let (mut well_formed, mut malformed) = (0, 0);
    for _ in 0..50_000 {
        let mut data = Vec::new();
        random_fields(&mut rng, 3, &mut data);
        if !data.is_empty() && rng.random_range(0..4) == 0 {
            let at = rng.random_range(0..data.len());
            data[at] = rng.random();
        }
        if rng.random_range(0..8) == 0 {
            data.truncate(data.len() / 2);
        }
        if compare(&data) {
            well_formed += 1;
        } else {
            malformed += 1;
        }
    }
    assert!(well_formed > 1_000 && malformed > 1_000);
}

#[test]
fn short_messages_are_decoded_as_by_prost() {
    compare(&[]);
    for a in 0..=255u8 {
        compare(&[a]);
        for b in 0..=255u8 {
            compare(&[a, b]);
            compare(&[0x0a, 3, a, b, 0]);
            compare(&[0x0a, 2, a, b, 0x12, 0]);
            compare(&[0x0a, 1, a, b, 0, 0, 0]);
        }
    }
}

#[test]
fn nested_groups_are_decoded_as_by_prost() {
    for depth in 95..105usize {
        for ends in [depth - 1, depth, depth + 1] {
            for tail in [&[][..], &[0x0a, 9], &[0x18, 0x80], &[0x12, 1, 5]] {
                let mut body = vec![0x1b; depth];
                body.extend(vec![0x1c; ends]);
                body.extend(tail);
                compare(&body);
                let len = body.len();
                for len in [len, len - 1, len + 1] {
                    let mut data = vec![0x0a, (len & 0x7f) as u8 | 0x80, (len >> 7) as u8];
                    data.extend(&body);
                    compare(&data);
                    data.extend([0x12, 0, 0x0a, 0]);
                    compare(&data);
                }
            }
        }
    }
}

#[test]
fn large_numbers_are_decoded_as_by_prost() {
    for last in [0u8, 1, 2, 0x7f, 0x80] {
        for count in [3, 4, 5, 8, 9, 10] {
            let mut number = vec![0xff; count];
            number.push(last);
            compare(&number);
            for key in [0x0a, 0x18, 0x1a] {
                let mut data = vec![key];
                data.extend(&number);
                compare(&data);
                data.splice(0..0, [0x0a, data.len() as u8]);
                compare(&data);
            }
        }
    }
}
