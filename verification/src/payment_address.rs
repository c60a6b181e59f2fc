//! The payment address of a profile.

use crate::wire::{
    decode_envelope, encode_envelope, opt_bytes, read_envelope, write_envelope, MalformedMessage,
    MalformedView, MessageNames, Pair, PairView,
};
use vstd::prelude::*;

verus! {

/// A MobileCoin address, and the signature over it with which the profile's owner
/// vouches for it.
#[derive(Clone, Debug, PartialEq, Eq)]
pub struct MobileCoin {
    pub public_address: Option<Vec<u8>>,
    pub signature: Option<Vec<u8>>,
}

/// The kinds of payment address.
#[derive(Clone, Debug, PartialEq, Eq)]
pub enum Address {
    MobileCoin(MobileCoin),
}

/// A payment address, as a profile carries it.
#[derive(Clone, Debug, PartialEq, Eq)]
pub struct PaymentAddress {
    pub address: Option<Address>,
}

impl View for PaymentAddress {
    type V = Option<PairView>;

    /// The public address and the signature, if there is an address.
    open spec fn view(&self) -> Option<PairView> {
        match self.address {
            Some(Address::MobileCoin(coin)) => Some(
                PairView {
                    first: opt_bytes(coin.public_address),
                    second: opt_bytes(coin.signature),
                },
            ),
            None => None,
        }
    }
}

impl PaymentAddress {
    /// Encodes the message.
    pub fn encode_to_vec(&self) -> (bytes: Vec<u8>)
        requires
            write_envelope(self@).len() <= isize::MAX,
        ensures
            bytes@ == write_envelope(self@),
    {
        let embedded = match &self.address {
            Some(Address::MobileCoin(coin)) => Some(
                Pair { first: copy_of(&coin.public_address), second: copy_of(&coin.signature) },
            ),
            None => None,
        };
        encode_envelope(&embedded)
    }

    /// Decodes the message.
    pub fn decode(bytes: &[u8]) -> (result: Result<Self, MalformedMessage>)
        ensures
            match result {
                Ok(address) => read_envelope(None, bytes@) == Ok::<
                    Option<PairView>,
                    MalformedView,
                >(address@),
                Err(error) => read_envelope(None, bytes@) == Err::<Option<PairView>, MalformedView>(
                    error@,
                ),
            },
    {
        match decode_envelope(bytes) {
            Ok(Some(pair)) => Ok(
                PaymentAddress {
                    address: Some(
                        Address::MobileCoin(
                            MobileCoin { public_address: pair.first, signature: pair.second },
                        ),
                    ),
                },
            ),
            Ok(None) => Ok(PaymentAddress { address: None }),
            Err(error) => Err(error),
        }
    }
}

/// The names by which a decoding error tells where it is.
pub fn payment_address_names() -> (names: MessageNames)
    ensures
        names.message@ == "PaymentAddress"@,
        names.embedded@ == "address"@,
        names.inner@ == "MobileCoin"@,
        names.first@ == "public_address"@,
        names.second@ == "signature"@,
{
    MessageNames {
        message: "PaymentAddress",
        embedded: "address",
        inner: "MobileCoin",
        first: "public_address",
        second: "signature",
    }
}

fn copy_of(value: &Option<Vec<u8>>) -> (copy: Option<Vec<u8>>)
    ensures
        opt_bytes(copy) == opt_bytes(*value),
{
    match value {
        Some(bytes) => Some(vstd::slice::slice_to_vec(bytes.as_slice())),
        None => None,
    }
}

} // verus!
