//! Identifiers of accounts.

use vstd::prelude::*;

verus! {

/// The two kinds of service identifier.
#[derive(Clone, Copy, Debug, PartialEq, Eq, Structural)]
pub enum ServiceIdKind {
    Aci,
    Pni,
}

/// An account identifier: a UUID, as the number that its bytes spell, the most
/// significant byte first.
#[derive(Clone, Copy, Debug, PartialEq, Eq, Structural)]
pub struct Aci {
    pub uuid: u128,
}

} // verus!
