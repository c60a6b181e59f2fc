//! Errors of the requests to the service.

use crate::base64url::Base64Error;
use crate::service_id::ServiceIdKind;
use vstd::prelude::*;

verus! {

/// Why a request could not be made or its reply not be used.
#[derive(Clone, Copy, Debug, PartialEq, Eq)]
pub enum ServiceError {
    /// Something that was sent or typed does not have the expected form.
    InvalidFrame { reason: &'static str },
    /// A text is not unpadded URL-safe base64.
    Base64(Base64Error),
    /// An address is not of the expected kind.
    InvalidAddressType(ServiceIdKind),
    /// A group credential was refused.
    GroupsV2Error,
}

} // verus!
