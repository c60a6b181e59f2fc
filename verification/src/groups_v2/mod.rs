//! Signal groups: invite links and profile key credentials.

pub mod credentials;
pub mod invite_link;

pub use credentials::{
    create_credential_request_context, receive_credential, ProfileKeyCredentialCache,
    SignalServiceProfileWithCredential,
};
