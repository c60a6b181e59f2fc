//! Signal profiles, usernames and group invite links: padding and encryption of
//! profile fields, the links that carry secrets in their fragment, and the
//! decisions around the requests that fetch and change them.

pub mod aes_gcm_256;
pub mod base64url;
pub mod groups_v2;
pub mod hexadecimal;
pub mod laws;
pub mod link_url;
pub mod octets;
pub mod padding;
pub mod payment_address;
pub mod profile_cipher;
pub mod profile_name;
mod random;
pub mod service_error;
pub mod service_id;
pub mod text;
pub mod unix_time;
pub mod uuid_bytes;
pub mod websocket;
pub mod wire;
