//! Authentication core for a small record-management service: password
//! hashing and verification, issuance and validation of signed, self-contained
//! session tokens, the request guard that turns an `Authorization` header into
//! an authenticated identity, and the register/login/identify flows composed
//! on top of them.
//!
//! The storage and HTTP layers stay outside: every function here takes plain
//! values (the row a lookup returned, the bytes of a header) and decides the
//! rest, with the decision stated in its contract. Only the cryptographic
//! primitives themselves - the HMAC tag, the argon2 derivation, the clock -
//! are trusted, each behind one wrapper in `crypto`.

pub mod base64url;
pub mod bytes;
pub mod claims;
pub mod crypto;
pub mod guard;
pub mod numtext;
pub mod service;
pub mod token;

pub use claims::Claims;
pub use guard::AuthenticatedUser;
pub use guard::Rejection;
pub use service::ApiResponse;
pub use service::AuthError;
pub use service::LoginRequest;
pub use service::LoginResponse;
pub use service::NewUser;
pub use service::User;
pub use token::TokenError;
