//! The account flows built on the hasher and the token codec: registering a
//! user, logging in, and identifying the user behind validated claims. The
//! storage collaborator stays outside: these functions take the row a lookup
//! returned (or the outcome an insert produced) and decide everything else,
//! so every decision is verified. The uniform response envelope lives here
//! too, with its exact status, message and data stated per outcome.

use crate::bytes::ascii_chars;
use crate::crypto::{argon2_verifies, argon2_check, argon2_hash, ascii_to_string};
use crate::token::{issue_at, spec_token, VALIDITY_SECONDS};
use vstd::prelude::*;
use vstd::string::StringSliceAdditionalSpecFns;

verus! {

/// A stored user as the protected endpoints expose it: no password material.
#[derive(Debug, Clone, PartialEq, Eq)]
pub struct User {
    pub id: u64,
    pub name: String,
    pub email: String,
}

/// A registration request.
#[derive(Debug, Clone, PartialEq, Eq)]
pub struct NewUser {
    pub name: String,
    pub email: String,
    pub password: String,
}

/// A login request.
#[derive(Debug, Clone, PartialEq, Eq)]
pub struct LoginRequest {
    pub email: String,
    pub password: String,
}

/// A full storage row for a user, as a login lookup returns it.
#[derive(Debug, Clone, PartialEq, Eq)]
pub struct UserRow {
    pub id: u64,
    pub name: String,
    pub email: String,
    pub password_hash: String,
}

/// The row registration hands to storage: the password only as its hash.
#[derive(Debug, Clone, PartialEq, Eq)]
pub struct NewUserRow {
    pub name: String,
    pub email: String,
    pub password_hash: String,
}

/// What a successful login returns: the session token and the public user.
#[derive(Debug, Clone, PartialEq, Eq)]
pub struct LoginResponse {
    pub token: String,
    pub user: User,
}

/// The uniform response envelope every handler answers with.
#[derive(Debug, Clone, PartialEq, Eq)]
pub struct ApiResponse<T> {
    pub status: String,
    pub message: String,
    pub data: Option<T>,
}

/// Everything that can go wrong in the account flows.
#[derive(Debug, Clone, Copy, PartialEq, Eq, Structural)]
pub enum AuthError {
    /// The storage collaborator could not be reached or failed.
    StorageUnavailable,
    /// Registration hit the email uniqueness constraint.
    DuplicateEmail,
    /// No row for the credential's email or the claims' subject.
    NotFound,
    /// The row exists but the password does not verify.
    InvalidCredentials,
    /// Password hashing failed; fatal, nothing is stored.
    HashingFailure,
    /// No token could be issued for the current clock reading.
    TokenFailure,
}

/// The user-facing message for each failure. Lookup and password failures
/// share one message so a caller cannot probe which field was wrong.
pub open spec fn spec_error_message(e: AuthError) -> Seq<char> {
    match e {
        AuthError::StorageUnavailable => "storage unavailable"@,
        AuthError::DuplicateEmail => "email already registered"@,
        AuthError::NotFound => "invalid email or password"@,
        AuthError::InvalidCredentials => "invalid email or password"@,
        AuthError::HashingFailure => "internal error"@,
        AuthError::TokenFailure => "internal error"@,
    }
}

/// The user-facing message for each failure.
pub fn error_message(e: &AuthError) -> (r: String)
    ensures
        r@ == spec_error_message(*e),
{
    match e {
        AuthError::StorageUnavailable => "storage unavailable".to_owned(),
        AuthError::DuplicateEmail => "email already registered".to_owned(),
        AuthError::NotFound => "invalid email or password".to_owned(),
        AuthError::InvalidCredentials => "invalid email or password".to_owned(),
        AuthError::HashingFailure => "internal error".to_owned(),
        AuthError::TokenFailure => "internal error".to_owned(),
    }
}

/// Hash a password into a self-describing record with a fresh salt. A record
/// returned here verifies exactly the password it was derived from, which is
/// what `verify_password` reports.
pub fn hash_password(password: &str) -> (r: Result<String, AuthError>)
    ensures
        r matches Ok(h) ==> argon2_verifies(password.spec_bytes(), h@),
        r matches Err(e) ==> e == AuthError::HashingFailure,
{
    match argon2_hash(password.as_bytes()) {
        Some(h) => Ok(h),
        None => Err(AuthError::HashingFailure),
    }
}

/// Verify a password candidate against a stored record. A malformed record
/// fails closed: it verifies nothing.
pub fn verify_password(password: &str, record: &str) -> (r: bool)
    ensures
        r == argon2_verifies(password.spec_bytes(), record@),
{
    argon2_check(password.as_bytes(), record)
}

/// For every password: a record freshly derived from it verifies it. Hashing
/// can fail, but whenever it returns a record, verifying the same password
/// against that record is `true` - which is what the `ensures` pins down.
pub fn hash_then_verify(password: &str) -> (r: Option<bool>)
    ensures
        r matches Some(b) ==> b,
{
    match hash_password(password) {
        Ok(record) => Some(verify_password(password, record.as_str())),
        Err(_) => None,
    }
}

/// Turn a registration request into the row to store: the name and email
/// unchanged, the password replaced by a record that verifies it. Fails only
/// when hashing itself fails, and then nothing is handed to storage.
pub fn register_user(u: &NewUser) -> (r: Result<NewUserRow, AuthError>)
    ensures
        r matches Ok(row) ==> row.name == u.name && row.email == u.email && argon2_verifies(
            vstd::utf8::encode_utf8(u.password@),
            row.password_hash@,
        ),
        r matches Err(e) ==> e == AuthError::HashingFailure,
{
    match hash_password(u.password.as_str()) {
        Ok(h) => Ok(NewUserRow { name: u.name.clone(), email: u.email.clone(), password_hash: h }),
        Err(e) => Err(e),
    }
}

/// Decide a login from the row the storage lookup returned, at clock reading
/// `now`: no row is `NotFound`, a non-verifying password is
/// `InvalidCredentials`, and a verifying one yields the public projection of
/// the user together with a token for the user's id expiring one validity
/// window after `now`. The password record never leaves this function.
pub fn login_at(key: &[u8], row: Option<&UserRow>, password: &str, now: u64) -> (r: Result<
    LoginResponse,
    AuthError,
>)
    requires
        now + VALIDITY_SECONDS <= usize::MAX,
        row matches Some(u) ==> u.id <= i32::MAX,
    ensures
        row is None ==> r == Err::<LoginResponse, AuthError>(AuthError::NotFound),
        row matches Some(u) ==> (!argon2_verifies(password.spec_bytes(), u.password_hash@) ==> r
            == Err::<LoginResponse, AuthError>(AuthError::InvalidCredentials)),
        row matches Some(u) ==> (argon2_verifies(password.spec_bytes(), u.password_hash@) ==> (
        r matches Ok(lr) && lr.user.id == u.id && lr.user.name == u.name && lr.user.email == u.email
            && lr.token@ == ascii_chars(
            spec_token(key@, u.id as int, (now + VALIDITY_SECONDS) as nat),
        ))),
{
    match row {
        None => Err(AuthError::NotFound),
        Some(u) => {
            if !verify_password(password, u.password_hash.as_str()) {
                Err(AuthError::InvalidCredentials)
            } else {
                let token_bytes = issue_at(key, u.id as i32, now);
                let token = ascii_to_string(token_bytes);
                Ok(
                    LoginResponse {
                        token,
                        user: User { id: u.id, name: u.name.clone(), email: u.email.clone() },
                    },
                )
            }
        },
    }
}

/// The outcome of a login attempt for which no token can be issued: the
/// credential checks still run, so the error does not leak the clock state
/// before the password was checked.
fn login_failure(row: Option<&UserRow>, password: &str) -> (r: AuthError)
    ensures
        row is None ==> r == AuthError::NotFound,
        row matches Some(u) ==> (!argon2_verifies(password.spec_bytes(), u.password_hash@) ==> r
            == AuthError::InvalidCredentials),
        row matches Some(u) ==> (argon2_verifies(password.spec_bytes(), u.password_hash@) ==> r
            == AuthError::TokenFailure),
{
    match row {
        None => AuthError::NotFound,
        Some(u) => {
            if !verify_password(password, u.password_hash.as_str()) {
                AuthError::InvalidCredentials
            } else {
                AuthError::TokenFailure
            }
        },
    }
}

/// Decide a login against the current clock. The rejection outcomes are
/// exact; a successful login carries a token issued for the row's id, and
/// fails as `TokenFailure` only when the clock reading leaves no
/// representable expiry.
pub fn login(key: &[u8], row: Option<&UserRow>, password: &str) -> (r: Result<
    LoginResponse,
    AuthError,
>)
    requires
        row matches Some(u) ==> u.id <= i32::MAX,
    ensures
        row is None ==> r == Err::<LoginResponse, AuthError>(AuthError::NotFound),
        row matches Some(u) ==> (!argon2_verifies(password.spec_bytes(), u.password_hash@) ==> r
            == Err::<LoginResponse, AuthError>(AuthError::InvalidCredentials)),
        row matches Some(u) ==> (argon2_verifies(password.spec_bytes(), u.password_hash@) ==> ((
        r matches Ok(lr) && lr.user.id == u.id && lr.user.name == u.name && lr.user.email == u.email
            && (exists|exp: nat|
            lr.token@ == ascii_chars(#[trigger] spec_token(key@, u.id as int, exp)))) || r == Err::<
            LoginResponse,
            AuthError,
        >(AuthError::TokenFailure))),
{
    let ts = crate::crypto::now_unix();
    if ts < 0 {
        return Err(login_failure(row, password));
    }
    let now = ts as u64;
    if now > usize::MAX as u64 - VALIDITY_SECONDS {
        return Err(login_failure(row, password));
    }
    let r = login_at(key, row, password, now);
    proof {
        if row is Some && argon2_verifies(
            password.spec_bytes(),
            row.unwrap().password_hash@,
        ) && r is Ok {
            let u = row.unwrap();
            let lr = r.unwrap();
            assert(lr.token@ == ascii_chars(
                spec_token(key@, u.id as int, (now + VALIDITY_SECONDS) as nat),
            ));
        }
    }
    r
}

/// The envelope for the protected identity endpoint: the user behind the
/// validated claims, re-fetched from storage, or an error when the user no
/// longer exists.
pub fn identify(row: Option<User>) -> (r: ApiResponse<User>)
    ensures
        row matches Some(u) ==> r.status@ == "success"@ && r.message@ == "user data retrieved"@
            && r.data == Some(u),
        row is None ==> r.status@ == "error"@ && r.message@ == "user not found"@
            && r.data is None,
{
    match row {
        Some(u) => ApiResponse {
            status: "success".to_owned(),
            message: "user data retrieved".to_owned(),
            data: Some(u),
        },
        None => ApiResponse {
            status: "error".to_owned(),
            message: "user not found".to_owned(),
            data: None,
        },
    }
}

/// The envelope for the user listing.
pub fn users_response(rows: Result<Vec<User>, AuthError>) -> (r: ApiResponse<Vec<User>>)
    ensures
        rows matches Ok(us) ==> r.status@ == "success"@ && r.message@ == "user list retrieved"@
            && r.data == Some(us),
        rows matches Err(e) ==> r.status@ == "error"@ && r.message@ == spec_error_message(e)
            && r.data is None,
{
    match rows {
        Ok(us) => ApiResponse {
            status: "success".to_owned(),
            message: "user list retrieved".to_owned(),
            data: Some(us),
        },
        Err(e) => ApiResponse {
            status: "error".to_owned(),
            message: error_message(&e),
            data: None,
        },
    }
}

/// The envelope for registration: built from what storage answered for the
/// insert, or from the error that stopped the flow before it.
pub fn register_response(outcome: Result<(), AuthError>) -> (r: ApiResponse<()>)
    ensures
        outcome is Ok ==> r.status@ == "success"@ && r.message@ == "user registered"@,
        outcome matches Err(e) ==> r.status@ == "error"@ && r.message@ == spec_error_message(e),
        r.data is None,
{
    match outcome {
        Ok(_) => ApiResponse {
            status: "success".to_owned(),
            message: "user registered".to_owned(),
            data: None,
        },
        Err(e) => ApiResponse {
            status: "error".to_owned(),
            message: error_message(&e),
            data: None,
        },
    }
}

/// The envelope for a login outcome: the token and user on success, an error
/// envelope with no data otherwise.
pub fn login_response(outcome: Result<LoginResponse, AuthError>) -> (r: ApiResponse<LoginResponse>)
    ensures
        outcome matches Ok(lr) ==> r.status@ == "success"@ && r.message@ == "login successful"@
            && r.data == Some(lr),
        outcome matches Err(e) ==> r.status@ == "error"@ && r.message@ == spec_error_message(e)
            && r.data is None,
{
    match outcome {
        Ok(lr) => ApiResponse {
            status: "success".to_owned(),
            message: "login successful".to_owned(),
            data: Some(lr),
        },
        Err(e) => ApiResponse {
            status: "error".to_owned(),
            message: error_message(&e),
            data: None,
        },
    }
}

} // verus!
