use auth_core::guard::authenticate;
use auth_core::service::{
    hash_password, identify, login, login_response, register_response, register_user,
    users_response, LoginResponse, NewUser, NewUserRow, User, UserRow,
};
use auth_core::AuthError;

const KEY: &[u8] = b"SECRET-REDACTED";

/// The storage collaborator of the tests: rows in a vector, emails unique.
struct Store {
    rows: Vec<UserRow>,
}

impl Store {
    fn new() -> Store {
        Store { rows: Vec::new() }
    }

    fn insert(&mut self, row: NewUserRow) -> Result<(), AuthError> {
        if self.rows.iter().any(|r| r.email == row.email) {
            return Err(AuthError::DuplicateEmail);
        }
        let id = self.rows.len() as u64 + 1;
        self.rows.push(UserRow {
            id,
            name: row.name,
            email: row.email,
            password_hash: row.password_hash,
        });
        Ok(())
    }

    fn find_by_email(&self, email: &str) -> Option<&UserRow> {
        self.rows.iter().find(|r| r.email == email)
    }

    fn find_by_id(&self, id: u64) -> Option<User> {
        self.rows.iter().find(|r| r.id == id).map(|r| User {
            id: r.id,
            name: r.name.clone(),
            email: r.email.clone(),
        })
    }
}

fn register(store: &mut Store, name: &str, email: &str, password: &str) -> Result<(), AuthError> {
    let row = register_user(&NewUser {
        name: name.to_string(),
        email: email.to_string(),
        password: password.to_string(),
    })?;
    store.insert(row)
}

#[test]
fn register_then_login_then_me() {
    let mut store = Store::new();
    register(&mut store, "A", "a@x.com", "secret").unwrap();

    // Login with the right credentials yields a token and the public user.
    let row = store.find_by_email("a@x.com");
    let resp = login(KEY, row, "secret").unwrap();
    assert_eq!(resp.user.email, "a@x.com");
    assert_eq!(resp.user.name, "A");
    assert_eq!(resp.user.id, 1);
    assert!(!resp.token.is_empty());

    // The protected endpoint sees the same user id behind the token.
    let mut header = b"Bearer ".to_vec();
    header.extend_from_slice(resp.token.as_bytes());
    let au = authenticate(KEY, Some(&header)).unwrap();
    assert_eq!(au.0.sub, 1);
    let me = identify(store.find_by_id(au.0.sub as u64));
    assert_eq!(me.status, "success");
    assert_eq!(me.data.unwrap().id, 1);
}

#[test]
fn login_with_the_wrong_password_yields_an_error_envelope_without_a_token() {
    let mut store = Store::new();
    register(&mut store, "A", "a@x.com", "secret").unwrap();
    let outcome = login(KEY, store.find_by_email("a@x.com"), "wrong");
    assert_eq!(outcome, Err(AuthError::InvalidCredentials));
    let envelope = login_response(outcome);
    assert_eq!(envelope.status, "error");
    assert!(envelope.data.is_none());
    assert_eq!(envelope.message, "invalid email or password");
}

#[test]
fn login_with_an_unknown_email_is_not_distinguishable_from_a_wrong_password() {
    let mut store = Store::new();
    register(&mut store, "A", "a@x.com", "secret").unwrap();
    let unknown = login_response(login(KEY, store.find_by_email("b@x.com"), "secret"));
    let wrong = login_response(login(KEY, store.find_by_email("a@x.com"), "wrong"));
    assert_eq!(unknown.status, "error");
    assert_eq!(unknown.message, wrong.message);
}

#[test]
fn registering_the_same_email_twice_is_a_duplicate() {
    let mut store = Store::new();
    register(&mut store, "A", "a@x.com", "secret").unwrap();
    let again = register(&mut store, "B", "a@x.com", "other");
    assert_eq!(again, Err(AuthError::DuplicateEmail));
    let envelope = register_response(again);
    assert_eq!(envelope.status, "error");
    assert_eq!(envelope.message, "email already registered");
    let ok = register_response(Ok(()));
    assert_eq!(ok.status, "success");
    assert_eq!(ok.message, "user registered");
}

#[test]
fn the_stored_row_never_holds_the_plaintext_password() {
    let row = register_user(&NewUser {
        name: "A".to_string(),
        email: "a@x.com".to_string(),
        password: "secret".to_string(),
    })
    .unwrap();
    assert_ne!(row.password_hash, "secret");
    assert!(!row.password_hash.contains("secret"));
}

#[test]
fn identify_reports_a_vanished_user() {
    let envelope = identify(None);
    assert_eq!(envelope.status, "error");
    assert_eq!(envelope.message, "user not found");
    assert!(envelope.data.is_none());
}

#[test]
fn the_user_listing_envelope() {
    let users = vec![User { id: 1, name: "A".to_string(), email: "a@x.com".to_string() }];
    let ok = users_response(Ok(users.clone()));
    assert_eq!(ok.status, "success");
    assert_eq!(ok.message, "user list retrieved");
    assert_eq!(ok.data, Some(users));
    let err = users_response(Err(AuthError::StorageUnavailable));
    assert_eq!(err.status, "error");
    assert_eq!(err.message, "storage unavailable");
    assert!(err.data.is_none());
}

#[test]
fn a_token_from_one_login_still_works_for_a_second_request() {
    let mut store = Store::new();
    register(&mut store, "A", "a@x.com", "secret").unwrap();
    let resp: LoginResponse = login(KEY, store.find_by_email("a@x.com"), "secret").unwrap();
    let mut header = b"Bearer ".to_vec();
    header.extend_from_slice(resp.token.as_bytes());
    let first = authenticate(KEY, Some(&header)).unwrap();
    let second = authenticate(KEY, Some(&header)).unwrap();
    assert_eq!(first.0, second.0);
}

#[test]
fn hashing_failure_maps_to_an_internal_message() {
    // Hashing itself is exercised elsewhere; here only the envelope text.
    let envelope = register_response(Err(AuthError::HashingFailure));
    assert_eq!(envelope.status, "error");
    assert_eq!(envelope.message, "internal error");
    let _ = hash_password("x").unwrap();
}
