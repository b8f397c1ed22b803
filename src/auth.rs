//! The login decision, token keys and the failures of authentication.

use vstd::prelude::*;

use jsonwebtoken::{DecodingKey, EncodingKey};

verus! {

/// jsonwebtoken's `EncodingKey`, carried as an opaque value.
#[verifier::external_type_specification]
#[verifier::external_body]
pub struct ExEncodingKey(EncodingKey);

/// jsonwebtoken's `DecodingKey`, carried as an opaque value.
#[verifier::external_type_specification]
#[verifier::external_body]
pub struct ExDecodingKey(DecodingKey);

/// Relies on jsonwebtoken's `EncodingKey::from_secret`, which copies the
/// secret into an HMAC signing key and does not fail.
pub assume_specification[ EncodingKey::from_secret ](secret: &[u8]) -> EncodingKey;

/// Relies on jsonwebtoken's `DecodingKey::from_secret`, which copies the
/// secret into an HMAC verification key and does not fail.
pub assume_specification[ DecodingKey::from_secret ](secret: &[u8]) -> DecodingKey;

/// The key pair that signs and verifies access tokens, made from one secret.
pub struct JwtKeys {
    encoding: EncodingKey,
    decoding: DecodingKey,
}

impl JwtKeys {
    pub fn new(secret: &[u8]) -> Self {
        JwtKeys {
            encoding: EncodingKey::from_secret(secret),
            decoding: DecodingKey::from_secret(secret),
        }
    }

    pub fn encoding(&self) -> &EncodingKey {
        &self.encoding
    }

    pub fn decoding(&self) -> &DecodingKey {
        &self.decoding
    }
}

/// Failures of the login flow and of token checks.
#[derive(Debug, Clone, Copy, PartialEq, Eq, Structural)]
pub enum AuthError {
    WrongCredentials,
    MissingCredentials,
    TokenCreation,
    InvalidToken,
}

pub open spec fn auth_status_of(e: AuthError) -> u16 {
    match e {
        AuthError::WrongCredentials => 401,
        AuthError::MissingCredentials => 400,
        AuthError::TokenCreation => 500,
        AuthError::InvalidToken => 400,
    }
}

pub open spec fn auth_message_of(e: AuthError) -> Seq<char> {
    match e {
        AuthError::WrongCredentials => "Wrong credentials"@,
        AuthError::MissingCredentials => "Missing credentials"@,
        AuthError::TokenCreation => "Token creation error"@,
        AuthError::InvalidToken => "Invalid token"@,
    }
}

impl AuthError {
    /// HTTP status of the response to a request failing with this error.
    pub fn status_code(&self) -> (r: u16)
        ensures
            r == auth_status_of(*self),
    {
        match self {
            AuthError::WrongCredentials => 401,
            AuthError::MissingCredentials => 400,
            AuthError::TokenCreation => 500,
            AuthError::InvalidToken => 400,
        }
    }

    /// The error text of the response to a request failing with this error.
    pub fn message(&self) -> (r: String)
        ensures
            r@ == auth_message_of(*self),
    {
        match self {
            AuthError::WrongCredentials => "Wrong credentials".to_owned(),
            AuthError::MissingCredentials => "Missing credentials".to_owned(),
            AuthError::TokenCreation => "Token creation error".to_owned(),
            AuthError::InvalidToken => "Invalid token".to_owned(),
        }
    }
}

/// The identity that an access token carries.
#[derive(Debug)]
pub struct Claims {
    pub full_name: String,
    pub email: String,
}

/// The body of a successful login response.
#[derive(Debug)]
pub struct AuthBody {
    pub access_token: String,
    pub token_type: String,
}

impl AuthBody {
    /// A bearer token response.
    pub fn new(access_token: String) -> (r: AuthBody)
        ensures
            r.access_token@ == access_token@,
            r.token_type@ == "Bearer"@,
    {
        AuthBody { access_token, token_type: "Bearer".to_owned() }
    }
}

/// The credentials that a login request presents.
#[derive(Debug)]
pub struct AuthPayload {
    pub client_id: String,
    pub client_secret: String,
}

/// A stored login record.
#[derive(Debug)]
pub struct PwUser {
    pub client_id: String,
    pub client_secret: String,
    pub full_name: String,
    pub email: String,
}

/// Checks a login request against the stored record for its client
/// identifier, if there is one, and yields the identity for the token.
pub fn login(payload: &AuthPayload, user: Option<&PwUser>) -> (r: Result<Claims, AuthError>)
    ensures
        payload.client_id@.len() == 0 || payload.client_secret@.len() == 0 ==> r == Err::<
            Claims,
            AuthError,
        >(AuthError::MissingCredentials),
        r is Ok <==> payload.client_id@.len() > 0 && payload.client_secret@.len() > 0 && match user {
            Some(u) => u.client_id@ == payload.client_id@ && u.client_secret@
                == payload.client_secret@,
            None => false,
        },
        payload.client_id@.len() > 0 && payload.client_secret@.len() > 0 && r is Err ==> r == Err::<
            Claims,
            AuthError,
        >(AuthError::WrongCredentials),
        r matches Ok(c) ==> user matches Some(u) && c.full_name@ == u.full_name@ && c.email@
            == u.email@,
{
    if payload.client_id.as_str().is_empty() || payload.client_secret.as_str().is_empty() {
        return Err(AuthError::MissingCredentials);
    }
    match user {
        None => Err(AuthError::WrongCredentials),
        Some(u) => {
            if payload.client_id != u.client_id || payload.client_secret != u.client_secret {
                return Err(AuthError::WrongCredentials);
            }
            Ok(Claims { full_name: u.full_name.clone(), email: u.email.clone() })
        },
    }
}

} // verus!
