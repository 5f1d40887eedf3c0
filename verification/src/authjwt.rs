//! The token authority: it issues a signed, time-limited credential to a
//! caller who knows the registration key, and verifies such credentials.

use crate::api::Status;
use crate::state::AppState;
use crate::tags::{trim_str, trimmed};
use vstd::prelude::*;
use vstd::string::StringExecFns;

verus! {

/// The issuer named in every credential.
pub const ISSUER: &'static str = "quote-server.example.com";

/// The number of seconds for which a credential is valid: 24 hours.
pub const TOKEN_LIFETIME: i64 = 86_400;

/// The token that `jsonwebtoken::encode` makes of the claims `iss`, `sub`
/// and `exp` with an HS512 header and the HMAC secret `secret`, or `None`
/// where it reports an error.
pub uninterp spec fn signed_token(secret: Seq<u8>, iss: Seq<char>, sub: Seq<char>, exp: int)
    -> Option<Seq<char>>;

/// The claims `iss`, `sub` and `exp` that `jsonwebtoken::decode` reads from
/// `token` once it has checked its HS512 signature against the HMAC secret
/// `secret`, or `None` where it rejects the token. Whether the token has
/// expired plays no part in it.
pub uninterp spec fn decoded_claims(secret: Seq<u8>, token: Seq<char>) -> Option<
    (Seq<char>, Seq<char>, int),
>;

/// The secret with which credentials are signed and verified. It is set once
/// and never changes.
pub struct JwtKeys {
    secret: Vec<u8>,
}

impl View for JwtKeys {
    type V = Seq<u8>;

    closed spec fn view(&self) -> Seq<u8> {
        self.secret@
    }
}

impl JwtKeys {
    /// The keys for the secret `secret`.
    pub fn new(secret: &[u8]) -> (keys: Self)
        ensures
            keys@ == secret@,
    {
        JwtKeys { secret: vstd::slice::slice_to_vec(secret) }
    }
}

/// What a credential states: who issued it, to whom, and the time, in
/// seconds since the Unix epoch, from which on it is no longer valid.
#[derive(Clone, Debug)]
pub struct Claims {
    pub iss: String,
    pub sub: String,
    pub exp: i64,
}

/// What `Claims` holds, as plain values.
pub struct ClaimsView {
    pub iss: Seq<char>,
    pub sub: Seq<char>,
    pub exp: int,
}

impl View for Claims {
    type V = ClaimsView;

    open spec fn view(&self) -> ClaimsView {
        ClaimsView { iss: self.iss@, sub: self.sub@, exp: self.exp as int }
    }
}

/// The answer to a successful registration: the signed credential and how
/// to present it.
#[derive(Debug)]
pub struct AuthBody {
    access_token: String,
    token_type: String,
}

/// What an `AuthBody` holds, as character sequences.
pub struct AuthBodyView {
    pub access_token: Seq<char>,
    pub token_type: Seq<char>,
}

impl View for AuthBody {
    type V = AuthBodyView;

    closed spec fn view(&self) -> AuthBodyView {
        AuthBodyView { access_token: self.access_token@, token_type: self.token_type@ }
    }
}

impl AuthBody {
    /// The answer that hands out `access_token` as a bearer token.
    pub fn new(access_token: String) -> (body: Self)
        ensures
            body@.access_token == access_token@,
            body@.token_type == "Bearer"@,
    {
        AuthBody { access_token, token_type: "Bearer".to_owned() }
    }

    /// The signed credential.
    pub fn access_token(&self) -> (token: &String)
        ensures
            token@ == self@.access_token,
    {
        &self.access_token
    }

    /// The way to present the credential: `Bearer`.
    pub fn token_type(&self) -> (kind: &String)
        ensures
            kind@ == self@.token_type,
    {
        &self.token_type
    }
}

/// A request for a credential.
#[derive(Clone, Debug)]
pub struct Registration {
    pub full_name: String,
    pub email: String,
    pub password: String,
}

/// What a `Registration` holds, as character sequences.
pub struct RegistrationView {
    pub full_name: Seq<char>,
    pub email: Seq<char>,
    pub password: Seq<char>,
}

impl View for Registration {
    type V = RegistrationView;

    open spec fn view(&self) -> RegistrationView {
        RegistrationView {
            full_name: self.full_name@,
            email: self.email@,
            password: self.password@,
        }
    }
}

/// Why no credential was issued or accepted.
#[derive(Clone, Copy, Debug, PartialEq, Eq, Structural)]
pub enum AuthError {
    /// The credential is missing, forged, malformed or expired.
    InvalidToken,
    /// The credential could not be signed.
    TokenCreation,
    /// The password is not the registration key.
    InvalidRegistrationKey,
}

impl AuthError {
    /// The name of the failure.
    pub open spec fn spec_message(self) -> Seq<char> {
        match self {
            AuthError::InvalidToken => "Invalid token"@,
            AuthError::TokenCreation => "Internal error: Failed to create token"@,
            AuthError::InvalidRegistrationKey => "Invalid registration key"@,
        }
    }

    /// The name of the failure.
    pub fn message(&self) -> (text: &'static str)
        ensures
            text@ == self.spec_message(),
    {
        match self {
            AuthError::InvalidToken => "Invalid token",
            AuthError::TokenCreation => "Internal error: Failed to create token",
            AuthError::InvalidRegistrationKey => "Invalid registration key",
        }
    }

    /// The status with which a request that failed in this way ends. A
    /// caller without a valid credential and one with the wrong registration
    /// key are both unauthorized.
    pub open spec fn spec_status(self) -> Status {
        match self {
            AuthError::InvalidToken => Status::Unauthorized,
            AuthError::TokenCreation => Status::InternalServerError,
            AuthError::InvalidRegistrationKey => Status::Unauthorized,
        }
    }

    /// What the caller is told about the failure.
    pub open spec fn spec_error_message(self) -> Seq<char> {
        match self {
            AuthError::InvalidToken => "Invalid authentication token."@,
            AuthError::TokenCreation => "Internal error creating token."@,
            AuthError::InvalidRegistrationKey => "Invalid registration key provided."@,
        }
    }

    /// The status with which a request that failed in this way ends, and
    /// what the caller is told.
    pub fn into_response(self) -> (r: (Status, &'static str))
        ensures
            r.0 == self.spec_status(),
            r.1@ == self.spec_error_message(),
    {
        match self {
            AuthError::InvalidToken => (Status::Unauthorized, "Invalid authentication token."),
            AuthError::TokenCreation => (
                Status::InternalServerError,
                "Internal error creating token.",
            ),
            AuthError::InvalidRegistrationKey => (
                Status::Unauthorized,
                "Invalid registration key provided.",
            ),
        }
    }
}

/// The name of the environment variable that may hold the path of the secret
/// file.
pub const SECRET_FILE_VARIABLE: &'static str = "JWT_SECRETFILE";

/// The path of the secret file where the environment names none.
pub const DEFAULT_SECRET_FILE: &'static str = "secrets/jwt_secret.txt";

/// The path of the secret file: the one that the environment names, else
/// the default.
pub fn secret_file_path(env_value: Option<String>, default_path: &str) -> (path: String)
    ensures
        path@ == match env_value {
            Some(p) => p@,
            None => default_path@,
        },
{
    match env_value {
        Some(path) => path,
        None => default_path.to_owned(),
    }
}

/// The secret that a secret file with the contents `contents` holds: its
/// contents without the white space around them.
pub fn secret_from_text(contents: &str) -> (secret: String)
    ensures
        secret@ == trimmed(contents@),
{
    trim_str(contents).to_owned()
}

/// The keys for the secret that a secret file with the contents `contents`
/// holds: the secret is the UTF-8 encoding of the trimmed contents.
pub fn make_jwt_keys(contents: &str) -> (keys: JwtKeys)
    ensures
        keys@ == vstd::utf8::encode_utf8(trimmed(contents@)),
{
    let secret = secret_from_text(contents);
    JwtKeys::new(secret.as_str().as_bytes())
}

/// The subject of the credential issued to a registrant: the name, then the
/// e-mail address in angle brackets.
pub open spec fn subject_of(full_name: Seq<char>, email: Seq<char>) -> Seq<char> {
    full_name + seq![' ', '<'] + email + seq!['>']
}

/// The subject of the credential issued to a registrant.
pub fn subject_for(full_name: &str, email: &str) -> (sub: String)
    ensures
        sub@ == subject_of(full_name@, email@),
{
    proof {
        reveal_strlit(" <");
        reveal_strlit(">");
    }
    let mut sub = full_name.to_owned();
    sub.append(" <");
    sub.append(email);
    sub.append(">");
    assert(" <"@ =~= seq![' ', '<']);
    assert(">"@ =~= seq!['>']);
    sub
}

/// Calls `jsonwebtoken::encode` with an HS512 header, the three claims and
/// the key that `EncodingKey::from_secret` makes of `secret`. Trusted: the
/// result depends on the arguments alone; nothing is claimed of what the
/// token looks like, nor that signing succeeds.
#[verifier::external_body]
fn encode_claims(secret: &[u8], iss: &str, sub: &str, exp: i64) -> (token: Option<String>)
    ensures
        match token {
            Some(t) => signed_token(secret@, iss@, sub@, exp as int) == Some(t@),
            None => signed_token(secret@, iss@, sub@, exp as int) is None,
        },
{
    let mut claims = serde_json::Map::new();
    claims.insert("iss".to_owned(), serde_json::Value::from(iss));
    claims.insert("sub".to_owned(), serde_json::Value::from(sub));
    claims.insert("exp".to_owned(), serde_json::Value::from(exp));
    let header = jsonwebtoken::Header::new(jsonwebtoken::Algorithm::HS512);
    let key = jsonwebtoken::EncodingKey::from_secret(secret);
    jsonwebtoken::encode(&header, &serde_json::Value::Object(claims), &key).ok()
}

/// Calls `jsonwebtoken::decode` with the key that `DecodingKey::from_secret`
/// makes of `secret` and a validation that admits HS512 only and leaves the
/// expiry to the caller. Trusted: the result depends on the arguments alone;
/// nothing is claimed of which tokens are accepted.
#[verifier::external_body]
fn decode_claims(secret: &[u8], token: &str) -> (claims: Option<Claims>)
    ensures
        match claims {
            Some(c) => decoded_claims(secret@, token@) == Some((c.iss@, c.sub@, c.exp as int)),
            None => decoded_claims(secret@, token@) is None,
        },
{
    let mut validation = jsonwebtoken::Validation::new(jsonwebtoken::Algorithm::HS512);
    validation.validate_exp = false;
    let key = jsonwebtoken::DecodingKey::from_secret(secret);
    let data = jsonwebtoken::decode::<serde_json::Value>(token, &key, &validation).ok()?;
    let iss = data.claims.get("iss")?.as_str()?.to_owned();
    let sub = data.claims.get("sub")?.as_str()?.to_owned();
    let exp = data.claims.get("exp")?.as_i64()?;
    Some(Claims { iss, sub, exp })
}

/// Calls `chrono::Utc::now` and `DateTime::timestamp`: the current time in
/// seconds since the Unix epoch. Nothing is claimed of it. Like
/// `chrono::Utc::now` it panics where the system clock stands before 1970.
#[verifier::external_body]
fn unix_now() -> i64 {
    chrono::Utc::now().timestamp()
}

/// The claims of the credential issued at the time `now` to a registrant, or
/// `None` where its expiry is beyond the range of the clock.
pub open spec fn claims_issued(full_name: Seq<char>, email: Seq<char>, now: int) -> Option<
    ClaimsView,
> {
    if now + TOKEN_LIFETIME <= i64::MAX {
        Some(
            ClaimsView {
                iss: ISSUER@,
                sub: subject_of(full_name, email),
                exp: now + TOKEN_LIFETIME,
            },
        )
    } else {
        None
    }
}

impl Claims {
    /// The claims of the credential issued at the time `now` to `registration`:
    /// it expires 24 hours later.
    pub fn issued_to(registration: &Registration, now: i64) -> (claims: Option<Claims>)
        ensures
            match claims {
                Some(c) => claims_issued(registration.full_name@, registration.email@, now as int)
                    == Some(c@),
                None => claims_issued(registration.full_name@, registration.email@, now as int)
                    is None,
            },
    {
        if now > i64::MAX - TOKEN_LIFETIME {
            return None;
        }
        Some(
            Claims {
                iss: ISSUER.to_owned(),
                sub: subject_for(registration.full_name.as_str(), registration.email.as_str()),
                exp: now + TOKEN_LIFETIME,
            },
        )
    }
}

/// The answer to a registration, as plain values.
pub open spec fn answer_view(r: Result<AuthBody, AuthError>) -> Result<AuthBodyView, AuthError> {
    match r {
        Ok(body) => Ok(body@),
        Err(e) => Err(e),
    }
}

/// The result of a verification, as plain values.
pub open spec fn claims_view(r: Result<Claims, AuthError>) -> Result<ClaimsView, AuthError> {
    match r {
        Ok(claims) => Ok(claims@),
        Err(e) => Err(e),
    }
}

/// What a registration yields once its password was found to be the
/// registration key, given what signing the claims gave: the bearer token,
/// or `TokenCreation` where there is none.
pub open spec fn registration_answer(signed: Option<Seq<char>>) -> Result<AuthBodyView, AuthError> {
    match signed {
        Some(token) => Ok(AuthBodyView { access_token: token, token_type: "Bearer"@ }),
        None => Err(AuthError::TokenCreation),
    }
}

/// What a registration at the time `now` yields: `InvalidRegistrationKey`
/// where the password is not the registration key `reg_key`; else the
/// signed credential that expires 24 hours after `now`; `TokenCreation`
/// where that credential could not be made.
pub open spec fn issue_answer(
    reg_key: Seq<char>,
    secret: Seq<u8>,
    registration: RegistrationView,
    now: int,
) -> Result<AuthBodyView, AuthError> {
    if registration.password != reg_key {
        Err(AuthError::InvalidRegistrationKey)
    } else {
        match claims_issued(registration.full_name, registration.email, now) {
            Some(c) => registration_answer(signed_token(secret, c.iss, c.sub, c.exp)),
            None => Err(AuthError::TokenCreation),
        }
    }
}

/// Wraps what signing gave into the answer to a registration.
pub fn finish_registration(signed: Option<String>) -> (r: Result<AuthBody, AuthError>)
    ensures
        answer_view(r) == registration_answer(
            match signed {
                Some(t) => Some(t@),
                None => None,
            },
        ),
{
    match signed {
        Some(token) => Ok(AuthBody::new(token)),
        None => Err(AuthError::TokenCreation),
    }
}

/// Registers at the time `now`: checks the password against the registration
/// key `reg_key`, and issues a credential signed with `keys` that expires 24
/// hours after `now`.
pub fn issue_at(reg_key: &String, keys: &JwtKeys, registration: &Registration, now: i64) -> (r:
    Result<AuthBody, AuthError>)
    ensures
        answer_view(r) == issue_answer(reg_key@, keys@, registration@, now as int),
{
    if !(registration.password == *reg_key) {
        return Err(AuthError::InvalidRegistrationKey);
    }
    match Claims::issued_to(registration, now) {
        Some(claims) => {
            let signed = encode_claims(
                keys.secret.as_slice(),
                claims.iss.as_str(),
                claims.sub.as_str(),
                claims.exp,
            );
            finish_registration(signed)
        },
        None => Err(AuthError::TokenCreation),
    }
}

/// Registers now: `issue_at` at the time that the clock shows.
pub fn issue(reg_key: &String, keys: &JwtKeys, registration: &Registration) -> (r: Result<
    AuthBody,
    AuthError,
>)
    ensures
        exists|now: int| answer_view(r) == #[trigger] issue_answer(
            reg_key@,
            keys@,
            registration@,
            now,
        ),
        registration.password@ != reg_key@ <==> r matches Err(AuthError::InvalidRegistrationKey),
{
    let now = unix_now();
    let r = issue_at(reg_key, keys, registration, now);
    assert(answer_view(r) == issue_answer(reg_key@, keys@, registration@, now as int));
    r
}

/// Registers with the service now: a credential for who knows its
/// registration key.
pub fn register_and_create_token(app_state: &AppState, registration: &Registration) -> (r: Result<
    AuthBody,
    AuthError,
>)
    ensures
        exists|now: int| answer_view(r) == #[trigger] issue_answer(
            app_state.reg_key@,
            app_state.jwt_keys@,
            registration@,
            now,
        ),
        registration.password@ != app_state.reg_key@ <==> r matches Err(
            AuthError::InvalidRegistrationKey,
        ),
{
    issue(&app_state.reg_key, &app_state.jwt_keys, registration)
}

/// What verifying at the time `now` yields, given what decoding the token
/// gave: the claims where the token was accepted and `now` is before their
/// expiry, and `InvalidToken` in every other case.
pub open spec fn verdict(decoded: Option<ClaimsView>, now: int) -> Result<ClaimsView, AuthError> {
    match decoded {
        Some(c) => if now < c.exp {
            Ok(c)
        } else {
            Err(AuthError::InvalidToken)
        },
        None => Err(AuthError::InvalidToken),
    }
}

/// What decoding `token` under `secret` gives.
pub open spec fn claims_of(secret: Seq<u8>, token: Seq<char>) -> Option<ClaimsView> {
    match decoded_claims(secret, token) {
        Some((iss, sub, exp)) => Some(ClaimsView { iss, sub, exp }),
        None => None,
    }
}

/// Decides on decoded claims at the time `now`: they stand while `now` is
/// before their expiry.
pub fn check_claims(decoded: Option<Claims>, now: i64) -> (r: Result<Claims, AuthError>)
    ensures
        claims_view(r) == verdict(
            match decoded {
                Some(c) => Some(c@),
                None => None,
            },
            now as int,
        ),
{
    match decoded {
        Some(claims) => {
            if now < claims.exp {
                Ok(claims)
            } else {
                Err(AuthError::InvalidToken)
            }
        },
        None => Err(AuthError::InvalidToken),
    }
}

/// Verifies a credential at the time `now`: its signature must be valid
/// under `keys`, and `now` must be before its expiry. Every failure is
/// `InvalidToken`.
pub fn verify_at(keys: &JwtKeys, token: &str, now: i64) -> (r: Result<Claims, AuthError>)
    ensures
        claims_view(r) == verdict(claims_of(keys@, token@), now as int),
{
    check_claims(decode_claims(keys.secret.as_slice(), token), now)
}

/// Verifies a credential now: `verify_at` at the time that the clock shows.
pub fn verify(keys: &JwtKeys, token: &str) -> (r: Result<Claims, AuthError>)
    ensures
        exists|now: int| claims_view(r) == #[trigger] verdict(claims_of(keys@, token@), now),
        r matches Err(e) ==> e == AuthError::InvalidToken,
        r matches Ok(c) ==> claims_of(keys@, token@) == Some(c@),
{
    let now = unix_now();
    let r = verify_at(keys, token, now);
    assert(claims_view(r) == verdict(claims_of(keys@, token@), now as int));
    r
}

/// What a request that presents `bearer` is granted at the time `now`: a
/// request without a credential is turned away like one with a bad
/// credential.
pub open spec fn grant(secret: Seq<u8>, bearer: Option<Seq<char>>, now: int) -> Result<
    ClaimsView,
    AuthError,
> {
    match bearer {
        Some(token) => verdict(claims_of(secret, token), now),
        None => Err(AuthError::InvalidToken),
    }
}

/// The characters of the credential that a request presents, if any.
pub open spec fn bearer_view(bearer: Option<&str>) -> Option<Seq<char>> {
    match bearer {
        Some(token) => Some(token@),
        None => None,
    }
}

impl Claims {
    /// The claims of the credential that a request presents, if it is valid
    /// at the time `now`.
    pub fn from_request_parts(keys: &JwtKeys, bearer: Option<&str>, now: i64) -> (r: Result<
        Claims,
        AuthError,
    >)
        ensures
            claims_view(r) == grant(keys@, bearer_view(bearer), now as int),
    {
        match bearer {
            Some(token) => verify_at(keys, token, now),
            None => Err(AuthError::InvalidToken),
        }
    }
}

/// Judges now the credential that a request presents: `from_request_parts`
/// at the time that the clock shows.
pub fn authorize(keys: &JwtKeys, bearer: Option<&str>) -> (r: Result<Claims, AuthError>)
    ensures
        exists|now: int| claims_view(r) == #[trigger] grant(keys@, bearer_view(bearer), now),
        r matches Err(e) ==> e == AuthError::InvalidToken,
        bearer is None ==> r is Err,
{
    let now = unix_now();
    let r = Claims::from_request_parts(keys, bearer, now);
    assert(claims_view(r) == grant(keys@, bearer_view(bearer), now as int));
    r
}

/// A credential is valid from the moment it is issued until it expires,
/// provided that decoding it gives back the claims that were signed.
pub proof fn lemma_fresh_credential_is_accepted(
    full_name: Seq<char>,
    email: Seq<char>,
    issued_at: int,
    decoded: Option<ClaimsView>,
    now: int,
)
    requires
        decoded is Some,
        decoded == claims_issued(full_name, email, issued_at),
        issued_at <= now < issued_at + TOKEN_LIFETIME,
    ensures
        verdict(decoded, now) == Ok::<ClaimsView, AuthError>(decoded->Some_0),
        decoded->Some_0.sub == subject_of(full_name, email),
        decoded->Some_0.iss == ISSUER@,
{
}

/// A credential is rejected as `InvalidToken` from its expiry on.
pub proof fn lemma_expired_credential_is_rejected(decoded: Option<ClaimsView>, now: int)
    requires
        decoded matches Some(c) ==> c.exp <= now,
    ensures
        verdict(decoded, now) == Err::<ClaimsView, AuthError>(AuthError::InvalidToken),
{
}

} // verus!
