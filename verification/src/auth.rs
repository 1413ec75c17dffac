use vstd::prelude::*;
use vstd::string::StrSliceExecFns;

use crate::clock::current_timestamp;
use crate::errors::{AppError, ErrorKind};

verus! {

/// The decoded payload of a signed token: subject account id, role,
/// and expiry as seconds since the epoch.
#[derive(Debug)]
pub struct Claims {
    pub sub: i64,
    pub role: String,
    pub exp: usize,
}

/// The mathematical content of a claims set.
pub ghost struct ClaimsV {
    pub sub: int,
    pub role: Seq<char>,
    pub exp: int,
}

impl View for Claims {
    type V = ClaimsV;

    open spec fn view(&self) -> ClaimsV {
        ClaimsV { sub: self.sub as int, role: self.role@, exp: self.exp as int }
    }
}

/// Whether a password agrees with a stored bcrypt hash. bcrypt's check
/// re-derives the hash from the password and the salt and cost embedded
/// in the stored hash, so it is a function of the two arguments alone.
pub uninterp spec fn bcrypt_matches(password: Seq<char>, hash: Seq<char>) -> bool;

/// Whether a stored hash is structurally a bcrypt hash: the shape,
/// salt, and cost that bcrypt's check re-reads from it parse. The
/// check fails on exactly the strings outside this set, whatever the
/// password; every hash that bcrypt itself produced is inside it.
pub uninterp spec fn valid_bcrypt_hash(hash: Seq<char>) -> bool;

/// The token that signing a claims set with this library's fixed
/// symmetric secret produces.
pub uninterp spec fn signed_token(sub: int, role: Seq<char>, exp: int) -> Seq<char>;

/// The claims that decoding a token under the fixed secret yields,
/// when decoding succeeds at all.
pub uninterp spec fn token_claims(token: Seq<char>) -> ClaimsV;

/// Relies on `bcrypt::hash`: it salts randomly, so the hash itself is
/// named by no spec function, but what it returns is a well-formed
/// bcrypt hash that `bcrypt::verify` accepts, and checking the very
/// password that was hashed against it returns true.
#[verifier::external_body]
fn bcrypt_hash(password: &str) -> (r: Option<String>)
    ensures
        r matches Some(h) ==> bcrypt_matches(password@, h@) && valid_bcrypt_hash(h@),
{
    bcrypt::hash(password, bcrypt::DEFAULT_COST).ok()
}

/// Relies on `bcrypt::verify`: it recomputes the hash deterministically
/// from the password and the salt and cost it re-reads from the stored
/// hash, and errs on exactly the structurally invalid stored hashes,
/// whatever the password.
#[verifier::external_body]
fn bcrypt_check(password: &str, hash: &str) -> (r: Option<bool>)
    ensures
        r matches Some(b) ==> b == bcrypt_matches(password@, hash@),
        r is Some <==> valid_bcrypt_hash(hash@),
{
    bcrypt::verify(password, hash).ok()
}

/// Relies on `jsonwebtoken::encode` with HS256 and the fixed secret:
/// the token is a deterministic function of the claims, and decoding it
/// under the same secret yields those claims back.
#[verifier::external_body]
fn jwt_encode(claims: &Claims) -> (r: Option<String>)
    ensures
        r matches Some(t) ==> t@ == signed_token(claims.sub as int, claims.role@, claims.exp as int)
            && token_claims(t@) == claims@,
{
    let mut m = serde_json::Map::new();
    m.insert("sub".to_string(), serde_json::Value::from(claims.sub));
    m.insert("role".to_string(), serde_json::Value::from(claims.role.clone()));
    m.insert("exp".to_string(), serde_json::Value::from(claims.exp as u64));
    let key = jsonwebtoken::EncodingKey::from_secret("your-secret-key-change-in-production".as_ref());
    jsonwebtoken::encode(&jsonwebtoken::Header::default(), &serde_json::Value::Object(m), &key).ok()
}

/// Relies on `jsonwebtoken::decode` with HS256 and the fixed secret: it
/// verifies the signature and the expiry, and the claims it hands back
/// are a function of the token alone. Whether it succeeds also depends
/// on the current time, of which nothing is assumed.
#[verifier::external_body]
fn jwt_decode(token: &str) -> (r: Option<Claims>)
    ensures
        r matches Some(c) ==> c@ == token_claims(token@),
{
    let key = jsonwebtoken::DecodingKey::from_secret("your-secret-key-change-in-production".as_ref());
    let validation = jsonwebtoken::Validation::default();
    let data = jsonwebtoken::decode::<serde_json::Value>(token, &key, &validation).ok()?;
    let sub = data.claims.get("sub")?.as_i64()?;
    let role = data.claims.get("role")?.as_str()?.to_string();
    let exp = data.claims.get("exp")?.as_u64()?;
    if exp > usize::MAX as u64 {
        return None;
    }
    Some(Claims { sub, role, exp: exp as usize })
}

/// Hashes a password, rejecting one shorter than 6 characters before
/// any hashing work is done.
pub fn hash_password(password: &str) -> (r: Result<String, AppError>)
    ensures
        r matches Ok(h) ==> password@.len() >= 6 && bcrypt_matches(password@, h@)
            && valid_bcrypt_hash(h@),
        r matches Err(e) ==> (e.kind == ErrorKind::Validation <==> password@.len() < 6),
        r matches Err(e) ==> (e.kind == ErrorKind::Validation || e.kind == ErrorKind::Internal),
        password@.len() < 6 ==> r is Err,
{
    if password.unicode_len() < 6 {
        return Err(AppError {
            kind: ErrorKind::Validation,
            message: "Password must be at least 6 characters long".to_string(),
        });
    }
    match bcrypt_hash(password) {
        Some(h) => Ok(h),
        None => Err(AppError {
            kind: ErrorKind::Internal,
            message: "Failed to hash password".to_string(),
        }),
    }
}

/// Checks a password against a stored hash. A legitimate mismatch is
/// `Ok(false)`; the error case is exactly a structurally invalid
/// stored hash — in particular, a hash that `hash_password` produced
/// is always checkable.
pub fn verify_password(password: &str, hash: &str) -> (r: Result<bool, AppError>)
    ensures
        r matches Ok(b) ==> b == bcrypt_matches(password@, hash@),
        r is Err <==> !valid_bcrypt_hash(hash@),
        r matches Err(e) ==> e.kind == ErrorKind::Internal,
{
    match bcrypt_check(password, hash) {
        Some(b) => Ok(b),
        None => Err(AppError {
            kind: ErrorKind::Internal,
            message: "Failed to verify password".to_string(),
        }),
    }
}

/// The expiry of a token issued at a given moment: exactly 24 hours
/// later. This is the only window the service ever issues.
pub open spec fn token_expiry(issued_at: int) -> int {
    issued_at + 86400
}

/// The claims set issued at a given moment: the subject, the role,
/// and an expiry exactly 24 hours later. No other window exists.
pub fn build_claims(user_id: i64, role: &str, now: i64) -> (c: Claims)
    requires
        0 <= now,
        now + 86400 <= i64::MAX,
        now + 86400 <= usize::MAX,
    ensures
        c@.sub == user_id as int,
        c@.role == role@,
        c@.exp == token_expiry(now as int),
{
    let exp_secs = now + 86400;
    Claims { sub: user_id, role: role.to_owned(), exp: exp_secs as usize }
}

/// Issues a signed token whose claims carry the given subject and
/// role, and whose expiry lies exactly 24 hours past the issuance
/// moment (`build_claims` fixes that law); the issuance moment itself
/// comes from the clock, so the contract leaves it existential.
pub fn generate_token(user_id: i64, role: &str) -> (r: Result<String, AppError>)
    ensures
        r matches Ok(t) ==> exists|now: int|
            0 <= now && #[trigger] signed_token(user_id as int, role@, token_expiry(now)) == t@
                && token_claims(t@) == (ClaimsV {
                sub: user_id as int,
                role: role@,
                exp: token_expiry(now),
            }),
        r matches Err(e) ==> e.kind == ErrorKind::Internal,
{
    let now = current_timestamp();
    if now < 0 || now > i64::MAX - 86400 || (now as u64) > (usize::MAX as u64) - 86400 {
        return Err(AppError {
            kind: ErrorKind::Internal,
            message: "Failed to generate token".to_string(),
        });
    }
    let claims = build_claims(user_id, role, now);
    match jwt_encode(&claims) {
        Some(t) => Ok(t),
        None => Err(AppError {
            kind: ErrorKind::Internal,
            message: "Failed to generate token".to_string(),
        }),
    }
}

/// Decodes and checks a bearer token. Every structural, signature or
/// expiry failure collapses to the one authentication kind: the caller
/// never learns which it was.
pub fn verify_token(token: &str) -> (r: Result<Claims, AppError>)
    ensures
        r matches Ok(c) ==> c@ == token_claims(token@),
        r matches Err(e) ==> e.kind == ErrorKind::Authentication,
{
    match jwt_decode(token) {
        Some(c) => Ok(c),
        None => Err(AppError {
            kind: ErrorKind::Authentication,
            message: "Invalid token".to_string(),
        }),
    }
}

/// Issuing then verifying, as one law: whenever verification of a
/// token succeeds at all — which also depends on the clock, since the
/// expiry is checked against it — the claims handed back carry the
/// very subject, role and expiry the token was issued for.
/// `generate_token` establishes the premise for the token it returns,
/// and `verify_token` returns exactly `token_claims` of its argument.
pub proof fn lemma_token_round_trip(t: Seq<char>, sub: int, role: Seq<char>, exp: int)
    requires
        token_claims(t) == (ClaimsV { sub, role, exp }),
    ensures
        token_claims(t).sub == sub,
        token_claims(t).role == role,
        token_claims(t).exp == exp,
{
}

} // verus!
