use vstd::prelude::*;

verus! {

/// What bcrypt's verifier says for a password / stored-hash pair. The outcome
/// is a function of the two arguments alone: the salt and the cost are read
/// back out of the stored hash.
pub uninterp spec fn password_matches(password: Seq<char>, hash: Seq<char>) -> bool;

/// The token that HMAC-SHA256 signing produces for a secret and the claim set
/// `{sub, iat, exp}`; signing and the base64 text form are deterministic.
pub uninterp spec fn token_of(secret: Seq<char>, sub: Seq<char>, iat: int, exp: int) -> Seq<char>;

/// The claim set that token decoding recovers, or `None` when the token is
/// malformed, carries the wrong algorithm, fails the signature check under
/// the secret, or lacks one of the three claims.
pub uninterp spec fn claims_of(secret: Seq<char>, token: Seq<char>) -> Option<TokenClaimsView>;

/// The claims carried by a bearer token: subject, issued-at and expiry
/// (both in whole seconds).
pub struct TokenClaims {
    pub sub: String,
    pub iat: i64,
    pub exp: i64,
}

pub ghost struct TokenClaimsView {
    pub sub: Seq<char>,
    pub iat: int,
    pub exp: int,
}

impl View for TokenClaims {
    type V = TokenClaimsView;

    open spec fn view(&self) -> TokenClaimsView {
        TokenClaimsView { sub: self.sub@, iat: self.iat as int, exp: self.exp as int }
    }
}

/// Relies on bcrypt::hash: the result is a salted hash that bcrypt::verify
/// accepts for the same password, since verify re-runs the hash with the salt
/// and cost embedded in it. `None` reports a hashing failure.
#[verifier::external_body]
pub(crate) fn hash_password(password: &str) -> (r: Option<String>)
    ensures
        r matches Some(h) ==> password_matches(password@, h@),
{
    bcrypt::hash(password, bcrypt::DEFAULT_COST).ok()
}

/// Relies on bcrypt::verify: re-hashes the password with the salt and cost
/// taken from the stored hash and compares. A malformed stored hash is
/// reported as a mismatch, as the caller treats both alike.
#[verifier::external_body]
pub(crate) fn check_password(password: &str, hash: &str) -> (r: bool)
    ensures
        r == password_matches(password@, hash@),
{
    match bcrypt::verify(password, hash) {
        Ok(v) => v,
        Err(_) => false,
    }
}

/// Relies on jsonwebtoken::encode with the default HS256 header and the
/// bundled HMAC-SHA256 signer: the claims and the header serialize
/// infallibly, the signer accepts secrets of every length and cannot fail,
/// so a token is always produced. The token is a deterministic function of
/// the secret and the claims, and jsonwebtoken::decode under the same secret
/// recovers exactly those claims. A failure to sign would be a programming
/// error and is fatal.
#[verifier::external_body]
pub(crate) fn token_encode(secret: &str, sub: &str, iat: i64, exp: i64) -> (r: String)
    ensures
        r@ == token_of(secret@, sub@, iat as int, exp as int),
        claims_of(secret@, r@) == Some(
            TokenClaimsView { sub: sub@, iat: iat as int, exp: exp as int },
        ),
{
    let mut claims = serde_json::Map::new();
    claims.insert("sub".to_owned(), serde_json::Value::String(sub.to_owned()));
    claims.insert("iat".to_owned(), serde_json::Value::from(iat));
    claims.insert("exp".to_owned(), serde_json::Value::from(exp));
    let key = jsonwebtoken::EncodingKey::from_secret(secret.as_bytes());
    jsonwebtoken::encode(&jsonwebtoken::Header::default(), &serde_json::Value::Object(claims), &key)
        .expect("signing with HMAC-SHA256 cannot fail")
}

/// Relies on jsonwebtoken::decode restricted to HS256, with its clock-based
/// expiry check turned off so that acceptance depends on the secret and the
/// token alone; the caller checks expiry against a time of its own choosing.
#[verifier::external_body]
pub(crate) fn token_decode(secret: &str, token: &str) -> (r: Option<TokenClaims>)
    ensures
        match r {
            Some(c) => claims_of(secret@, token@) == Some(c@),
            None => claims_of(secret@, token@) is None,
        },
{
    let key = jsonwebtoken::DecodingKey::from_secret(secret.as_bytes());
    let mut validation = jsonwebtoken::Validation::new(jsonwebtoken::Algorithm::HS256);
    validation.validate_exp = false;
    validation.required_spec_claims.clear();
    let data = jsonwebtoken::decode::<serde_json::Value>(token, &key, &validation).ok()?;
    let sub = data.claims.get("sub")?.as_str()?.to_owned();
    let iat = data.claims.get("iat")?.as_i64()?;
    let exp = data.claims.get("exp")?.as_i64()?;
    Some(TokenClaims { sub, iat, exp })
}

/// Relies on chrono::Utc::now: the current UTC time in whole seconds since
/// the epoch. Nothing is promised of the value.
#[verifier::external_body]
pub(crate) fn now_ts() -> i64 {
    chrono::Utc::now().timestamp()
}

/// Relies on uuid::Uuid::new_v4: a randomly generated identifier, written
/// after the given prefix and an underscore. Only the length relation is
/// promised; freshness is checked by callers.
#[verifier::external_body]
pub(crate) fn mint_id(prefix: &str) -> (r: String)
    ensures
        r@.len() > prefix@.len(),
{
    format!("{}_{}", prefix, uuid::Uuid::new_v4())
}

} // verus!
