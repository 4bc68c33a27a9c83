//! The token authority: it issues signed identity tokens and verifies the ones that
//! callers present. A token is proof of identity for as long as its signature holds;
//! it carries no expiry and nothing about it is stored.

use crate::settings::Auth;
use jsonwebtoken::{DecodingKey, EncodingKey, Header, Validation};
use serde_json::Value;
use std::str::FromStr;
use vstd::prelude::*;
use vstd::utf8::encode_utf8;

verus! {

/// The identity that a verified token proves.
#[derive(Debug)]
pub struct Token {
    user_id: String,
    is_admin: bool,
}

/// The mathematical value of a [`Token`].
pub struct TokenView {
    pub user_id: Seq<char>,
    pub is_admin: bool,
}

impl View for Token {
    type V = TokenView;

    closed spec fn view(&self) -> TokenView {
        TokenView { user_id: self.user_id@, is_admin: self.is_admin }
    }
}

impl Clone for Token {
    fn clone(&self) -> (copy: Token)
        ensures
            copy@ == self@,
    {
        Token { user_id: self.user_id.clone(), is_admin: self.is_admin }
    }
}

/// Why no identity was established.
#[derive(Debug, Clone, Copy, PartialEq, Eq)]
pub enum TokenError {
    /// No token was presented.
    Missing,
    /// The token's signature, algorithm or structure did not pass.
    Invalid,
}

/// What a claim of a token holds, as far as this library reads claims.
#[derive(Debug)]
pub enum ClaimValue {
    /// A string.
    Text(String),
    /// A boolean.
    Flag(bool),
    /// Anything else; written into a token as `null`.
    Other,
}

/// One named claim of a token.
#[derive(Debug)]
pub struct Claim {
    pub name: String,
    pub value: ClaimValue,
}

/// The mathematical value of a [`ClaimValue`].
pub enum ClaimValueView {
    Text(Seq<char>),
    Flag(bool),
    Other,
}

/// The mathematical value of a [`Claim`].
pub struct ClaimView {
    pub name: Seq<char>,
    pub value: ClaimValueView,
}

impl View for ClaimValue {
    type V = ClaimValueView;

    open spec fn view(&self) -> ClaimValueView {
        match self {
            ClaimValue::Text(text) => ClaimValueView::Text(text@),
            ClaimValue::Flag(flag) => ClaimValueView::Flag(*flag),
            ClaimValue::Other => ClaimValueView::Other,
        }
    }
}

impl View for Claim {
    type V = ClaimView;

    open spec fn view(&self) -> ClaimView {
        ClaimView { name: self.name@, value: self.value@ }
    }
}

/// The mathematical values of `claims`, in the same order.
pub open spec fn claims_of(claims: Seq<Claim>) -> Seq<ClaimView> {
    claims.map_values(|claim: Claim| claim@)
}

/// The value of the first claim of `claims` that is named `name`.
pub open spec fn claim_named(claims: Seq<ClaimView>, name: Seq<char>) -> Option<ClaimValueView>
    decreases claims.len(),
{
    if claims.len() == 0 {
        None
    } else if claims[0].name == name {
        Some(claims[0].value)
    } else {
        claim_named(claims.drop_first(), name)
    }
}

/// The claims that carry the identity of `user_id`.
pub open spec fn identity_claims(user_id: Seq<char>, is_admin: bool) -> Seq<ClaimView> {
    seq![
        ClaimView { name: "user_id"@, value: ClaimValueView::Text(user_id) },
        ClaimView { name: "is_admin"@, value: ClaimValueView::Flag(is_admin) },
    ]
}

/// The identity that `claims` carry: they must name a user by a string and say by a
/// boolean whether that user is an administrator.
pub open spec fn identity_of(claims: Seq<ClaimView>) -> Option<TokenView> {
    match (claim_named(claims, "user_id"@), claim_named(claims, "is_admin"@)) {
        (Some(ClaimValueView::Text(user_id)), Some(ClaimValueView::Flag(is_admin))) => Some(
            TokenView { user_id, is_admin },
        ),
        _ => None,
    }
}

/// The token that `jsonwebtoken::encode` makes of `claims` under `secret` and the
/// algorithm named `algorithm`, or `None` where it reports an error.
pub uninterp spec fn signed_claims(
    claims: Seq<ClaimView>,
    secret: Seq<u8>,
    algorithm: Seq<char>,
) -> Option<Seq<char>>;

/// The claims that `jsonwebtoken::decode` hands out for `raw` under `secret`, with
/// the algorithm named `algorithm` as the one algorithm allowed and no claim required
/// or checked, or `None` where it reports an error.
pub uninterp spec fn verified_claims(
    raw: Seq<char>,
    secret: Seq<u8>,
    algorithm: Seq<char>,
) -> Option<Seq<ClaimView>>;

/// Whether `presented` is `genuine` with another signature: the two agree up to and
/// including their last full stop, and differ after it.
pub open spec fn signature_altered(genuine: Seq<char>, presented: Seq<char>) -> bool {
    exists|dot: int|
        {
            &&& 0 <= dot < genuine.len()
            &&& dot < presented.len()
            &&& #[trigger] genuine[dot] == '.'
            &&& genuine.subrange(0, dot + 1) == presented.subrange(0, dot + 1)
            &&& forall|i: int| dot < i < genuine.len() ==> genuine[i] != '.'
            &&& forall|i: int| dot < i < presented.len() ==> presented[i] != '.'
            &&& genuine != presented
        }
}

/// Whether `signed` is a token and `presented` is that token with another signature.
pub open spec fn issued_and_altered(signed: Option<Seq<char>>, presented: Seq<char>) -> bool {
    match signed {
        Some(genuine) => signature_altered(genuine, presented),
        None => false,
    }
}

/// An error of `jsonwebtoken`; nothing is read from it.
#[verifier::external_type_specification]
#[verifier::external_body]
pub struct ExJwtError(jsonwebtoken::errors::Error);

/// Calls `jsonwebtoken::encode` with a header for the algorithm that
/// `jsonwebtoken::Algorithm::from_str` reads from `algorithm`, the claims as a JSON
/// object and `secret` as the HMAC key. The token depends on these three alone and is
/// named here, not computed; a name that `from_str` does not know is an error.
#[verifier::external_body]
fn encode_claims(claims: &Vec<Claim>, secret: &[u8], algorithm: &str) -> (r: Result<
    String,
    jsonwebtoken::errors::Error,
>)
    ensures
        match r {
            Ok(token) => signed_claims(claims_of(claims@), secret@, algorithm@) == Some(token@),
            Err(_) => signed_claims(claims_of(claims@), secret@, algorithm@) is None,
        },
{
    let header = Header::new(jsonwebtoken::Algorithm::from_str(algorithm)?);
    let mut object = serde_json::Map::new();
    for claim in claims.iter() {
        let value = match &claim.value {
            ClaimValue::Text(text) => Value::String(text.clone()),
            ClaimValue::Flag(flag) => Value::Bool(*flag),
            ClaimValue::Other => Value::Null,
        };
        object.insert(claim.name.clone(), value);
    }
    jsonwebtoken::encode(&header, &object, &EncodingKey::from_secret(secret))
}

/// Calls `jsonwebtoken::decode` with `secret` as the HMAC key and a validation that
/// allows the algorithm that `jsonwebtoken::Algorithm::from_str` reads from
/// `algorithm`, and no other, and neither requires nor checks any claim; and hands out
/// the claims of the JSON object that it returns.
///
/// The result depends on the three arguments alone and is named. Three more facts are
/// taken from the source of `encode` and `decode`. What `encode` made of an identity
/// under the same secret and algorithm decodes to claims that carry that identity.
/// `decode` splits a token at its last full stop and compares what follows with the
/// signature that it computes afresh over what precedes: so a token that `encode`
/// made, with anything else after that full stop, is refused. And `decode` refuses a
/// token whose header declares an algorithm that the validation does not allow, before
/// it looks at the signature: so a token that `encode` made under an algorithm of
/// another name is refused, whatever the key. The crate's own tests `round_trip_claim`,
/// `decode_token_invalid_signature` and `decode_token_wrong_algorithm` show one case of
/// each.
#[verifier::external_body]
fn decode_claims(raw: &str, secret: &[u8], algorithm: &str) -> (r: Result<
    Vec<Claim>,
    jsonwebtoken::errors::Error,
>)
    ensures
        match r {
            Ok(claims) => verified_claims(raw@, secret@, algorithm@) == Some(claims_of(claims@)),
            Err(_) => verified_claims(raw@, secret@, algorithm@) is None,
        },
        forall|user_id: Seq<char>, is_admin: bool| #[trigger]
            signed_claims(identity_claims(user_id, is_admin), secret@, algorithm@) == Some(raw@)
                ==> r is Ok && identity_of(claims_of(r.unwrap()@)) == Some(
                TokenView { user_id, is_admin },
            ),
        forall|claims: Seq<ClaimView>|
            issued_and_altered(#[trigger] signed_claims(claims, secret@, algorithm@), raw@)
                ==> r is Err,
        forall|claims: Seq<ClaimView>, key: Seq<u8>, other: Seq<char>|
            other != algorithm@ && #[trigger] signed_claims(claims, key, other) == Some(raw@)
                ==> r is Err,
{
    let mut validation = Validation::new(jsonwebtoken::Algorithm::from_str(algorithm)?);
    validation.validate_exp = false;
    validation.validate_aud = false;
    validation.required_spec_claims.clear();
    let key = DecodingKey::from_secret(secret);
    let object = jsonwebtoken::decode::<serde_json::Map<String, Value>>(raw, &key, &validation)?;
    let claim = |(name, value)| match value {
        Value::String(text) => Claim { name, value: ClaimValue::Text(text) },
        Value::Bool(flag) => Claim { name, value: ClaimValue::Flag(flag) },
        _ => Claim { name, value: ClaimValue::Other },
    };
    Ok(object.claims.into_iter().map(claim).collect())
}

/// The token that `auth` issues for an identity, where signing succeeds.
pub open spec fn issued(auth: Auth, user_id: Seq<char>, is_admin: bool) -> Option<Seq<char>> {
    signed_claims(
        identity_claims(user_id, is_admin),
        encode_utf8(auth.secret@),
        auth.algorithm.spec_name(),
    )
}

/// What follows from the claims that a presented token decoded to: the identity they
/// carry, or the refusal where the token did not decode or carries none.
pub open spec fn identity_or_refusal(decoded: Option<Seq<ClaimView>>) -> Result<
    TokenView,
    TokenError,
> {
    match decoded {
        None => Err(TokenError::Invalid),
        Some(claims) => match identity_of(claims) {
            Some(identity) => Ok(identity),
            None => Err(TokenError::Invalid),
        },
    }
}

/// What `auth` answers to what a caller presented.
pub open spec fn verification(auth: Auth, presented: Option<Seq<char>>) -> Result<
    TokenView,
    TokenError,
> {
    match presented {
        None => Err(TokenError::Missing),
        Some(raw) => identity_or_refusal(
            verified_claims(raw, encode_utf8(auth.secret@), auth.algorithm.spec_name()),
        ),
    }
}

/// The mathematical value of an answer of the token authority.
pub open spec fn outcome(r: Result<Token, TokenError>) -> Result<TokenView, TokenError> {
    match r {
        Ok(token) => Ok(token@),
        Err(refusal) => Err(refusal),
    }
}

/// The identity that an answer holds, if it holds one.
pub open spec fn identity_in(r: Option<Token>) -> Option<TokenView> {
    match r {
        Some(token) => Some(token@),
        None => None,
    }
}

/// The first claim of `claims` that is named `name`.
fn find_claim<'a>(claims: &'a Vec<Claim>, name: &str) -> (found: Option<&'a ClaimValue>)
    ensures
        match found {
            Some(value) => claim_named(claims_of(claims@), name@) == Some(value@),
            None => claim_named(claims_of(claims@), name@) is None,
        },
{
    let ghost all = claims_of(claims@);
    let mut i: usize = 0;
    assert(all.subrange(0, all.len() as int) =~= all);
    while i < claims.len()
        invariant
            i <= claims.len(),
            all == claims_of(claims@),
            claim_named(all, name@) == claim_named(all.subrange(i as int, all.len() as int), name@),
        decreases claims.len() - i,
    {
        let ghost rest = all.subrange(i as int, all.len() as int);
        if *claims[i].name.as_str() == *name {
            return Some(&claims[i].value);
        }
        assert(rest.drop_first() =~= all.subrange(i + 1, all.len() as int));
        i += 1;
    }
    None
}

impl Token {
    /// The identity that `claims` carry, if they carry one.
    pub fn from_claims(claims: &Vec<Claim>) -> (r: Option<Token>)
        ensures
            match r {
                Some(token) => identity_of(claims_of(claims@)) == Some(token@),
                None => identity_of(claims_of(claims@)) is None,
            },
    {
        let user_id = match find_claim(claims, "user_id") {
            Some(ClaimValue::Text(text)) => text.clone(),
            _ => { return None; },
        };
        match find_claim(claims, "is_admin") {
            Some(ClaimValue::Flag(flag)) => Some(Token { user_id, is_admin: *flag }),
            _ => None,
        }
    }

    /// The user that the token names.
    pub fn user_id(&self) -> (user_id: &str)
        ensures
            user_id@ == self@.user_id,
    {
        self.user_id.as_str()
    }

    /// Whether the user is an administrator.
    pub fn is_admin(&self) -> (is_admin: bool)
        ensures
            is_admin == self@.is_admin,
    {
        self.is_admin
    }
}

/// Why a login was refused.
#[derive(Debug, Clone, Copy, PartialEq, Eq)]
pub enum LoginError {
    /// The name or the key is not the administrator's.
    InvalidCredentials,
    /// The token could not be signed.
    SigningFailed,
}

/// Signs a token for the identity `user_id`, with `auth`'s secret under `auth`'s
/// algorithm. Returns `None` where signing fails.
pub fn issue(auth: &Auth, user_id: &str, is_admin: bool) -> (token: Option<String>)
    ensures
        match token {
            Some(text) => issued(*auth, user_id@, is_admin) == Some(text@),
            None => issued(*auth, user_id@, is_admin) is None,
        },
{
    let mut claims: Vec<Claim> = Vec::new();
    claims.push(Claim { name: "user_id".to_owned(), value: ClaimValue::Text(user_id.to_owned()) });
    claims.push(Claim { name: "is_admin".to_owned(), value: ClaimValue::Flag(is_admin) });
    assert(claims_of(claims@) =~= identity_claims(user_id@, is_admin));
    match encode_claims(&claims, auth.secret.as_str().as_bytes(), auth.algorithm.name()) {
        Ok(token) => Some(token),
        Err(_) => None,
    }
}

/// The identity that the token `raw` proves to `auth`, or `None` where its signature,
/// its algorithm or its structure does not pass.
///
/// A token that `auth` issued for an identity proves that identity. Such a token with
/// its signature altered proves nothing, and neither does a token issued under another
/// algorithm than `auth`'s.
pub fn decode_token(raw: &str, auth: &Auth) -> (r: Option<Token>)
    ensures
        match identity_or_refusal(
            verified_claims(raw@, encode_utf8(auth.secret@), auth.algorithm.spec_name()),
        ) {
            Ok(identity) => identity_in(r) == Some(identity),
            Err(_) => r is None,
        },
        forall|user_id: Seq<char>, is_admin: bool| #[trigger]
            issued(*auth, user_id, is_admin) == Some(raw@) ==> identity_in(r) == Some(
                TokenView { user_id, is_admin },
            ),
        forall|user_id: Seq<char>, is_admin: bool|
            issued_and_altered(#[trigger] issued(*auth, user_id, is_admin), raw@) ==> r is None,
        forall|other: Auth, user_id: Seq<char>, is_admin: bool|
            other.algorithm != auth.algorithm && #[trigger] issued(other, user_id, is_admin)
                == Some(raw@) ==> r is None,
{
    proof {
        assert forall|other: Auth| other.algorithm != auth.algorithm implies (
        #[trigger] other.algorithm.spec_name()) != auth.algorithm.spec_name() by {
            other.algorithm.lemma_names_differ(auth.algorithm);
        }
    }
    match decode_claims(raw, auth.secret.as_str().as_bytes(), auth.algorithm.name()) {
        Ok(claims) => Token::from_claims(&claims),
        Err(_) => None,
    }
}

/// Establishes the identity of a caller from the token that the caller presented, if
/// any.
///
/// A token that `auth` issued for an identity establishes that identity. Such a
/// token with its signature altered is refused as invalid, and so is a token issued
/// under another algorithm than `auth`'s, whatever secret signed it.
pub fn verify(auth: &Auth, presented: Option<&str>) -> (r: Result<Token, TokenError>)
    ensures
        outcome(r) == verification(*auth, presented_text(presented)),
        forall|user_id: Seq<char>, is_admin: bool| #[trigger]
            issued(*auth, user_id, is_admin) == presented_text(presented) && presented is Some
                ==> outcome(r) == Ok::<TokenView, TokenError>(TokenView { user_id, is_admin }),
        forall|user_id: Seq<char>, is_admin: bool|
            presented is Some && issued_and_altered(
                #[trigger] issued(*auth, user_id, is_admin),
                presented_text(presented).unwrap(),
            ) ==> outcome(r) == Err::<TokenView, TokenError>(TokenError::Invalid),
        forall|other: Auth, user_id: Seq<char>, is_admin: bool|
            other.algorithm != auth.algorithm && presented is Some && #[trigger] issued(
                other,
                user_id,
                is_admin,
            ) == presented_text(presented) ==> outcome(r) == Err::<TokenView, TokenError>(
                TokenError::Invalid,
            ),
{
    match presented {
        None => Err(TokenError::Missing),
        Some(raw) => match decode_token(raw, auth) {
            Some(token) => Ok(token),
            None => Err(TokenError::Invalid),
        },
    }
}

/// The text that a caller presented, if any.
pub open spec fn presented_text(presented: Option<&str>) -> Option<Seq<char>> {
    match presented {
        Some(raw) => Some(raw@),
        None => None,
    }
}

/// The first of the values of a request's authorization header, if it has any.
pub open spec fn first_of(values: Seq<String>) -> Option<Seq<char>> {
    if values.len() == 0 {
        None
    } else {
        Some(values[0]@)
    }
}

impl Token {
    /// Establishes the identity behind a request from the values of its authorization
    /// header: the first value is the token, and a request without one presents none.
    pub fn from_request(authorization: &Vec<String>, auth: &Auth) -> (r: Result<
        Token,
        TokenError,
    >)
        ensures
            outcome(r) == verification(*auth, first_of(authorization@)),
    {
        if authorization.len() == 0 {
            return Err(TokenError::Missing);
        }
        verify(auth, Some(authorization[0].as_str()))
    }
}

/// What a login with `username` and `key` returns, given the token that signing made.
pub open spec fn login_result(username: Seq<char>, key: Seq<char>, signed: Option<Seq<char>>) -> Result<
    Seq<char>,
    LoginError,
> {
    if username != "admin"@ || key != "admin"@ {
        Err(LoginError::InvalidCredentials)
    } else {
        match signed {
            Some(token) => Ok(token),
            None => Err(LoginError::SigningFailed),
        }
    }
}

/// Signs the administrator in: where `username` and `key` are the administrator's, the
/// answer is a token for the administrator's identity.
pub fn login(auth: &Auth, username: &str, key: &str) -> (r: Result<String, LoginError>)
    ensures
        match login_result(username@, key@, issued(*auth, "admin"@, true)) {
            Ok(token) => r is Ok && r.unwrap()@ == token,
            Err(refusal) => r == Err::<String, LoginError>(refusal),
        },
{
    if *username != *"admin" || *key != *"admin" {
        return Err(LoginError::InvalidCredentials);
    }
    match issue(auth, "admin", true) {
        Some(token) => Ok(token),
        None => Err(LoginError::SigningFailed),
    }
}

} // verus!
