use account_ledger::settings::{Algorithm, Auth};
use account_ledger::token::{
    decode_token, issue, login, verify, Claim, ClaimValue, LoginError, Token, TokenError,
};
use jsonwebtoken::{EncodingKey, Header};
use serde_json::Value;

fn auth(secret: &str) -> Auth {
    Auth { algorithm: Algorithm::HS256, secret: secret.to_string() }
}

fn forged(algorithm: jsonwebtoken::Algorithm, secret: &str, claims: &[(&str, Value)]) -> String {
    let mut object = serde_json::Map::new();
    for (name, value) in claims {
        object.insert(name.to_string(), value.clone());
    }
    jsonwebtoken::encode(&Header::new(algorithm), &object, &EncodingKey::from_secret(secret.as_bytes()))
        .unwrap()
}

fn identity_claims(user_id: &str, is_admin: bool) -> Vec<(&'static str, Value)> {
    vec![("user_id", Value::String(user_id.to_string())), ("is_admin", Value::Bool(is_admin))]
}

#[test]
fn issued_token_proves_its_identity() {
    let auth = auth("top secret");
    for (user_id, is_admin) in [("ann@example.com", false), ("admin", true), ("", false), ("zoë \"q\" \\ \n", true)]
    {
        let token = issue(&auth, user_id, is_admin).unwrap();
        let identity = verify(&auth, Some(&token)).unwrap();
        assert_eq!(identity.user_id(), user_id);
        assert_eq!(identity.is_admin(), is_admin);
        let decoded = decode_token(&token, &auth).unwrap();
        assert_eq!(decoded.user_id(), user_id);
        assert_eq!(decoded.is_admin(), is_admin);
    }
}

#[test]
fn issued_token_is_a_signed_token_of_three_parts() {
    let auth = auth("top secret");
    let token = issue(&auth, "ann", false).unwrap();
    assert_eq!(token.split('.').count(), 3);
    assert_eq!(token, forged(jsonwebtoken::Algorithm::HS256, "top secret", &identity_claims("ann", false)));
    assert_ne!(token, issue(&auth, "ann", true).unwrap());
    assert_ne!(token, issue(&auth, "anm", false).unwrap());
}

#[test]
fn every_hmac_algorithm_round_trips() {
    for algorithm in [Algorithm::HS256, Algorithm::HS384, Algorithm::HS512] {
        let auth = Auth { algorithm, secret: "k".to_string() };
        let token = issue(&auth, "ann", true).unwrap();
        let identity = verify(&auth, Some(&token)).unwrap();
        assert_eq!(identity.user_id(), "ann");
        assert!(identity.is_admin());
    }
}

#[test]
fn no_token_is_reported_as_missing() {
    assert!(matches!(verify(&auth("s"), None), Err(TokenError::Missing)));
}

#[test]
fn altered_signature_is_invalid() {
    let auth = auth("top secret");
    let token = issue(&auth, "ann", false).unwrap();
    let dot = token.rfind('.').unwrap();
    assert!(token.len() > dot + 1);
    for at in dot + 1..token.len() {
        for replacement in ['A', 'z', '0', '-', '_'] {
            let mut altered: Vec<char> = token.chars().collect();
            if altered[at] == replacement {
                continue;
            }
            altered[at] = replacement;
            let altered: String = altered.into_iter().collect();
            assert!(matches!(verify(&auth, Some(&altered)), Err(TokenError::Invalid)));
            assert!(decode_token(&altered, &auth).is_none());
        }
    }
    let mut cut = token.clone();
    cut.pop();
    assert!(matches!(verify(&auth, Some(&cut)), Err(TokenError::Invalid)));
    let longer = format!("{}A", token);
    assert!(matches!(verify(&auth, Some(&longer)), Err(TokenError::Invalid)));
    let unsigned = &token[..dot + 1];
    assert!(matches!(verify(&auth, Some(unsigned)), Err(TokenError::Invalid)));
}

#[test]
fn signature_with_a_full_stop_is_invalid() {
    let auth = auth("top secret");
    let token = issue(&auth, "ann", false).unwrap();
    let dot = token.rfind('.').unwrap();
    for at in dot + 1..token.len() {
        let mut altered: Vec<char> = token.chars().collect();
        altered[at] = '.';
        let altered: String = altered.into_iter().collect();
        assert!(matches!(verify(&auth, Some(&altered)), Err(TokenError::Invalid)));
    }
}

#[test]
fn altered_claims_are_invalid() {
    let auth = auth("top secret");
    let token = issue(&auth, "ann", false).unwrap();
    let admin = issue(&auth, "ann", true).unwrap();
    let parts: Vec<&str> = token.split('.').collect();
    let admin_parts: Vec<&str> = admin.split('.').collect();
    let spliced = format!("{}.{}.{}", parts[0], admin_parts[1], parts[2]);
    assert!(matches!(verify(&auth, Some(&spliced)), Err(TokenError::Invalid)));
}

#[test]
fn token_under_another_secret_is_invalid() {
    let token = issue(&auth("one secret"), "ann", true).unwrap();
    assert!(matches!(verify(&auth("other secret"), Some(&token)), Err(TokenError::Invalid)));
}

#[test]
fn token_under_another_algorithm_is_invalid() {
    let secret = "shared";
    let token = forged(jsonwebtoken::Algorithm::HS384, secret, &identity_claims("ann", true));
    assert!(matches!(verify(&auth(secret), Some(&token)), Err(TokenError::Invalid)));
    let other = Auth { algorithm: Algorithm::HS384, secret: secret.to_string() };
    assert!(verify(&other, Some(&token)).is_ok());
    let hs256 = issue(&auth(secret), "ann", true).unwrap();
    assert!(matches!(verify(&other, Some(&hs256)), Err(TokenError::Invalid)));
}

#[test]
fn unsigned_token_is_invalid() {
    // {"alg":"none","typ":"JWT"} . {"user_id":"ann","is_admin":true} . (nothing)
    let token = "eyJhbGciOiJub25lIiwidHlwIjoiSldUIn0.eyJ1c2VyX2lkIjoiYW5uIiwiaXNfYWRtaW4iOnRydWV9.";
    assert!(matches!(verify(&auth("s"), Some(token)), Err(TokenError::Invalid)));
}

#[test]
fn text_that_is_no_token_is_invalid() {
    let auth = auth("s");
    for raw in ["", ".", "..", "a.b.c", "garbage", "Bearer abc", "a.b.c.d"] {
        assert!(matches!(verify(&auth, Some(raw)), Err(TokenError::Invalid)));
        assert!(decode_token(raw, &auth).is_none());
    }
}

#[test]
fn signed_token_without_an_identity_is_invalid() {
    let secret = "s";
    let hs256 = jsonwebtoken::Algorithm::HS256;
    let cases: Vec<Vec<(&str, Value)>> = vec![
        vec![],
        vec![("user_id", Value::String("ann".to_string()))],
        vec![("is_admin", Value::Bool(true))],
        vec![("user_id", Value::Bool(true)), ("is_admin", Value::Bool(true))],
        vec![("user_id", Value::String("ann".to_string())), ("is_admin", Value::String("true".to_string()))],
        vec![("user_id", Value::Null), ("is_admin", Value::Bool(false))],
        vec![("user_id", Value::String("ann".to_string())), ("is_admin", Value::from(1))],
        vec![("User_id", Value::String("ann".to_string())), ("is_admin", Value::Bool(false))],
    ];
    for claims in cases {
        let token = forged(hs256, secret, &claims);
        assert!(matches!(verify(&auth(secret), Some(&token)), Err(TokenError::Invalid)));
    }
}

#[test]
fn further_claims_are_ignored() {
    let secret = "s";
    let mut claims = identity_claims("ann", true);
    claims.push(("exp", Value::from(1)));
    claims.push(("note", Value::String("x".to_string())));
    claims.push(("aud", Value::String("anyone".to_string())));
    let token = forged(jsonwebtoken::Algorithm::HS256, secret, &claims);
    let identity = verify(&auth(secret), Some(&token)).unwrap();
    assert_eq!(identity.user_id(), "ann");
    assert!(identity.is_admin());
}

#[test]
fn signing_fails_under_an_algorithm_without_shared_key() {
    for algorithm in [Algorithm::RS256, Algorithm::ES256, Algorithm::PS512, Algorithm::EdDSA] {
        let auth = Auth { algorithm, secret: "s".to_string() };
        assert_eq!(issue(&auth, "ann", false), None);
        assert_eq!(login(&auth, "admin", "admin"), Err(LoginError::SigningFailed));
        let hs = issue(&Auth { algorithm: Algorithm::HS256, secret: "s".to_string() }, "ann", false).unwrap();
        assert!(matches!(verify(&auth, Some(&hs)), Err(TokenError::Invalid)));
    }
}

#[test]
fn request_is_identified_by_its_first_authorization_value() {
    let auth = auth("s");
    let ann = issue(&auth, "ann", false).unwrap();
    let bob = issue(&auth, "bob", true).unwrap();
    assert!(matches!(Token::from_request(&Vec::new(), &auth), Err(TokenError::Missing)));
    let identity = Token::from_request(&vec![ann.clone(), bob.clone()], &auth).unwrap();
    assert_eq!(identity.user_id(), "ann");
    assert!(!identity.is_admin());
    let identity = Token::from_request(&vec![bob.clone()], &auth).unwrap();
    assert_eq!(identity.user_id(), "bob");
    assert!(matches!(
        Token::from_request(&vec!["nonsense".to_string(), ann], &auth),
        Err(TokenError::Invalid)
    ));
    assert!(matches!(
        Token::from_request(&vec![format!("Bearer {}", bob)], &auth),
        Err(TokenError::Invalid)
    ));
}

#[test]
fn administrator_logs_in() {
    let auth = auth("s");
    let token = login(&auth, "admin", "admin").unwrap();
    assert_eq!(Some(token.clone()), issue(&auth, "admin", true));
    let identity = verify(&auth, Some(&token)).unwrap();
    assert_eq!(identity.user_id(), "admin");
    assert!(identity.is_admin());
}

#[test]
fn other_logins_are_refused() {
    let auth = auth("s");
    for (username, key) in [("admin", "wrong"), ("ann", "admin"), ("", ""), ("Admin", "admin"), ("admin", "admin ")] {
        assert_eq!(login(&auth, username, key), Err(LoginError::InvalidCredentials));
    }
    let unsignable = Auth { algorithm: Algorithm::RS256, secret: "s".to_string() };
    assert_eq!(login(&unsignable, "ann", "pw"), Err(LoginError::InvalidCredentials));
}

fn claim(name: &str, value: ClaimValue) -> Claim {
    Claim { name: name.to_string(), value }
}

#[test]
fn identity_is_read_from_claims() {
    let token = Token::from_claims(&vec![
        claim("note", ClaimValue::Other),
        claim("is_admin", ClaimValue::Flag(true)),
        claim("user_id", ClaimValue::Text("ann".to_string())),
    ])
    .unwrap();
    assert_eq!(token.user_id(), "ann");
    assert!(token.is_admin());

    let first = Token::from_claims(&vec![
        claim("user_id", ClaimValue::Text("first".to_string())),
        claim("is_admin", ClaimValue::Flag(false)),
        claim("user_id", ClaimValue::Text("second".to_string())),
        claim("is_admin", ClaimValue::Flag(true)),
    ])
    .unwrap();
    assert_eq!(first.user_id(), "first");
    assert!(!first.is_admin());
}

#[test]
fn claims_without_identity_give_none() {
    assert!(Token::from_claims(&Vec::new()).is_none());
    assert!(Token::from_claims(&vec![claim("user_id", ClaimValue::Text("ann".to_string()))]).is_none());
    assert!(Token::from_claims(&vec![claim("is_admin", ClaimValue::Flag(true))]).is_none());
    assert!(Token::from_claims(&vec![
        claim("user_id", ClaimValue::Flag(true)),
        claim("is_admin", ClaimValue::Flag(true)),
    ])
    .is_none());
    assert!(Token::from_claims(&vec![
        claim("user_id", ClaimValue::Text("ann".to_string())),
        claim("is_admin", ClaimValue::Other),
    ])
    .is_none());
    assert!(Token::from_claims(&vec![
        claim("user_id", ClaimValue::Other),
        claim("user_id", ClaimValue::Text("ann".to_string())),
        claim("is_admin", ClaimValue::Flag(true)),
    ])
    .is_none());
}
