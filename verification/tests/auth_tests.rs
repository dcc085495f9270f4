use myace::extractor::{optional_identity, require_identity, AuthUser};
use myace::ids::UserId;
use myace::password::{hash_password, verify, verify_password, VerifyOutcome};
use myace::token::{TokenCodec, TokenError};

fn codec() -> TokenCodec {
    TokenCodec::new(b"a-long-random-test-signing-key".to_vec())
}

/// Hashing then verifying the same password matches (round trip); a
/// different password mismatches.
#[test]
fn password_round_trip() {
    let digest = hash_password("hunter2").expect("hashing should succeed");
    assert!(verify_password("hunter2", digest.as_str()).is_ok());
    assert_eq!(
        verify_password("hunter3", digest.as_str()),
        Err(myace::error::Error::IncorrectPassword)
    );
    assert_eq!(verify("hunter2", digest.as_str()), VerifyOutcome::Match);
    assert_eq!(verify("HUNTER2", digest.as_str()), VerifyOutcome::Mismatch);
}

/// The round-trip law as the library itself states it: hashing then
/// verifying the same password reports a match.
#[test]
fn hash_verifies_law() {
    let (digest, outcome) = myace::password::hash_verifies("any password at all").unwrap();
    assert_eq!(outcome, VerifyOutcome::Match);
    assert!(verify_password("any password at all", digest.as_str()).is_ok());
}

/// The digest embeds parameters and salt: it is never the plaintext, and two
/// hashes of the same password differ (fresh random salt each time).
#[test]
fn password_digest_is_salted() {
    let d1 = hash_password("correct horse").expect("hashing should succeed");
    let d2 = hash_password("correct horse").expect("hashing should succeed");
    assert_ne!(d1, "correct horse");
    assert_ne!(d1, d2);
    assert!(verify_password("correct horse", d1.as_str()).is_ok());
    assert!(verify_password("correct horse", d2.as_str()).is_ok());
}

/// A corrupted stored digest is a distinct outcome from a wrong password.
#[test]
fn password_malformed_digest() {
    assert_eq!(
        verify("anything", "not-a-phc-string"),
        VerifyOutcome::MalformedDigest
    );
    match verify_password("anything", "not-a-phc-string") {
        Err(myace::error::Error::Internal(_)) => {}
        other => panic!("expected an internal error, got {:?}", other),
    }
}

/// Issuing a token and verifying it recovers exactly the identity.
#[test]
fn token_round_trip() {
    let c = codec();
    for id in [0u128, 1, 42, u128::MAX] {
        let tok = c.issue(UserId(id));
        assert_eq!(c.verify_token(tok.as_str()), Ok(UserId(id)));
    }
}

/// Verification fails when any single byte of the token is altered.
#[test]
fn token_tamper_detection() {
    let c = codec();
    let tok = c.issue(UserId(0xfeed_beef));
    assert_eq!(c.verify_token(tok.as_str()), Ok(UserId(0xfeed_beef)));
    let bytes = tok.as_bytes();
    for i in 0..bytes.len() {
        let mut altered = bytes.to_vec();
        // stay within ASCII so the altered token is still a string
        altered[i] = if altered[i] == b'0' { b'1' } else { b'0' };
        if altered == bytes {
            continue;
        }
        let altered = String::from_utf8(altered).unwrap();
        assert!(c.verify_token(altered.as_str()).is_err(), "byte {} altered", i);
    }
}

/// A token signed under one key does not verify under another.
#[test]
fn token_wrong_key() {
    let c1 = codec();
    let c2 = TokenCodec::new(b"another-key-entirely".to_vec());
    let tok = c1.issue(UserId(7));
    assert_eq!(
        c2.verify_token(tok.as_str()),
        Err(TokenError::InvalidSignature)
    );
}

/// A well-signed token whose payload is not an identity is rejected as
/// malformed payload, after the signature check.
#[test]
fn token_malformed_payload() {
    let c = codec();
    let tok = c.issue(UserId(5));
    // the payload is the part before the dot; damaging it breaks the
    // signature first
    let garbled = format!("zz{}", &tok[2..]);
    assert_eq!(
        c.verify_token(garbled.as_str()),
        Err(TokenError::InvalidSignature)
    );
    assert_eq!(c.verify_token("no-dot-here"), Err(TokenError::InvalidSignature));
}

/// Required mode rejects an absent, malformed, or unverifiable header and
/// accepts a well-formed one.
#[test]
fn extractor_required_mode() {
    let c = codec();
    let tok = AuthUser { user_id: UserId(9) }.to_jwt(&c);
    let header = format!("Token {}", tok);
    let got = require_identity(&c, Some(header.as_str())).expect("valid header");
    assert_eq!(got.user_id, UserId(9));
    assert!(require_identity(&c, None).is_err());
    assert!(require_identity(&c, Some("Bearer abc")).is_err());
    assert!(require_identity(&c, Some("Token garbage")).is_err());
}

/// Optional mode tolerates absence but still rejects a present, invalid
/// header.
#[test]
fn extractor_optional_mode() {
    let c = codec();
    let tok = c.issue(UserId(11));
    let header = format!("Token {}", tok);
    let got = optional_identity(&c, Some(header.as_str())).expect("valid header");
    assert_eq!(got.user_id(), Some(UserId(11)));
    let absent = optional_identity(&c, None).expect("absence is tolerated");
    assert_eq!(absent.user_id(), None);
    assert!(optional_identity(&c, Some("Token garbage")).is_err());
}
