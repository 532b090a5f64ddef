use decky_power_host::auth::{
    canonical_message, now_unix, random_nonce, sign, sign_response, verify_response, AuthError,
    AuthenticatedRequest, Authenticator, NONCE_LENGTH,
};
use hmac::{Hmac, Mac};
use sha2::{Digest, Sha256};

fn request<'a>(
    timestamp: u64,
    nonce: &'a [u8],
    signature: &'a [u8],
    path: &'a str,
    body: &'a [u8],
) -> AuthenticatedRequest<'a> {
    AuthenticatedRequest {
        timestamp,
        nonce,
        signature,
        method: "POST",
        path,
        body,
    }
}

#[test]
fn verifies_valid_and_rejects_replay() {
    let mut auth = Authenticator::default();
    let secret = [7; 32];
    let nonce = [9; 16];
    let body = b"body";
    let signature = sign(&secret, 100, &nonce, "POST", "/v1/status", body).unwrap();
    auth.verify(
        &secret,
        request(100, &nonce, &signature, "/v1/status", body),
        100,
    )
    .unwrap();
    assert_eq!(
        auth.verify(
            &secret,
            request(100, &nonce, &signature, "/v1/status", body),
            100
        ),
        Err(AuthError::Replay)
    );
}

#[test]
fn rejects_modification_stale_and_malformed_values() {
    let mut auth = Authenticator::default();
    let secret = [3; 32];
    let nonce = [4; 16];
    let signature = sign(&secret, 100, &nonce, "POST", "/v1/status", b"a").unwrap();
    assert_eq!(
        auth.verify(
            &secret,
            request(100, &nonce, &signature, "/v1/status", b"b"),
            100
        ),
        Err(AuthError::Invalid)
    );
    assert_eq!(
        auth.verify(
            &secret,
            request(100, &nonce, &signature, "/v1/shutdown", b"a"),
            100
        ),
        Err(AuthError::Invalid)
    );
    assert_eq!(
        auth.verify(
            &secret,
            request(100, &nonce, &signature, "/v1/status", b"a"),
            200
        ),
        Err(AuthError::Stale)
    );
    assert!(sign(&secret, 100, &[1; 3], "POST", "/", b"").is_err());
}

#[test]
fn excessive_failures_are_rate_limited() {
    let mut auth = Authenticator::default();
    let secret = [3; 32];
    let nonce = [4; 16];
    let bad_signature = [0; 32];
    for _ in 0..20 {
        assert_eq!(
            auth.verify(
                &secret,
                request(100, &nonce, &bad_signature, "/v1/status", b"a"),
                100
            ),
            Err(AuthError::Invalid)
        );
    }
    assert_eq!(
        auth.verify(
            &secret,
            request(100, &nonce, &bad_signature, "/v1/status", b"a"),
            100
        ),
        Err(AuthError::RateLimited)
    );

    let valid_nonce = [5; 16];
    let valid_signature = sign(&secret, 100, &valid_nonce, "POST", "/v1/status", b"a").unwrap();
    auth.verify(
        &secret,
        request(100, &valid_nonce, &valid_signature, "/v1/status", b"a"),
        100,
    )
    .unwrap();
}

#[test]
fn response_authentication_binds_nonce_path_status_and_body() {
    let secret = [4; 32];
    let nonce = [5; NONCE_LENGTH];
    let signature = sign_response(&secret, &nonce, "/v1/status", 200, b"body").unwrap();
    verify_response(&secret, &nonce, "/v1/status", 200, b"body", &signature).unwrap();
    assert_eq!(
        verify_response(&secret, &nonce, "/v1/status", 200, b"changed", &signature),
        Err(AuthError::Invalid)
    );
    assert_eq!(
        verify_response(&secret, &nonce, "/v1/shutdown", 200, b"body", &signature),
        Err(AuthError::Invalid)
    );
}

#[test]
fn response_signature_depends_on_status_and_nonce() {
    let secret = [4; 32];
    let nonce = [5; NONCE_LENGTH];
    let signature = sign_response(&secret, &nonce, "/v1/status", 200, b"body").unwrap();
    assert_eq!(
        verify_response(&secret, &nonce, "/v1/status", 401, b"body", &signature),
        Err(AuthError::Invalid)
    );
    assert_eq!(
        verify_response(&secret, &[6; NONCE_LENGTH], "/v1/status", 200, b"body", &signature),
        Err(AuthError::Invalid)
    );
    assert_eq!(
        verify_response(&[9; 32], &nonce, "/v1/status", 200, b"body", &signature),
        Err(AuthError::Invalid)
    );
}

#[test]
fn request_signature_is_the_hmac_of_the_canonical_message() {
    let secret = [1_u8; 32];
    let nonce = [2_u8; 16];
    let message = canonical_message(1_700_000_000, &nonce, "post", "/v1/status", b"payload").unwrap();
    let mut mac = <Hmac<Sha256> as Mac>::new_from_slice(&secret).unwrap();
    mac.update(&message);
    let expected: [u8; 32] = mac.finalize().into_bytes().into();
    assert_eq!(
        sign(&secret, 1_700_000_000, &nonce, "post", "/v1/status", b"payload").unwrap(),
        expected
    );
    let digest = Sha256::digest(b"payload");
    assert!(message.ends_with(&digest));
    assert!(message.windows(4).any(|window| window == b"POST"));
    assert_ne!(
        canonical_message(1, &nonce, "POST", "/v1/status", b"x").unwrap(),
        canonical_message(2, &nonce, "POST", "/v1/status", b"x").unwrap()
    );
}

#[test]
fn a_nonce_is_refused_again_within_the_window_and_accepted_after_it() {
    let mut auth = Authenticator::default();
    let secret = [7; 32];
    let nonce = [1; 16];
    let at_100 = sign(&secret, 100, &nonce, "POST", "/v1/status", b"").unwrap();
    auth.verify(&secret, request(100, &nonce, &at_100, "/v1/status", b""), 100)
        .unwrap();
    let at_150 = sign(&secret, 150, &nonce, "POST", "/v1/status", b"").unwrap();
    assert_eq!(
        auth.verify(&secret, request(150, &nonce, &at_150, "/v1/status", b""), 150),
        Err(AuthError::Replay)
    );
    let at_300 = sign(&secret, 300, &nonce, "POST", "/v1/status", b"").unwrap();
    assert_eq!(
        auth.verify(&secret, request(300, &nonce, &at_300, "/v1/status", b""), 300),
        Ok(())
    );
}

#[test]
fn failures_outside_the_window_no_longer_count() {
    let mut auth = Authenticator::default();
    let secret = [3; 32];
    let bad_signature = [0; 32];
    for _ in 0..20 {
        assert_eq!(
            auth.verify(&secret, request(100, &[4; 16], &bad_signature, "/", b""), 100),
            Err(AuthError::Invalid)
        );
    }
    assert_eq!(
        auth.verify(&secret, request(200, &[4; 16], &bad_signature, "/", b""), 200),
        Err(AuthError::Invalid)
    );
}

#[test]
fn random_nonces_have_the_protocol_length_and_differ() {
    let first = random_nonce();
    let second = random_nonce();
    assert_eq!(first.len(), NONCE_LENGTH);
    assert_ne!(first, second);
    assert!(now_unix() > 1_600_000_000);
}

#[test]
fn auth_errors_have_messages() {
    assert!(!AuthError::Replay.message().is_empty());
    assert_ne!(AuthError::Stale.message(), AuthError::Invalid.message());
}
