use chacha20poly1305::{
    aead::{Aead, Payload},
    ChaCha20Poly1305, KeyInit, Nonce,
};
use decky_power_host::auth::{sign, sign_response};
use decky_power_host::client_protocol::{
    authentication_headers, authentication_headers_at, client_confirmation, decrypt_credential,
    finish_client_pairing, hex_encode, read_response, start_client_pairing, HostAnswer,
};
use decky_power_host::pairing::{credential_aad, CredentialContext, PairingCode, PairingError};
use decky_power_host::protocol::PairResponse;
use hkdf::Hkdf;
use hmac::{Hmac, Mac};
use sha2::Sha256;

fn response(head: &str, body: &[u8]) -> Vec<u8> {
    let mut bytes = head.as_bytes().to_vec();
    bytes.extend_from_slice(b"\r\n\r\n");
    bytes.extend_from_slice(body);
    bytes
}

#[test]
fn hex_encoding_is_lower_case_and_matches_the_hex_crate() {
    assert_eq!(hex_encode(&[0x00, 0x0f, 0xa5, 0xff]), "000fa5ff");
    assert_eq!(hex_encode(&[]), "");
    let bytes: Vec<u8> = (0..=255).collect();
    assert_eq!(hex_encode(&bytes), hex::encode(&bytes));
}

#[test]
fn request_authentication_carries_timestamp_nonce_and_signature() {
    let credential = [7_u8; 32];
    let nonce = [3_u8; 16];
    let authentication = authentication_headers_at(
        "/v1/status",
        b"body",
        &hex::encode(credential),
        1_700_000_123,
        nonce,
    )
    .unwrap();
    let signature = sign(&credential, 1_700_000_123, &nonce, "POST", "/v1/status", b"body").unwrap();
    assert_eq!(authentication.credential, credential.to_vec());
    assert_eq!(authentication.nonce, nonce);
    assert_eq!(
        authentication.headers,
        vec![
            ("x-decky-timestamp".to_string(), "1700000123".to_string()),
            ("x-decky-nonce".to_string(), hex::encode(nonce)),
            ("x-decky-signature".to_string(), hex::encode(signature)),
        ]
    );
    assert_eq!(
        authentication_headers("/v1/status", b"", "zz").err().unwrap(),
        "invalid stored credential"
    );
    assert_eq!(
        authentication_headers_at("/v1/stätus", b"", "00", 1, nonce).err().unwrap(),
        "malformed authentication header"
    );
}

#[test]
fn responses_are_split_into_status_and_body() {
    let answer = read_response(&response("HTTP/1.1 200 OK\r\nContent-Type: x", b"payload"), "/v1/pair", None)
        .unwrap();
    match answer {
        HostAnswer::Success { status, body } => {
            assert_eq!(status, 200);
            assert_eq!(body, b"payload");
        }
        HostAnswer::Failure { .. } => panic!("expected success"),
    }
    let answer = read_response(&response("HTTP/1.1   410 Gone", b"error"), "/v1/pair", None).unwrap();
    assert!(matches!(answer, HostAnswer::Failure { status: 410, .. }));
}

#[test]
fn malformed_responses_are_refused() {
    assert_eq!(
        read_response(b"HTTP/1.1 200 OK\r\n", "/", None).err().unwrap(),
        "malformed HTTP response"
    );
    assert!(matches!(
        read_response(&response("HTTP/1.1 204 \u{e9}t\u{e9}", b""), "/", None),
        Ok(HostAnswer::Success { status: 204, .. })
    ));
    let mut invalid = b"HTTP/1.1 200 \xff".to_vec();
    invalid.extend_from_slice(b"\r\n\r\n");
    assert_eq!(read_response(&invalid, "/", None).err().unwrap(), "malformed HTTP headers");
    assert_eq!(
        read_response(&response("HTTP/1.1", b""), "/", None).err().unwrap(),
        "malformed HTTP status"
    );
    assert_eq!(
        read_response(&response("HTTP/1.1 99999 Huge", b""), "/", None).err().unwrap(),
        "malformed HTTP status"
    );
}

#[test]
fn authenticated_responses_must_carry_a_valid_signature() {
    let credential = [4_u8; 32];
    let nonce = [5_u8; 16];
    let signature = sign_response(&credential, &nonce, "/v1/status", 200, b"body").unwrap();
    let head = format!(
        "HTTP/1.1 200 OK\r\nX-Decky-Response-Signature:  {} ",
        hex::encode(signature)
    );
    assert!(matches!(
        read_response(&response(&head, b"body"), "/v1/status", Some((&credential, &nonce))),
        Ok(HostAnswer::Success { status: 200, .. })
    ));
    assert_eq!(
        read_response(&response(&head, b"changed"), "/v1/status", Some((&credential, &nonce)))
            .err()
            .unwrap(),
        "host response authentication failed"
    );
    assert_eq!(
        read_response(&response("HTTP/1.1 200 OK", b"body"), "/v1/status", Some((&credential, &nonce)))
            .err()
            .unwrap(),
        "host response authentication is missing"
    );
    assert_eq!(
        read_response(
            &response("HTTP/1.1 200 OK\r\nx-decky-response-signature: xyz", b"body"),
            "/v1/status",
            Some((&credential, &nonce))
        )
        .err()
        .unwrap(),
        "host response authentication is malformed"
    );
}

#[test]
fn client_confirmation_is_the_hmac_of_the_exchange() {
    let tag = client_confirmation(&[1; 32], b"client", b"host", b"session").unwrap();
    let mut mac = <Hmac<Sha256> as Mac>::new_from_slice(&[1; 32]).unwrap();
    mac.update(b"deckymyrig-pairing-confirm-v1\0");
    mac.update(b"client");
    mac.update(b"host");
    mac.update(b"session");
    assert_eq!(tag.to_vec(), mac.finalize().into_bytes().to_vec());
}

#[test]
fn issued_credential_is_decrypted_and_checked() {
    let shared = [9_u8; 32];
    let mut key = [0_u8; 32];
    Hkdf::<Sha256>::new(None, &shared)
        .expand(b"deckymyrig-pairing-credential-v1", &mut key)
        .unwrap();
    let mut paired = PairResponse {
        host_spake2_message: vec![0x42; 33],
        encryption_nonce: vec![1; 12],
        encrypted_credential: Vec::new(),
        hostname: "pc".into(),
        host_version: "0.1.0".into(),
        protocol_version: 1,
        host_id: "id".into(),
        session_id: vec![2; 16],
    };
    let aad = credential_aad(
        &paired.host_spake2_message,
        &paired.session_id,
        &CredentialContext {
            hostname: "pc",
            host_version: "0.1.0",
            protocol_version: 1,
            host_id: "id",
        },
    )
    .unwrap();
    let seal = |plaintext: &[u8]| {
        ChaCha20Poly1305::new((&key).into())
            .encrypt(Nonce::from_slice(&[1; 12]), Payload { msg: plaintext, aad: &aad })
            .unwrap()
    };
    paired.encrypted_credential = seal(&[8; 32]);
    assert_eq!(decrypt_credential(&shared, &paired).unwrap(), [8; 32]);
    paired.encrypted_credential = seal(&[8; 31]);
    assert_eq!(
        decrypt_credential(&shared, &paired).err().unwrap(),
        "host returned an invalid credential"
    );
    paired.encrypted_credential = seal(&[8; 32]);
    paired.hostname = "other".into();
    assert_eq!(
        decrypt_credential(&shared, &paired).err().unwrap(),
        "the pairing code was rejected"
    );
}

fn pairing_context() -> CredentialContext<'static> {
    CredentialContext {
        hostname: "test-host",
        host_version: "0.1.0",
        protocol_version: 1,
        host_id: "test-id",
    }
}

#[test]
fn the_client_exchange_pairs_with_the_current_code_only() {
    let mut pairing = PairingCode::from_code("123456".into()).unwrap();

    let (exchange, message) = start_client_pairing(Some(" 123 456 ")).ok().unwrap();
    assert_eq!(message.len(), 33);
    assert_eq!(message[0], 0x41);
    let started = pairing.start(&message).unwrap();
    let shared = finish_client_pairing(exchange, &started.host_message).unwrap();
    assert_eq!(shared.len(), 32);
    let confirmation =
        client_confirmation(&shared, &message, &started.host_message, &started.session_id).unwrap();
    let result = pairing
        .finish(&started.session_id, &confirmation, &pairing_context())
        .unwrap();
    assert_eq!(result.host_message, started.host_message);

    let (exchange, message) = start_client_pairing(Some("654321")).ok().unwrap();
    let started = pairing.start(&message).unwrap();
    let shared = finish_client_pairing(exchange, &started.host_message).unwrap();
    let confirmation =
        client_confirmation(&shared, &message, &started.host_message, &started.session_id).unwrap();
    assert!(matches!(
        pairing.finish(&started.session_id, &confirmation, &pairing_context()),
        Err(PairingError::Invalid)
    ));
}

#[test]
fn the_client_exchange_refuses_bad_codes_and_host_messages() {
    assert_eq!(start_client_pairing(None).err().unwrap(), "pair requires --code");
    assert_eq!(
        start_client_pairing(Some("12345")).err().unwrap(),
        "pairing code must contain six digits"
    );
    let (exchange, _) = start_client_pairing(Some("123456")).ok().unwrap();
    assert_eq!(
        finish_client_pairing(exchange, &[0x41; 33]).err().unwrap(),
        "pairing exchange failed"
    );
    let (exchange, _) = start_client_pairing(Some("123456")).ok().unwrap();
    assert_eq!(
        finish_client_pairing(exchange, &[0x42; 10]).err().unwrap(),
        "pairing exchange failed"
    );
}
