use chacha20poly1305::{
    aead::{Aead, Payload},
    ChaCha20Poly1305, KeyInit, Nonce,
};
use decky_power_host::pairing::{
    credential_aad, CredentialContext, PairingCode, PairingError, SourceAddress,
    MAX_CONFIRMATION_FAILURES, MAX_PENDING_SESSIONS_PER_SOURCE, PAIRING_LIFETIME_MS,
};
use hkdf::Hkdf;
use hmac::{Hmac, Mac};
use sha2::Sha256;
use spake2::{Ed25519Group, Identity, Password, Spake2};

const CLIENT_ID: &[u8] = b"decky-client";
const HOST_ID: &[u8] = b"decky-host";
const CREDENTIAL_INFO: &[u8] = b"deckymyrig-pairing-credential-v1";
const CONFIRMATION_DOMAIN: &[u8] = b"deckymyrig-pairing-confirm-v1\0";

fn client(code: &[u8]) -> (Spake2<Ed25519Group>, Vec<u8>) {
    Spake2::<Ed25519Group>::start_a(
        &Password::new(code),
        &Identity::new(CLIENT_ID),
        &Identity::new(HOST_ID),
    )
}

fn confirm(shared: &[u8], client_message: &[u8], host_message: &[u8], session_id: &[u8]) -> Vec<u8> {
    let mut confirmation = <Hmac<Sha256> as Mac>::new_from_slice(shared).unwrap();
    confirmation.update(CONFIRMATION_DOMAIN);
    confirmation.update(client_message);
    confirmation.update(host_message);
    confirmation.update(session_id);
    confirmation.finalize().into_bytes().to_vec()
}

fn context() -> CredentialContext<'static> {
    CredentialContext {
        hostname: "test-host",
        host_version: "0.1.0",
        protocol_version: 1,
        host_id: "test-id",
    }
}

fn source(text: &str) -> Option<SourceAddress> {
    let octets: Vec<u32> = text.split('.').map(|part| part.parse().unwrap()).collect();
    Some(SourceAddress::V4(
        (octets[0] << 24) | (octets[1] << 16) | (octets[2] << 8) | octets[3],
    ))
}

#[test]
fn successful_pairing_produces_256_bit_credential_and_invalidates_code() {
    let mut pairing = PairingCode::from_code("123456".into()).unwrap();
    let (client, message) = client(b"123456");
    let started = pairing.start(&message).unwrap();
    let shared = client.finish(&started.host_message).unwrap();
    let confirmation = confirm(&shared, &message, &started.host_message, &started.session_id);
    let result = pairing
        .finish(&started.session_id, &confirmation, &context())
        .unwrap();
    pairing
        .commit(&started.session_id, &confirmation, result.duplicate())
        .unwrap();
    let mut key = [0; 32];
    Hkdf::<Sha256>::new(None, &shared)
        .expand(CREDENTIAL_INFO, &mut key)
        .unwrap();
    let aad = credential_aad(&result.host_message, &started.session_id, &context()).unwrap();
    let decrypted = ChaCha20Poly1305::new((&key).into())
        .decrypt(
            Nonce::from_slice(&result.nonce),
            Payload {
                msg: &result.encrypted_credential,
                aad: &aad,
            },
        )
        .unwrap();
    assert_eq!(decrypted, result.credential);
    assert_eq!(decrypted.len(), 32);
    let tampered_aad = credential_aad(
        &result.host_message,
        &started.session_id,
        &CredentialContext {
            hostname: "test-host",
            host_version: "0.1.0",
            protocol_version: 1,
            host_id: "tampered-id",
        },
    )
    .unwrap();
    assert!(ChaCha20Poly1305::new((&key).into())
        .decrypt(
            Nonce::from_slice(&result.nonce),
            Payload {
                msg: &result.encrypted_credential,
                aad: &tampered_aad,
            },
        )
        .is_err());
    assert!(matches!(pairing.start(&message), Err(PairingError::Expired)));
}

#[test]
fn pairing_starts_are_limited_per_source_without_blocking_other_clients() {
    let mut pairing = PairingCode::from_code("123456".into()).unwrap();
    let hostile_source = source("192.0.2.10");
    for _ in 0..MAX_PENDING_SESSIONS_PER_SOURCE {
        let (_, message) = client(b"000000");
        assert!(pairing.start_for_source(&message, hostile_source).is_ok());
    }
    let (_, message) = client(b"000000");
    assert!(matches!(
        pairing.start_for_source(&message, hostile_source),
        Err(PairingError::RateLimited)
    ));
    assert!(pairing
        .start_for_source(&message, source("192.0.2.11"))
        .is_ok());
}

#[test]
fn failed_confirmations_do_not_lock_out_a_different_source() {
    let mut pairing = PairingCode::from_code("123456".into()).unwrap();
    let hostile_source = source("192.0.2.10");
    for attempt in 0..MAX_CONFIRMATION_FAILURES {
        let (client, message) = client(b"000000");
        let started = pairing
            .start_for_source(&message, hostile_source)
            .unwrap();
        let shared = client.finish(&started.host_message).unwrap();
        let confirmation = confirm(&shared, &message, &started.host_message, &started.session_id);
        let result = pairing.finish(&started.session_id, &confirmation, &context());
        if attempt + 1 == MAX_CONFIRMATION_FAILURES {
            assert!(matches!(result, Err(PairingError::RateLimited)));
        } else {
            assert!(matches!(result, Err(PairingError::Invalid)));
        }
    }

    let (_, message) = client(b"123456");
    assert!(pairing
        .start_for_source(&message, source("192.0.2.11"))
        .is_ok());
}

#[test]
fn concurrent_pairing_starts_do_not_invalidate_existing_sessions() {
    let mut pairing = PairingCode::from_code("123456".into()).unwrap();
    let (first_client, first_message) = client(b"123456");
    let first = pairing.start(&first_message).unwrap();
    let (_, second_message) = client(b"123456");
    pairing.start(&second_message).unwrap();

    let shared = first_client.finish(&first.host_message).unwrap();
    let confirmation = confirm(&shared, &first_message, &first.host_message, &first.session_id);
    assert!(pairing
        .finish(&first.session_id, &confirmation, &context())
        .is_ok());
}

#[test]
fn prepared_pairing_remains_retryable_until_persistence_is_committed() {
    let mut pairing = PairingCode::from_code("123456".into()).unwrap();
    let (client, message) = client(b"123456");
    let started = pairing.start(&message).unwrap();
    let shared = client.finish(&started.host_message).unwrap();
    let confirmation = confirm(&shared, &message, &started.host_message, &started.session_id);

    assert!(pairing
        .finish(&started.session_id, &confirmation, &context())
        .is_ok());
    assert!(pairing
        .finish(&started.session_id, &confirmation, &context())
        .is_ok());
    assert!(pairing.expires_in() > 299_000);
}

#[test]
fn committed_pairing_retries_are_identical_and_reject_tampering() {
    let mut pairing = PairingCode::from_code("123456".into()).unwrap();
    let (client, message) = client(b"123456");
    let started = pairing.start(&message).unwrap();
    let shared = client.finish(&started.host_message).unwrap();
    let confirmation = confirm(&shared, &message, &started.host_message, &started.session_id);
    let result = pairing
        .finish(&started.session_id, &confirmation, &context())
        .unwrap();
    pairing
        .commit(&started.session_id, &confirmation, result.duplicate())
        .unwrap();

    let retry = pairing
        .finish(&started.session_id, &confirmation, &context())
        .unwrap();
    assert_eq!(retry.credential, result.credential);
    assert_eq!(retry.encrypted_credential, result.encrypted_credential);
    assert!(matches!(
        pairing.finish(&started.session_id, b"tampered", &context()),
        Err(PairingError::Invalid)
    ));
}

#[test]
fn completed_retry_and_abandoned_pending_sessions_expire() {
    let now = 1_800_000_000_000_u64;
    let abandoned = now - PAIRING_LIFETIME_MS - 1_000;
    let mut pairing = PairingCode::from_code_with_age_at("123456".into(), 0, now).unwrap();
    let source = source("192.0.2.10");
    for _ in 0..MAX_PENDING_SESSIONS_PER_SOURCE {
        let (_, message) = client(b"123456");
        pairing
            .start_for_source_at(&message, source, abandoned)
            .unwrap();
    }
    let (_, message) = client(b"123456");
    assert!(pairing.start_for_source_at(&message, source, now).is_ok());

    let (client, message) = client(b"123456");
    let started = pairing.start_for_source_at(&message, source, now).unwrap();
    let shared = client.finish(&started.host_message).unwrap();
    let confirmation = confirm(&shared, &message, &started.host_message, &started.session_id);
    let result = pairing
        .finish_at(&started.session_id, &confirmation, &context(), now)
        .unwrap();
    pairing
        .commit_at(&started.session_id, &confirmation, result, now)
        .unwrap();
    let later = now + PAIRING_LIFETIME_MS + 1_000;
    assert!(matches!(
        pairing.finish_at(&started.session_id, &confirmation, &context(), later),
        Err(PairingError::Invalid)
    ));
    assert!(matches!(
        pairing.finish_at(&[7; 16], b"confirmation", &context(), later),
        Err(PairingError::Invalid)
    ));
}

#[test]
fn regeneration_invalidates_an_exchange_that_was_already_started() {
    let mut pairing = PairingCode::from_code("123456".into()).unwrap();
    let (client, message) = client(b"123456");
    let started = pairing.start(&message).unwrap();
    let shared = client.finish(&started.host_message).unwrap();
    let confirmation = confirm(&shared, &message, &started.host_message, &started.session_id);
    pairing.regenerate();

    assert!(matches!(
        pairing.finish(&started.session_id, &confirmation, &context()),
        Err(PairingError::Invalid)
    ));
}

#[test]
fn persisted_expired_code_does_not_revive() {
    let mut pairing = PairingCode::from_code_with_age("123456".into(), 301).unwrap();
    assert!(matches!(pairing.start(b"message"), Err(PairingError::Expired)));
}

#[test]
fn wrong_code_confirmation_never_returns_a_credential() {
    let mut pairing = PairingCode::from_code("123456".into()).unwrap();
    let (client, message) = client(b"999999");
    let started = pairing.start(&message).unwrap();
    let wrong_shared = client.finish(&started.host_message).unwrap();
    let confirmation = confirm(&wrong_shared, &message, &started.host_message, &started.session_id);
    assert!(matches!(
        pairing.finish(&started.session_id, &confirmation, &context()),
        Err(PairingError::Invalid)
    ));
}

#[test]
fn regeneration_invalidates_the_old_code_and_resets_expiration() {
    let mut pairing = PairingCode::from_code("123456".into()).unwrap();
    pairing.regenerate();

    assert_ne!(pairing.display_code(), "123456");
    assert!(pairing.expires_in() > 299_000);

    let (client, message) = client(b"123456");
    let started = pairing.start(&message).unwrap();
    let wrong_shared = client.finish(&started.host_message).unwrap();
    let confirmation = confirm(&wrong_shared, &message, &started.host_message, &started.session_id);
    assert!(matches!(
        pairing.finish(&started.session_id, &confirmation, &context()),
        Err(PairingError::Invalid)
    ));
}

#[test]
fn codes_must_be_six_digits() {
    assert!(matches!(PairingCode::from_code("12345".into()), Err(PairingError::Invalid)));
    assert!(matches!(PairingCode::from_code("1234567".into()), Err(PairingError::Invalid)));
    assert!(matches!(PairingCode::from_code("12345a".into()), Err(PairingError::Invalid)));
    assert_eq!(PairingCode::from_code("000000".into()).unwrap().display_code(), "000000");
}

#[test]
fn generated_codes_are_six_digits_with_a_full_lifetime() {
    let pairing = PairingCode::generate();
    assert_eq!(pairing.display_code().len(), 6);
    assert!(pairing.display_code().bytes().all(|b| b.is_ascii_digit()));
    assert!(pairing.expires_in() > 299_000);
}

#[test]
fn code_lifetime_counts_down_and_stops_at_zero() {
    let pairing = PairingCode::from_code_with_age_at("123456".into(), 10, 1_000_000).unwrap();
    assert_eq!(pairing.expires_in_at(1_000_000), 290_000);
    assert_eq!(pairing.expires_in_at(1_250_000), 40_000);
    assert_eq!(pairing.expires_in_at(1_290_000), 0);
    assert_eq!(pairing.expires_in_at(5_000_000), 0);
    let old = PairingCode::from_code_with_age_at("123456".into(), 100_000, 1_000_000).unwrap();
    assert_eq!(old.expires_in_at(1_000_000), 0);
}

#[test]
fn invalid_client_messages_and_session_ids_are_refused() {
    let mut pairing = PairingCode::from_code("123456".into()).unwrap();
    assert!(matches!(pairing.start(&[0x42; 33]), Err(PairingError::Invalid)));
    assert!(matches!(pairing.start(b"short"), Err(PairingError::Invalid)));
    assert!(matches!(
        pairing.finish(&[1; 15], b"x", &context()),
        Err(PairingError::Invalid)
    ));
    assert!(!pairing.is_completed(&[1; 16]));
    assert!(matches!(
        pairing.commit(&[1; 16], b"x", decky_power_host::pairing::PairingResult {
            host_message: Vec::new(),
            nonce: [0; 12],
            encrypted_credential: Vec::new(),
            credential: [0; 32],
        }),
        Err(PairingError::Invalid)
    ));
}

#[test]
fn credential_aad_binds_every_field_with_length_prefixes() {
    let aad = credential_aad(b"hm", b"sid", &context()).unwrap();
    let mut expected = b"deckymyrig-pairing-credential-aad-v1\0".to_vec();
    for field in [&b"hm"[..], b"sid", b"test-host", b"0.1.0", b"test-id"] {
        expected.extend_from_slice(&(field.len() as u16).to_be_bytes());
        expected.extend_from_slice(field);
    }
    expected.extend_from_slice(&1_u32.to_be_bytes());
    assert_eq!(aad, expected);
    let long = "x".repeat(70_000);
    assert!(matches!(
        credential_aad(
            b"hm",
            b"sid",
            &CredentialContext {
                hostname: &long,
                host_version: "0.1.0",
                protocol_version: 1,
                host_id: "id",
            }
        ),
        Err(PairingError::Invalid)
    ));
}

#[test]
fn pairing_errors_have_messages() {
    assert_eq!(PairingError::Expired.message(), "pairing code expired");
    assert_eq!(PairingError::RateLimited.message(), "too many pairing attempts");
}

#[test]
fn a_used_code_stays_expired_when_the_clock_steps_back() {
    let now = 1_800_000_000_000_u64;
    let (_, later_message) = client(b"123456");
    let mut pairing = PairingCode::from_code_with_age_at("123456".into(), 0, now).unwrap();
    let (client, message) = client(b"123456");
    let started = pairing.start_for_source_at(&message, None, now).unwrap();
    let shared = client.finish(&started.host_message).unwrap();
    let confirmation = confirm(&shared, &message, &started.host_message, &started.session_id);
    let result = pairing
        .finish_at(&started.session_id, &confirmation, &context(), now)
        .unwrap();
    pairing
        .commit_at(&started.session_id, &confirmation, result, now)
        .unwrap();
    assert!(matches!(
        pairing.start_for_source_at(&later_message, None, now - 2_000),
        Err(PairingError::Expired)
    ));
    assert!(matches!(
        pairing.start_for_source_at(&later_message, None, now + 1_000),
        Err(PairingError::Expired)
    ));
    assert_eq!(pairing.expires_in_at(now - 2_000), 0);
    assert_eq!(pairing.expires_in_at(now), 0);
}

#[test]
fn a_restored_expired_code_stays_expired_when_the_clock_steps_back() {
    let now = 1_800_000_000_000_u64;
    let (_, message) = client(b"123456");
    let mut pairing = PairingCode::from_code_with_age_at("123456".into(), 301, now).unwrap();
    assert_eq!(pairing.display_code(), "123456");
    assert_eq!(pairing.expires_in_at(now - 400_000), 0);
    assert!(matches!(
        pairing.start_for_source_at(&message, None, now - 400_000),
        Err(PairingError::Expired)
    ));
    let young = PairingCode::from_code_with_age_at("123456".into(), 300, now).unwrap();
    assert_eq!(young.expires_in_at(now), 0);
    assert_eq!(young.expires_in_at(now - 1_000), 1_000);
}

#[test]
fn the_next_code_skips_the_current_one() {
    let pairing = PairingCode::from_code("000005".into()).unwrap();
    assert_eq!(pairing.next_code_value(0), 0);
    assert_eq!(pairing.next_code_value(4), 4);
    assert_eq!(pairing.next_code_value(5), 6);
    assert_eq!(pairing.next_code_value(999_998), 999_999);
}

#[test]
fn a_code_found_expired_stays_expired_when_the_clock_steps_back() {
    let now = 1_800_000_000_000_u64;
    let (_, message) = client(b"123456");
    let mut pairing = PairingCode::from_code_with_age_at("123456".into(), 0, now).unwrap();
    assert_eq!(pairing.expires_in_at(now + 1_000), PAIRING_LIFETIME_MS - 1_000);
    assert!(matches!(
        pairing.start_for_source_at(&message, None, now + PAIRING_LIFETIME_MS + 1_000),
        Err(PairingError::Expired)
    ));
    assert!(matches!(
        pairing.start_for_source_at(&message, None, now + 1_000),
        Err(PairingError::Expired)
    ));
    assert_eq!(pairing.expires_in_at(now + 1_000), 0);
}

#[test]
fn the_code_clock_starts_at_its_creation_time_and_runs_forward() {
    let pairing = PairingCode::from_code_with_age_at("123456".into(), 0, 5_000_000).unwrap();
    let first = pairing.now_millis();
    let second = pairing.now_millis();
    assert!(first >= 5_000_000 && first < 5_060_000);
    assert!(second >= first);
    assert!(pairing.expires_in() <= PAIRING_LIFETIME_MS);
    assert!(pairing.expires_in() > PAIRING_LIFETIME_MS - 60_000);
}
