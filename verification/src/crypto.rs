//! The cryptographic, random and clock primitives the host relies on. Each one
//! is a thin trusted item over an established implementation; everything the
//! host builds from them is verified elsewhere in the crate.

use vstd::prelude::*;

use chacha20poly1305::aead::{Aead, Payload};
use chacha20poly1305::{ChaCha20Poly1305, Nonce};
use hkdf::Hkdf;
use hmac::{Hmac, Mac};
use rand::{Rng, RngCore};
use sha2::{Digest, Sha256};
use spake2::{Ed25519Group, Identity, Password, Spake2};

verus! {

/// SHA-256 of a byte string.
pub uninterp spec fn spec_sha256(data: Seq<u8>) -> Seq<u8>;

/// HMAC-SHA256 tag of `message` under `key`.
pub uninterp spec fn spec_hmac_sha256(key: Seq<u8>, message: Seq<u8>) -> Seq<u8>;

/// The first 32 output bytes of HKDF-SHA256 with no salt.
pub uninterp spec fn spec_hkdf_sha256(ikm: Seq<u8>, info: Seq<u8>) -> Seq<u8>;

/// ChaCha20-Poly1305 ciphertext followed by its tag.
pub uninterp spec fn spec_chacha20poly1305_seal(
    key: Seq<u8>,
    nonce: Seq<u8>,
    plaintext: Seq<u8>,
    aad: Seq<u8>,
) -> Seq<u8>;

/// ChaCha20-Poly1305 decryption: the plaintext, when the tag authenticates
/// the ciphertext and associated data under the key and nonce.
pub uninterp spec fn spec_chacha20poly1305_open(
    key: Seq<u8>,
    nonce: Seq<u8>,
    ciphertext: Seq<u8>,
    aad: Seq<u8>,
) -> Option<Seq<u8>>;

/// Whether 32 bytes decompress to an Edwards25519 point.
pub uninterp spec fn spec_edwards_point_decodes(bytes: Seq<u8>) -> bool;

/// A hexadecimal digit in lower case.
pub open spec fn lower_hex_digit(d: int) -> char {
    if d < 10 {
        ('0' as int + d) as char
    } else {
        ('a' as int + d - 10) as char
    }
}

/// Text form of the UUID with the given 128-bit value, as it is displayed:
/// its 32 hexadecimal digits in lower case, most significant first, grouped
/// 8-4-4-4-12 by hyphens.
pub open spec fn spec_uuid_text(id: u128) -> Seq<char> {
    Seq::new(
        36,
        |i: int|
            if i == 8 || i == 13 || i == 18 || i == 23 {
                '-'
            } else {
                let k = if i < 8 {
                    i
                } else if i < 13 {
                    i - 1
                } else if i < 18 {
                    i - 2
                } else if i < 23 {
                    i - 3
                } else {
                    i - 4
                };
                lower_hex_digit((id as int / vstd::arithmetic::power::pow(16, (31 - k) as nat)) % 16)
            },
    )
}

pub open spec fn is_hex_digit(c: char) -> bool {
    ('0' <= c && c <= '9') || ('a' <= c && c <= 'f') || ('A' <= c && c <= 'F')
}

pub open spec fn hex_value(c: char) -> int {
    if '0' <= c && c <= '9' {
        c as int - '0' as int
    } else if 'a' <= c && c <= 'f' {
        c as int - 'a' as int + 10
    } else {
        c as int - 'A' as int + 10
    }
}

/// Hexadecimal decoding: an even number of hex digits of either case, read in
/// pairs, high digit first.
pub open spec fn spec_hex_decode(text: Seq<char>) -> Option<Seq<u8>> {
    if text.len() % 2 == 0 && forall|i: int| 0 <= i < text.len() ==> is_hex_digit(#[trigger] text[i]) {
        Some(Seq::new(text.len() / 2, |i: int| (hex_value(text[2 * i]) * 16 + hex_value(text[2 * i + 1])) as u8))
    } else {
        None
    }
}

/// `sha2::Sha256::digest`: the SHA-256 digest of `data`.
#[verifier::external_body]
pub(crate) fn sha256(data: &[u8]) -> (digest: [u8; 32])
    ensures
        digest@ == spec_sha256(data@),
{
    Sha256::digest(data).into()
}

/// `hmac::Hmac::<Sha256>` keyed with `key`, fed `message`, finalized. The
/// keyed constructor accepts keys of every length (longer keys are hashed),
/// so the result is always present.
#[verifier::external_body]
pub(crate) fn hmac_sha256(key: &[u8], message: &[u8]) -> (tag: Option<[u8; 32]>)
    ensures
        tag is Some,
        tag matches Some(t) ==> t@ == spec_hmac_sha256(key@, message@),
{
    match <Hmac<Sha256> as Mac>::new_from_slice(key) {
        Ok(mut mac) => {
            mac.update(message);
            Some(mac.finalize().into_bytes().into())
        },
        Err(_) => None,
    }
}

/// `hmac::Mac::verify_slice` on HMAC-SHA256 keyed with `key` and fed
/// `message`: a constant-time check that `tag` is exactly the 32-byte tag.
#[verifier::external_body]
pub(crate) fn hmac_sha256_verify(key: &[u8], message: &[u8], tag: &[u8]) -> (valid: Option<bool>)
    ensures
        valid is Some,
        valid matches Some(v) ==> (v <==> tag@ == spec_hmac_sha256(key@, message@)),
{
    match <Hmac<Sha256> as Mac>::new_from_slice(key) {
        Ok(mut mac) => {
            mac.update(message);
            Some(mac.verify_slice(tag).is_ok())
        },
        Err(_) => None,
    }
}

/// `hkdf::Hkdf::<Sha256>::new(None, ikm).expand(info, ..)` into 32 bytes; the
/// expansion fails only for outputs longer than 255 hash blocks.
#[verifier::external_body]
pub(crate) fn hkdf_sha256_32(ikm: &[u8], info: &[u8]) -> (okm: Option<[u8; 32]>)
    ensures
        okm is Some,
        okm matches Some(k) ==> k@ == spec_hkdf_sha256(ikm@, info@),
{
    let mut okm = [0_u8; 32];
    match Hkdf::<Sha256>::new(None, ikm).expand(info, &mut okm) {
        Ok(()) => Some(okm),
        Err(_) => None,
    }
}

/// `chacha20poly1305::ChaCha20Poly1305::encrypt` of a 32-byte plaintext with
/// associated data. Encryption fails only for messages of 2^32 blocks or more.
#[verifier::external_body]
pub(crate) fn chacha20poly1305_seal(
    key: &[u8; 32],
    nonce: &[u8; 12],
    plaintext: &[u8; 32],
    aad: &[u8],
) -> (sealed: Option<Vec<u8>>)
    ensures
        sealed is Some,
        sealed matches Some(c) ==> c@ == spec_chacha20poly1305_seal(key@, nonce@, plaintext@, aad@),
{
    let cipher = <ChaCha20Poly1305 as chacha20poly1305::KeyInit>::new(key.into());
    match cipher.encrypt(Nonce::from_slice(nonce), Payload { msg: plaintext, aad }) {
        Ok(ciphertext) => Some(ciphertext),
        Err(_) => None,
    }
}

/// `chacha20poly1305::ChaCha20Poly1305::decrypt` with associated data: the
/// plaintext, or nothing when the ciphertext (with its tag) and the
/// associated data do not authenticate under the key and nonce.
#[verifier::external_body]
pub(crate) fn chacha20poly1305_open(
    key: &[u8; 32],
    nonce: &[u8; 12],
    ciphertext: &[u8],
    aad: &[u8],
) -> (opened: Option<Vec<u8>>)
    ensures
        match spec_chacha20poly1305_open(key@, nonce@, ciphertext@, aad@) {
            Some(p) => opened matches Some(v) && v@ == p,
            None => opened is None,
        },
{
    let cipher = <ChaCha20Poly1305 as chacha20poly1305::KeyInit>::new(key.into());
    cipher.decrypt(Nonce::from_slice(nonce), Payload { msg: ciphertext, aad }).ok()
}

/// The message `spake2::Spake2::<Ed25519Group>::start_b` sends for `password`
/// and the identities `id_a`, `id_b`, when its random scalar is `y` (32
/// little-endian bytes, taken modulo the group order): the side byte `B`
/// followed by the point `B*y + N*pw`.
pub uninterp spec fn spec_spake2_b_message(password: Seq<u8>, id_a: Seq<u8>, id_b: Seq<u8>, y: Seq<u8>) -> Seq<u8>;

/// The key `spake2::Spake2::finish` derives on side `B` from the peer message
/// `a_message`, for the same password, identities and scalar `y`.
pub uninterp spec fn spec_spake2_b_key(
    password: Seq<u8>,
    id_a: Seq<u8>,
    id_b: Seq<u8>,
    a_message: Seq<u8>,
    y: Seq<u8>,
) -> Seq<u8>;

/// The message `spake2::Spake2::<Ed25519Group>::start_a` sends for `password`
/// and the identities, when its random scalar is `x`: the side byte `A`
/// followed by the point `B*x + M*pw`.
pub uninterp spec fn spec_spake2_a_message(password: Seq<u8>, id_a: Seq<u8>, id_b: Seq<u8>, x: Seq<u8>) -> Seq<u8>;

/// The key `spake2::Spake2::finish` derives on side `A` from the peer message
/// `b_message`, for the same password, identities and scalar `x`.
pub uninterp spec fn spec_spake2_a_key(
    password: Seq<u8>,
    id_a: Seq<u8>,
    id_b: Seq<u8>,
    b_message: Seq<u8>,
    x: Seq<u8>,
) -> Seq<u8>;

/// The client side of a SPAKE2 exchange between `start_a` and `finish`.
#[verifier::external_body]
pub struct ClientExchange {
    state: Spake2<Ed25519Group>,
}

/// What a client exchange holds: the password, the two identities and its
/// random scalar.
pub uninterp spec fn spec_client_exchange(exchange: ClientExchange) -> (Seq<u8>, Seq<u8>, Seq<u8>, Seq<u8>);

/// `spake2::Spake2::<Ed25519Group>::start_b` with `password` and the two
/// identities, followed at once by `finish` on the peer's message (the state
/// between the two calls is consumed here, so both calls stand in this one
/// item). `finish` succeeds exactly when the peer message is 33 bytes, starts
/// with the side byte `A` (0x41), and its remaining 32 bytes decode to a
/// point. The host message and the key are then the ones named above for the
/// exchange's random scalar, which is not stated; the host message is the
/// side byte `B` (0x42) and a 32-byte point, the key a 32-byte SHA-256 digest.
#[verifier::external_body]
pub(crate) fn spake2_respond(
    password: &[u8],
    client_identity: &[u8],
    host_identity: &[u8],
    client_message: &[u8],
) -> (outcome: Option<(Vec<u8>, Vec<u8>)>)
    ensures
        outcome is Some <==> (client_message@.len() == 33 && client_message@[0] == 0x41u8
            && spec_edwards_point_decodes(client_message@.subrange(1, 33))),
        outcome matches Some(pair) ==> pair.0@.len() == 33 && pair.0@[0] == 0x42u8 && pair.1@.len()
            == 32,
        outcome matches Some(pair) ==> exists|y: Seq<u8>|
            pair.0@ == #[trigger] spec_spake2_b_message(password@, client_identity@, host_identity@, y)
                && pair.1@ == spec_spake2_b_key(password@, client_identity@, host_identity@, client_message@, y),
{
    let (state, host_message) = Spake2::<Ed25519Group>::start_b(
        &Password::new(password),
        &Identity::new(client_identity),
        &Identity::new(host_identity),
    );
    match state.finish(client_message) {
        Ok(shared) => Some((host_message, shared)),
        Err(_) => None,
    }
}

/// `spake2::Spake2::<Ed25519Group>::start_a` with `password` and the two
/// identities: the exchange, holding them and its random scalar, and the
/// message to send, the side byte `A` (0x41) and a 32-byte point.
#[verifier::external_body]
pub(crate) fn spake2_start_a(password: &[u8], client_identity: &[u8], host_identity: &[u8]) -> (r: (
    ClientExchange,
    Vec<u8>,
))
    ensures
        spec_client_exchange(r.0).0 == password@,
        spec_client_exchange(r.0).1 == client_identity@,
        spec_client_exchange(r.0).2 == host_identity@,
        r.1@ == spec_spake2_a_message(password@, client_identity@, host_identity@, spec_client_exchange(r.0).3),
        r.1@.len() == 33,
        r.1@[0] == 0x41u8,
{
    let (state, message) = Spake2::<Ed25519Group>::start_a(
        &Password::new(password),
        &Identity::new(client_identity),
        &Identity::new(host_identity),
    );
    (ClientExchange { state }, message)
}

/// `spake2::Spake2::finish` on the client side. It succeeds exactly when the
/// host message is 33 bytes, starts with the side byte `B` (0x42), and its
/// remaining 32 bytes decode to a point; the key is then the one named for
/// side `A`, a 32-byte SHA-256 digest. Both sides hash the same transcript of
/// password, identities, both points and the shared point, so when the host
/// message is the one side `B` sends for the same password and identities,
/// the key is the one side `B` derives from this exchange's message.
#[verifier::external_body]
pub(crate) fn spake2_finish_a(exchange: ClientExchange, host_message: &[u8]) -> (key: Option<Vec<u8>>)
    ensures
        key is Some <==> (host_message@.len() == 33 && host_message@[0] == 0x42u8
            && spec_edwards_point_decodes(host_message@.subrange(1, 33))),
        key matches Some(k) ==> ({
            let (password, id_a, id_b, x) = spec_client_exchange(exchange);
            &&& k@.len() == 32
            &&& k@ == spec_spake2_a_key(password, id_a, id_b, host_message@, x)
            &&& forall|y: Seq<u8>|
                host_message@ == #[trigger] spec_spake2_b_message(password, id_a, id_b, y) ==> k@
                    == spec_spake2_b_key(password, id_a, id_b, spec_spake2_a_message(password, id_a, id_b, x), y)
        }),
{
    exchange.state.finish(host_message).ok()
}

/// `rand::RngCore::fill_bytes` on the thread-local CSPRNG. Nothing is stated
/// of the bytes: they are random.
#[verifier::external_body]
pub(crate) fn fill_random(buffer: &mut [u8])
    ensures
        final(buffer)@.len() == old(buffer)@.len(),
{
    rand::rng().fill_bytes(buffer)
}

/// `rand::Rng::random_range(0..bound)` on the thread-local CSPRNG: a random
/// number below `bound` (an empty range panics, hence the precondition).
#[verifier::external_body]
pub(crate) fn random_below(bound: u32) -> (value: u32)
    requires
        bound > 0,
    ensures
        value < bound,
{
    rand::rng().random_range(0..bound)
}

/// `hex::decode` of a text: even length, hex digits of either case.
#[verifier::external_body]
pub(crate) fn hex_decode(text: &str) -> (bytes: Option<Vec<u8>>)
    ensures
        match spec_hex_decode(text@) {
            Some(b) => bytes matches Some(v) && v@ == b,
            None => bytes is None,
        },
{
    match hex::decode(text) {
        Ok(decoded) => Some(decoded),
        Err(_) => None,
    }
}

/// `uuid::Uuid::new_v4` as its 128-bit value. Random.
#[verifier::external_body]
pub(crate) fn new_host_id() -> (id: u128) {
    uuid::Uuid::new_v4().as_u128()
}

/// `uuid::Uuid::to_string` of `uuid::Uuid::from_u128(id)`: the hyphenated
/// lower-case text of the value's big-endian bytes.
#[verifier::external_body]
pub(crate) fn uuid_text(id: u128) -> (text: String)
    ensures
        text@ == spec_uuid_text(id),
{
    uuid::Uuid::from_u128(id).to_string()
}

/// `std::time::SystemTime::elapsed` of the Unix epoch, in milliseconds (zero
/// when the clock reads before the epoch). Nothing is stated: it is the clock.
#[verifier::external_body]
pub(crate) fn unix_millis() -> (millis: u64) {
    match std::time::UNIX_EPOCH.elapsed() {
        Ok(elapsed) => elapsed.as_millis() as u64,
        Err(_) => 0,
    }
}

/// The monotonic clock's instants.
#[verifier::external_type_specification]
#[verifier::external_body]
pub struct ExInstant(std::time::Instant);

/// `std::time::Instant::now`: the monotonic clock now. Nothing is stated: it
/// is the clock.
#[verifier::external_body]
pub(crate) fn monotonic_now() -> (instant: std::time::Instant) {
    std::time::Instant::now()
}

/// `std::time::Instant::elapsed` of `origin`, in whole milliseconds. Nothing
/// is stated: it is the clock, which never runs backwards.
#[verifier::external_body]
pub(crate) fn millis_since(origin: &std::time::Instant) -> (millis: u64) {
    origin.elapsed().as_millis() as u64
}

} // verus!
