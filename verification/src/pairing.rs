//! The pairing-code state machine: code lifetime, rate limits, SPAKE2 starts,
//! key confirmation, credential issue and the retry window for a completed
//! exchange.

use vstd::prelude::*;
use vstd::string::{StrSliceExecFns, StringExecFns, StringSliceAdditionalSpecFns};

use crate::bytes::{
    bytes_equal, length_prefixed, push_length_prefixed, push_u32_be, u32_be,
};
use crate::crypto::{
    chacha20poly1305_seal, fill_random, hkdf_sha256_32, hmac_sha256_verify, random_below,
    spake2_respond, spec_chacha20poly1305_seal, spec_spake2_b_key, spec_spake2_b_message, spec_edwards_point_decodes, spec_hkdf_sha256,
    spec_hmac_sha256, millis_since, monotonic_now, unix_millis,
};
use crate::decimal::{all_digits, decimal_value, digit_char, digit_text, digit_value, is_digit};

verus! {

/// How long a code, a pending exchange and a completed exchange live, in ms.
pub const PAIRING_LIFETIME_MS: u64 = 300_000;

/// Failed key confirmations after which a source may not start again.
pub const MAX_CONFIRMATION_FAILURES: u8 = 5;

/// Unconfirmed exchanges held at once, over all sources.
pub const MAX_PENDING_SESSIONS: usize = 128;

/// Unconfirmed exchanges held at once for one source address.
pub const MAX_PENDING_SESSIONS_PER_SOURCE: usize = 8;

/// Distinct sources whose confirmation failures are remembered.
pub const MAX_FAILURE_SOURCES: usize = 256;

#[derive(Debug, Clone, Copy, PartialEq, Eq, Structural)]
pub enum PairingError {
    Expired,
    RateLimited,
    Invalid,
    Encryption,
}

/// The human-readable description of a pairing error.
pub open spec fn pairing_error_text(e: PairingError) -> Seq<char> {
    match e {
        PairingError::Expired => "pairing code expired"@,
        PairingError::RateLimited => "too many pairing attempts"@,
        PairingError::Invalid => "invalid pairing exchange"@,
        PairingError::Encryption => "credential encryption failed"@,
    }
}

impl PairingError {
    /// The human-readable description of the error.
    pub fn message(&self) -> (text: &'static str)
        ensures
            text@ == pairing_error_text(*self),
    {
        match self {
            PairingError::Expired => "pairing code expired",
            PairingError::RateLimited => "too many pairing attempts",
            PairingError::Invalid => "invalid pairing exchange",
            PairingError::Encryption => "credential encryption failed",
        }
    }
}

/// The network address a pairing request came from.
#[derive(Debug, Clone, Copy, PartialEq, Eq, Structural)]
pub enum SourceAddress {
    V4(u32),
    V6(u128),
}

/// `decky-client`
pub open spec fn client_identity() -> Seq<u8> {
    seq![100u8, 101, 99, 107, 121, 45, 99, 108, 105, 101, 110, 116]
}

/// `decky-host`
pub open spec fn host_identity() -> Seq<u8> {
    seq![100u8, 101, 99, 107, 121, 45, 104, 111, 115, 116]
}

/// `deckymyrig-pairing-credential-v1`
pub open spec fn credential_info() -> Seq<u8> {
    seq![100u8, 101, 99, 107, 121, 109, 121, 114, 105, 103, 45, 112, 97, 105, 114, 105, 110, 103, 45, 99, 114, 101, 100, 101, 110, 116, 105, 97, 108, 45, 118, 49]
}

/// `deckymyrig-pairing-confirm-v1\0`
pub open spec fn confirmation_domain() -> Seq<u8> {
    seq![100u8, 101, 99, 107, 121, 109, 121, 114, 105, 103, 45, 112, 97, 105, 114, 105, 110, 103, 45, 99, 111, 110, 102, 105, 114, 109, 45, 118, 49, 0]
}

/// `deckymyrig-pairing-credential-aad-v1\0`
pub open spec fn credential_aad_domain() -> Seq<u8> {
    seq![100u8, 101, 99, 107, 121, 109, 121, 114, 105, 103, 45, 112, 97, 105, 114, 105, 110, 103, 45, 99, 114, 101, 100, 101, 110, 116, 105, 97, 108, 45, 97, 97, 100, 45, 118, 49, 0]
}

pub(crate) fn client_identity_bytes() -> (b: Vec<u8>)
    ensures
        b@ == client_identity(),
{
    let b: Vec<u8> = vec![100u8, 101, 99, 107, 121, 45, 99, 108, 105, 101, 110, 116];
    assert(b@ =~= client_identity());
    b
}

pub(crate) fn host_identity_bytes() -> (b: Vec<u8>)
    ensures
        b@ == host_identity(),
{
    let b: Vec<u8> = vec![100u8, 101, 99, 107, 121, 45, 104, 111, 115, 116];
    assert(b@ =~= host_identity());
    b
}

pub(crate) fn credential_info_bytes() -> (b: Vec<u8>)
    ensures
        b@ == credential_info(),
{
    let b: Vec<u8> = vec![100u8, 101, 99, 107, 121, 109, 121, 114, 105, 103, 45, 112, 97, 105, 114, 105, 110, 103, 45, 99, 114, 101, 100, 101, 110, 116, 105, 97, 108, 45, 118, 49];
    assert(b@ =~= credential_info());
    b
}

pub(crate) fn confirmation_domain_bytes() -> (b: Vec<u8>)
    ensures
        b@ == confirmation_domain(),
{
    let b: Vec<u8> = vec![100u8, 101, 99, 107, 121, 109, 121, 114, 105, 103, 45, 112, 97, 105, 114, 105, 110, 103, 45, 99, 111, 110, 102, 105, 114, 109, 45, 118, 49, 0];
    assert(b@ =~= confirmation_domain());
    b
}

fn credential_aad_domain_bytes() -> (b: Vec<u8>)
    ensures
        b@ == credential_aad_domain(),
{
    let b: Vec<u8> = vec![100u8, 101, 99, 107, 121, 109, 121, 114, 105, 103, 45, 112, 97, 105, 114, 105, 110, 103, 45, 99, 114, 101, 100, 101, 110, 116, 105, 97, 108, 45, 97, 97, 100, 45, 118, 49, 0];
    assert(b@ =~= credential_aad_domain());
    b
}

/// Identity metadata that the encrypted credential is bound to.
pub struct CredentialContext<'a> {
    pub hostname: &'a str,
    pub host_version: &'a str,
    pub protocol_version: u32,
    pub host_id: &'a str,
}

/// The associated data that binds the encrypted credential to the exchange
/// and to the host's identity metadata, or `None` when a field is too long
/// for its `u16` length prefix.
pub open spec fn spec_credential_aad(
    host_message: Seq<u8>,
    session_id: Seq<u8>,
    hostname: Seq<u8>,
    host_version: Seq<u8>,
    protocol_version: u32,
    host_id: Seq<u8>,
) -> Option<Seq<u8>> {
    if host_message.len() > u16::MAX || session_id.len() > u16::MAX || hostname.len() > u16::MAX
        || host_version.len() > u16::MAX || host_id.len() > u16::MAX {
        None
    } else {
        Some(
            credential_aad_domain() + length_prefixed(host_message) + length_prefixed(session_id)
                + length_prefixed(hostname) + length_prefixed(host_version) + length_prefixed(
                host_id,
            ) + u32_be(protocol_version),
        )
    }
}

pub open spec fn context_aad(
    host_message: Seq<u8>,
    session_id: Seq<u8>,
    context: CredentialContext<'_>,
) -> Option<Seq<u8>> {
    spec_credential_aad(
        host_message,
        session_id,
        context.hostname.spec_bytes(),
        context.host_version.spec_bytes(),
        context.protocol_version,
        context.host_id.spec_bytes(),
    )
}

/// Builds the associated data for the encrypted credential.
pub fn credential_aad(host_message: &[u8], session_id: &[u8], context: &CredentialContext<'_>) -> (r:
    Result<Vec<u8>, PairingError>)
    ensures
        match context_aad(host_message@, session_id@, *context) {
            Some(aad) => r matches Ok(v) && v@ == aad,
            None => r == Err::<Vec<u8>, PairingError>(PairingError::Invalid),
        },
{
    let mut aad = credential_aad_domain_bytes();
    if !push_length_prefixed(&mut aad, host_message) {
        return Err(PairingError::Invalid);
    }
    if !push_length_prefixed(&mut aad, session_id) {
        return Err(PairingError::Invalid);
    }
    if !push_length_prefixed(&mut aad, context.hostname.as_bytes()) {
        return Err(PairingError::Invalid);
    }
    if !push_length_prefixed(&mut aad, context.host_version.as_bytes()) {
        return Err(PairingError::Invalid);
    }
    if !push_length_prefixed(&mut aad, context.host_id.as_bytes()) {
        return Err(PairingError::Invalid);
    }
    push_u32_be(&mut aad, context.protocol_version);
    Ok(aad)
}

/// The six decimal digits of a number below one million, zero-padded.
pub open spec fn six_digits(value: nat) -> Seq<char> {
    Seq::new(6, |i: int| digit_char(((value / pow10((5 - i) as nat)) % 10) as nat))
}

pub open spec fn pow10(n: nat) -> nat
    decreases n,
{
    if n == 0 {
        1
    } else {
        10 * pow10((n - 1) as nat)
    }
}

/// A pairing code: exactly six decimal digits.
pub open spec fn is_pairing_code(code: Seq<char>) -> bool {
    code.len() == 6 && all_digits(code)
}

pub proof fn lemma_six_digits_are_a_code(value: nat)
    ensures
        is_pairing_code(six_digits(value)),
{
    assert forall|i: int| 0 <= i < 6 implies is_digit(#[trigger] six_digits(value)[i]) by {
        let d = ((value / pow10((5 - i) as nat)) % 10) as nat;
        assert(d < 10);
    }
}

/// Formats a number below one million as six zero-padded digits.
pub fn format_code(value: u32) -> (code: String)
    requires
        value < 1_000_000,
    ensures
        code@ == six_digits(value as nat),
        is_pairing_code(code@),
{
    let mut code = String::new();
    let mut divisor: u32 = 100_000;
    let mut i: usize = 0;
    proof {
        reveal_with_fuel(pow10, 7);
    }
    while i < 6
        invariant
            i <= 6,
            value < 1_000_000,
            divisor as nat == pow10((5 - i) as nat) || (i == 6),
            code@ == six_digits(value as nat).subrange(0, i as int),
        decreases 6 - i,
    {
        proof {
            reveal_with_fuel(pow10, 7);
        }
        let digit = (value / divisor) % 10;
        code.append(digit_text(digit));
        assert(code@ =~= six_digits(value as nat).subrange(0, i + 1));
        if i < 5 {
            divisor = divisor / 10;
        }
        i = i + 1;
    }
    assert(code@ =~= six_digits(value as nat));
    proof {
        lemma_six_digits_are_a_code(value as nat);
    }
    code
}

/// An exchange whose host message was sent and whose confirmation is awaited.
pub struct PendingPairing {
    pub session_id: [u8; 16],
    pub shared: Vec<u8>,
    pub client_message: Vec<u8>,
    pub host_message: Vec<u8>,
    pub created: u64,
    pub source: Option<SourceAddress>,
}

pub ghost struct PendingView {
    pub session_id: Seq<u8>,
    pub shared: Seq<u8>,
    pub client_message: Seq<u8>,
    pub host_message: Seq<u8>,
    pub created: u64,
    pub source: Option<SourceAddress>,
}

impl View for PendingPairing {
    type V = PendingView;

    open spec fn view(&self) -> PendingView {
        PendingView {
            session_id: self.session_id@,
            shared: self.shared@,
            client_message: self.client_message@,
            host_message: self.host_message@,
            created: self.created,
            source: self.source,
        }
    }
}

/// The host's answer to the first pairing request.
pub struct PairingStart {
    pub host_message: Vec<u8>,
    pub session_id: [u8; 16],
}

/// The issued credential, encrypted for the client, with the values it was
/// bound to.
pub struct PairingResult {
    pub host_message: Vec<u8>,
    pub nonce: [u8; 12],
    pub encrypted_credential: Vec<u8>,
    pub credential: [u8; 32],
}

pub ghost struct PairingResultView {
    pub host_message: Seq<u8>,
    pub nonce: Seq<u8>,
    pub encrypted_credential: Seq<u8>,
    pub credential: Seq<u8>,
}

impl View for PairingResult {
    type V = PairingResultView;

    open spec fn view(&self) -> PairingResultView {
        PairingResultView {
            host_message: self.host_message@,
            nonce: self.nonce@,
            encrypted_credential: self.encrypted_credential@,
            credential: self.credential@,
        }
    }
}

impl PairingResult {
    /// An identical copy.
    pub fn duplicate(&self) -> (copy: PairingResult)
        ensures
            copy@ == self@,
    {
        PairingResult {
            host_message: vstd::slice::slice_to_vec(self.host_message.as_slice()),
            nonce: self.nonce,
            encrypted_credential: vstd::slice::slice_to_vec(self.encrypted_credential.as_slice()),
            credential: self.credential,
        }
    }
}

/// A confirmed exchange, kept so that an identical retry gets the same answer.
pub struct CompletedPairing {
    pub session_id: [u8; 16],
    pub confirmation: Vec<u8>,
    pub result: PairingResult,
    pub created: u64,
}

pub ghost struct CompletedView {
    pub session_id: Seq<u8>,
    pub confirmation: Seq<u8>,
    pub result: PairingResultView,
    pub created: u64,
}

impl View for CompletedPairing {
    type V = CompletedView;

    open spec fn view(&self) -> CompletedView {
        CompletedView {
            session_id: self.session_id@,
            confirmation: self.confirmation@,
            result: self.result@,
            created: self.created,
        }
    }
}

/// Failed confirmations counted for one source.
pub struct FailureCount {
    pub source: Option<SourceAddress>,
    pub count: u8,
}

/// The current code and everything its exchanges have left behind.
pub struct PairingCode {
    code: String,
    created: u64,
    spent: bool,
    clock: std::time::Instant,
    clock_base: u64,
    confirmation_failures: Vec<FailureCount>,
    pending: Vec<PendingPairing>,
    completed: Vec<CompletedPairing>,
}

pub ghost struct PairingCodeView {
    pub code: Seq<char>,
    pub created: u64,
    pub spent: bool,
    pub failures: Seq<(Option<SourceAddress>, u8)>,
    pub pending: Seq<PendingView>,
    pub completed: Seq<CompletedView>,
}

impl View for PairingCode {
    type V = PairingCodeView;

    closed spec fn view(&self) -> PairingCodeView {
        PairingCodeView {
            code: self.code@,
            created: self.created,
            spent: self.spent,
            failures: Seq::new(
                self.confirmation_failures@.len(),
                |i: int| (self.confirmation_failures@[i].source, self.confirmation_failures@[i].count),
            ),
            pending: Seq::new(self.pending@.len(), |i: int| self.pending@[i]@),
            completed: Seq::new(self.completed@.len(), |i: int| self.completed@[i]@),
        }
    }
}

/// Milliseconds of lifetime left at `now` (ms) for a code created at
/// `created`: the whole lifetime for a creation time in the future, nothing
/// once it has run out.
pub open spec fn remaining_ms(created: u64, now: u64) -> u64 {
    if now <= created {
        PAIRING_LIFETIME_MS
    } else if now - created >= PAIRING_LIFETIME_MS {
        0
    } else {
        (PAIRING_LIFETIME_MS - (now - created)) as u64
    }
}

/// Whether something created at `created` is still alive at `now` (ms).
pub open spec fn alive(created: u64, now: u64) -> bool {
    now <= created + PAIRING_LIFETIME_MS
}

/// Whether the code still accepts new exchanges at `now` (ms): it was
/// neither used nor restored past its lifetime, and it is within its
/// lifetime.
pub open spec fn code_alive(v: PairingCodeView, now: u64) -> bool {
    !v.spent && alive(v.created, now)
}

/// Milliseconds the code has left at `now` (ms): nothing once it is spent.
pub open spec fn code_remaining_ms(v: PairingCodeView, now: u64) -> u64 {
    if v.spent {
        0
    } else {
        remaining_ms(v.created, now)
    }
}

/// The table of a code restored at `now` (ms) when it was already
/// `age_secs` seconds old: aged by at most just past the lifetime, spent
/// outright when older than the lifetime, with no exchange and no failure.
pub open spec fn restored_code(code: Seq<char>, age_secs: u64, now: u64) -> PairingCodeView {
    PairingCodeView {
        code,
        created: now.saturating_sub(if age_secs <= 301 { (age_secs * 1000) as u64 } else { 301_000 }),
        spent: age_secs > 300,
        failures: Seq::empty(),
        pending: Seq::empty(),
        completed: Seq::empty(),
    }
}

pub open spec fn live_pending(s: Seq<PendingView>, now: u64) -> Seq<PendingView>
    decreases s.len(),
{
    if s.len() == 0 {
        s
    } else if alive(s.last().created, now) {
        live_pending(s.drop_last(), now).push(s.last())
    } else {
        live_pending(s.drop_last(), now)
    }
}

pub open spec fn live_completed(s: Seq<CompletedView>, now: u64) -> Seq<CompletedView>
    decreases s.len(),
{
    if s.len() == 0 {
        s
    } else if alive(s.last().created, now) {
        live_completed(s.drop_last(), now).push(s.last())
    } else {
        live_completed(s.drop_last(), now)
    }
}

/// The state with expired pending and completed exchanges dropped.
pub open spec fn pruned(v: PairingCodeView, now: u64) -> PairingCodeView {
    PairingCodeView {
        pending: live_pending(v.pending, now),
        completed: live_completed(v.completed, now),
        ..v
    }
}

pub open spec fn pending_index(s: Seq<PendingView>, session_id: Seq<u8>, from: int) -> int
    decreases s.len() - from,
{
    if from >= s.len() {
        s.len() as int
    } else if s[from].session_id == session_id {
        from
    } else {
        pending_index(s, session_id, from + 1)
    }
}

pub open spec fn completed_index(s: Seq<CompletedView>, session_id: Seq<u8>, from: int) -> int
    decreases s.len() - from,
{
    if from >= s.len() {
        s.len() as int
    } else if s[from].session_id == session_id {
        from
    } else {
        completed_index(s, session_id, from + 1)
    }
}

pub open spec fn failure_index(
    f: Seq<(Option<SourceAddress>, u8)>,
    source: Option<SourceAddress>,
    from: int,
) -> int
    decreases f.len() - from,
{
    if from >= f.len() {
        f.len() as int
    } else if f[from].0 == source {
        from
    } else {
        failure_index(f, source, from + 1)
    }
}

/// Failed confirmations remembered for `source`.
pub open spec fn failure_count(f: Seq<(Option<SourceAddress>, u8)>, source: Option<SourceAddress>) -> u8 {
    let i = failure_index(f, source, 0);
    if i < f.len() {
        f[i].1
    } else {
        0
    }
}

/// The failure memory after one more failure from `source`.
pub open spec fn failure_recorded(
    f: Seq<(Option<SourceAddress>, u8)>,
    source: Option<SourceAddress>,
) -> Seq<(Option<SourceAddress>, u8)> {
    let i = failure_index(f, source, 0);
    if i < f.len() {
        f.update(i, (source, if f[i].1 == 255 { 255u8 } else { (f[i].1 + 1) as u8 }))
    } else {
        f.push((source, 1u8))
    }
}

/// Pending exchanges started from `source`.
pub open spec fn pending_from(s: Seq<PendingView>, source: Option<SourceAddress>) -> nat
    decreases s.len(),
{
    if s.len() == 0 {
        0
    } else {
        pending_from(s.drop_last(), source) + if s.last().source == source {
            1nat
        } else {
            0nat
        }
    }
}

/// Whether a new exchange from `source` is refused as rate limited.
pub open spec fn start_refused(v: PairingCodeView, source: Option<SourceAddress>) -> bool {
    ||| failure_count(v.failures, source) >= MAX_CONFIRMATION_FAILURES
    ||| (failure_index(v.failures, source, 0) >= v.failures.len() && v.failures.len()
        >= MAX_FAILURE_SOURCES)
    ||| v.pending.len() >= MAX_PENDING_SESSIONS
    ||| (source is Some && pending_from(v.pending, source) >= MAX_PENDING_SESSIONS_PER_SOURCE)
}

/// Whether SPAKE2 accepts a client message.
pub open spec fn spake2_message_accepted(message: Seq<u8>) -> bool {
    message.len() == 33 && message[0] == 0x41u8 && spec_edwards_point_decodes(
        message.subrange(1, 33),
    )
}

/// The password of a code's SPAKE2 exchanges: the bytes of its text.
pub open spec fn code_password(code: Seq<char>) -> Seq<u8> {
    vstd::utf8::encode_utf8(code)
}

/// The host's SPAKE2 message and key for `client_message` under `code`, when
/// the exchange's random scalar is `y`: side `B` of an exchange whose
/// password is the code and whose identities are the client's and the
/// host's.
pub open spec fn host_exchange(code: Seq<char>, client_message: Seq<u8>, y: Seq<u8>) -> (Seq<u8>, Seq<u8>) {
    (
        spec_spake2_b_message(code_password(code), client_identity(), host_identity(), y),
        spec_spake2_b_key(code_password(code), client_identity(), host_identity(), client_message, y),
    )
}

/// The answer and code table of a start at `now` (ms) from `before`: refused as
/// expired once the code is spent or past its lifetime, which marks it spent
/// and prunes nothing; otherwise,
/// after pruning, refused as rate limited or invalid, or answered with a
/// 33-byte host message and a new pending exchange under the returned
/// session id.
pub open spec fn start_outcome(
    before: PairingCodeView,
    after: PairingCodeView,
    r: Result<PairingStart, PairingError>,
    client_message: Seq<u8>,
    source: Option<SourceAddress>,
    now: u64,
) -> bool {
    if !code_alive(before, now) {
        r == Err::<PairingStart, PairingError>(PairingError::Expired) && after == PairingCodeView {
            spent: true,
            ..before
        }
    } else {
        let p = pruned(before, now);
        if start_refused(p, source) {
            r == Err::<PairingStart, PairingError>(PairingError::RateLimited) && after == p
        } else if !spake2_message_accepted(client_message) {
            r == Err::<PairingStart, PairingError>(PairingError::Invalid) && after == p
        } else {
            &&& r is Ok
            &&& r->Ok_0.host_message@.len() == 33
            &&& exists|y: Seq<u8>|
                r->Ok_0.host_message@ == #[trigger] host_exchange(p.code, client_message, y).0 && host_exchange(p.code, client_message, y).1.len() == 32
                    && after == PairingCodeView {
                    pending: pending_inserted(
                        p.pending,
                        PendingView {
                            session_id: r->Ok_0.session_id@,
                            shared: host_exchange(p.code, client_message, y).1,
                            client_message,
                            host_message: r->Ok_0.host_message@,
                            created: now,
                            source,
                        },
                    ),
                    ..p
                }
        }
    }
}

/// Pending exchanges after recording `entry`, replacing one with its session.
pub open spec fn pending_inserted(s: Seq<PendingView>, entry: PendingView) -> Seq<PendingView> {
    let i = pending_index(s, entry.session_id, 0);
    if i < s.len() {
        s.update(i, entry)
    } else {
        s.push(entry)
    }
}

/// The bytes the client's key confirmation is a tag of.
pub open spec fn confirmation_message(e: PendingView) -> Seq<u8> {
    confirmation_domain() + e.client_message + e.host_message + e.session_id
}

pub open spec fn distinct_sessions(s: Seq<PendingView>) -> bool {
    forall|i: int, j: int| 0 <= i < j < s.len() ==> s[i].session_id != s[j].session_id
}

pub open spec fn distinct_completed(s: Seq<CompletedView>) -> bool {
    forall|i: int, j: int| 0 <= i < j < s.len() ==> s[i].session_id != s[j].session_id
}

pub open spec fn distinct_sources(f: Seq<(Option<SourceAddress>, u8)>) -> bool {
    forall|i: int, j: int| 0 <= i < j < f.len() ==> f[i].0 != f[j].0
}

impl PairingCodeView {
    /// The code is six digits and every table holds each key at most once.
    pub open spec fn wf(self) -> bool {
        &&& is_pairing_code(self.code)
        &&& distinct_sessions(self.pending)
        &&& distinct_completed(self.completed)
        &&& distinct_sources(self.failures)
    }
}

impl PairingCode {
    pub open spec fn wf(&self) -> bool {
        self@.wf()
    }

    /// A fresh code from a number below one million, created at `now` (ms).
    pub fn with_value_at(value: u32, now: u64) -> (code: Self)
        requires
            value < 1_000_000,
        ensures
            code@.code == six_digits(value as nat),
            code@.created == now,
            !code@.spent,
            code@.failures.len() == 0,
            code@.pending.len() == 0,
            code@.completed.len() == 0,
            code.wf(),
    {
        let code = PairingCode {
            code: format_code(value),
            created: now,
            spent: false,
            clock: monotonic_now(),
            clock_base: now,
            confirmation_failures: Vec::new(),
            pending: Vec::new(),
            completed: Vec::new(),
        };
        assert(code@.failures =~= Seq::<(Option<SourceAddress>, u8)>::empty());
        assert(code@.pending =~= Seq::<PendingView>::empty());
        assert(code@.completed =~= Seq::<CompletedView>::empty());
        code
    }

    /// A fresh random code. Nothing is stated of which code: it is random.
    pub fn generate() -> (code: Self)
        ensures
            code@.failures.len() == 0,
            code@.pending.len() == 0,
            code@.completed.len() == 0,
            code.wf(),
    {
        let value = random_below(1_000_000);
        Self::with_value_at(value, unix_millis())
    }

    /// Restores a code that was already `age_secs` seconds old at `now` (ms);
    /// refuses anything but six decimal digits.
    pub fn from_code_with_age_at(code: String, age_secs: u64, now: u64) -> (r: Result<Self, PairingError>)
        ensures
            is_pairing_code(code@) ==> (r matches Ok(p) && p.wf() && p@ == restored_code(code@, age_secs, now)),
            !is_pairing_code(code@) ==> r == Err::<Self, PairingError>(PairingError::Invalid),
    {
        let n = code.as_str().unicode_len();
        if n != 6 {
            return Err(PairingError::Invalid);
        }
        let mut i: usize = 0;
        while i < 6
            invariant
                i <= 6,
                code@.len() == 6,
                all_digits(code@.subrange(0, i as int)),
            decreases 6 - i,
        {
            let c = code.as_str().get_char(i);
            if !('0' <= c && c <= '9') {
                assert(!is_digit(code@[i as int]));
                return Err(PairingError::Invalid);
            }
            assert(code@.subrange(0, i + 1) =~= code@.subrange(0, i as int).push(c));
            i = i + 1;
        }
        assert(code@.subrange(0, 6) =~= code@);
        let age_ms = if age_secs <= 301 {
            age_secs * 1000
        } else {
            301_000
        };
        let p = PairingCode {
            code,
            created: now.saturating_sub(age_ms),
            spent: age_secs > 300,
            clock: monotonic_now(),
            clock_base: now,
            confirmation_failures: Vec::new(),
            pending: Vec::new(),
            completed: Vec::new(),
        };
        assert(p@.failures =~= Seq::<(Option<SourceAddress>, u8)>::empty());
        assert(p@.pending =~= Seq::<PendingView>::empty());
        assert(p@.completed =~= Seq::<CompletedView>::empty());
        assert(p@ =~= restored_code(code@, age_secs, now));
        Ok(p)
    }

    /// Restores a code that was already `age_secs` seconds old.
    pub fn from_code_with_age(code: String, age_secs: u64) -> (r: Result<Self, PairingError>)
        ensures
            is_pairing_code(code@) ==> (r matches Ok(p) && p.wf() && exists|now: u64|
                p@ == #[trigger] restored_code(code@, age_secs, now)),
            !is_pairing_code(code@) ==> r == Err::<Self, PairingError>(PairingError::Invalid),
    {
        let now = unix_millis();
        let r = Self::from_code_with_age_at(code, age_secs, now);
        assert(r matches Ok(p) ==> p@ == restored_code(p@.code, age_secs, now));
        r
    }

    /// Takes a code as new.
    pub fn from_code(code: String) -> (r: Result<Self, PairingError>)
        ensures
            is_pairing_code(code@) ==> (r matches Ok(p) && p.wf() && exists|now: u64|
                p@ == #[trigger] restored_code(code@, 0, now)),
            !is_pairing_code(code@) ==> r == Err::<Self, PairingError>(PairingError::Invalid),
    {
        Self::from_code_with_age(code, 0)
    }

    /// The reading of the code's clock, in ms: the time the monotonic clock
    /// has run since the code was made, counted from the `now` it was made at,
    /// so that it never runs backwards whatever the wall clock does.
    pub fn now_millis(&self) -> (now: u64) {
        self.clock_base.saturating_add(millis_since(&self.clock))
    }

    /// The code as shown to the user.
    pub fn display_code(&self) -> (code: &str)
        ensures
            code@ == self@.code,
    {
        self.code.as_str()
    }

    /// Milliseconds left before the code expires, at `now` (ms).
    pub fn expires_in_at(&self, now: u64) -> (left: u64)
        ensures
            left == code_remaining_ms(self@, now),
    {
        if self.spent {
            return 0;
        }
        let elapsed = now.saturating_sub(self.created);
        PAIRING_LIFETIME_MS.saturating_sub(elapsed)
    }

    /// Milliseconds left before the code expires.
    pub fn expires_in(&self) -> (left: u64)
        ensures
            left <= PAIRING_LIFETIME_MS,
            exists|now: u64| left == #[trigger] code_remaining_ms(self@, now),
    {
        let now = self.now_millis();
        let left = self.expires_in_at(now);
        assert(left == code_remaining_ms(self@, now));
        left
    }

    fn prune(&mut self, now: u64)
        requires
            old(self).wf(),
        ensures
            final(self)@ == pruned(old(self)@, now),
            final(self).wf(),
    {
        let ghost initial = self@;
        let mut pending = Vec::new();
        std::mem::swap(&mut pending, &mut self.pending);
        let mut kept: Vec<PendingPairing> = Vec::new();
        while pending.len() > 0
            invariant
                live_pending(initial.pending, now) == live_pending(
                    Seq::new(pending@.len(), |i: int| pending@[i]@),
                    now,
                ) + Seq::new(kept@.len(), |i: int| kept@[i]@),
            decreases pending@.len(),
        {
            let ghost before = Seq::new(pending@.len(), |i: int| pending@[i]@);
            let ghost kept_before = Seq::new(kept@.len(), |i: int| kept@[i]@);
            let entry = pending.pop().unwrap();
            assert(Seq::new(pending@.len(), |i: int| pending@[i]@) =~= before.drop_last());
            if now.saturating_sub(entry.created) <= PAIRING_LIFETIME_MS {
                kept.insert(0, entry);
                assert(Seq::new(kept@.len(), |i: int| kept@[i]@) =~= seq![before.last()] + kept_before);
            }
        }
        assert(Seq::new(pending@.len(), |i: int| pending@[i]@) =~= Seq::<PendingView>::empty());
        self.pending = kept;
        let mut completed = Vec::new();
        std::mem::swap(&mut completed, &mut self.completed);
        let mut kept_completed: Vec<CompletedPairing> = Vec::new();
        while completed.len() > 0
            invariant
                live_completed(initial.completed, now) == live_completed(
                    Seq::new(completed@.len(), |i: int| completed@[i]@),
                    now,
                ) + Seq::new(kept_completed@.len(), |i: int| kept_completed@[i]@),
            decreases completed@.len(),
        {
            let ghost before = Seq::new(completed@.len(), |i: int| completed@[i]@);
            let ghost kept_before = Seq::new(kept_completed@.len(), |i: int| kept_completed@[i]@);
            let entry = completed.pop().unwrap();
            assert(Seq::new(completed@.len(), |i: int| completed@[i]@) =~= before.drop_last());
            if now.saturating_sub(entry.created) <= PAIRING_LIFETIME_MS {
                kept_completed.insert(0, entry);
                assert(Seq::new(kept_completed@.len(), |i: int| kept_completed@[i]@) =~= seq![
                    before.last(),
                ] + kept_before);
            }
        }
        assert(Seq::new(completed@.len(), |i: int| completed@[i]@) =~= Seq::<CompletedView>::empty());
        self.completed = kept_completed;
        assert(self@.pending =~= live_pending(initial.pending, now));
        assert(self@.completed =~= live_completed(initial.completed, now));
        assert(self@ =~= pruned(initial, now));
        proof {
            lemma_live_pending_sub(initial.pending, now);
            lemma_live_completed_sub(initial.completed, now);
        }
    }
}

/// Every live pending exchange is one of the initial ones, in order.
proof fn lemma_live_pending_sub(s: Seq<PendingView>, now: u64)
    requires
        distinct_sessions(s),
    ensures
        distinct_sessions(live_pending(s, now)),
        forall|k: int| 0 <= k < live_pending(s, now).len() ==> s.contains(#[trigger] live_pending(s, now)[k]),
    decreases s.len(),
{
    if s.len() > 0 {
        let rest = s.drop_last();
        assert(distinct_sessions(rest));
        lemma_live_pending_sub(rest, now);
        let l = live_pending(rest, now);
        assert forall|k: int| 0 <= k < l.len() implies #[trigger] l[k].session_id != s.last().session_id by {
            assert(rest.contains(l[k]));
            let m = choose|m: int| 0 <= m < rest.len() && rest[m] == l[k];
            assert(s[m] == rest[m]);
        }
        if alive(s.last().created, now) {
            assert forall|k: int| 0 <= k < live_pending(s, now).len() implies s.contains(
                #[trigger] live_pending(s, now)[k],
            ) by {
                if k < l.len() {
                    assert(rest.contains(l[k]));
                    let m = choose|m: int| 0 <= m < rest.len() && rest[m] == l[k];
                    assert(s[m] == rest[m]);
                } else {
                    assert(s[s.len() - 1] == s.last());
                }
            }
        } else {
            assert forall|k: int| 0 <= k < l.len() implies s.contains(#[trigger] l[k]) by {
                assert(rest.contains(l[k]));
                let m = choose|m: int| 0 <= m < rest.len() && rest[m] == l[k];
                assert(s[m] == rest[m]);
            }
        }
    }
}

proof fn lemma_live_completed_sub(s: Seq<CompletedView>, now: u64)
    requires
        distinct_completed(s),
    ensures
        distinct_completed(live_completed(s, now)),
        forall|k: int| 0 <= k < live_completed(s, now).len() ==> s.contains(#[trigger] live_completed(s, now)[k]),
    decreases s.len(),
{
    if s.len() > 0 {
        let rest = s.drop_last();
        assert(distinct_completed(rest));
        lemma_live_completed_sub(rest, now);
        let l = live_completed(rest, now);
        assert forall|k: int| 0 <= k < l.len() implies #[trigger] l[k].session_id != s.last().session_id by {
            assert(rest.contains(l[k]));
            let m = choose|m: int| 0 <= m < rest.len() && rest[m] == l[k];
            assert(s[m] == rest[m]);
        }
        if alive(s.last().created, now) {
            assert forall|k: int| 0 <= k < live_completed(s, now).len() implies s.contains(
                #[trigger] live_completed(s, now)[k],
            ) by {
                if k < l.len() {
                    assert(rest.contains(l[k]));
                    let m = choose|m: int| 0 <= m < rest.len() && rest[m] == l[k];
                    assert(s[m] == rest[m]);
                } else {
                    assert(s[s.len() - 1] == s.last());
                }
            }
        } else {
            assert forall|k: int| 0 <= k < l.len() implies s.contains(#[trigger] l[k]) by {
                assert(rest.contains(l[k]));
                let m = choose|m: int| 0 <= m < rest.len() && rest[m] == l[k];
                assert(s[m] == rest[m]);
            }
        }
    }
}

#[verifier::spinoff_prover]
#[verifier::rlimit(50)]
proof fn lemma_six_digits_value(v: nat)
    requires
        v < 1_000_000,
    ensures
        decimal_value(six_digits(v)) == v,
{
    reveal_with_fuel(pow10, 7);
    reveal_with_fuel(decimal_value, 7);
    let s = six_digits(v);
    assert(s.drop_last().drop_last().drop_last().drop_last().drop_last().drop_last() =~= Seq::<char>::empty());
    let d0 = (v / 100000) % 10;
    let d1 = (v / 10000) % 10;
    let d2 = (v / 1000) % 10;
    let d3 = (v / 100) % 10;
    let d4 = (v / 10) % 10;
    let d5 = v % 10;
    assert(digit_value(s[0]) == d0);
    assert(digit_value(s[1]) == d1);
    assert(digit_value(s[2]) == d2);
    assert(digit_value(s[3]) == d3);
    assert(digit_value(s[4]) == d4);
    assert(v / 1 == v) by (nonlinear_arith);
    assert(digit_value(s[5]) == d5);
    assert(v == 10 * (v / 10) + v % 10);
    assert(v / 10 == 10 * (v / 100) + (v / 10) % 10);
    assert(v / 100 == 10 * (v / 1000) + (v / 100) % 10);
    assert(v / 1000 == 10 * (v / 10000) + (v / 1000) % 10);
    assert(v / 10000 == 10 * (v / 100000) + (v / 10000) % 10);
    assert(v / 100000 < 10);
    assert((v / 100000) % 10 == v / 100000);
    assert(((((d0 * 10 + d1) * 10 + d2) * 10 + d3) * 10 + d4) * 10 + d5 == v);
}

proof fn lemma_decimal_bound(s: Seq<char>)
    requires
        all_digits(s),
    ensures
        decimal_value(s) < pow10(s.len()),
    decreases s.len(),
{
    if s.len() > 0 {
        lemma_decimal_bound(s.drop_last());
        assert(is_digit(s[s.len() - 1]));
    }
}

proof fn lemma_pending_index(s: Seq<PendingView>, id: Seq<u8>, from: int)
    requires
        0 <= from <= s.len(),
    ensures
        from <= pending_index(s, id, from) <= s.len(),
        pending_index(s, id, from) < s.len() ==> s[pending_index(s, id, from)].session_id == id,
        forall|k: int| from <= k < pending_index(s, id, from) ==> s[k].session_id != id,
    decreases s.len() - from,
{
    if from < s.len() && s[from].session_id != id {
        lemma_pending_index(s, id, from + 1);
    }
}

proof fn lemma_completed_index(s: Seq<CompletedView>, id: Seq<u8>, from: int)
    requires
        0 <= from <= s.len(),
    ensures
        from <= completed_index(s, id, from) <= s.len(),
        completed_index(s, id, from) < s.len() ==> s[completed_index(s, id, from)].session_id == id,
        forall|k: int| from <= k < completed_index(s, id, from) ==> s[k].session_id != id,
    decreases s.len() - from,
{
    if from < s.len() && s[from].session_id != id {
        lemma_completed_index(s, id, from + 1);
    }
}

proof fn lemma_failure_index(f: Seq<(Option<SourceAddress>, u8)>, source: Option<SourceAddress>, from: int)
    requires
        0 <= from <= f.len(),
    ensures
        from <= failure_index(f, source, from) <= f.len(),
        failure_index(f, source, from) < f.len() ==> f[failure_index(f, source, from)].0 == source,
        forall|k: int| from <= k < failure_index(f, source, from) ==> f[k].0 != source,
    decreases f.len() - from,
{
    if from < f.len() && f[from].0 != source {
        lemma_failure_index(f, source, from + 1);
    }
}

proof fn lemma_pending_inserted_distinct(s: Seq<PendingView>, entry: PendingView)
    requires
        distinct_sessions(s),
    ensures
        distinct_sessions(pending_inserted(s, entry)),
{
    lemma_pending_index(s, entry.session_id, 0);
}

proof fn lemma_failure_recorded_distinct(f: Seq<(Option<SourceAddress>, u8)>, source: Option<SourceAddress>)
    requires
        distinct_sources(f),
    ensures
        distinct_sources(failure_recorded(f, source)),
{
    lemma_failure_index(f, source, 0);
}

fn same_source(a: Option<SourceAddress>, b: Option<SourceAddress>) -> (same: bool)
    ensures
        same == (a == b),
{
    match (a, b) {
        (None, None) => true,
        (Some(SourceAddress::V4(x)), Some(SourceAddress::V4(y))) => x == y,
        (Some(SourceAddress::V6(x)), Some(SourceAddress::V6(y))) => x == y,
        _ => false,
    }
}

impl PairingCode {
    fn find_pending(&self, session_id: &[u8]) -> (index: usize)
        ensures
            index as int == pending_index(self@.pending, session_id@, 0),
    {
        let mut i: usize = 0;
        while i < self.pending.len()
            invariant
                i <= self@.pending.len(),
                self@.pending.len() == self.pending@.len(),
                pending_index(self@.pending, session_id@, 0) == pending_index(self@.pending, session_id@, i as int),
            decreases self.pending.len() - i,
        {
            if bytes_equal(&self.pending[i].session_id, session_id) {
                assert(self@.pending[i as int].session_id == session_id@);
                return i;
            }
            i = i + 1;
        }
        i
    }

    fn find_completed(&self, session_id: &[u8]) -> (index: usize)
        ensures
            index as int == completed_index(self@.completed, session_id@, 0),
    {
        let mut i: usize = 0;
        while i < self.completed.len()
            invariant
                i <= self@.completed.len(),
                self@.completed.len() == self.completed@.len(),
                completed_index(self@.completed, session_id@, 0) == completed_index(self@.completed, session_id@, i as int),
            decreases self.completed.len() - i,
        {
            if bytes_equal(&self.completed[i].session_id, session_id) {
                assert(self@.completed[i as int].session_id == session_id@);
                return i;
            }
            i = i + 1;
        }
        i
    }

    fn find_failure(&self, source: Option<SourceAddress>) -> (index: usize)
        ensures
            index as int == failure_index(self@.failures, source, 0),
    {
        let mut i: usize = 0;
        while i < self.confirmation_failures.len()
            invariant
                i <= self@.failures.len(),
                self@.failures.len() == self.confirmation_failures@.len(),
                failure_index(self@.failures, source, 0) == failure_index(self@.failures, source, i as int),
            decreases self.confirmation_failures.len() - i,
        {
            if same_source(self.confirmation_failures[i].source, source) {
                return i;
            }
            i = i + 1;
        }
        i
    }

    fn count_pending_from(&self, source: Option<SourceAddress>) -> (count: usize)
        ensures
            count as nat == pending_from(self@.pending, source),
    {
        let mut count: usize = 0;
        let mut i: usize = 0;
        while i < self.pending.len()
            invariant
                i <= self@.pending.len(),
                self@.pending.len() == self.pending@.len(),
                count as nat == pending_from(self@.pending.subrange(0, i as int), source),
                count <= i,
            decreases self.pending.len() - i,
        {
            assert(self@.pending.subrange(0, i + 1).drop_last() =~= self@.pending.subrange(0, i as int));
            if same_source(self.pending[i].source, source) {
                count = count + 1;
            }
            i = i + 1;
        }
        assert(self@.pending.subrange(0, i as int) =~= self@.pending);
        count
    }

    /// The number whose six digits are the code to issue after this one,
    /// from `drawn`, a number below 999 999: the numbers from the current
    /// code's value on are moved up by one, so that every code but the
    /// current one is reached from exactly one drawn number.
    pub fn next_code_value(&self, drawn: u32) -> (value: u32)
        requires
            self.wf(),
            drawn < 999_999,
        ensures
            value < 1_000_000,
            six_digits(value as nat) != self@.code,
            value == if drawn >= decimal_value(self@.code) {
                drawn + 1
            } else {
                drawn as int
            },
    {
        let ghost current = self@.code;
        proof {
            lemma_decimal_bound(current);
            reveal_with_fuel(pow10, 7);
            assert(current.subrange(0, 6) =~= current);
        }
        let previous = match crate::decimal::parse_digits(self.code.as_str(), 0, 6) {
            Some(value) => value,
            None => 0,
        };
        assert(previous == decimal_value(current));
        let value = if drawn as u64 >= previous {
            drawn + 1
        } else {
            drawn
        };
        proof {
            lemma_six_digits_value(value as nat);
        }
        value
    }

    /// Replaces the code by a different random one with a fresh lifetime at
    /// `now` (ms), dropping every exchange and failure of the old code. The
    /// new code is drawn uniformly from all codes but the previous one.
    pub fn regenerate_at(&mut self, now: u64)
        requires
            old(self).wf(),
        ensures
            final(self).wf(),
            final(self)@.code != old(self)@.code,
            final(self)@.created == now,
            !final(self)@.spent,
            final(self)@.failures.len() == 0,
            final(self)@.pending.len() == 0,
            final(self)@.completed.len() == 0,
    {
        let next = self.next_code_value(random_below(999_999));
        *self = Self::with_value_at(next, now);
    }

    /// Replaces the code by a different random one with a fresh lifetime.
    pub fn regenerate(&mut self)
        requires
            old(self).wf(),
        ensures
            final(self).wf(),
            final(self)@.code != old(self)@.code,
            !final(self)@.spent,
            final(self)@.failures.len() == 0,
            final(self)@.pending.len() == 0,
            final(self)@.completed.len() == 0,
    {
        let now = self.now_millis();
        self.regenerate_at(now);
    }

    /// Answers a client's SPAKE2 message at `now` (ms) for `source`. An
    /// expired code is refused, and marked spent so that it stays expired at
    /// every later clock reading, without pruning; otherwise expired exchanges
    /// are pruned, the rate limits are applied, and an accepted message
    /// creates a pending exchange under a fresh random session id (replacing
    /// one that happened to have the same id).
    pub fn start_for_source_at(
        &mut self,
        client_message: &[u8],
        source: Option<SourceAddress>,
        now: u64,
    ) -> (r: Result<PairingStart, PairingError>)
        requires
            old(self).wf(),
        ensures
            final(self).wf(),
            !code_alive(old(self)@, now) ==> r == Err::<PairingStart, PairingError>(PairingError::Expired)
                && final(self)@ == (PairingCodeView { spent: true, ..old(self)@ }),
            code_alive(old(self)@, now) ==> ({
                let p = pruned(old(self)@, now);
                if start_refused(p, source) {
                    r == Err::<PairingStart, PairingError>(PairingError::RateLimited) && final(self)@ == p
                } else if !spake2_message_accepted(client_message@) {
                    r == Err::<PairingStart, PairingError>(PairingError::Invalid) && final(self)@ == p
                } else {
                    &&& r is Ok
                    &&& r->Ok_0.host_message@.len() == 33
                    &&& exists|y: Seq<u8>|
                        r->Ok_0.host_message@ == #[trigger] host_exchange(p.code, client_message@, y).0 && host_exchange(p.code, client_message@, y).1.len() == 32
                    && final(self)@ == PairingCodeView {
                            pending: pending_inserted(
                                p.pending,
                                PendingView {
                                    session_id: r->Ok_0.session_id@,
                                    shared: host_exchange(p.code, client_message@, y).1,
                                    client_message: client_message@,
                                    host_message: r->Ok_0.host_message@,
                                    created: now,
                                    source,
                                },
                            ),
                            ..p
                        }
                }
            }),
    {
        if self.spent || now.saturating_sub(self.created) > PAIRING_LIFETIME_MS {
            self.spent = true;
            return Err(PairingError::Expired);
        }
        self.prune(now);
        let failure_at = self.find_failure(source);
        let failures = if failure_at < self.confirmation_failures.len() {
            self.confirmation_failures[failure_at].count
        } else {
            0
        };
        let refused = failures >= MAX_CONFIRMATION_FAILURES || (failure_at
            >= self.confirmation_failures.len() && self.confirmation_failures.len()
            >= MAX_FAILURE_SOURCES) || self.pending.len() >= MAX_PENDING_SESSIONS || (source.is_some()
            && self.count_pending_from(source) >= MAX_PENDING_SESSIONS_PER_SOURCE);
        if refused {
            return Err(PairingError::RateLimited);
        }
        let client_id = client_identity_bytes();
        let host_id = host_identity_bytes();
        let password = self.code.as_str().as_bytes();
        assert(password@ == code_password(self@.code));
        let exchange = spake2_respond(password, client_id.as_slice(), host_id.as_slice(), client_message);
        let (host_message, shared) = match exchange {
            Some(pair) => pair,
            None => {
                return Err(PairingError::Invalid);
            },
        };
        let ghost y = choose|y: Seq<u8>|
            host_message@ == #[trigger] spec_spake2_b_message(code_password(self@.code), client_identity(), host_identity(), y)
                && shared@ == spec_spake2_b_key(code_password(self@.code), client_identity(), host_identity(), client_message@, y);
        assert(host_message@ == host_exchange(self@.code, client_message@, y).0);
        assert(shared@ == host_exchange(self@.code, client_message@, y).1);
        let mut session_id = [0_u8; 16];
        fill_random(&mut session_id);
        let entry = PendingPairing {
            session_id,
            shared,
            client_message: vstd::slice::slice_to_vec(client_message),
            host_message: vstd::slice::slice_to_vec(host_message.as_slice()),
            created: now,
            source,
        };
        let ghost entry_view = entry@;
        let ghost before = self@;
        let index = self.find_pending(&session_id);
        if index < self.pending.len() {
            self.pending.set(index, entry);
            assert(self@.pending =~= before.pending.update(index as int, entry_view));
        } else {
            self.pending.push(entry);
            assert(self@.pending =~= before.pending.push(entry_view));
        }
        assert(self@ =~= PairingCodeView { pending: pending_inserted(before.pending, entry_view), ..before });
        proof {
            lemma_pending_inserted_distinct(before.pending, entry_view);
        }
        Ok(PairingStart { host_message, session_id })
    }

    /// Answers a client's SPAKE2 message for `source`.
    pub fn start_for_source(&mut self, client_message: &[u8], source: Option<SourceAddress>) -> (r:
        Result<PairingStart, PairingError>)
        requires
            old(self).wf(),
        ensures
            final(self).wf(),
            r matches Ok(start) ==> start.host_message@.len() == 33 && spake2_message_accepted(
                client_message@,
            ),
            exists|now: u64| #[trigger] start_outcome(old(self)@, final(self)@, r, client_message@, source, now),
    {
        let now = self.now_millis();
        let r = self.start_for_source_at(client_message, source, now);
        assert(start_outcome(old(self)@, self@, r, client_message@, source, now));
        r
    }

    /// Answers a SPAKE2 message whose source is unknown.
    pub fn start(&mut self, client_message: &[u8]) -> (r: Result<PairingStart, PairingError>)
        requires
            old(self).wf(),
        ensures
            final(self).wf(),
            r matches Ok(start) ==> start.host_message@.len() == 33 && spake2_message_accepted(
                client_message@,
            ),
            exists|now: u64| #[trigger] start_outcome(old(self)@, final(self)@, r, client_message@, None, now),
    {
        self.start_for_source(client_message, None)
    }
}

proof fn lemma_remove_keeps_distinct(s: Seq<PendingView>, i: int)
    requires
        distinct_sessions(s),
        0 <= i < s.len(),
    ensures
        distinct_sessions(s.remove(i)),
{
    let r = s.remove(i);
    assert forall|a: int, b: int| 0 <= a < b < r.len() implies r[a].session_id != r[b].session_id by {
        let sa = if a < i { a } else { a + 1 };
        let sb = if b < i { b } else { b + 1 };
        assert(r[a] == s[sa]);
        assert(r[b] == s[sb]);
    }
}

/// The state after committing a session at `now`.
pub open spec fn committed(
    v: PairingCodeView,
    session_id: Seq<u8>,
    confirmation: Seq<u8>,
    result: PairingResultView,
    now: u64,
) -> PairingCodeView {
    PairingCodeView {
        pending: Seq::empty(),
        completed: seq![
            CompletedView { session_id, confirmation, result, created: now },
        ],
        spent: true,
        ..v
    }
}

/// The answer and code table of a key confirmation at `now` (ms) for a
/// 16-byte session id, as `finish_at` states it.
pub open spec fn finish_outcome(
    before: PairingCodeView,
    after: PairingCodeView,
    r: Result<PairingResult, PairingError>,
    session_id: Seq<u8>,
    confirmation: Seq<u8>,
    context: CredentialContext<'_>,
    now: u64,
) -> bool {
    let p = pruned(before, now);
    let c = completed_index(p.completed, session_id, 0);
    let i = pending_index(p.pending, session_id, 0);
    if c < p.completed.len() {
        &&& after == p
        &&& if confirmation == p.completed[c].confirmation {
            r is Ok && r->Ok_0@ == p.completed[c].result
        } else {
            r == Err::<PairingResult, PairingError>(PairingError::Invalid)
        }
    } else if i >= p.pending.len() || !alive(p.pending[i].created, now) {
        r == Err::<PairingResult, PairingError>(PairingError::Invalid) && after == p
    } else if confirmation != spec_hmac_sha256(
        p.pending[i].shared,
        confirmation_message(p.pending[i]),
    ) {
        let f = failure_recorded(p.failures, p.pending[i].source);
        &&& after == PairingCodeView { pending: p.pending.remove(i), failures: f, ..p }
        &&& r == Err::<PairingResult, PairingError>(
            if failure_count(f, p.pending[i].source) >= MAX_CONFIRMATION_FAILURES {
                PairingError::RateLimited
            } else {
                PairingError::Invalid
            },
        )
    } else {
        &&& after == p
        &&& match context_aad(p.pending[i].host_message, session_id, context) {
            None => r == Err::<PairingResult, PairingError>(PairingError::Invalid),
            Some(aad) => {
                &&& r is Ok
                &&& r->Ok_0.host_message@ == p.pending[i].host_message
                &&& r->Ok_0.encrypted_credential@ == spec_chacha20poly1305_seal(
                    spec_hkdf_sha256(p.pending[i].shared, credential_info()),
                    r->Ok_0.nonce@,
                    r->Ok_0.credential@,
                    aad,
                )
            },
        }
    }
}

impl PairingCode {
    fn confirmation_bytes(&self, index: usize) -> (message: Vec<u8>)
        requires
            index < self@.pending.len(),
        ensures
            message@ == confirmation_message(self@.pending[index as int]),
    {
        let entry = &self.pending[index];
        let mut message = confirmation_domain_bytes();
        message.extend_from_slice(entry.client_message.as_slice());
        message.extend_from_slice(entry.host_message.as_slice());
        message.extend_from_slice(&entry.session_id);
        assert(message@ =~= confirmation_message(self@.pending[index as int]));
        message
    }

    fn record_failure(&mut self, source: Option<SourceAddress>) -> (count: u8)
        requires
            distinct_sources(old(self)@.failures),
        ensures
            final(self)@ == (PairingCodeView { failures: failure_recorded(old(self)@.failures, source), ..old(self)@ }),
            count == failure_count(final(self)@.failures, source),
            distinct_sources(final(self)@.failures),
    {
        let ghost before = self@;
        proof {
            lemma_failure_index(before.failures, source, 0);
        }
        let index = self.find_failure(source);
        if index < self.confirmation_failures.len() {
            let current = self.confirmation_failures[index].count;
            let next = if current == 255 {
                255
            } else {
                current + 1
            };
            self.confirmation_failures.set(index, FailureCount { source, count: next });
            assert(self@.failures =~= failure_recorded(before.failures, source));
            assert(self@.failures[index as int].0 == source);
            proof {
                lemma_failure_recorded_distinct(before.failures, source);
                lemma_failure_index(self@.failures, source, 0);
                if failure_index(self@.failures, source, 0) < index {
                    let k = failure_index(self@.failures, source, 0);
                    assert(self@.failures[k] == before.failures[k]);
                }
            }
            assert(self@ =~= PairingCodeView { failures: failure_recorded(before.failures, source), ..before });
            next
        } else {
            self.confirmation_failures.push(FailureCount { source, count: 1 });
            assert(self@.failures =~= failure_recorded(before.failures, source));
            assert(self@.failures[index as int].0 == source);
            proof {
                lemma_failure_recorded_distinct(before.failures, source);
                lemma_failure_index(self@.failures, source, 0);
                if failure_index(self@.failures, source, 0) < index {
                    let k = failure_index(self@.failures, source, 0);
                    assert(self@.failures[k] == before.failures[k]);
                }
            }
            assert(self@ =~= PairingCodeView { failures: failure_recorded(before.failures, source), ..before });
            1
        }
    }

    /// Checks a client's key confirmation at `now` (ms). After pruning, a
    /// session that was already committed answers an identical confirmation
    /// with the stored result and anything else with `Invalid`. For a pending
    /// session, a confirmation that is not the HMAC of the exchange under the
    /// SPAKE2 key drops the session and counts a failure for its source;
    /// a correct one yields a fresh random credential, encrypted under the
    /// HKDF of the SPAKE2 key with a fresh random nonce, bound by the
    /// associated data to the exchange and the host metadata. The session
    /// stays pending until `commit`.
    pub fn finish_at(
        &mut self,
        session_id: &[u8],
        confirmation: &[u8],
        context: &CredentialContext<'_>,
        now: u64,
    ) -> (r: Result<PairingResult, PairingError>)
        requires
            old(self).wf(),
        ensures
            final(self).wf(),
            session_id@.len() != 16 ==> r == Err::<PairingResult, PairingError>(PairingError::Invalid)
                && final(self)@ == old(self)@,
            session_id@.len() == 16 ==> finish_outcome(old(self)@, final(self)@, r, session_id@, confirmation@, *context, now),
    {
        if session_id.len() != 16 {
            return Err(PairingError::Invalid);
        }
        self.prune(now);
        let ghost p = self@;
        let completed_at = self.find_completed(session_id);
        if completed_at < self.completed.len() {
            if bytes_equal(self.completed[completed_at].confirmation.as_slice(), confirmation) {
                return Ok(self.completed[completed_at].result.duplicate());
            }
            return Err(PairingError::Invalid);
        }
        let index = self.find_pending(session_id);
        if index >= self.pending.len() {
            return Err(PairingError::Invalid);
        }
        if now.saturating_sub(self.pending[index].created) > PAIRING_LIFETIME_MS {
            return Err(PairingError::Invalid);
        }
        let message = self.confirmation_bytes(index);
        let valid = hmac_sha256_verify(self.pending[index].shared.as_slice(), message.as_slice(), confirmation);
        if valid != Some(true) {
            let removed = self.pending.remove(index);
            assert(self@.pending =~= p.pending.remove(index as int));
            proof {
                lemma_remove_keeps_distinct(p.pending, index as int);
            }
            let count = self.record_failure(removed.source);
            assert(self@ =~= PairingCodeView {
                pending: p.pending.remove(index as int),
                failures: failure_recorded(p.failures, p.pending[index as int].source),
                ..p
            });
            return Err(if count >= MAX_CONFIRMATION_FAILURES {
                PairingError::RateLimited
            } else {
                PairingError::Invalid
            });
        }
        let info = credential_info_bytes();
        let key = match hkdf_sha256_32(self.pending[index].shared.as_slice(), info.as_slice()) {
            Some(key) => key,
            None => {
                return Err(PairingError::Encryption);
            },
        };
        let mut credential = [0_u8; 32];
        fill_random(&mut credential);
        let mut nonce = [0_u8; 12];
        fill_random(&mut nonce);
        let aad = credential_aad(self.pending[index].host_message.as_slice(), session_id, context)?;
        let encrypted_credential = match chacha20poly1305_seal(&key, &nonce, &credential, aad.as_slice()) {
            Some(sealed) => sealed,
            None => {
                return Err(PairingError::Encryption);
            },
        };
        Ok(PairingResult {
            host_message: vstd::slice::slice_to_vec(self.pending[index].host_message.as_slice()),
            nonce,
            encrypted_credential,
            credential,
        })
    }

    /// Checks a client's key confirmation.
    pub fn finish(&mut self, session_id: &[u8], confirmation: &[u8], context: &CredentialContext<'_>) -> (r:
        Result<PairingResult, PairingError>)
        requires
            old(self).wf(),
        ensures
            final(self).wf(),
            session_id@.len() != 16 ==> r == Err::<PairingResult, PairingError>(PairingError::Invalid)
                && final(self)@ == old(self)@,
            session_id@.len() == 16 ==> exists|now: u64| #[trigger] finish_outcome(
                old(self)@,
                final(self)@,
                r,
                session_id@,
                confirmation@,
                *context,
                now,
            ),
    {
        let now = self.now_millis();
        let r = self.finish_at(session_id, confirmation, context, now);
        assert(session_id@.len() == 16 ==> finish_outcome(old(self)@, self@, r, session_id@, confirmation@, *context, now));
        r
    }

    /// Whether the session was committed (expired entries included until the
    /// next prune).
    pub fn is_completed(&self, session_id: &[u8]) -> (completed: bool)
        ensures
            completed == (session_id@.len() == 16 && completed_index(self@.completed, session_id@, 0)
                < self@.completed.len()),
    {
        if session_id.len() != 16 {
            return false;
        }
        let index = self.find_completed(session_id);
        index < self.completed.len()
    }

    /// Commits a confirmed pending session at `now` (ms), once its credential
    /// is stored: every other exchange is dropped, the session is kept as the
    /// only completed one so that an identical retry gets `result` again, and
    /// the code is expired.
    pub fn commit_at(&mut self, session_id: &[u8], confirmation: &[u8], result: PairingResult, now: u64) -> (r:
        Result<(), PairingError>)
        requires
            old(self).wf(),
        ensures
            final(self).wf(),
            (session_id@.len() != 16 || pending_index(old(self)@.pending, session_id@, 0)
                >= old(self)@.pending.len()) ==> r == Err::<(), PairingError>(PairingError::Invalid)
                && final(self)@ == old(self)@,
            (session_id@.len() == 16 && pending_index(old(self)@.pending, session_id@, 0)
                < old(self)@.pending.len()) ==> (r == Ok::<(), PairingError>(()) && final(self)@
                == committed(old(self)@, session_id@, confirmation@, result@, now)),
    {
        if session_id.len() != 16 {
            return Err(PairingError::Invalid);
        }
        let index = self.find_pending(session_id);
        if index >= self.pending.len() {
            return Err(PairingError::Invalid);
        }
        let mut id = [0_u8; 16];
        let mut k: usize = 0;
        while k < 16
            invariant
                k <= 16,
                session_id@.len() == 16,
                id@.subrange(0, k as int) == session_id@.subrange(0, k as int),
            decreases 16 - k,
        {
            id[k] = session_id[k];
            assert(id@.subrange(0, k + 1) =~= session_id@.subrange(0, k + 1));
            k = k + 1;
        }
        assert(id@.subrange(0, 16) =~= id@);
        assert(session_id@.subrange(0, 16) =~= session_id@);
        assert(id@ =~= session_id@);
        self.pending = Vec::new();
        let mut completed = Vec::new();
        completed.push(CompletedPairing {
            session_id: id,
            confirmation: vstd::slice::slice_to_vec(confirmation),
            result,
            created: now,
        });
        self.completed = completed;
        self.spent = true;
        assert(self@.pending =~= Seq::<PendingView>::empty());
        assert(self@.completed =~= seq![
            CompletedView { session_id: session_id@, confirmation: confirmation@, result: result@, created: now },
        ]);
        assert(self@ =~= committed(old(self)@, session_id@, confirmation@, result@, now));
        Ok(())
    }

    /// Commits a confirmed pending session.
    pub fn commit(&mut self, session_id: &[u8], confirmation: &[u8], result: PairingResult) -> (r: Result<
        (),
        PairingError,
    >)
        requires
            old(self).wf(),
        ensures
            final(self).wf(),
            (session_id@.len() != 16 || pending_index(old(self)@.pending, session_id@, 0)
                >= old(self)@.pending.len()) ==> r == Err::<(), PairingError>(PairingError::Invalid)
                && final(self)@ == old(self)@,
            (session_id@.len() == 16 && pending_index(old(self)@.pending, session_id@, 0)
                < old(self)@.pending.len()) ==> r == Ok::<(), PairingError>(()) && exists|now: u64|
                final(self)@ == #[trigger] committed(old(self)@, session_id@, confirmation@, result@, now),
    {
        let ghost issued = result@;
        let now = self.now_millis();
        let r = self.commit_at(session_id, confirmation, result, now);
        assert(r is Ok ==> self@ == committed(old(self)@, session_id@, confirmation@, issued, now));
        r
    }
}

proof fn lemma_pending_from_push(s: Seq<PendingView>, e: PendingView, source: Option<SourceAddress>)
    ensures
        pending_from(s.push(e), source) == pending_from(s, source) + if e.source == source {
            1nat
        } else {
            0nat
        },
{
    assert(s.push(e).drop_last() =~= s);
}

proof fn lemma_pending_from_update(
    s: Seq<PendingView>,
    i: int,
    e: PendingView,
    source: Option<SourceAddress>,
)
    requires
        0 <= i < s.len(),
    ensures
        pending_from(s.update(i, e), source) + (if s[i].source == source {
            1nat
        } else {
            0nat
        }) == pending_from(s, source) + (if e.source == source {
            1nat
        } else {
            0nat
        }),
    decreases s.len(),
{
    let u = s.update(i, e);
    if i == s.len() - 1 {
        assert(u.drop_last() =~= s.drop_last());
    } else {
        assert(u.drop_last() =~= s.drop_last().update(i, e));
        lemma_pending_from_update(s.drop_last(), i, e, source);
    }
}

/// A new exchange from one source never raises the count of pending
/// exchanges of another source, and an admitted start keeps the pending
/// table within its global and per-source bounds.
pub proof fn lemma_start_respects_bounds(
    p: PairingCodeView,
    entry: PendingView,
    other: Option<SourceAddress>,
)
    requires
        !start_refused(p, entry.source),
        entry.source != other,
    ensures
        pending_from(pending_inserted(p.pending, entry), other) <= pending_from(p.pending, other),
        pending_inserted(p.pending, entry).len() <= MAX_PENDING_SESSIONS,
        entry.source is Some ==> pending_from(pending_inserted(p.pending, entry), entry.source)
            <= MAX_PENDING_SESSIONS_PER_SOURCE,
{
    let i = pending_index(p.pending, entry.session_id, 0);
    lemma_pending_index(p.pending, entry.session_id, 0);
    if i < p.pending.len() {
        lemma_pending_from_update(p.pending, i, entry, other);
        lemma_pending_from_update(p.pending, i, entry, entry.source);
    } else {
        lemma_pending_from_push(p.pending, entry, other);
        lemma_pending_from_push(p.pending, entry, entry.source);
    }
}

/// A failed confirmation raises its source's failure count by one (up to the
/// `u8` ceiling) and leaves every other source's count unchanged.
pub proof fn lemma_failure_counts_per_source(
    f: Seq<(Option<SourceAddress>, u8)>,
    source: Option<SourceAddress>,
    other: Option<SourceAddress>,
)
    requires
        source != other,
    ensures
        failure_count(failure_recorded(f, source), source) == if failure_count(f, source) == 255 {
            255u8
        } else {
            (failure_count(f, source) + 1) as u8
        },
        failure_count(failure_recorded(f, other), source) == failure_count(f, source),
{
    lemma_failure_index(f, source, 0);
    lemma_failure_index(f, other, 0);
    let g = failure_recorded(f, source);
    lemma_failure_index(g, source, 0);
    let i = failure_index(f, source, 0);
    assert(g[i].0 == source);
    if failure_index(g, source, 0) < i {
        let k = failure_index(g, source, 0);
        assert(g[k] == f[k]);
    }
    let h = failure_recorded(f, other);
    lemma_failure_index(h, source, 0);
    let j = failure_index(f, other, 0);
    if i < f.len() {
        assert(h[i] == f[i]);
        if failure_index(h, source, 0) < i {
            let k = failure_index(h, source, 0);
            if k != j {
                assert(h[k] == f[k]);
            }
        }
    } else {
        if failure_index(h, source, 0) < h.len() {
            let k = failure_index(h, source, 0);
            if k < f.len() && k != j {
                assert(h[k] == f[k]);
            }
        }
    }
}

/// A used code never accepts another exchange: after a commit, the code is
/// expired at every clock reading, earlier ones included, so every new start
/// is refused as `Expired`, no time is left on it, and no exchange is left
/// pending.
pub proof fn lemma_commit_expires_code(
    v: PairingCodeView,
    session_id: Seq<u8>,
    confirmation: Seq<u8>,
    result: PairingResultView,
    now: u64,
    later: u64,
)
    ensures
        !code_alive(committed(v, session_id, confirmation, result, now), later),
        code_remaining_ms(committed(v, session_id, confirmation, result, now), later) == 0,
        committed(v, session_id, confirmation, result, now).pending.len() == 0,
{
}

/// Within its lifetime, a committed session is found again with the same
/// confirmation and result, so an identical retry gets the identical answer.
pub proof fn lemma_commit_retry_is_identical(
    v: PairingCodeView,
    session_id: Seq<u8>,
    confirmation: Seq<u8>,
    result: PairingResultView,
    now: u64,
    later: u64,
)
    requires
        alive(now, later),
    ensures
        ({
            let p = pruned(committed(v, session_id, confirmation, result, now), later);
            let c = completed_index(p.completed, session_id, 0);
            &&& c < p.completed.len()
            &&& p.completed[c].confirmation == confirmation
            &&& p.completed[c].result == result
        }),
{
    let w = committed(v, session_id, confirmation, result, now);
    assert(w.completed.drop_last() =~= Seq::<CompletedView>::empty());
    reveal_with_fuel(live_completed, 2);
    assert(w.completed.last().created == now);
    assert(live_completed(w.completed, later) =~= w.completed);
}

/// A code restored when it was already past its lifetime is expired from the
/// start and at every clock reading, earlier ones included: a persisted
/// expired code never revives.
pub proof fn lemma_restored_old_code_is_expired(code: Seq<char>, age_secs: u64, now: u64, later: u64)
    requires
        age_secs > 300,
    ensures
        !code_alive(restored_code(code, age_secs, now), later),
        code_remaining_ms(restored_code(code, age_secs, now), later) == 0,
{
}

/// A regenerated code has no exchange left: a session started under the old
/// code is neither pending nor completed, so its confirmation is `Invalid`.
pub proof fn lemma_regenerated_code_forgets_sessions(v: PairingCodeView, session_id: Seq<u8>, now: u64)
    requires
        v.pending.len() == 0,
        v.completed.len() == 0,
    ensures
        pending_index(pruned(v, now).pending, session_id, 0) >= pruned(v, now).pending.len(),
        completed_index(pruned(v, now).completed, session_id, 0) >= pruned(v, now).completed.len(),
{
}

/// Starting a new exchange never displaces another session: a pending
/// session with a different id is found again, unchanged, and a session
/// that was not pending does not appear.
pub proof fn lemma_start_keeps_other_sessions(s: Seq<PendingView>, entry: PendingView, session_id: Seq<u8>)
    requires
        distinct_sessions(s),
        session_id != entry.session_id,
    ensures
        ({
            let t = pending_inserted(s, entry);
            let i = pending_index(s, session_id, 0);
            let j = pending_index(t, session_id, 0);
            &&& (i < s.len()) == (j < t.len())
            &&& i < s.len() ==> t[j] == s[i]
        }),
{
    let t = pending_inserted(s, entry);
    lemma_pending_index(s, session_id, 0);
    lemma_pending_index(s, entry.session_id, 0);
    lemma_pending_index(t, session_id, 0);
    let i = pending_index(s, session_id, 0);
    let j = pending_index(t, session_id, 0);
    let k = pending_index(s, entry.session_id, 0);
    assert forall|m: int| 0 <= m < t.len() && m != k implies #[trigger] t[m] == s[m] by {}
    if i < s.len() {
        assert(t[i] == s[i]);
        assert(j <= i);
        if j < i {
            assert(t[j].session_id == session_id);
            assert(j != k || k >= s.len());
        }
    } else {
        if j < t.len() {
            assert(t[j].session_id == session_id);
            if j < s.len() {
                assert(s[j].session_id == session_id);
            }
        }
    }
}

/// The associated data of an issued credential determines the exchange and
/// every item of host metadata it is made of: two credentials bound to
/// different host messages, session ids, hostnames, versions, host ids or
/// protocol versions never share associated data, so a credential cannot be
/// opened as if it came from another exchange or host.
pub proof fn lemma_credential_aad_injective(
    host_message: Seq<u8>,
    session_id: Seq<u8>,
    hostname: Seq<u8>,
    host_version: Seq<u8>,
    protocol_version: u32,
    host_id: Seq<u8>,
    other_host_message: Seq<u8>,
    other_session_id: Seq<u8>,
    other_hostname: Seq<u8>,
    other_host_version: Seq<u8>,
    other_protocol_version: u32,
    other_host_id: Seq<u8>,
)
    requires
        spec_credential_aad(host_message, session_id, hostname, host_version, protocol_version, host_id) is Some,
        spec_credential_aad(host_message, session_id, hostname, host_version, protocol_version, host_id)
            == spec_credential_aad(
            other_host_message,
            other_session_id,
            other_hostname,
            other_host_version,
            other_protocol_version,
            other_host_id,
        ),
    ensures
        host_message == other_host_message,
        session_id == other_session_id,
        hostname == other_hostname,
        host_version == other_host_version,
        protocol_version == other_protocol_version,
        host_id == other_host_id,
{
    let x = spec_credential_aad(host_message, session_id, hostname, host_version, protocol_version, host_id)->Some_0;
    let d = credential_aad_domain();
    let t5 = length_prefixed(host_id) + u32_be(protocol_version);
    let t4 = length_prefixed(host_version) + t5;
    let t3 = length_prefixed(hostname) + t4;
    let t2 = length_prefixed(session_id) + t3;
    let t1 = length_prefixed(host_message) + t2;
    let u5 = length_prefixed(other_host_id) + u32_be(other_protocol_version);
    let u4 = length_prefixed(other_host_version) + u5;
    let u3 = length_prefixed(other_hostname) + u4;
    let u2 = length_prefixed(other_session_id) + u3;
    let u1 = length_prefixed(other_host_message) + u2;
    assert(x =~= d + t1);
    assert(x =~= d + u1);
    assert(x.subrange(d.len() as int, x.len() as int) =~= t1);
    assert(x.subrange(d.len() as int, x.len() as int) =~= u1);
    crate::bytes::lemma_length_prefixed_split(host_message, t2, other_host_message, u2);
    crate::bytes::lemma_length_prefixed_split(session_id, t3, other_session_id, u3);
    crate::bytes::lemma_length_prefixed_split(hostname, t4, other_hostname, u4);
    crate::bytes::lemma_length_prefixed_split(host_version, t5, other_host_version, u5);
    crate::bytes::lemma_length_prefixed_split(host_id, u32_be(protocol_version), other_host_id, u32_be(other_protocol_version));
    crate::bytes::lemma_u32_be_injective(protocol_version, other_protocol_version);
}

/// Once a start is refused as expired, the code never accepts another
/// exchange, at any clock reading, earlier ones included: an expired code
/// never revives.
pub proof fn lemma_expired_code_stays_expired(
    before: PairingCodeView,
    after: PairingCodeView,
    r: Result<PairingStart, PairingError>,
    client_message: Seq<u8>,
    source: Option<SourceAddress>,
    now: u64,
    later: u64,
)
    requires
        start_outcome(before, after, r, client_message, source, now),
        r == Err::<PairingStart, PairingError>(PairingError::Expired),
    ensures
        !code_alive(after, later),
        code_remaining_ms(after, later) == 0,
{
}

proof fn lemma_live_pending_keeps(s: Seq<PendingView>, e: PendingView, now: u64)
    requires
        s.contains(e),
        alive(e.created, now),
    ensures
        live_pending(s, now).contains(e),
    decreases s.len(),
{
    let rest = s.drop_last();
    if s.last() == e {
        assert(live_pending(s, now)[live_pending(rest, now).len() as int] == e);
    } else {
        let m = choose|m: int| 0 <= m < s.len() && s[m] == e;
        assert(m != s.len() - 1);
        assert(rest[m] == e);
        lemma_live_pending_keeps(rest, e, now);
        let l = live_pending(rest, now);
        let k = choose|k: int| 0 <= k < l.len() && l[k] == e;
        if alive(s.last().created, now) {
            assert(live_pending(s, now)[k] == e);
        }
    }
}

/// A confirmed session stays retryable until it is committed: after a key
/// confirmation of a pending (not yet committed) session was answered `Ok`,
/// repeating it at a later time within the session's lifetime is answered
/// `Ok` again with the same host message, and changes nothing but the pruning
/// of expired exchanges; the code is neither consumed nor changed.
pub proof fn lemma_confirmed_session_stays_retryable(
    before: PairingCodeView,
    after: PairingCodeView,
    r: Result<PairingResult, PairingError>,
    again: PairingCodeView,
    r_again: Result<PairingResult, PairingError>,
    session_id: Seq<u8>,
    confirmation: Seq<u8>,
    context: CredentialContext<'_>,
    now: u64,
    later: u64,
)
    requires
        before.wf(),
        finish_outcome(before, after, r, session_id, confirmation, context, now),
        r is Ok,
        completed_index(pruned(before, now).completed, session_id, 0) >= pruned(before, now).completed.len(),
        alive(
            pruned(before, now).pending[pending_index(pruned(before, now).pending, session_id, 0)].created,
            later,
        ),
        finish_outcome(after, again, r_again, session_id, confirmation, context, later),
    ensures
        r_again is Ok,
        r_again->Ok_0.host_message@ == r->Ok_0.host_message@,
        again == pruned(after, later),
        again.code == before.code,
        again.spent == before.spent,
{
    let p = pruned(before, now);
    lemma_live_pending_sub(before.pending, now);
    lemma_live_completed_sub(before.completed, now);
    lemma_pending_index(p.pending, session_id, 0);
    lemma_completed_index(p.completed, session_id, 0);
    let i = pending_index(p.pending, session_id, 0);
    let e = p.pending[i];
    assert(after == p);
    let q = pruned(after, later);
    lemma_live_completed_sub(p.completed, later);
    lemma_completed_index(q.completed, session_id, 0);
    let c2 = completed_index(q.completed, session_id, 0);
    if c2 < q.completed.len() {
        assert(p.completed.contains(q.completed[c2]));
        let m = choose|m: int| 0 <= m < p.completed.len() && p.completed[m] == q.completed[c2];
        assert(p.completed[m].session_id == session_id);
        assert(false);
    }
    assert(p.pending.contains(e)) by {
        assert(p.pending[i] == e);
    }
    lemma_live_pending_keeps(p.pending, e, later);
    lemma_live_pending_sub(p.pending, later);
    lemma_pending_index(q.pending, session_id, 0);
    let k = choose|k: int| 0 <= k < q.pending.len() && q.pending[k] == e;
    let i2 = pending_index(q.pending, session_id, 0);
    assert(i2 <= k);
    if i2 != k {
        assert(q.pending[i2].session_id == q.pending[k].session_id);
        assert(false);
    }
    assert(q.pending[i2] == e);
}

/// A source whose failed confirmations reached the limit is locked out: every
/// start from it, with or without an address and whatever its message, is
/// refused as rate limited (as expired once the code is) and opens no
/// exchange.
pub proof fn lemma_locked_out_source_cannot_start(
    before: PairingCodeView,
    after: PairingCodeView,
    r: Result<PairingStart, PairingError>,
    client_message: Seq<u8>,
    source: Option<SourceAddress>,
    now: u64,
)
    requires
        failure_count(before.failures, source) >= MAX_CONFIRMATION_FAILURES,
        start_outcome(before, after, r, client_message, source, now),
    ensures
        r is Err,
        code_alive(before, now) ==> r == Err::<PairingStart, PairingError>(PairingError::RateLimited)
            && after == pruned(before, now),
        !code_alive(before, now) ==> r == Err::<PairingStart, PairingError>(PairingError::Expired),
{
}

/// A confirmation answered as rate limited locks its source out for the rest
/// of the code's life: every later start from the same source is refused as
/// rate limited while the code is alive, however much time has passed.
pub proof fn lemma_rate_limited_confirmation_locks_the_source_out(
    before: PairingCodeView,
    after: PairingCodeView,
    r: Result<PairingResult, PairingError>,
    session_id: Seq<u8>,
    confirmation: Seq<u8>,
    context: CredentialContext<'_>,
    now: u64,
    later_after: PairingCodeView,
    r_start: Result<PairingStart, PairingError>,
    client_message: Seq<u8>,
    later: u64,
)
    requires
        finish_outcome(before, after, r, session_id, confirmation, context, now),
        r == Err::<PairingResult, PairingError>(PairingError::RateLimited),
        start_outcome(
            after,
            later_after,
            r_start,
            client_message,
            pruned(before, now).pending[pending_index(pruned(before, now).pending, session_id, 0)].source,
            later,
        ),
        code_alive(after, later),
    ensures
        r_start == Err::<PairingStart, PairingError>(PairingError::RateLimited),
{
}

} // verus!
