//! Request and response authentication: the canonical signed layouts, the
//! HMAC tags over them, and the replay/rate-limit state of the verifier.

use vstd::prelude::*;
use std::collections::VecDeque;

use crate::bytes::{
    ascii_bytes, ascii_str_bytes, bytes_equal, length_prefixed, push_length_prefixed, push_u16_be,
    push_u64_be, u16_be, u64_be,
};
use crate::crypto::{
    fill_random, hmac_sha256, hmac_sha256_verify, sha256, spec_hmac_sha256, spec_sha256,
    unix_millis,
};

verus! {

/// Seconds that a request timestamp may differ from the host clock, and that
/// an accepted nonce or a failure is remembered.
pub const CLOCK_WINDOW_SECS: u64 = 60;

/// Length of a request nonce in bytes.
pub const NONCE_LENGTH: usize = 16;

/// Failures within one clock window after which failing requests are refused
/// as rate limited.
pub const MAX_FAILURES: usize = 20;

#[derive(Debug, Clone, Copy, PartialEq, Eq, Structural)]
pub enum AuthError {
    Malformed,
    Stale,
    Replay,
    Invalid,
    RateLimited,
    Persistence,
}

/// The human-readable description of an authentication error.
pub open spec fn auth_error_text(e: AuthError) -> Seq<char> {
    match e {
        AuthError::Malformed => "malformed authentication header"@,
        AuthError::Stale => "request timestamp is outside the accepted clock window"@,
        AuthError::Replay => "request nonce was already used"@,
        AuthError::Invalid => "request authentication failed"@,
        AuthError::RateLimited => "too many authentication failures"@,
        AuthError::Persistence => "authentication state could not be persisted"@,
    }
}

impl AuthError {
    /// The human-readable description of the error.
    pub fn message(&self) -> (text: &'static str)
        ensures
            text@ == auth_error_text(*self),
    {
        match self {
            AuthError::Malformed => "malformed authentication header",
            AuthError::Stale => "request timestamp is outside the accepted clock window",
            AuthError::Replay => "request nonce was already used",
            AuthError::Invalid => "request authentication failed",
            AuthError::RateLimited => "too many authentication failures",
            AuthError::Persistence => "authentication state could not be persisted",
        }
    }
}

/// `deckymyrig-auth-v1\0`
pub open spec fn request_domain() -> Seq<u8> {
    seq![100u8, 101, 99, 107, 121, 109, 121, 114, 105, 103, 45, 97, 117, 116, 104, 45, 118, 49, 0]
}

/// `deckymyrig-response-v1\0`
pub open spec fn response_domain() -> Seq<u8> {
    seq![100u8, 101, 99, 107, 121, 109, 121, 114, 105, 103, 45, 114, 101, 115, 112, 111, 110, 115, 101, 45, 118, 49, 0]
}

fn request_domain_bytes() -> (d: Vec<u8>)
    ensures
        d@ == request_domain(),
{
    let d: Vec<u8> = vec![100u8, 101, 99, 107, 121, 109, 121, 114, 105, 103, 45, 97, 117, 116, 104, 45, 118, 49, 0];
    assert(d@ =~= request_domain());
    d
}

fn response_domain_bytes() -> (d: Vec<u8>)
    ensures
        d@ == response_domain(),
{
    let d: Vec<u8> = vec![100u8, 101, 99, 107, 121, 109, 121, 114, 105, 103, 45, 114, 101, 115, 112, 111, 110, 115, 101, 45, 118, 49, 0];
    assert(d@ =~= response_domain());
    d
}

pub open spec fn ascii_upper(b: u8) -> u8 {
    if 97 <= b && b <= 122 {
        (b - 32) as u8
    } else {
        b
    }
}

pub open spec fn upper_bytes(s: Seq<u8>) -> Seq<u8> {
    Seq::new(s.len(), |i: int| ascii_upper(s[i]))
}

/// The byte sequence that a request signature covers, or `None` when the
/// nonce is not 16 bytes, the method or path is not ASCII, or a field is too
/// long for its `u16` length prefix.
pub open spec fn spec_canonical_message(
    timestamp: u64,
    nonce: Seq<u8>,
    method: Seq<char>,
    path: Seq<char>,
    body: Seq<u8>,
) -> Option<Seq<u8>> {
    if nonce.len() != NONCE_LENGTH || !vstd::utf8::is_ascii_chars(method)
        || !vstd::utf8::is_ascii_chars(path) || method.len() > u16::MAX || path.len() > u16::MAX {
        None
    } else {
        Some(
            request_domain() + u64_be(timestamp) + length_prefixed(nonce) + length_prefixed(
                upper_bytes(ascii_bytes(method)),
            ) + length_prefixed(ascii_bytes(path)) + spec_sha256(body),
        )
    }
}

/// The byte sequence that a response signature covers.
pub open spec fn spec_response_message(
    request_nonce: Seq<u8>,
    path: Seq<char>,
    status: u16,
    body: Seq<u8>,
) -> Option<Seq<u8>> {
    if request_nonce.len() != NONCE_LENGTH || !vstd::utf8::is_ascii_chars(path) || path.len()
        > u16::MAX {
        None
    } else {
        Some(
            response_domain() + length_prefixed(request_nonce) + length_prefixed(ascii_bytes(path))
                + u16_be(status) + spec_sha256(body),
        )
    }
}

/// The tag that a request signature must equal.
pub open spec fn spec_request_tag(
    secret: Seq<u8>,
    timestamp: u64,
    nonce: Seq<u8>,
    method: Seq<char>,
    path: Seq<char>,
    body: Seq<u8>,
) -> Option<Seq<u8>> {
    match spec_canonical_message(timestamp, nonce, method, path, body) {
        Some(m) => Some(spec_hmac_sha256(secret, m)),
        None => None,
    }
}

/// The tag that a response signature must equal.
pub open spec fn spec_response_tag(
    secret: Seq<u8>,
    request_nonce: Seq<u8>,
    path: Seq<char>,
    status: u16,
    body: Seq<u8>,
) -> Option<Seq<u8>> {
    match spec_response_message(request_nonce, path, status, body) {
        Some(m) => Some(spec_hmac_sha256(secret, m)),
        None => None,
    }
}

/// The current Unix time in seconds (zero before the epoch).
pub fn now_unix() -> u64 {
    unix_millis() / 1000
}

/// A fresh random request nonce.
pub fn random_nonce() -> [u8; NONCE_LENGTH] {
    let mut nonce = [0_u8; NONCE_LENGTH];
    fill_random(&mut nonce);
    nonce
}

fn upper_ascii(bytes: &[u8]) -> (out: Vec<u8>)
    ensures
        out@ == upper_bytes(bytes@),
{
    let mut out: Vec<u8> = Vec::new();
    let mut i: usize = 0;
    while i < bytes.len()
        invariant
            i <= bytes@.len(),
            out@ == upper_bytes(bytes@.subrange(0, i as int)),
        decreases bytes.len() - i,
    {
        let b = bytes[i];
        let u = if 97 <= b && b <= 122 {
            b - 32
        } else {
            b
        };
        out.push(u);
        i = i + 1;
        assert(out@ =~= upper_bytes(bytes@.subrange(0, i as int)));
    }
    assert(bytes@.subrange(0, i as int) =~= bytes@);
    out
}

/// Builds the canonical request message that a request signature covers.
pub fn canonical_message(timestamp: u64, nonce: &[u8], method: &str, path: &str, body: &[u8]) -> (r:
    Result<Vec<u8>, AuthError>)
    ensures
        match spec_canonical_message(timestamp, nonce@, method@, path@, body@) {
            Some(m) => r matches Ok(v) && v@ == m,
            None => r == Err::<Vec<u8>, AuthError>(AuthError::Malformed),
        },
{
    if nonce.len() != NONCE_LENGTH || !method.is_ascii() || !path.is_ascii() {
        return Err(AuthError::Malformed);
    }
    let method_bytes = upper_ascii(ascii_str_bytes(method));
    let path_bytes = ascii_str_bytes(path);
    let mut output = request_domain_bytes();
    push_u64_be(&mut output, timestamp);
    if !push_length_prefixed(&mut output, nonce) {
        return Err(AuthError::Malformed);
    }
    if !push_length_prefixed(&mut output, method_bytes.as_slice()) {
        return Err(AuthError::Malformed);
    }
    if !push_length_prefixed(&mut output, path_bytes) {
        return Err(AuthError::Malformed);
    }
    let digest = sha256(body);
    output.extend_from_slice(&digest);
    Ok(output)
}

/// HMAC-SHA256 tag of the canonical request message under `secret`.
pub fn sign(secret: &[u8], timestamp: u64, nonce: &[u8], method: &str, path: &str, body: &[u8]) -> (r:
    Result<[u8; 32], AuthError>)
    ensures
        match spec_request_tag(secret@, timestamp, nonce@, method@, path@, body@) {
            Some(tag) => r matches Ok(t) && t@ == tag,
            None => r == Err::<[u8; 32], AuthError>(AuthError::Malformed),
        },
{
    let message = canonical_message(timestamp, nonce, method, path, body)?;
    match hmac_sha256(secret, message.as_slice()) {
        Some(tag) => Ok(tag),
        None => Err(AuthError::Malformed),
    }
}

fn response_message(request_nonce: &[u8], path: &str, status: u16, body: &[u8]) -> (r: Result<
    Vec<u8>,
    AuthError,
>)
    ensures
        match spec_response_message(request_nonce@, path@, status, body@) {
            Some(m) => r matches Ok(v) && v@ == m,
            None => r == Err::<Vec<u8>, AuthError>(AuthError::Malformed),
        },
{
    if request_nonce.len() != NONCE_LENGTH || !path.is_ascii() {
        return Err(AuthError::Malformed);
    }
    let path_bytes = ascii_str_bytes(path);
    let mut message = response_domain_bytes();
    if !push_length_prefixed(&mut message, request_nonce) {
        return Err(AuthError::Malformed);
    }
    if !push_length_prefixed(&mut message, path_bytes) {
        return Err(AuthError::Malformed);
    }
    push_u16_be(&mut message, status);
    let digest = sha256(body);
    message.extend_from_slice(&digest);
    Ok(message)
}

/// HMAC-SHA256 tag over the canonical response message, binding the request
/// nonce, the path, the HTTP status and the body.
pub fn sign_response(secret: &[u8], request_nonce: &[u8], path: &str, status: u16, body: &[u8]) -> (r:
    Result<[u8; 32], AuthError>)
    ensures
        match spec_response_tag(secret@, request_nonce@, path@, status, body@) {
            Some(tag) => r matches Ok(t) && t@ == tag,
            None => r == Err::<[u8; 32], AuthError>(AuthError::Malformed),
        },
{
    let message = response_message(request_nonce, path, status, body)?;
    match hmac_sha256(secret, message.as_slice()) {
        Some(tag) => Ok(tag),
        None => Err(AuthError::Malformed),
    }
}

/// Checks a response signature in constant time.
pub fn verify_response(
    secret: &[u8],
    request_nonce: &[u8],
    path: &str,
    status: u16,
    body: &[u8],
    signature: &[u8],
) -> (r: Result<(), AuthError>)
    ensures
        match spec_response_tag(secret@, request_nonce@, path@, status, body@) {
            Some(tag) => if signature@ == tag {
                r == Ok::<(), AuthError>(())
            } else {
                r == Err::<(), AuthError>(AuthError::Invalid)
            },
            None => r == Err::<(), AuthError>(AuthError::Malformed),
        },
{
    let message = response_message(request_nonce, path, status, body)?;
    match hmac_sha256_verify(secret, message.as_slice(), signature) {
        Some(true) => Ok(()),
        Some(false) => Err(AuthError::Invalid),
        None => Err(AuthError::Malformed),
    }
}

/// One remembered nonce and the time it was last presented.
pub struct AcceptedNonce {
    pub nonce: Vec<u8>,
    pub seen: u64,
}

/// Replay and failure memory of the request verifier.
pub struct Authenticator {
    accepted_nonces: Vec<AcceptedNonce>,
    failures: VecDeque<u64>,
}

/// What the verifier remembers: accepted nonces with the time each was last
/// presented, and the times of recent failures, oldest first.
pub ghost struct AuthenticatorView {
    pub nonces: Seq<(Seq<u8>, u64)>,
    pub failures: Seq<u64>,
}

impl View for Authenticator {
    type V = AuthenticatorView;

    closed spec fn view(&self) -> AuthenticatorView {
        AuthenticatorView {
            nonces: Seq::new(
                self.accepted_nonces@.len(),
                |i: int| (self.accepted_nonces@[i].nonce@, self.accepted_nonces@[i].seen),
            ),
            failures: self.failures@,
        }
    }
}

/// The signed request as it arrived.
pub struct AuthenticatedRequest<'a> {
    pub timestamp: u64,
    pub nonce: &'a [u8],
    pub signature: &'a [u8],
    pub method: &'a str,
    pub path: &'a str,
    pub body: &'a [u8],
}

/// Whether something seen at `seen` is still inside the window at `now`.
pub open spec fn within_window(seen: u64, now: u64) -> bool {
    now <= seen + CLOCK_WINDOW_SECS
}

pub open spec fn abs_diff(a: u64, b: u64) -> nat {
    if a >= b {
        (a - b) as nat
    } else {
        (b - a) as nat
    }
}

/// The accepted nonces that are still inside the window, in their order.
pub open spec fn fresh_nonces(s: Seq<(Seq<u8>, u64)>, now: u64) -> Seq<(Seq<u8>, u64)>
    decreases s.len(),
{
    if s.len() == 0 {
        s
    } else if within_window(s.last().1, now) {
        fresh_nonces(s.drop_last(), now).push(s.last())
    } else {
        fresh_nonces(s.drop_last(), now)
    }
}

/// Index of the first entry for `nonce`, or the length when there is none.
pub open spec fn nonce_index(s: Seq<(Seq<u8>, u64)>, nonce: Seq<u8>, from: int) -> int
    decreases s.len() - from,
{
    if from >= s.len() {
        s.len() as int
    } else if s[from].0 == nonce {
        from
    } else {
        nonce_index(s, nonce, from + 1)
    }
}

/// Failure times after dropping, from the front, those outside the window.
pub open spec fn drop_expired_failures(f: Seq<u64>, now: u64) -> Seq<u64>
    decreases f.len(),
{
    if f.len() > 0 && !within_window(f[0], now) {
        drop_expired_failures(f.drop_first(), now)
    } else {
        f
    }
}

/// The failure memory after recording a failure at `now`.
pub open spec fn failures_after(f: Seq<u64>, now: u64) -> Seq<u64> {
    let kept = drop_expired_failures(f, now);
    if kept.len() >= MAX_FAILURES {
        kept
    } else {
        kept.push(now)
    }
}

/// The error reported for a failure at `now`: the failure itself, or
/// `RateLimited` once the window already holds the maximum number.
pub open spec fn failure_reported(f: Seq<u64>, now: u64, error: AuthError) -> AuthError {
    if drop_expired_failures(f, now).len() >= MAX_FAILURES {
        AuthError::RateLimited
    } else {
        error
    }
}

/// Why a request fails before its nonce is considered, or `None` when its
/// timestamp is fresh and its signature is the tag under `secret`.
pub open spec fn request_rejection(
    secret: Seq<u8>,
    timestamp: u64,
    nonce: Seq<u8>,
    signature: Seq<u8>,
    method: Seq<char>,
    path: Seq<char>,
    body: Seq<u8>,
    now: u64,
) -> Option<AuthError> {
    if abs_diff(now, timestamp) > CLOCK_WINDOW_SECS {
        Some(AuthError::Stale)
    } else {
        match spec_request_tag(secret, timestamp, nonce, method, path, body) {
            None => Some(AuthError::Malformed),
            Some(tag) => if signature == tag {
                None
            } else {
                Some(AuthError::Invalid)
            },
        }
    }
}

/// The verifier's answer and memory after a request at `now`.
pub open spec fn spec_verify(
    v: AuthenticatorView,
    secret: Seq<u8>,
    timestamp: u64,
    nonce: Seq<u8>,
    signature: Seq<u8>,
    method: Seq<char>,
    path: Seq<char>,
    body: Seq<u8>,
    now: u64,
) -> (Result<(), AuthError>, AuthenticatorView) {
    match request_rejection(secret, timestamp, nonce, signature, method, path, body, now) {
        Some(e) => (
            Err(failure_reported(v.failures, now, e)),
            AuthenticatorView { failures: failures_after(v.failures, now), nonces: v.nonces },
        ),
        None => {
            let kept = fresh_nonces(v.nonces, now);
            let i = nonce_index(kept, nonce, 0);
            if i < kept.len() {
                (Err(AuthError::Replay), AuthenticatorView { nonces: kept.update(i, (nonce, now)), failures: v.failures })
            } else {
                (Ok(()), AuthenticatorView { nonces: kept.push((nonce, now)), failures: v.failures })
            }
        },
    }
}

impl Default for Authenticator {
    fn default() -> (a: Self)
        ensures
            a@.nonces.len() == 0,
            a@.failures.len() == 0,
    {
        let a = Authenticator { accepted_nonces: Vec::new(), failures: VecDeque::new() };
        assert(a@.nonces =~= Seq::<(Seq<u8>, u64)>::empty());
        a
    }
}

impl Authenticator {
    pub open spec fn bounded(self) -> bool {
        self@.failures.len() <= MAX_FAILURES
    }

    fn failed(&mut self, now: u64, error: AuthError) -> (reported: AuthError)
        ensures
            reported == failure_reported(old(self)@.failures, now, error),
            final(self)@.failures == failures_after(old(self)@.failures, now),
            final(self)@.nonces == old(self)@.nonces,
    {
        let ghost initial = self@.failures;
        while self.failures.len() > 0 && now.saturating_sub(self.failures[0]) > CLOCK_WINDOW_SECS
            invariant
                drop_expired_failures(self@.failures, now) == drop_expired_failures(initial, now),
                self@.nonces == old(self)@.nonces,
            decreases self@.failures.len(),
        {
            let ghost before = self@.failures;
            self.failures.pop_front();
            assert(self@.failures =~= before.drop_first());
        }
        if self.failures.len() >= MAX_FAILURES {
            return AuthError::RateLimited;
        }
        self.failures.push_back(now);
        error
    }

    fn retain_fresh(&mut self, now: u64)
        ensures
            final(self)@.nonces == fresh_nonces(old(self)@.nonces, now),
            final(self)@.failures == old(self)@.failures,
    {
        let ghost initial = self@.nonces;
        let mut kept: Vec<AcceptedNonce> = Vec::new();
        while self.accepted_nonces.len() > 0
            invariant
                fresh_nonces(initial, now) == fresh_nonces(self@.nonces, now) + Seq::new(
                    kept@.len(),
                    |i: int| (kept@[i].nonce@, kept@[i].seen),
                ),
                self@.failures == old(self)@.failures,
            decreases self.accepted_nonces@.len(),
        {
            let ghost before = self@.nonces;
            let ghost kept_before = Seq::new(kept@.len(), |i: int| (kept@[i].nonce@, kept@[i].seen));
            let entry = self.accepted_nonces.pop().unwrap();
            assert(self@.nonces =~= before.drop_last());
            if now.saturating_sub(entry.seen) <= CLOCK_WINDOW_SECS {
                kept.insert(0, entry);
                assert(Seq::new(kept@.len(), |i: int| (kept@[i].nonce@, kept@[i].seen)) =~= seq![
                    before.last(),
                ] + kept_before);
            }
        }
        assert(self@.nonces =~= Seq::<(Seq<u8>, u64)>::empty());
        self.accepted_nonces = kept;
        assert(fresh_nonces(Seq::<(Seq<u8>, u64)>::empty(), now) =~= Seq::<(Seq<u8>, u64)>::empty());
        assert(self@.nonces =~= fresh_nonces(initial, now));
    }

    fn find_nonce(&self, nonce: &[u8]) -> (index: usize)
        ensures
            index as int == nonce_index(self@.nonces, nonce@, 0),
    {
        let mut i: usize = 0;
        while i < self.accepted_nonces.len()
            invariant
                i <= self@.nonces.len(),
                self@.nonces.len() == self.accepted_nonces@.len(),
                nonce_index(self@.nonces, nonce@, 0) == nonce_index(self@.nonces, nonce@, i as int),
            decreases self.accepted_nonces.len() - i,
        {
            if bytes_equal(self.accepted_nonces[i].nonce.as_slice(), nonce) {
                assert(self@.nonces[i as int].0 == nonce@);
                return i;
            }
            i = i + 1;
        }
        i
    }

    /// Authenticates a request at time `now` (Unix seconds). A fresh request
    /// whose signature is the HMAC tag of its canonical message is accepted
    /// unless its nonce was already accepted within the window; every other
    /// request counts as a failure, and once the window holds the maximum
    /// number of failures, failing requests are reported as rate limited.
    pub fn verify(&mut self, secret: &[u8], request: AuthenticatedRequest<'_>, now: u64) -> (r: Result<
        (),
        AuthError,
    >)
        ensures
            (r, final(self)@) == spec_verify(
                old(self)@,
                secret@,
                request.timestamp,
                request.nonce@,
                request.signature@,
                request.method@,
                request.path@,
                request.body@,
                now,
            ),
    {
        let difference = if now >= request.timestamp {
            now - request.timestamp
        } else {
            request.timestamp - now
        };
        if difference > CLOCK_WINDOW_SECS {
            return Err(self.failed(now, AuthError::Stale));
        }
        let message = match canonical_message(
            request.timestamp,
            request.nonce,
            request.method,
            request.path,
            request.body,
        ) {
            Ok(value) => value,
            Err(error) => {
                return Err(self.failed(now, error));
            },
        };
        match hmac_sha256_verify(secret, message.as_slice(), request.signature) {
            Some(true) => {},
            Some(false) => {
                return Err(self.failed(now, AuthError::Invalid));
            },
            None => {
                return Err(AuthError::Malformed);
            },
        }
        self.retain_fresh(now);
        let index = self.find_nonce(request.nonce);
        if index < self.accepted_nonces.len() {
            let ghost before = self@.nonces;
            self.accepted_nonces.set(index, AcceptedNonce { nonce: vstd::slice::slice_to_vec(request.nonce), seen: now });
            assert(self@.nonces =~= before.update(index as int, (request.nonce@, now)));
            return Err(AuthError::Replay);
        }
        let ghost before = self@.nonces;
        self.accepted_nonces.push(AcceptedNonce { nonce: vstd::slice::slice_to_vec(request.nonce), seen: now });
        assert(self@.nonces =~= before.push((request.nonce@, now)));
        Ok(())
    }
}

proof fn lemma_fresh_keeps_recent(s: Seq<(Seq<u8>, u64)>, e: (Seq<u8>, u64), now: u64)
    requires
        within_window(e.1, now),
    ensures
        fresh_nonces(s.push(e), now) == fresh_nonces(s, now).push(e),
{
    assert(s.push(e).drop_last() =~= s);
}

proof fn lemma_nonce_index_finds(s: Seq<(Seq<u8>, u64)>, nonce: Seq<u8>, from: int, k: int)
    requires
        0 <= from <= k < s.len(),
        s[k].0 == nonce,
    ensures
        nonce_index(s, nonce, from) <= k,
    decreases k - from,
{
    if s[from].0 != nonce {
        lemma_nonce_index_finds(s, nonce, from + 1, k);
    }
}

proof fn lemma_drop_expired_shrinks(f: Seq<u64>, now: u64)
    ensures
        drop_expired_failures(f, now).len() <= f.len(),
    decreases f.len(),
{
    if f.len() > 0 && !within_window(f[0], now) {
        lemma_drop_expired_shrinks(f.drop_first(), now);
    }
}

/// Once a request is accepted at `accepted_at`, presenting its nonce again
/// with a valid signature at any time inside the window is refused as a
/// replay.
pub proof fn lemma_accepted_nonce_is_replayed(
    remembered: Seq<(Seq<u8>, u64)>,
    nonce: Seq<u8>,
    accepted_at: u64,
    later: u64,
)
    requires
        accepted_at <= later,
        within_window(accepted_at, later),
    ensures
        ({
            let after = fresh_nonces(remembered, accepted_at).push((nonce, accepted_at));
            let kept = fresh_nonces(after, later);
            nonce_index(kept, nonce, 0) < kept.len()
        }),
{
    let before = fresh_nonces(remembered, accepted_at);
    let after = before.push((nonce, accepted_at));
    lemma_fresh_keeps_recent(before, (nonce, accepted_at), later);
    let kept = fresh_nonces(after, later);
    lemma_nonce_index_finds(kept, nonce, 0, kept.len() - 1);
}

/// A request that carries the tag `sign` computes over its own fields, at a
/// timestamp inside the clock window, is never rejected before its nonce is
/// considered, however many failures precede it.
pub proof fn lemma_signed_request_passes(
    secret: Seq<u8>,
    timestamp: u64,
    nonce: Seq<u8>,
    method: Seq<char>,
    path: Seq<char>,
    body: Seq<u8>,
    now: u64,
)
    requires
        spec_request_tag(secret, timestamp, nonce, method, path, body) is Some,
        abs_diff(now, timestamp) <= CLOCK_WINDOW_SECS,
    ensures
        request_rejection(
            secret,
            timestamp,
            nonce,
            spec_request_tag(secret, timestamp, nonce, method, path, body)->Some_0,
            method,
            path,
            body,
            now,
        ) is None,
{
}

/// A response tag made by `sign_response` is the one `verify_response`
/// accepts for the same nonce, path, status and body.
pub proof fn lemma_response_tag_verifies(
    secret: Seq<u8>,
    request_nonce: Seq<u8>,
    path: Seq<char>,
    status: u16,
    body: Seq<u8>,
)
    requires
        spec_response_tag(secret, request_nonce, path, status, body) is Some,
    ensures
        spec_response_message(request_nonce, path, status, body) is Some,
        spec_response_tag(secret, request_nonce, path, status, body)->Some_0 == spec_hmac_sha256(
            secret,
            spec_response_message(request_nonce, path, status, body)->Some_0,
        ),
{
}

/// Failed attempts never lock out a valid client: a request carrying the
/// tag of its own fields under the credential, inside the clock window, with
/// a nonce not accepted within the window, is accepted however many failures
/// the verifier remembers.
pub proof fn lemma_valid_request_is_never_locked_out(
    v: AuthenticatorView,
    secret: Seq<u8>,
    timestamp: u64,
    nonce: Seq<u8>,
    method: Seq<char>,
    path: Seq<char>,
    body: Seq<u8>,
    now: u64,
)
    requires
        spec_request_tag(secret, timestamp, nonce, method, path, body) is Some,
        abs_diff(now, timestamp) <= CLOCK_WINDOW_SECS,
        nonce_index(fresh_nonces(v.nonces, now), nonce, 0) >= fresh_nonces(v.nonces, now).len(),
    ensures
        spec_verify(
            v,
            secret,
            timestamp,
            nonce,
            spec_request_tag(secret, timestamp, nonce, method, path, body)->Some_0,
            method,
            path,
            body,
            now,
        ).0 is Ok,
{
}

/// The failure memory never holds more than the maximum number of failures.
pub proof fn lemma_failures_stay_bounded(f: Seq<u64>, now: u64)
    requires
        f.len() <= MAX_FAILURES,
    ensures
        failures_after(f, now).len() <= MAX_FAILURES,
{
    lemma_drop_expired_shrinks(f, now);
}

proof fn lemma_ascii_bytes_injective(a: Seq<char>, b: Seq<char>)
    requires
        vstd::utf8::is_ascii_chars(a),
        vstd::utf8::is_ascii_chars(b),
        ascii_bytes(a) == ascii_bytes(b),
    ensures
        a == b,
{
    assert(ascii_bytes(a).len() == a.len());
    assert(ascii_bytes(b).len() == b.len());
    assert(a.len() == b.len());
    assert forall|i: int| 0 <= i < a.len() implies a[i] == b[i] by {
        assert(ascii_bytes(a)[i] == ascii_bytes(b)[i]);
        assert(ascii_bytes(a)[i] == a[i] as u8);
        assert(ascii_bytes(b)[i] == b[i] as u8);
        assert('\0' <= a[i] <= '\u{7f}');
        assert('\0' <= b[i] <= '\u{7f}');
        assert((a[i] as u8) as int == a[i] as int);
        assert((b[i] as u8) as int == b[i] as int);
        assert(a[i] as int == b[i] as int);
        assert(a[i] <= b[i] && b[i] <= a[i]);
    }
    assert(a =~= b);
}

/// The canonical request message determines the timestamp, the nonce, the
/// method up to letter case, the path and the body digest: no two requests
/// that differ in one of them share a message, and so a signature.
pub proof fn lemma_canonical_message_injective(
    t1: u64,
    n1: Seq<u8>,
    m1: Seq<char>,
    p1: Seq<char>,
    b1: Seq<u8>,
    t2: u64,
    n2: Seq<u8>,
    m2: Seq<char>,
    p2: Seq<char>,
    b2: Seq<u8>,
)
    requires
        spec_canonical_message(t1, n1, m1, p1, b1) is Some,
        spec_canonical_message(t1, n1, m1, p1, b1) == spec_canonical_message(t2, n2, m2, p2, b2),
        spec_sha256(b1).len() == 32,
        spec_sha256(b2).len() == 32,
    ensures
        t1 == t2,
        n1 == n2,
        upper_bytes(ascii_bytes(m1)) == upper_bytes(ascii_bytes(m2)),
        p1 == p2,
        spec_sha256(b1) == spec_sha256(b2),
{
    let x = spec_canonical_message(t1, n1, m1, p1, b1)->Some_0;
    let um1 = upper_bytes(ascii_bytes(m1));
    let um2 = upper_bytes(ascii_bytes(m2));
    let ap1 = ascii_bytes(p1);
    let ap2 = ascii_bytes(p2);
    let d = request_domain();
    assert(x =~= d + u64_be(t1) + length_prefixed(n1) + length_prefixed(um1) + length_prefixed(ap1) + spec_sha256(b1));
    assert(x =~= d + u64_be(t2) + length_prefixed(n2) + length_prefixed(um2) + length_prefixed(ap2) + spec_sha256(b2));
    assert(x.subrange(19, 27) =~= u64_be(t1));
    assert(x.subrange(19, 27) =~= u64_be(t2));
    crate::bytes::lemma_u64_be_injective(t1, t2);
    assert(x.subrange(29, 45) =~= n1);
    assert(x.subrange(29, 45) =~= n2);
    let k = 45int;
    assert(x.subrange(k, k + 2) =~= u16_be(um1.len() as u16));
    assert(x.subrange(k, k + 2) =~= u16_be(um2.len() as u16));
    crate::bytes::lemma_u16_be_injective(um1.len() as u16, um2.len() as u16);
    assert(um1.len() == um2.len());
    let k2 = k + 2 + um1.len();
    assert(x.subrange(k + 2, k2) =~= um1);
    assert(x.subrange(k + 2, k2) =~= um2);
    assert(x.subrange(k2, k2 + 2) =~= u16_be(ap1.len() as u16));
    assert(x.subrange(k2, k2 + 2) =~= u16_be(ap2.len() as u16));
    crate::bytes::lemma_u16_be_injective(ap1.len() as u16, ap2.len() as u16);
    let k3 = k2 + 2 + ap1.len();
    assert(x.subrange(k2 + 2, k3) =~= ap1);
    assert(x.subrange(k2 + 2, k3) =~= ap2);
    lemma_ascii_bytes_injective(p1, p2);
    assert(x.subrange(k3, k3 + 32) =~= spec_sha256(b1));
    assert(x.subrange(k3, k3 + 32) =~= spec_sha256(b2));
}

/// One request presented to the verifier: what `verify` is called with.
pub ghost struct VerifyCall {
    pub secret: Seq<u8>,
    pub timestamp: u64,
    pub nonce: Seq<u8>,
    pub signature: Seq<u8>,
    pub method: Seq<char>,
    pub path: Seq<char>,
    pub body: Seq<u8>,
    pub now: u64,
}

/// The verifier's memory after the calls, in order.
pub open spec fn verify_history(v: AuthenticatorView, calls: Seq<VerifyCall>) -> AuthenticatorView
    decreases calls.len(),
{
    if calls.len() == 0 {
        v
    } else {
        let c = calls.last();
        spec_verify(
            verify_history(v, calls.drop_last()),
            c.secret,
            c.timestamp,
            c.nonce,
            c.signature,
            c.method,
            c.path,
            c.body,
            c.now,
        ).1
    }
}

/// Whether the memory holds `nonce` as seen at `since` or later.
pub open spec fn remembers(s: Seq<(Seq<u8>, u64)>, nonce: Seq<u8>, since: u64) -> bool {
    exists|i: int| 0 <= i < s.len() && (#[trigger] s[i]).0 == nonce && s[i].1 >= since
}

proof fn lemma_nonce_index_is_entry(s: Seq<(Seq<u8>, u64)>, nonce: Seq<u8>, from: int)
    requires
        0 <= from,
    ensures
        nonce_index(s, nonce, from) >= 0,
        nonce_index(s, nonce, from) < s.len() ==> s[nonce_index(s, nonce, from)].0 == nonce,
    decreases s.len() - from,
{
    if from < s.len() && s[from].0 != nonce {
        lemma_nonce_index_is_entry(s, nonce, from + 1);
    }
}

proof fn lemma_fresh_remembers(s: Seq<(Seq<u8>, u64)>, nonce: Seq<u8>, since: u64, now: u64)
    requires
        remembers(s, nonce, since),
        within_window(since, now),
    ensures
        remembers(fresh_nonces(s, now), nonce, since),
    decreases s.len(),
{
    let k = choose|k: int| 0 <= k < s.len() && (#[trigger] s[k]).0 == nonce && s[k].1 >= since;
    let rest = fresh_nonces(s.drop_last(), now);
    if k == s.len() - 1 {
        assert(within_window(s.last().1, now));
        assert(fresh_nonces(s, now) == rest.push(s.last()));
        assert(fresh_nonces(s, now)[rest.len() as int] == s.last());
    } else {
        assert(s.drop_last()[k] == s[k]);
        lemma_fresh_remembers(s.drop_last(), nonce, since, now);
        let j = choose|j: int| 0 <= j < rest.len() && (#[trigger] rest[j]).0 == nonce && rest[j].1 >= since;
        if within_window(s.last().1, now) {
            assert(fresh_nonces(s, now)[j] == rest[j]);
        }
    }
}

proof fn lemma_verify_keeps_remembered(
    v: AuthenticatorView,
    nonce: Seq<u8>,
    since: u64,
    c: VerifyCall,
)
    requires
        remembers(v.nonces, nonce, since),
        since <= c.now,
        within_window(since, c.now),
    ensures
        remembers(
            spec_verify(v, c.secret, c.timestamp, c.nonce, c.signature, c.method, c.path, c.body, c.now).1.nonces,
            nonce,
            since,
        ),
{
    if request_rejection(c.secret, c.timestamp, c.nonce, c.signature, c.method, c.path, c.body, c.now) is None {
        let kept = fresh_nonces(v.nonces, c.now);
        lemma_fresh_remembers(v.nonces, nonce, since, c.now);
        let j = choose|j: int| 0 <= j < kept.len() && (#[trigger] kept[j]).0 == nonce && kept[j].1 >= since;
        let i = nonce_index(kept, c.nonce, 0);
        lemma_nonce_index_is_entry(kept, c.nonce, 0);
        if i < kept.len() {
            let after = kept.update(i, (c.nonce, c.now));
            if i == j {
                assert(after[i] == (c.nonce, c.now));
            } else {
                assert(after[j] == kept[j]);
            }
        } else {
            assert(kept.push((c.nonce, c.now))[j] == kept[j]);
        }
    }
}

/// Replay protection holds over any sequence of requests: once the verifier
/// accepted a request at `accepted_at`, whatever requests follow (valid or
/// not, with any nonces) while the clock stays inside the window of
/// `accepted_at`, the accepted nonce is still remembered at every later time
/// inside that window, so presenting it again is refused as a replay.
pub proof fn lemma_accepted_nonce_is_replayed_after_any_requests(
    v: AuthenticatorView,
    accepted: VerifyCall,
    calls: Seq<VerifyCall>,
    later: u64,
)
    requires
        spec_verify(
            v,
            accepted.secret,
            accepted.timestamp,
            accepted.nonce,
            accepted.signature,
            accepted.method,
            accepted.path,
            accepted.body,
            accepted.now,
        ).0 is Ok,
        forall|k: int|
            0 <= k < calls.len() ==> accepted.now <= (#[trigger] calls[k]).now && within_window(
                accepted.now,
                calls[k].now,
            ),
        accepted.now <= later,
        within_window(accepted.now, later),
    ensures
        ({
            let kept = fresh_nonces(verify_history(v, seq![accepted] + calls).nonces, later);
            nonce_index(kept, accepted.nonce, 0) < kept.len()
        }),
{
    let all = seq![accepted] + calls;
    lemma_history_remembers(v, accepted, calls);
    let s = verify_history(v, all).nonces;
    lemma_fresh_remembers(s, accepted.nonce, accepted.now, later);
    let kept = fresh_nonces(s, later);
    let j = choose|j: int| 0 <= j < kept.len() && (#[trigger] kept[j]).0 == accepted.nonce && kept[j].1 >= accepted.now;
    lemma_nonce_index_finds(kept, accepted.nonce, 0, j);
}

proof fn lemma_history_remembers(v: AuthenticatorView, accepted: VerifyCall, calls: Seq<VerifyCall>)
    requires
        spec_verify(
            v,
            accepted.secret,
            accepted.timestamp,
            accepted.nonce,
            accepted.signature,
            accepted.method,
            accepted.path,
            accepted.body,
            accepted.now,
        ).0 is Ok,
        forall|k: int|
            0 <= k < calls.len() ==> accepted.now <= (#[trigger] calls[k]).now && within_window(
                accepted.now,
                calls[k].now,
            ),
    ensures
        remembers(verify_history(v, seq![accepted] + calls).nonces, accepted.nonce, accepted.now),
    decreases calls.len(),
{
    let all = seq![accepted] + calls;
    if calls.len() == 0 {
        assert(all.drop_last() =~= Seq::<VerifyCall>::empty());
        assert(all.last() == accepted);
        assert(verify_history(v, all.drop_last()) == v);
        let kept = fresh_nonces(v.nonces, accepted.now);
        let after = kept.push((accepted.nonce, accepted.now));
        assert(after[kept.len() as int] == (accepted.nonce, accepted.now));
    } else {
        assert(all.drop_last() =~= seq![accepted] + calls.drop_last());
        lemma_history_remembers(v, accepted, calls.drop_last());
        let c = calls.last();
        assert(c == calls[calls.len() - 1]);
        assert(all.last() == c);
        lemma_verify_keeps_remembered(verify_history(v, all.drop_last()), accepted.nonce, accepted.now, c);
    }
}

/// Over any sequence of requests, the failure memory never holds more than
/// the maximum number of failures.
pub proof fn lemma_failures_stay_bounded_after_any_requests(v: AuthenticatorView, calls: Seq<VerifyCall>)
    requires
        v.failures.len() <= MAX_FAILURES,
    ensures
        verify_history(v, calls).failures.len() <= MAX_FAILURES,
    decreases calls.len(),
{
    if calls.len() > 0 {
        lemma_failures_stay_bounded_after_any_requests(v, calls.drop_last());
        lemma_failures_stay_bounded(verify_history(v, calls.drop_last()).failures, calls.last().now);
    }
}

/// A request whose timestamp is more than the clock window away from the
/// host's clock, behind it or ahead of it, is refused as stale whatever its
/// signature and nonce (as rate limited once the failure window is full):
/// the refusal counts as a failure and the nonce is not remembered.
pub proof fn lemma_requests_outside_the_clock_window_are_stale(
    v: AuthenticatorView,
    secret: Seq<u8>,
    timestamp: u64,
    nonce: Seq<u8>,
    signature: Seq<u8>,
    method: Seq<char>,
    path: Seq<char>,
    body: Seq<u8>,
    now: u64,
)
    requires
        timestamp > now + CLOCK_WINDOW_SECS || now > timestamp + CLOCK_WINDOW_SECS,
    ensures
        ({
            let (r, after) = spec_verify(v, secret, timestamp, nonce, signature, method, path, body, now);
            &&& r == Err::<(), AuthError>(AuthError::Stale) || r == Err::<(), AuthError>(AuthError::RateLimited)
            &&& drop_expired_failures(v.failures, now).len() < MAX_FAILURES ==> r == Err::<(), AuthError>(
                AuthError::Stale,
            )
            &&& after.nonces == v.nonces
            &&& after.failures == failures_after(v.failures, now)
        }),
{
}

/// A request is accepted only when its timestamp is within the clock window
/// of the host's clock, its signature is the tag of its own fields under the
/// secret, and its nonce was not accepted within the window; an accepted
/// nonce is remembered at `now` and the failure memory is untouched.
pub proof fn lemma_accepted_requests_are_fresh_signed_and_new(
    v: AuthenticatorView,
    secret: Seq<u8>,
    timestamp: u64,
    nonce: Seq<u8>,
    signature: Seq<u8>,
    method: Seq<char>,
    path: Seq<char>,
    body: Seq<u8>,
    now: u64,
)
    requires
        spec_verify(v, secret, timestamp, nonce, signature, method, path, body, now).0 is Ok,
    ensures
        timestamp <= now + CLOCK_WINDOW_SECS && now <= timestamp + CLOCK_WINDOW_SECS,
        spec_request_tag(secret, timestamp, nonce, method, path, body) == Some(signature),
        forall|k: int|
            0 <= k < v.nonces.len() && (#[trigger] v.nonces[k]).0 == nonce ==> !within_window(v.nonces[k].1, now),
        ({
            let after = spec_verify(v, secret, timestamp, nonce, signature, method, path, body, now).1;
            &&& after.failures == v.failures
            &&& after.nonces.last() == (nonce, now)
        }),
{
    let kept = fresh_nonces(v.nonces, now);
    assert forall|k: int|
        0 <= k < v.nonces.len() && (#[trigger] v.nonces[k]).0 == nonce implies !within_window(v.nonces[k].1, now) by {
        if within_window(v.nonces[k].1, now) {
            lemma_fresh_remembers(v.nonces, nonce, v.nonces[k].1, now);
            let j = choose|j: int| 0 <= j < kept.len() && (#[trigger] kept[j]).0 == nonce && kept[j].1 >= v.nonces[k].1;
            lemma_nonce_index_finds(kept, nonce, 0, j);
        }
    }
}

/// A correctly signed request inside the clock window whose nonce was
/// accepted within the window is refused as a replay, and is not counted
/// as a failure.
pub proof fn lemma_remembered_nonce_is_a_replay(
    v: AuthenticatorView,
    secret: Seq<u8>,
    timestamp: u64,
    nonce: Seq<u8>,
    method: Seq<char>,
    path: Seq<char>,
    body: Seq<u8>,
    now: u64,
    k: int,
)
    requires
        spec_request_tag(secret, timestamp, nonce, method, path, body) is Some,
        timestamp <= now + CLOCK_WINDOW_SECS && now <= timestamp + CLOCK_WINDOW_SECS,
        0 <= k < v.nonces.len(),
        v.nonces[k].0 == nonce,
        within_window(v.nonces[k].1, now),
    ensures
        ({
            let signature = spec_request_tag(secret, timestamp, nonce, method, path, body)->Some_0;
            let (r, after) = spec_verify(v, secret, timestamp, nonce, signature, method, path, body, now);
            &&& r == Err::<(), AuthError>(AuthError::Replay)
            &&& after.failures == v.failures
        }),
{
    let kept = fresh_nonces(v.nonces, now);
    lemma_fresh_remembers(v.nonces, nonce, v.nonces[k].1, now);
    let j = choose|j: int| 0 <= j < kept.len() && (#[trigger] kept[j]).0 == nonce && kept[j].1 >= v.nonces[k].1;
    lemma_nonce_index_finds(kept, nonce, 0, j);
}

} // verus!
