//! The host identity that outlives restarts, and the store it is kept in.

use vstd::prelude::*;

use crate::crypto::{new_host_id, random_below};
use crate::auth::CLOCK_WINDOW_SECS;
use crate::bytes::bytes_equal;
use crate::pairing::format_code;

verus! {

/// A shutdown nonce accepted within the replay window, kept across restarts.
#[derive(Clone, Copy)]
pub struct AcceptedShutdownNonce {
    pub timestamp: u64,
    pub nonce: [u8; 16],
}

/// Everything the host persists: its stable id, the paired credential, the
/// pairing code with its creation time, accepted shutdown nonces, and the last
/// plugin version observed on an authenticated request (informational only).
pub struct HostIdentity {
    pub host_id: u128,
    pub credential: Option<[u8; 32]>,
    pub pairing_code: Option<String>,
    pub pairing_created_at: u64,
    pub accepted_shutdown_nonces: Vec<AcceptedShutdownNonce>,
    pub last_client_version: Option<String>,
}

pub ghost struct HostIdentityView {
    pub host_id: u128,
    pub credential: Option<Seq<u8>>,
    pub pairing_code: Option<Seq<char>>,
    pub pairing_created_at: u64,
    pub accepted_shutdown_nonces: Seq<(u64, Seq<u8>)>,
    pub last_client_version: Option<Seq<char>>,
}

pub open spec fn option_bytes(o: Option<[u8; 32]>) -> Option<Seq<u8>> {
    match o {
        Some(b) => Some(b@),
        None => None,
    }
}

pub open spec fn option_text(o: Option<String>) -> Option<Seq<char>> {
    match o {
        Some(s) => Some(s@),
        None => None,
    }
}

impl View for HostIdentity {
    type V = HostIdentityView;

    open spec fn view(&self) -> HostIdentityView {
        HostIdentityView {
            host_id: self.host_id,
            credential: option_bytes(self.credential),
            pairing_code: option_text(self.pairing_code),
            pairing_created_at: self.pairing_created_at,
            accepted_shutdown_nonces: Seq::new(
                self.accepted_shutdown_nonces@.len(),
                |i: int| (self.accepted_shutdown_nonces@[i].timestamp, self.accepted_shutdown_nonces@[i].nonce@),
            ),
            last_client_version: option_text(self.last_client_version),
        }
    }
}

/// Why the store could not load or save the identity.
#[derive(Debug)]
pub struct StoreError {
    pub message: String,
}

/// Where the identity is kept. Implementations do I/O; nothing is promised
/// of their outcome, and the host handles both.
pub trait CredentialStore {
    fn load_or_create(&self) -> Result<HostIdentity, StoreError>;

    fn save(&self, identity: &HostIdentity) -> Result<(), StoreError>;
}

pub fn copy_text(s: &Option<String>) -> (c: Option<String>)
    ensures
        option_text(c) == option_text(*s),
{
    match s {
        Some(text) => Some(text.clone()),
        None => None,
    }
}

impl HostIdentity {
    /// An identical copy.
    pub fn duplicate(&self) -> (copy: HostIdentity)
        ensures
            copy@ == self@,
    {
        let mut nonces: Vec<AcceptedShutdownNonce> = Vec::new();
        let mut i: usize = 0;
        while i < self.accepted_shutdown_nonces.len()
            invariant
                i <= self.accepted_shutdown_nonces@.len(),
                nonces@.len() == i,
                forall|k: int| 0 <= k < i ==> #[trigger] nonces@[k] == self.accepted_shutdown_nonces@[k],
            decreases self.accepted_shutdown_nonces.len() - i,
        {
            let entry = self.accepted_shutdown_nonces[i];
            nonces.push(AcceptedShutdownNonce { timestamp: entry.timestamp, nonce: entry.nonce });
            i = i + 1;
        }
        let copy = HostIdentity {
            host_id: self.host_id,
            credential: self.credential,
            pairing_code: copy_text(&self.pairing_code),
            pairing_created_at: self.pairing_created_at,
            accepted_shutdown_nonces: nonces,
            last_client_version: copy_text(&self.last_client_version),
        };
        assert(copy@.accepted_shutdown_nonces =~= self@.accepted_shutdown_nonces);
        copy
    }

    /// A new identity created at `now` (Unix seconds) with the given id and a
    /// pairing code made from a number below one million.
    pub fn fresh_at(host_id: u128, code_value: u32, now: u64) -> (identity: HostIdentity)
        requires
            code_value < 1_000_000,
        ensures
            identity@.host_id == host_id,
            identity@.credential is None,
            identity@.pairing_code == Some(crate::pairing::six_digits(code_value as nat)),
            identity@.pairing_created_at == now,
            identity@.accepted_shutdown_nonces.len() == 0,
            identity@.last_client_version is None,
    {
        let identity = HostIdentity {
            host_id,
            credential: None,
            pairing_code: Some(format_code(code_value)),
            pairing_created_at: now,
            accepted_shutdown_nonces: Vec::new(),
            last_client_version: None,
        };
        assert(identity@.accepted_shutdown_nonces =~= Seq::<(u64, Seq<u8>)>::empty());
        identity
    }
}

impl Default for HostIdentity {
    /// A new identity: a random id, no credential, and a random six-digit
    /// pairing code created now.
    fn default() -> (identity: Self)
        ensures
            identity@.credential is None,
            identity@.pairing_code matches Some(code) && crate::pairing::is_pairing_code(code),
            identity@.accepted_shutdown_nonces.len() == 0,
            identity@.last_client_version is None,
    {
        let code_value = random_below(1_000_000);
        proof {
            crate::pairing::lemma_six_digits_are_a_code(code_value as nat);
        }
        HostIdentity::fresh_at(new_host_id(), code_value, crate::auth::now_unix())
    }
}

/// Accepted shutdown nonces whose request timestamps are still inside the
/// replay window at `now` (Unix seconds), in their order.
pub open spec fn recent_shutdown_nonces(s: Seq<(u64, Seq<u8>)>, now: u64) -> Seq<(u64, Seq<u8>)>
    decreases s.len(),
{
    if s.len() == 0 {
        s
    } else if now <= s.last().0 + CLOCK_WINDOW_SECS {
        recent_shutdown_nonces(s.drop_last(), now).push(s.last())
    } else {
        recent_shutdown_nonces(s.drop_last(), now)
    }
}

pub open spec fn shutdown_nonce_seen(s: Seq<(u64, Seq<u8>)>, nonce: Seq<u8>) -> bool {
    exists|i: int| 0 <= i < s.len() && (#[trigger] s[i]).1 == nonce
}

impl HostIdentity {
    /// Forgets accepted shutdown nonces whose timestamps left the window.
    pub fn retain_recent_shutdown_nonces(&mut self, now: u64)
        ensures
            final(self)@ == (HostIdentityView {
                accepted_shutdown_nonces: recent_shutdown_nonces(old(self)@.accepted_shutdown_nonces, now),
                ..old(self)@
            }),
    {
        let ghost initial = self@.accepted_shutdown_nonces;
        let mut remaining: Vec<AcceptedShutdownNonce> = Vec::new();
        std::mem::swap(&mut remaining, &mut self.accepted_shutdown_nonces);
        let mut kept: Vec<AcceptedShutdownNonce> = Vec::new();
        while remaining.len() > 0
            invariant
                recent_shutdown_nonces(initial, now) == recent_shutdown_nonces(
                    Seq::new(remaining@.len(), |i: int| (remaining@[i].timestamp, remaining@[i].nonce@)),
                    now,
                ) + Seq::new(kept@.len(), |i: int| (kept@[i].timestamp, kept@[i].nonce@)),
            decreases remaining@.len(),
        {
            let ghost before = Seq::new(remaining@.len(), |i: int| (remaining@[i].timestamp, remaining@[i].nonce@));
            let ghost kept_before = Seq::new(kept@.len(), |i: int| (kept@[i].timestamp, kept@[i].nonce@));
            let entry = remaining.pop().unwrap();
            assert(Seq::new(remaining@.len(), |i: int| (remaining@[i].timestamp, remaining@[i].nonce@)) =~= before.drop_last());
            if now.saturating_sub(entry.timestamp) <= CLOCK_WINDOW_SECS {
                kept.insert(0, entry);
                assert(Seq::new(kept@.len(), |i: int| (kept@[i].timestamp, kept@[i].nonce@)) =~= seq![before.last()] + kept_before);
            }
        }
        assert(Seq::new(remaining@.len(), |i: int| (remaining@[i].timestamp, remaining@[i].nonce@)) =~= Seq::<(u64, Seq<u8>)>::empty());
        self.accepted_shutdown_nonces = kept;
        assert(self@.accepted_shutdown_nonces =~= recent_shutdown_nonces(initial, now));
    }

    /// Whether a shutdown nonce is among the accepted ones.
    pub fn has_shutdown_nonce(&self, nonce: &[u8; 16]) -> (seen: bool)
        ensures
            seen == shutdown_nonce_seen(self@.accepted_shutdown_nonces, nonce@),
    {
        let mut i: usize = 0;
        while i < self.accepted_shutdown_nonces.len()
            invariant
                i <= self.accepted_shutdown_nonces@.len(),
                forall|k: int| 0 <= k < i ==> (#[trigger] self@.accepted_shutdown_nonces[k]).1 != nonce@,
            decreases self.accepted_shutdown_nonces.len() - i,
        {
            if bytes_equal(&self.accepted_shutdown_nonces[i].nonce, nonce) {
                assert(self@.accepted_shutdown_nonces[i as int].1 == nonce@);
                return true;
            }
            i = i + 1;
        }
        false
    }
}

} // verus!
