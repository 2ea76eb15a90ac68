//! Authentication sessions, failed-attempt lockout, and password rules.
//!
//! Time is passed in explicitly as seconds since the Unix epoch; the
//! surrounding application supplies the clock. A session is valid while it
//! is active and unexpired; an expired session simply stops validating, with
//! no transition call needed. Once the failed-attempt count reaches the
//! configured maximum, authentication fails immediately — before any key
//! derivation — until logout or an explicit reset.
use vstd::prelude::*;
use vstd::utf8::encode_utf8;
use crate::PassManError;
use crate::crypto::{CryptoManager, Salt, SecureKey, derived_key_of};

verus! {

/// One authentication session.
#[derive(Clone, Copy, Debug, PartialEq, Eq, Structural)]
pub struct AuthSession {
    /// When the session was created.
    pub created_at: u64,
    /// When the session expires.
    pub expires_at: u64,
    /// Whether the session is active.
    pub is_active: bool,
    /// Failed authentication attempts counted against this session.
    pub failed_attempts: u32,
    /// When the session last saw activity.
    pub last_activity: u64,
}

impl AuthSession {
    /// The session invariant: it expires strictly after it was created, and
    /// its last activity is no earlier than its creation.
    pub open spec fn wf(self) -> bool {
        &&& self.expires_at > self.created_at
        &&& self.last_activity >= self.created_at
    }

    /// A fresh session created at `now`, expiring `timeout_minutes` later.
    pub fn new(timeout_minutes: u32, now: u64) -> (r: AuthSession)
        requires
            timeout_minutes >= 1,
            now + timeout_minutes as u64 * 60 <= u64::MAX,
        ensures
            r == (AuthSession {
                created_at: now,
                expires_at: (now + timeout_minutes as u64 * 60) as u64,
                is_active: true,
                failed_attempts: 0,
                last_activity: now,
            }),
            r.wf(),
    {
        let timeout_seconds: u64 = timeout_minutes as u64 * 60;
        AuthSession {
            created_at: now,
            expires_at: now + timeout_seconds,
            is_active: true,
            failed_attempts: 0,
            last_activity: now,
        }
    }

    /// Whether the session is valid at `now`: active and not yet expired.
    /// An expired session is simply invalid; no transition is required.
    pub fn is_valid(&self, now: u64) -> (r: bool)
        ensures
            r == (self.is_active && now < self.expires_at),
    {
        self.is_active && now < self.expires_at
    }

    /// Record activity at `now`; this does not extend the expiry.
    pub fn update_activity(&mut self, now: u64)
        ensures
            *final(self) == (AuthSession { last_activity: now, ..*old(self) }),
            old(self).wf() && now >= old(self).created_at ==> final(self).wf(),
    {
        self.last_activity = now;
    }

    /// Recompute the expiry as the last observed activity plus the timeout —
    /// deliberately not as the moment of this call plus the timeout.
    pub fn extend_timeout(&mut self, timeout_minutes: u32)
        requires
            timeout_minutes >= 1,
            old(self).last_activity + timeout_minutes as u64 * 60 <= u64::MAX,
        ensures
            *final(self) == (AuthSession {
                expires_at: (old(self).last_activity + timeout_minutes as u64 * 60) as u64,
                ..*old(self)
            }),
            old(self).wf() ==> final(self).wf(),
    {
        let timeout_seconds: u64 = timeout_minutes as u64 * 60;
        self.expires_at = self.last_activity + timeout_seconds;
    }

    /// Count one failed authentication attempt. The counter never decreases
    /// except through an explicit reset or a fresh session.
    pub fn record_failed_attempt(&mut self)
        requires
            old(self).failed_attempts < u32::MAX,
        ensures
            *final(self) == (AuthSession {
                failed_attempts: (old(self).failed_attempts + 1) as u32,
                ..*old(self)
            }),
    {
        self.failed_attempts = self.failed_attempts + 1;
    }

    /// Clear the failed-attempt counter.
    pub fn reset_failed_attempts(&mut self)
        ensures
            *final(self) == (AuthSession { failed_attempts: 0, ..*old(self) }),
    {
        self.failed_attempts = 0;
    }

    /// Whether the failed-attempt count has reached `max_attempts`.
    pub fn is_locked_out(&self, max_attempts: u32) -> (r: bool)
        ensures
            r == (self.failed_attempts >= max_attempts),
    {
        self.failed_attempts >= max_attempts
    }
}

/// The session manager: tracks the one current session, its lockout state,
/// and the crypto context of the open vault.
pub struct AuthManager {
    /// The current session, if one exists.
    session: Option<AuthSession>,
    /// Crypto context for the open vault.
    crypto: CryptoManager,
    /// Failed attempts at which lockout sets in.
    max_failed_attempts: u32,
    /// Session timeout in minutes.
    session_timeout_minutes: u32,
}

impl AuthManager {
    /// The current session, if one exists.
    pub closed spec fn session_view(self) -> Option<AuthSession> {
        self.session
    }

    /// The configured lockout threshold.
    pub closed spec fn max_attempts_view(self) -> u32 {
        self.max_failed_attempts
    }

    /// The configured session timeout in minutes.
    pub closed spec fn timeout_view(self) -> u32 {
        self.session_timeout_minutes
    }

    /// The crypto context's key bytes, if a key is held.
    pub closed spec fn key_view(self) -> Option<Seq<u8>> {
        self.crypto.key_view()
    }

    /// The crypto context's salt bytes, if a salt is held.
    pub closed spec fn salt_view(self) -> Option<Seq<u8>> {
        self.crypto.salt_view()
    }

    /// Failed attempts counted so far (0 when no session exists).
    pub open spec fn failed_attempts_spec(self) -> u32 {
        match self.session_view() {
            None => 0,
            Some(s) => s.failed_attempts,
        }
    }

    /// Locked out: a session exists and its failed-attempt count has reached
    /// the maximum.
    pub open spec fn locked_out_spec(self) -> bool {
        match self.session_view() {
            None => false,
            Some(s) => s.failed_attempts >= self.max_attempts_view(),
        }
    }

    /// Authenticated at `now`: a session exists, is active, and unexpired.
    pub open spec fn valid_at(self, now: u64) -> bool {
        match self.session_view() {
            None => false,
            Some(s) => s.is_active && now < s.expires_at,
        }
    }

    /// Whether an authentication attempt succeeds: the manager is not locked
    /// out and the offered password was verified correct.
    pub open spec fn auth_outcome_ok(self, password_ok: bool) -> bool {
        !self.locked_out_spec() && password_ok
    }

    /// A manager with no session and an empty crypto context.
    pub fn new(max_failed_attempts: u32, session_timeout_minutes: u32) -> (r: AuthManager)
        ensures
            r.session_view() is None,
            r.key_view() is None,
            r.salt_view() is None,
            r.max_attempts_view() == max_failed_attempts,
            r.timeout_view() == session_timeout_minutes,
    {
        AuthManager {
            session: None,
            crypto: CryptoManager::new(),
            max_failed_attempts,
            session_timeout_minutes,
        }
    }

    /// Process one authentication attempt at `now`, whose password was
    /// verified (by opening the vault) to be `password_ok`.
    ///
    /// A locked-out manager fails at once, whatever the password, and
    /// changes nothing — this blocks further expensive key derivation. An
    /// attempt with a correct password creates a fresh session (counter 0,
    /// expiry `now` plus the configured timeout). A failed attempt counts
    /// against the existing session, or against a fresh tracking session
    /// when none exists, and reports the same authentication failure.
    pub fn authenticate(&mut self, password_ok: bool, now: u64) -> (r: Result<bool, PassManError>)
        requires
            old(self).timeout_view() >= 1,
            now + old(self).timeout_view() as u64 * 60 <= u64::MAX,
            old(self).failed_attempts_spec() < u32::MAX,
        ensures
            r is Ok <==> old(self).auth_outcome_ok(password_ok),
            r matches Err(e) ==> e == PassManError::AuthenticationFailed,
            old(self).locked_out_spec() ==> *final(self) == *old(self),
            old(self).auth_outcome_ok(password_ok) ==> final(self).session_view() == Some(
                AuthSession {
                    created_at: now,
                    expires_at: (now + old(self).timeout_view() as u64 * 60) as u64,
                    is_active: true,
                    failed_attempts: 0,
                    last_activity: now,
                },
            ),
            !old(self).locked_out_spec() && !password_ok ==> {
                &&& final(self).failed_attempts_spec() == old(self).failed_attempts_spec() + 1
                &&& final(self).session_view() is Some
            },
            !old(self).locked_out_spec() && !password_ok && old(self).session_view() is None
                ==> !final(self).valid_at(now),
            final(self).max_attempts_view() == old(self).max_attempts_view(),
            final(self).timeout_view() == old(self).timeout_view(),
            final(self).key_view() == old(self).key_view(),
            final(self).salt_view() == old(self).salt_view(),
            !old(self).locked_out_spec() && !password_ok && old(self).session_view() is Some
                ==> final(self).session_view() == Some(
                AuthSession {
                    failed_attempts: (old(self).failed_attempts_spec() + 1) as u32,
                    ..old(self).session_view().unwrap()
                },
            ),
    {
        match &self.session {
            Some(s) => {
                if s.is_locked_out(self.max_failed_attempts) {
                    return Err(PassManError::AuthenticationFailed);
                }
            },
            None => (),
        }
        if password_ok {
            self.session = Some(AuthSession::new(self.session_timeout_minutes, now));
            Ok(true)
        } else {
            match &mut self.session {
                Some(s) => {
                    s.record_failed_attempt();
                },
                None => {
                    // A tracking session only counts failures; it does not
                    // authenticate anyone.
                    let mut s = AuthSession::new(self.session_timeout_minutes, now);
                    s.record_failed_attempt();
                    s.is_active = false;
                    self.session = Some(s);
                },
            }
            Err(PassManError::AuthenticationFailed)
        }
    }

    /// Whether a valid (active, unexpired) session exists at `now`.
    pub fn is_authenticated(&self, now: u64) -> (r: bool)
        ensures
            r == self.valid_at(now),
    {
        match &self.session {
            None => false,
            Some(s) => s.is_valid(now),
        }
    }

    /// The current session, when it is valid at `now`.
    pub fn get_session(&self, now: u64) -> (r: Option<&AuthSession>)
        ensures
            r is Some <==> self.valid_at(now),
            r matches Some(s) ==> self.session_view() == Some(*s),
    {
        match &self.session {
            None => None,
            Some(s) => {
                if s.is_valid(now) {
                    Some(s)
                } else {
                    None
                }
            },
        }
    }

    /// Record activity at `now` on the current session, if one exists.
    pub fn update_activity(&mut self, now: u64)
        ensures
            old(self).session_view() matches Some(s) ==> final(self).session_view() == Some(
                AuthSession { last_activity: now, ..s },
            ),
            old(self).session_view() is None ==> *final(self) == *old(self),
            final(self).max_attempts_view() == old(self).max_attempts_view(),
            final(self).timeout_view() == old(self).timeout_view(),
            final(self).key_view() == old(self).key_view(),
            final(self).salt_view() == old(self).salt_view(),
    {
        match &mut self.session {
            Some(s) => s.update_activity(now),
            None => (),
        }
    }

    /// Extend the current session: its expiry becomes its last observed
    /// activity plus `timeout_minutes`.
    pub fn extend_session(&mut self, timeout_minutes: u32)
        requires
            timeout_minutes >= 1,
            old(self).session_view() matches Some(s) ==> s.last_activity + timeout_minutes as u64
                * 60 <= u64::MAX,
        ensures
            old(self).session_view() matches Some(s) ==> final(self).session_view() == Some(
                AuthSession {
                    expires_at: (s.last_activity + timeout_minutes as u64 * 60) as u64,
                    ..s
                },
            ),
            old(self).session_view() is None ==> *final(self) == *old(self),
            final(self).max_attempts_view() == old(self).max_attempts_view(),
            final(self).timeout_view() == old(self).timeout_view(),
            final(self).key_view() == old(self).key_view(),
            final(self).salt_view() == old(self).salt_view(),
    {
        match &mut self.session {
            Some(s) => s.extend_timeout(timeout_minutes),
            None => (),
        }
    }

    /// Discard the session and wipe the held key: back to unauthenticated.
    pub fn logout(&mut self)
        ensures
            final(self).session_view() is None,
            final(self).key_view() is None,
            final(self).max_attempts_view() == old(self).max_attempts_view(),
            final(self).timeout_view() == old(self).timeout_view(),
    {
        self.session = None;
        self.crypto.clear_key();
    }

    /// Failed attempts counted so far.
    pub fn failed_attempts(&self) -> (r: u32)
        ensures
            r == self.failed_attempts_spec(),
    {
        match &self.session {
            None => 0,
            Some(s) => s.failed_attempts,
        }
    }

    /// Whether further attempts are blocked by lockout.
    pub fn is_locked_out(&self) -> (r: bool)
        ensures
            r == self.locked_out_spec(),
    {
        match &self.session {
            None => false,
            Some(s) => s.is_locked_out(self.max_failed_attempts),
        }
    }

    /// Seconds until the session expires, when it is valid at `now`.
    pub fn time_until_expiry(&self, now: u64) -> (r: Option<u64>)
        ensures
            self.valid_at(now) ==> r == Some((self.session_view().unwrap().expires_at - now) as u64),
            !self.valid_at(now) ==> r is None,
    {
        match &self.session {
            None => None,
            Some(s) => {
                if s.is_valid(now) {
                    Some(s.expires_at - now)
                } else {
                    None
                }
            },
        }
    }

    /// The crypto context, gated behind a valid session.
    pub fn get_crypto(&self, now: u64) -> (r: Result<&CryptoManager, PassManError>)
        ensures
            r is Ok <==> self.valid_at(now),
            r matches Ok(c) ==> c.key_view() == self.key_view() && c.salt_view()
                == self.salt_view(),
            r matches Err(e) ==> e == PassManError::AuthenticationFailed,
    {
        if self.is_authenticated(now) {
            Ok(&self.crypto)
        } else {
            Err(PassManError::AuthenticationFailed)
        }
    }

    /// The crypto context without an authentication gate.
    ///
    /// Security decision, stated as an invariant of this library: key
    /// material may be reachable outside the `Authenticated` state only on
    /// the initialization path of a vault that does not exist yet, and on
    /// the save path for a document that was only obtained through a
    /// successful open. Callers must not use this accessor to read an
    /// existing vault without authenticating.
    pub fn get_crypto_for_init(&self) -> (r: &CryptoManager)
        ensures
            r.key_view() == self.key_view(),
            r.salt_view() == self.salt_view(),
    {
        &self.crypto
    }

    /// Derive and hold the session key for `master_password` under `salt`
    /// (see [`CryptoManager::derive_key`]); ungated for the same reason as
    /// [`Self::get_crypto_for_init`].
    pub fn derive_session_key(&mut self, master_password: &str, salt: &Salt) -> (r: Result<
        SecureKey,
        PassManError,
    >)
        ensures
            r matches Ok(k) ==> {
                &&& k@ == derived_key_of(master_password@, salt@)
                &&& final(self).key_view() == Some(k@)
                &&& final(self).salt_view() == Some(salt@)
            },
            r is Ok <==> encode_utf8(master_password@).len() <= u32::MAX,
            final(self).session_view() == old(self).session_view(),
            final(self).max_attempts_view() == old(self).max_attempts_view(),
            final(self).timeout_view() == old(self).timeout_view(),
            r is Err ==> *final(self) == *old(self),
    {
        self.crypto.derive_key(master_password, salt)
    }

    /// Draw a fresh salt and derive the session key from it; used exactly
    /// once, when a vault is created (see
    /// [`CryptoManager::generate_key_and_salt`]).
    pub fn generate_session_key(&mut self, master_password: &str) -> (r: Result<
        (SecureKey, Salt),
        PassManError,
    >)
        ensures
            r matches Ok((k, s)) ==> {
                &&& k@ == derived_key_of(master_password@, s@)
                &&& s@.len() == crate::crypto::SALT_SIZE
                &&& final(self).key_view() == Some(k@)
                &&& final(self).salt_view() == Some(s@)
            },
            r is Ok <==> encode_utf8(master_password@).len() <= u32::MAX,
            final(self).session_view() == old(self).session_view(),
            final(self).max_attempts_view() == old(self).max_attempts_view(),
            final(self).timeout_view() == old(self).timeout_view(),
            r is Err ==> *final(self) == *old(self),
    {
        self.crypto.generate_key_and_salt(master_password)
    }

    /// Re-derive the session key from `master_password` and the salt the
    /// context already holds; gated behind a valid session.
    pub fn set_crypto_key(&mut self, master_password: &str, now: u64) -> (r: Result<
        (),
        PassManError,
    >)
        ensures
            !old(self).valid_at(now) ==> r == Err::<(), PassManError>(
                PassManError::AuthenticationFailed,
            ) && *final(self) == *old(self),
            old(self).salt_view() is None && old(self).valid_at(now) ==> r == Err::<
                (),
                PassManError,
            >(PassManError::CryptoError),
            r is Ok ==> (old(self).salt_view() matches Some(salt) && final(self).key_view()
                == Some(derived_key_of(master_password@, salt))),
            final(self).session_view() == old(self).session_view(),
            final(self).max_attempts_view() == old(self).max_attempts_view(),
            final(self).timeout_view() == old(self).timeout_view(),
    {
        if !self.is_authenticated(now) {
            return Err(PassManError::AuthenticationFailed);
        }
        let salt = match self.crypto.get_salt() {
            Some(s) => *s,
            None => {
                return Err(PassManError::CryptoError);
            },
        };
        match self.crypto.derive_key(master_password, &salt) {
            Ok(_) => Ok(()),
            Err(e) => Err(e),
        }
    }
}

impl Default for AuthManager {
    fn default() -> (r: AuthManager)
        ensures
            r.session_view() is None,
            r.key_view() is None,
            r.max_attempts_view() == 5,
            r.timeout_view() == 15,
    {
        AuthManager::new(5, 15)
    }
}

/// Lockout blocks every further attempt: once the failed-attempt count has
/// reached the configured maximum, an authentication attempt cannot succeed
/// — even with the correct password — and, by `authenticate`'s contract,
/// leaves the manager unchanged, until logout or reset discards the session.
pub proof fn lemma_lockout_blocks(m: AuthManager, password_ok: bool)
    requires
        m.locked_out_spec(),
    ensures
        !m.auth_outcome_ok(password_ok),
{
}

/// Exactly at the threshold: a session whose counter has reached the
/// configured maximum locks the manager out; one below it does not.
pub proof fn lemma_lockout_threshold(m: AuthManager)
    requires
        m.session_view() is Some,
    ensures
        m.locked_out_spec() <==> m.failed_attempts_spec() >= m.max_attempts_view(),
{
}

/// An uppercase ASCII letter's byte.
pub open spec fn is_upper_byte(c: u8) -> bool {
    65 <= c <= 90
}

/// A lowercase ASCII letter's byte.
pub open spec fn is_lower_byte(c: u8) -> bool {
    97 <= c <= 122
}

/// An ASCII digit's byte.
pub open spec fn is_digit_byte(c: u8) -> bool {
    48 <= c <= 57
}

/// The special characters a password may be required to contain. The `@`
/// sign is deliberately not among them: an embedded email address should not
/// satisfy the special-character rule.
pub open spec fn special_chars() -> Seq<char> {
    "!#$%^&*()_+-=[]{}|;:,.<>?"@
}

/// A byte of one of the special characters (they are all ASCII).
pub open spec fn is_special_byte(c: u8) -> bool {
    encode_utf8(special_chars()).contains(c)
}

pub(crate) fn has_upper(b: &[u8]) -> (r: bool)
    ensures
        r == exists|i: int| 0 <= i < b@.len() && is_upper_byte(#[trigger] b@[i]),
{
    let mut i: usize = 0;
    while i < b.len()
        invariant
            i <= b@.len(),
            forall|k: int| 0 <= k < i ==> !is_upper_byte(#[trigger] b@[k]),
        decreases b@.len() - i,
    {
        if 65 <= b[i] && b[i] <= 90 {
            return true;
        }
        i = i + 1;
    }
    false
}

pub(crate) fn has_lower(b: &[u8]) -> (r: bool)
    ensures
        r == exists|i: int| 0 <= i < b@.len() && is_lower_byte(#[trigger] b@[i]),
{
    let mut i: usize = 0;
    while i < b.len()
        invariant
            i <= b@.len(),
            forall|k: int| 0 <= k < i ==> !is_lower_byte(#[trigger] b@[k]),
        decreases b@.len() - i,
    {
        if 97 <= b[i] && b[i] <= 122 {
            return true;
        }
        i = i + 1;
    }
    false
}

pub(crate) fn has_digit(b: &[u8]) -> (r: bool)
    ensures
        r == exists|i: int| 0 <= i < b@.len() && is_digit_byte(#[trigger] b@[i]),
{
    let mut i: usize = 0;
    while i < b.len()
        invariant
            i <= b@.len(),
            forall|k: int| 0 <= k < i ==> !is_digit_byte(#[trigger] b@[k]),
        decreases b@.len() - i,
    {
        if 48 <= b[i] && b[i] <= 57 {
            return true;
        }
        i = i + 1;
    }
    false
}

/// Whether `c` is one of the special characters' bytes.
fn is_special(c: u8) -> (r: bool)
    ensures
        r == is_special_byte(c),
{
    let specials = "!#$%^&*()_+-=[]{}|;:,.<>?".as_bytes();
    let mut i: usize = 0;
    while i < specials.len()
        invariant
            i <= specials@.len(),
            specials@ == encode_utf8(special_chars()),
            forall|k: int| 0 <= k < i ==> specials@[k] != c,
        decreases specials@.len() - i,
    {
        if specials[i] == c {
            return true;
        }
        i = i + 1;
    }
    proof {
        assert(!encode_utf8(special_chars()).contains(c));
    }
    false
}

pub(crate) fn has_special(b: &[u8]) -> (r: bool)
    ensures
        r == exists|i: int| 0 <= i < b@.len() && is_special_byte(#[trigger] b@[i]),
{
    let mut i: usize = 0;
    while i < b.len()
        invariant
            i <= b@.len(),
            forall|k: int| 0 <= k < i ==> !is_special_byte(#[trigger] b@[k]),
        decreases b@.len() - i,
    {
        if is_special(b[i]) {
            return true;
        }
        i = i + 1;
    }
    false
}

/// Password strength rules: length bounds and required character classes
/// (classes are judged on the password's bytes, so on its ASCII characters).
pub struct PasswordValidator {
    /// Minimum password length in bytes.
    pub min_length: usize,
    /// Maximum password length in bytes.
    pub max_length: usize,
    /// Require an uppercase letter.
    pub require_uppercase: bool,
    /// Require a lowercase letter.
    pub require_lowercase: bool,
    /// Require a digit.
    pub require_numbers: bool,
    /// Require a special character.
    pub require_special: bool,
}

impl PasswordValidator {
    /// Whether the password bytes `b` meet every configured rule.
    pub open spec fn accepts(self, b: Seq<u8>) -> bool {
        &&& b.len() >= self.min_length
        &&& b.len() <= self.max_length
        &&& self.require_uppercase ==> exists|i: int|
            0 <= i < b.len() && is_upper_byte(#[trigger] b[i])
        &&& self.require_lowercase ==> exists|i: int|
            0 <= i < b.len() && is_lower_byte(#[trigger] b[i])
        &&& self.require_numbers ==> exists|i: int|
            0 <= i < b.len() && is_digit_byte(#[trigger] b[i])
        &&& self.require_special ==> exists|i: int|
            0 <= i < b.len() && is_special_byte(#[trigger] b[i])
    }

    /// A validator with the given bounds and requirements.
    pub fn new(
        min_length: usize,
        max_length: usize,
        require_uppercase: bool,
        require_lowercase: bool,
        require_numbers: bool,
        require_special: bool,
    ) -> (r: PasswordValidator)
        ensures
            r == (PasswordValidator {
                min_length,
                max_length,
                require_uppercase,
                require_lowercase,
                require_numbers,
                require_special,
            }),
    {
        PasswordValidator {
            min_length,
            max_length,
            require_uppercase,
            require_lowercase,
            require_numbers,
            require_special,
        }
    }

    /// Check `password` against the rules: accepted exactly when its length
    /// is within bounds and each required character class occurs; any
    /// violation is reported as invalid input.
    pub fn validate(&self, password: &str) -> (r: Result<(), PassManError>)
        ensures
            r is Ok <==> self.accepts(encode_utf8(password@)),
            r matches Err(e) ==> e == PassManError::InvalidInput,
    {
        let b = password.as_bytes();
        if b.len() < self.min_length {
            return Err(PassManError::InvalidInput);
        }
        if b.len() > self.max_length {
            return Err(PassManError::InvalidInput);
        }
        if self.require_uppercase && !has_upper(b) {
            return Err(PassManError::InvalidInput);
        }
        if self.require_lowercase && !has_lower(b) {
            return Err(PassManError::InvalidInput);
        }
        if self.require_numbers && !has_digit(b) {
            return Err(PassManError::InvalidInput);
        }
        if self.require_special && !has_special(b) {
            return Err(PassManError::InvalidInput);
        }
        Ok(())
    }
}

impl Default for PasswordValidator {
    fn default() -> (r: PasswordValidator)
        ensures
            r == (PasswordValidator {
                min_length: 8,
                max_length: 128,
                require_uppercase: true,
                require_lowercase: true,
                require_numbers: true,
                require_special: true,
            }),
    {
        PasswordValidator::new(8, 128, true, true, true, true)
    }
}

} // verus!
