//! Key derivation and authenticated encryption.
//!
//! Keys are derived from a master password and a salt with Argon2id; payloads
//! are sealed with AES-256-GCM under a fresh random nonce, which is prepended
//! to the authenticated ciphertext. Opening is specified as a mathematical
//! function of key and bytes, so that sealing then opening provably returns
//! the payload.
use vstd::prelude::*;
use vstd::utf8::encode_utf8;
use crate::PassManError;

verus! {

/// Size of the symmetric key in bytes (256 bits).
pub const KEY_SIZE: usize = 32;

/// Size of the AEAD nonce in bytes (96 bits).
pub const NONCE_SIZE: usize = 12;

/// Size of the key-derivation salt in bytes (128 bits).
pub const SALT_SIZE: usize = 16;

/// The greatest payload length AES-256-GCM will seal.
pub const MAX_PLAINTEXT_LEN: u64 = 0x10_0000_0000;

/// The key Argon2id derives from a password and a salt; it depends on the two
/// alone.
pub uninterp spec fn derived_key_of(password: Seq<char>, salt: Seq<u8>) -> Seq<u8>;

/// What opening `data` (nonce followed by ciphertext and tag) under `key`
/// with AES-256-GCM yields: the sealed payload, or nothing when the
/// authentication tag does not verify. It depends on key and bytes alone.
pub uninterp spec fn aead_open_of(key: Seq<u8>, data: Seq<u8>) -> Option<Seq<u8>>;

/// Whether a password matches a stored password-hash string; parsing and
/// verification depend on the two strings alone.
pub uninterp spec fn password_verifies(password: Seq<char>, stored_hash: Seq<char>) -> bool;

/// What decrypting `data` under `key` returns: input shorter than a nonce is
/// rejected outright; otherwise the AEAD decides.
pub open spec fn decrypt_spec(key: Seq<u8>, data: Seq<u8>) -> Option<Seq<u8>> {
    if data.len() < NONCE_SIZE {
        None
    } else {
        aead_open_of(key, data)
    }
}

/// Relies on rand's OsRng::fill_bytes for fresh random bytes from the
/// operating system; nothing is promised of the values.
#[verifier::external_body]
fn random_array<const N: usize>() -> [u8; N] {
    let mut b = [0u8; N];
    rand::RngCore::fill_bytes(&mut rand::rngs::OsRng, &mut b);
    b
}

/// Relies on argon2::Argon2::hash_password_into with the default Argon2id
/// parameters: the key is a function of password and salt alone, and
/// derivation succeeds whenever the password is no longer than the
/// algorithm's input limit (the salt here is always 16 bytes, well within
/// its limits).
#[verifier::external_body]
fn derive_key_raw(password: &str, salt: &[u8]) -> (r: Option<[u8; 32]>)
    requires
        salt@.len() == SALT_SIZE,
    ensures
        r matches Some(k) ==> k@ == derived_key_of(password@, salt@),
        encode_utf8(password@).len() <= u32::MAX ==> r is Some,
{
    let salt_string = argon2::password_hash::SaltString::encode_b64(salt).ok()?;
    let mut key = [0u8; 32];
    argon2::Argon2::default().hash_password_into(
        password.as_bytes(),
        salt_string.as_str().as_bytes(),
        &mut key,
    ).ok()?;
    Some(key)
}

/// Relies on aes_gcm::Aes256Gcm's encrypt: the returned ciphertext carries a
/// 16-byte tag, decrypting it under the same key and nonce yields the
/// payload, and sealing succeeds whenever the payload is within the cipher's
/// length limit.
#[verifier::external_body]
fn aead_seal(key: &[u8], nonce: &[u8], data: &[u8]) -> (r: Option<Vec<u8>>)
    requires
        key@.len() == KEY_SIZE,
        nonce@.len() == NONCE_SIZE,
    ensures
        r matches Some(ct) ==> ct@.len() == data@.len() + 16 && aead_open_of(key@, nonce@ + ct@)
            == Some(data@),
        data@.len() <= MAX_PLAINTEXT_LEN ==> r is Some,
{
    let cipher = <aes_gcm::Aes256Gcm as aes_gcm::KeyInit>::new(
        aes_gcm::Key::<aes_gcm::Aes256Gcm>::from_slice(key),
    );
    aes_gcm::aead::Aead::encrypt(&cipher, aes_gcm::Nonce::from_slice(nonce), data).ok()
}

/// Relies on aes_gcm::Aes256Gcm's decrypt: it returns the payload exactly
/// when the authentication tag verifies, and fails otherwise; the outcome
/// depends on key, nonce and ciphertext alone.
#[verifier::external_body]
fn aead_unseal(key: &[u8], nonce: &[u8], ct: &[u8]) -> (r: Option<Vec<u8>>)
    requires
        key@.len() == KEY_SIZE,
        nonce@.len() == NONCE_SIZE,
    ensures
        r matches Some(p) ==> aead_open_of(key@, nonce@ + ct@) == Some(p@),
        r is None ==> aead_open_of(key@, nonce@ + ct@) is None,
{
    let cipher = <aes_gcm::Aes256Gcm as aes_gcm::KeyInit>::new(
        aes_gcm::Key::<aes_gcm::Aes256Gcm>::from_slice(key),
    );
    aes_gcm::aead::Aead::decrypt(&cipher, aes_gcm::Nonce::from_slice(nonce), ct).ok()
}

/// Relies on argon2's PasswordVerifier::verify_password (and the PHC string
/// parser): whether a password matches a stored hash string depends on the
/// two strings alone; an unparsable hash matches nothing.
#[verifier::external_body]
fn verify_password_raw(password: &str, stored_hash: &str) -> (r: bool)
    ensures
        r == password_verifies(password@, stored_hash@),
{
    let parsed = match argon2::PasswordHash::new(stored_hash) {
        Ok(hash) => hash,
        Err(_) => return false,
    };
    argon2::PasswordVerifier::verify_password(
        &argon2::Argon2::default(),
        password.as_bytes(),
        &parsed,
    ).is_ok()
}

/// Relies on argon2's PasswordHasher::hash_password with a fresh random
/// salt: the produced PHC hash string verifies against the same password.
#[verifier::external_body]
fn hash_password_raw(password: &str) -> (r: Option<String>)
    ensures
        r matches Some(h) ==> password_verifies(password@, h@),
{
    let salt = argon2::password_hash::SaltString::generate(
        &mut argon2::password_hash::rand_core::OsRng,
    );
    let hash = argon2::PasswordHasher::hash_password(
        &argon2::Argon2::default(),
        password.as_bytes(),
        &salt,
    ).ok()?;
    Some(hash.to_string())
}

/// A fixed-length symmetric key. It is held only by the crypto context of an
/// open vault and is overwritten with zeros when no longer needed.
#[derive(Clone)]
pub struct SecureKey([u8; 32]);

impl View for SecureKey {
    type V = Seq<u8>;

    closed spec fn view(&self) -> Seq<u8> {
        self.0@
    }
}

impl SecureKey {
    /// Wrap key bytes.
    pub fn new(key: [u8; 32]) -> (r: SecureKey)
        ensures
            r@ == key@,
    {
        SecureKey(key)
    }

    /// The key bytes (use with caution).
    pub fn as_bytes(&self) -> (r: &[u8; 32])
        ensures
            r@ == self@,
    {
        &self.0
    }

    /// Overwrite the key bytes with zeros.
    pub fn wipe(&mut self)
        ensures
            final(self)@ == Seq::new(32, |i: int| 0u8),
    {
        self.0 = [0u8; 32];
        proof {
            assert(self@ =~= Seq::new(32, |i: int| 0u8));
        }
    }
}

/// The non-secret, fixed-length random value mixed into key derivation. It
/// is created once per vault and persisted beside the ciphertext; it is
/// never regenerated for an existing vault.
#[derive(Clone, Copy, Debug)]
pub struct Salt([u8; 16]);

impl View for Salt {
    type V = Seq<u8>;

    closed spec fn view(&self) -> Seq<u8> {
        self.0@
    }
}

impl Salt {
    /// Draw a fresh random salt.
    pub fn generate() -> (r: Salt)
        ensures
            r@.len() == SALT_SIZE,
    {
        Salt(random_array::<16>())
    }

    /// Wrap existing salt bytes.
    pub fn from_bytes(bytes: [u8; 16]) -> (r: Salt)
        ensures
            r@ == bytes@,
    {
        Salt(bytes)
    }

    /// The salt bytes.
    pub fn as_bytes(&self) -> (r: &[u8; 16])
        ensures
            r@ == self@,
    {
        &self.0
    }
}

/// The crypto context of one open vault: the derived key and the salt it was
/// derived with. Created fresh per vault open, never shared.
pub struct CryptoManager {
    /// The symmetric key, once derived.
    key: Option<SecureKey>,
    /// The salt the key was derived with.
    salt: Option<Salt>,
}

impl CryptoManager {
    /// The held key's bytes, if a key is held.
    pub closed spec fn key_view(self) -> Option<Seq<u8>> {
        match self.key {
            None => None,
            Some(k) => Some(k@),
        }
    }

    /// The held salt's bytes, if a salt is held.
    pub closed spec fn salt_view(self) -> Option<Seq<u8>> {
        match self.salt {
            None => None,
            Some(s) => Some(s@),
        }
    }

    /// A context holding no key.
    pub fn new() -> (r: CryptoManager)
        ensures
            r.key_view() is None,
            r.salt_view() is None,
    {
        CryptoManager { key: None, salt: None }
    }

    /// Derive the symmetric key for `master_password` under `salt` and keep
    /// both in the context.
    ///
    /// Derivation is deterministic: the result is `derived_key_of` of the
    /// password and salt. It fails (leaving the context unchanged) only when
    /// the password exceeds the derivation function's input limit.
    pub fn derive_key(&mut self, master_password: &str, salt: &Salt) -> (r: Result<
        SecureKey,
        PassManError,
    >)
        ensures
            r matches Ok(k) ==> {
                &&& k@ == derived_key_of(master_password@, salt@)
                &&& k@.len() == KEY_SIZE
                &&& final(self).key_view() == Some(k@)
                &&& final(self).salt_view() == Some(salt@)
            },
            r is Ok <==> encode_utf8(master_password@).len() <= u32::MAX,
            r matches Err(e) ==> e == PassManError::CryptoError && *final(self) == *old(self),
    {
        if master_password.as_bytes().len() as u64 > u32::MAX as u64 {
            return Err(PassManError::CryptoError);
        }
        match derive_key_raw(master_password, salt.as_bytes()) {
            None => Err(PassManError::CryptoError),
            Some(bytes) => {
                self.key = Some(SecureKey::new(bytes));
                self.salt = Some(*salt);
                Ok(SecureKey::new(bytes))
            },
        }
    }

    /// Draw a fresh salt and derive a key from it; used exactly once, when a
    /// vault is created.
    pub fn generate_key_and_salt(&mut self, master_password: &str) -> (r: Result<
        (SecureKey, Salt),
        PassManError,
    >)
        ensures
            r matches Ok((k, s)) ==> {
                &&& k@ == derived_key_of(master_password@, s@)
                &&& k@.len() == KEY_SIZE
                &&& s@.len() == SALT_SIZE
                &&& final(self).key_view() == Some(k@)
                &&& final(self).salt_view() == Some(s@)
            },
            r is Ok <==> encode_utf8(master_password@).len() <= u32::MAX,
            r matches Err(e) ==> e == PassManError::CryptoError && *final(self) == *old(self),
    {
        let salt = Salt::generate();
        match self.derive_key(master_password, &salt) {
            Ok(key) => Ok((key, salt)),
            Err(e) => Err(e),
        }
    }

    /// Whether `master_password` matches the stored hash string.
    pub fn verify_password(&self, master_password: &str, stored_hash: &str) -> (r: bool)
        ensures
            r == password_verifies(master_password@, stored_hash@),
    {
        verify_password_raw(master_password, stored_hash)
    }

    /// Produce a password-hash string for storage; the same password
    /// verifies against it.
    pub fn hash_password(&self, master_password: &str) -> (r: Result<String, PassManError>)
        ensures
            r matches Ok(h) ==> password_verifies(master_password@, h@),
            r matches Err(e) ==> e == PassManError::CryptoError,
    {
        match hash_password_raw(master_password) {
            Some(h) => Ok(h),
            None => Err(PassManError::CryptoError),
        }
    }

    /// Encrypt `data` under the held key (see [`Self::encrypt_with_key`]).
    pub fn encrypt(&self, data: &[u8]) -> (r: Result<Vec<u8>, PassManError>)
        ensures
            self.key_view() is None ==> r == Err::<Vec<u8>, PassManError>(
                PassManError::CryptoError,
            ),
            r matches Ok(ct) ==> {
                &&& self.key_view() matches Some(key)
                &&& ct@.len() == data@.len() + NONCE_SIZE + 16
                &&& decrypt_spec(key, ct@) == Some(data@)
            },
            self.key_view() is Some && data@.len() <= MAX_PLAINTEXT_LEN ==> r is Ok,
            r matches Err(e) ==> e == PassManError::CryptoError,
    {
        match &self.key {
            None => Err(PassManError::CryptoError),
            Some(key) => self.encrypt_with_key(data, key),
        }
    }

    /// Encrypt `data` under `key` with a fresh random nonce, which is
    /// prepended to the authenticated ciphertext.
    ///
    /// Whatever nonce was drawn, decrypting the result under the same key
    /// yields `data` again. Sealing succeeds whenever `data` is within the
    /// cipher's length limit, and fails only with a crypto error.
    pub fn encrypt_with_key(&self, data: &[u8], key: &SecureKey) -> (r: Result<
        Vec<u8>,
        PassManError,
    >)
        ensures
            r matches Ok(ct) ==> ct@.len() == data@.len() + NONCE_SIZE + 16 && decrypt_spec(
                key@,
                ct@,
            ) == Some(data@),
            data@.len() <= MAX_PLAINTEXT_LEN ==> r is Ok,
            r matches Err(e) ==> e == PassManError::CryptoError,
    {
        let nonce = random_array::<12>();
        match aead_seal(key.as_bytes().as_slice(), nonce.as_slice(), data) {
            None => Err(PassManError::CryptoError),
            Some(sealed) => {
                let mut out: Vec<u8> = Vec::new();
                out.extend_from_slice(nonce.as_slice());
                out.extend_from_slice(sealed.as_slice());
                proof {
                    assert(out@ =~= nonce@ + sealed@);
                }
                Ok(out)
            },
        }
    }

    /// Decrypt under the held key (see [`Self::decrypt_with_key`]).
    pub fn decrypt(&self, encrypted_data: &[u8]) -> (r: Result<Vec<u8>, PassManError>)
        ensures
            self.key_view() is None ==> r == Err::<Vec<u8>, PassManError>(
                PassManError::CryptoError,
            ),
            self.key_view() matches Some(key) ==> match decrypt_spec(key, encrypted_data@) {
                Some(p) => r matches Ok(pt) && pt@ == p,
                None => r == Err::<Vec<u8>, PassManError>(PassManError::CryptoError),
            },
    {
        match &self.key {
            None => Err(PassManError::CryptoError),
            Some(key) => self.decrypt_with_key(encrypted_data, key),
        }
    }

    /// Decrypt `encrypted_data` (nonce, then ciphertext and tag) under `key`.
    ///
    /// Input shorter than a nonce is rejected; otherwise the result is
    /// exactly what the AEAD yields: the sealed payload when the tag
    /// verifies, a crypto error when it does not. A wrong key and a tampered
    /// ciphertext are indistinguishable by design: both fail the tag.
    pub fn decrypt_with_key(&self, encrypted_data: &[u8], key: &SecureKey) -> (r: Result<
        Vec<u8>,
        PassManError,
    >)
        ensures
            match decrypt_spec(key@, encrypted_data@) {
                Some(p) => r matches Ok(pt) && pt@ == p,
                None => r == Err::<Vec<u8>, PassManError>(PassManError::CryptoError),
            },
    {
        if encrypted_data.len() < 12 {
            return Err(PassManError::CryptoError);
        }
        let nonce = vstd::slice::slice_subrange(encrypted_data, 0, 12);
        let ct = vstd::slice::slice_subrange(encrypted_data, 12, encrypted_data.len());
        proof {
            assert(nonce@ + ct@ =~= encrypted_data@);
        }
        match aead_unseal(key.as_bytes().as_slice(), nonce, ct) {
            None => Err(PassManError::CryptoError),
            Some(p) => Ok(p),
        }
    }

    /// Whether a key is currently held.
    pub fn has_key(&self) -> (r: bool)
        ensures
            r == (self.key_view() is Some),
    {
        self.key.is_some()
    }

    /// The salt the held key was derived with, if any.
    pub fn get_salt(&self) -> (r: Option<&Salt>)
        ensures
            r matches Some(s) ==> self.salt_view() == Some(s@),
            r is None <==> self.salt_view() is None,
    {
        self.salt.as_ref()
    }

    /// Overwrite the held key with zeros and drop it from the context.
    pub fn clear_key(&mut self)
        ensures
            final(self).key_view() is None,
            final(self).salt_view() == old(self).salt_view(),
    {
        match &mut self.key {
            Some(k) => k.wipe(),
            None => (),
        }
        self.key = None;
    }
}

impl Default for CryptoManager {
    fn default() -> (r: CryptoManager)
        ensures
            r.key_view() is None,
            r.salt_view() is None,
    {
        CryptoManager::new()
    }
}

/// Key derivation is deterministic: two derivations from the same password
/// and salt yield identical key bytes.
pub proof fn lemma_derive_deterministic(
    password: Seq<char>,
    salt: Seq<u8>,
    k1: Seq<u8>,
    k2: Seq<u8>,
)
    requires
        k1 == derived_key_of(password, salt),
        k2 == derived_key_of(password, salt),
    ensures
        k1 == k2,
{
}

/// Round trip: decrypting what `encrypt` produced, under the same key,
/// yields the plaintext. Every ciphertext `encrypt` returns satisfies the
/// requirement, by `encrypt`'s own contract.
pub proof fn lemma_encrypt_decrypt_round_trip(key: Seq<u8>, ct: Seq<u8>, data: Seq<u8>)
    requires
        ct.len() >= NONCE_SIZE,
        aead_open_of(key, ct) == Some(data),
    ensures
        decrypt_spec(key, ct) == Some(data),
{
}

/// A text value that the caller promises to treat as sensitive; offers only
/// deliberate accessors.
pub struct SecureString(String);

impl View for SecureString {
    type V = Seq<char>;

    closed spec fn view(&self) -> Seq<char> {
        self.0@
    }
}

impl SecureString {
    /// Wrap a string.
    pub fn new(s: String) -> (r: SecureString)
        ensures
            r@ == s@,
    {
        SecureString(s)
    }

    /// The text.
    pub fn as_str(&self) -> (r: &str)
        ensures
            r@ == self@,
    {
        self.0.as_str()
    }

    /// The text's UTF-8 bytes.
    pub fn as_bytes(&self) -> (r: &[u8])
        ensures
            r@ == encode_utf8(self@),
    {
        self.0.as_str().as_bytes()
    }

    /// The text's length in bytes.
    pub fn len(&self) -> (r: usize)
        ensures
            r == encode_utf8(self@).len(),
    {
        self.0.as_str().as_bytes().len()
    }

    /// Whether the text is empty.
    pub fn is_empty(&self) -> (r: bool)
        ensures
            r == (self@.len() == 0),
    {
        self.0.as_str().is_empty()
    }
}

} // verus!
