//! The vault manager: the high-level API tying the document, the crypto
//! context, the session, and the file format together.
//!
//! All file bytes enter and leave through parameters and results: the
//! surrounding application reads the vault file before opening and persists
//! the returned bytes (atomically) after every operation that changed the
//! document. The current time, in seconds since the Unix epoch, is likewise
//! passed in.
use vstd::prelude::*;
use vstd::utf8::encode_utf8;
use crate::PassManError;
use crate::auth::{AuthManager, AuthSession};
use crate::crypto::{decrypt_spec, derived_key_of, MAX_PLAINTEXT_LEN, SALT_SIZE};
use crate::codec::{enc_vault, vault_encodable};
use crate::generator::{
    charset_spec, description_spec, generated_len, options_valid, strength_spec, PasswordGenerator,
};
use crate::models::{
    Account, AccountType, AccountV, PasswordOptions, Vault, VaultMetadata, VaultMetadataV,
    VaultSettings, VaultV, name_matches, tag_matches, type_matches, wf_doc,
};
use crate::storage::{load_result_spec, saved_file_spec, VaultStorage};

verus! {

/// The document a fresh vault holds: empty, versioned, stamped at `now`.
pub open spec fn fresh_vault_view(email: Seq<char>, now: u64) -> VaultV {
    VaultV {
        metadata: VaultMetadataV {
            version: "1.0.0"@,
            email: email,
            created_at: now,
            last_modified: now,
            account_count: 0,
            settings: VaultSettings::default_spec(),
        },
        accounts: Seq::<AccountV>::empty(),
        tags: Seq::<Seq<char>>::empty(),
    }
}

/// The vault manager.
pub struct PassMan {
    /// Storage identity (names of the vault file and backups).
    storage: VaultStorage,
    /// Session and lockout state, and the crypto context.
    auth: AuthManager,
    /// Password generator.
    generator: PasswordGenerator,
    /// The decrypted document, while the vault is open.
    vault: Option<Vault>,
    /// The vault's name.
    vault_name: String,
}

impl PassMan {
    /// The open document's image, if a document is held.
    pub closed spec fn doc_view(self) -> Option<VaultV> {
        match self.vault {
            None => None,
            Some(v) => Some(v@),
        }
    }

    /// The session manager's state.
    pub closed spec fn auth_ref(self) -> AuthManager {
        self.auth
    }

    /// The vault's name.
    pub closed spec fn name_view(self) -> Seq<char> {
        self.vault_name@
    }

    /// Invariant: a held document is well formed.
    pub open spec fn inv(self) -> bool {
        match self.doc_view() {
            None => true,
            Some(d) => wf_doc(d),
        }
    }

    /// A manager for the vault called `vault_name`: no document, no session,
    /// stock lockout threshold (5) and session timeout (15 minutes).
    pub fn new(vault_name: &str) -> (r: PassMan)
        ensures
            r.inv(),
            r.doc_view() is None,
            r.auth_ref().session_view() is None,
            r.auth_ref().key_view() is None,
            r.auth_ref().max_attempts_view() == 5,
            r.auth_ref().timeout_view() == 15,
            r.name_view() == vault_name@,
    {
        PassMan {
            storage: VaultStorage::new(vault_name),
            auth: AuthManager::default(),
            generator: PasswordGenerator::new(),
            vault: None,
            vault_name: vault_name.to_owned(),
        }
    }

    /// Create a fresh vault for `email` under `master_password` and return
    /// its file bytes for the application to persist. The caller must first
    /// check that no vault file exists: a fresh salt would orphan an
    /// existing file's ciphertext.
    ///
    /// On success the manager holds the fresh document and an authenticated
    /// session, and the bytes load back as that document under the same
    /// password.
    pub fn init_vault(&mut self, email: String, master_password: &str, now: u64) -> (r: Result<
        Vec<u8>,
        PassManError,
    >)
        requires
            old(self).auth_ref().timeout_view() >= 1,
            now + old(self).auth_ref().timeout_view() as u64 * 60 <= u64::MAX,
            old(self).auth_ref().failed_attempts_spec() < u32::MAX,
        ensures
            r matches Ok(data) ==> {
                &&& final(self).doc_view() == Some(fresh_vault_view(email@, now))
                &&& final(self).inv()
                &&& final(self).auth_ref().valid_at(now)
                &&& saved_file_spec(data@, derived_key_of(master_password@,
                    data@.subrange(0, SALT_SIZE as int)), data@.subrange(0, SALT_SIZE as int),
                    fresh_vault_view(email@, now))
            },
            encode_utf8(master_password@).len() <= u32::MAX && vault_encodable(
                fresh_vault_view(email@, now),
            ) && enc_vault(fresh_vault_view(email@, now)).len() <= MAX_PLAINTEXT_LEN
                && !old(self).auth_ref().locked_out_spec() ==> r is Ok,
    {
        let vault = Vault::new(email, now);
        proof {
            assert(vault@ =~= fresh_vault_view(vault@.metadata.email, now));
        }
        if let Err(e) = self.auth.generate_session_key(master_password) {
            return Err(e);
        }
        let data = match self.storage.save_vault(&vault, self.auth.get_crypto_for_init()) {
            Ok(d) => d,
            Err(e) => {
                return Err(e);
            },
        };
        match self.auth.authenticate(true, now) {
            Ok(_) => (),
            Err(e) => {
                return Err(e);
            },
        }
        self.vault = Some(vault);
        Ok(data)
    }

    /// Open a vault from its file bytes with the master password.
    ///
    /// A locked-out manager fails at once, before any key derivation. The
    /// outcome otherwise is exactly [`load_result_spec`] of the bytes and
    /// password: on success the document is held and a fresh session starts;
    /// on failure — wrong password and corrupted bytes alike — the failed
    /// attempt is counted and the load's error is returned.
    pub fn open_vault(&mut self, data: &Vec<u8>, master_password: &str, now: u64) -> (r: Result<
        (),
        PassManError,
    >)
        requires
            old(self).auth_ref().timeout_view() >= 1,
            now + old(self).auth_ref().timeout_view() as u64 * 60 <= u64::MAX,
            old(self).auth_ref().failed_attempts_spec() < u32::MAX,
        ensures
            old(self).auth_ref().locked_out_spec() ==> r == Err::<(), PassManError>(
                PassManError::AuthenticationFailed,
            ) && *final(self) == *old(self),
            !old(self).auth_ref().locked_out_spec() ==> match load_result_spec(
                data@,
                master_password@,
            ) {
                Ok(d) => {
                    &&& r is Ok
                    &&& final(self).doc_view() == Some(d)
                    &&& final(self).inv()
                    &&& final(self).auth_ref().valid_at(now)
                    &&& final(self).auth_ref().failed_attempts_spec() == 0
                    &&& final(self).auth_ref().key_view() == Some(
                        derived_key_of(master_password@, data@.subrange(0, SALT_SIZE as int)),
                    )
                },
                Err(e) => {
                    &&& r == Err::<(), PassManError>(e)
                    &&& final(self).auth_ref().failed_attempts_spec() == old(self).auth_ref().failed_attempts_spec() + 1
                    &&& final(self).doc_view() == old(self).doc_view()
                },
            },
            final(self).inv() || !old(self).inv(),
    {
        if self.auth.is_locked_out() {
            return Err(PassManError::AuthenticationFailed);
        }
        match self.storage.load_vault(data, master_password) {
            Ok(vault) => {
                // Hold the key for this session: re-derive under the file's
                // salt so that later saves seal under the same key.
                let mut salt_bytes = [0u8; 16];
                let mut i: usize = 0;
                while i < 16
                    invariant
                        i <= 16,
                        data@.len() >= 16,
                        forall|k: int| 0 <= k < i ==> salt_bytes@[k] == data@[k],
                    decreases 16 - i,
                {
                    salt_bytes[i] = data[i];
                    i = i + 1;
                }
                proof {
                    assert(salt_bytes@ =~= data@.subrange(0, SALT_SIZE as int));
                }
                let salt = crate::crypto::Salt::from_bytes(salt_bytes);
                match self.auth.derive_session_key(master_password, &salt) {
                    Ok(_) => (),
                    Err(e) => {
                        return Err(e);
                    },
                }
                match self.auth.authenticate(true, now) {
                    Ok(_) => (),
                    Err(e) => {
                        return Err(e);
                    },
                }
                self.vault = Some(vault);
                Ok(())
            },
            Err(e) => {
                let _ = self.auth.authenticate(false, now);
                Err(e)
            },
        }
    }

    /// Close the vault: drop the document, end the session, wipe the key.
    pub fn close_vault(&mut self)
        ensures
            final(self).doc_view() is None,
            final(self).auth_ref().session_view() is None,
            final(self).auth_ref().key_view() is None,
            final(self).inv(),
    {
        self.vault = None;
        self.auth.logout();
    }

    /// Whether a document is held and the session is valid at `now`.
    pub fn is_vault_open(&self, now: u64) -> (r: bool)
        ensures
            r == (self.doc_view() is Some && self.auth_ref().valid_at(now)),
    {
        self.vault.is_some() && self.auth.is_authenticated(now)
    }

    /// The open document's metadata.
    pub fn get_vault_metadata(&self) -> (r: Option<&VaultMetadata>)
        ensures
            r is Some <==> self.doc_view() is Some,
            r matches Some(m) ==> m@ == self.doc_view().unwrap().metadata,
    {
        match &self.vault {
            None => None,
            Some(v) => Some(&v.metadata),
        }
    }

    /// Add a new account to the open vault and return the new file bytes to
    /// persist.
    ///
    /// The record gets a fresh random identifier and is stored with exactly
    /// the given fields; the document's count and stamp are updated. With no
    /// vault open, the call fails as unauthenticated.
    pub fn add_account(
        &mut self,
        name: String,
        account_type: AccountType,
        password: String,
        url: Option<String>,
        username: Option<String>,
        notes: Option<String>,
        tags: Vec<String>,
        now: u64,
    ) -> (r: Result<Vec<u8>, PassManError>)
        requires
            old(self).inv(),
        ensures
            final(self).inv(),
            old(self).doc_view() is None ==> r == Err::<Vec<u8>, PassManError>(
                PassManError::AuthenticationFailed,
            ) && *final(self) == *old(self),
            old(self).doc_view() matches Some(d0) ==> exists|av: AccountV|
                {
                    &&& av.name == name@
                    &&& av.account_type == account_type
                    &&& av.password == password@
                    &&& av.url == url.deep_view()
                    &&& av.username == username.deep_view()
                    &&& av.notes == notes.deep_view()
                    &&& av.tags == tags.deep_view()
                    &&& av.created_at == now && av.updated_at == now
                    &&& av.last_accessed is None
                    &&& #[trigger] final(self).doc_view() == Some(
                        VaultV {
                            metadata: VaultMetadataV {
                                last_modified: now,
                                account_count: Vault::upsert(d0.accounts, av).len() as usize,
                                ..d0.metadata
                            },
                            accounts: Vault::upsert(d0.accounts, av),
                            tags: d0.tags,
                        },
                    )
                },
            old(self).doc_view() is Some ==> (r matches Ok(data) ==> (
            final(self).auth_ref().key_view() matches Some(key)
                && final(self).auth_ref().salt_view() matches Some(salt) && saved_file_spec(
                data@,
                key,
                salt,
                final(self).doc_view().unwrap(),
            ))),
            old(self).doc_view() is Some && vault_encodable(final(self).doc_view().unwrap())
                && final(self).auth_ref().key_view() is Some
                && final(self).auth_ref().salt_view() is Some && enc_vault(
                final(self).doc_view().unwrap(),
            ).len() <= MAX_PLAINTEXT_LEN ==> r is Ok,
    {
        let vault = match &mut self.vault {
            None => {
                return Err(PassManError::AuthenticationFailed);
            },
            Some(v) => v,
        };
        let mut account = Account::new(name, account_type, password, now);
        account.url = url;
        account.username = username;
        account.notes = notes;
        account.tags = tags;
        let ghost av = account@;
        vault.add_account(account, now);
        proof {
            assert(self.doc_view().unwrap() =~= (VaultV {
                metadata: VaultMetadataV {
                    last_modified: now,
                    account_count: Vault::upsert(old(self).doc_view().unwrap().accounts, av).len() as usize,
                    ..old(self).doc_view().unwrap().metadata
                },
                accounts: Vault::upsert(old(self).doc_view().unwrap().accounts, av),
                tags: old(self).doc_view().unwrap().tags,
            }));
        }
        self.save_vault()
    }

    /// Replace the named fields of the account with identifier `id` and
    /// return the new file bytes to persist. The record's identifier,
    /// creation stamp and last-access stamp are kept.
    pub fn update_account(
        &mut self,
        id: u128,
        name: String,
        account_type: AccountType,
        password: String,
        url: Option<String>,
        username: Option<String>,
        notes: Option<String>,
        tags: Vec<String>,
        now: u64,
    ) -> (r: Result<Vec<u8>, PassManError>)
        requires
            old(self).inv(),
        ensures
            final(self).inv(),
            old(self).doc_view() is None ==> r == Err::<Vec<u8>, PassManError>(
                PassManError::AuthenticationFailed,
            ) && *final(self) == *old(self),
            old(self).doc_view() matches Some(d0) ==> (!Vault::contains_id(d0.accounts, id) ==> r
                == Err::<Vec<u8>, PassManError>(PassManError::AccountNotFound) && *final(self)
                == *old(self)),
            old(self).doc_view() matches Some(d0) ==> (Vault::contains_id(d0.accounts, id) ==> ({
                let k = Vault::index_of_id(d0.accounts, id);
                final(self).doc_view() == Some(
                    VaultV {
                        metadata: VaultMetadataV { last_modified: now, ..d0.metadata },
                        accounts: d0.accounts.update(
                            k,
                            AccountV {
                                name: name@,
                                account_type,
                                password: password@,
                                url: url.deep_view(),
                                username: username.deep_view(),
                                notes: notes.deep_view(),
                                tags: tags.deep_view(),
                                updated_at: now,
                                ..d0.accounts[k]
                            },
                        ),
                        tags: d0.tags,
                    },
                )
            })),
            old(self).doc_view() is Some ==> (r matches Ok(data) ==> (
            final(self).auth_ref().key_view() matches Some(key)
                && final(self).auth_ref().salt_view() matches Some(salt) && saved_file_spec(
                data@,
                key,
                salt,
                final(self).doc_view().unwrap(),
            ))),
            old(self).doc_view() matches Some(d0) ==> (Vault::contains_id(d0.accounts, id)
                && vault_encodable(final(self).doc_view().unwrap())
                && final(self).auth_ref().key_view() is Some
                && final(self).auth_ref().salt_view() is Some && enc_vault(
                final(self).doc_view().unwrap(),
            ).len() <= MAX_PLAINTEXT_LEN ==> r is Ok),
    {
        let vault = match &mut self.vault {
            None => {
                return Err(PassManError::AuthenticationFailed);
            },
            Some(v) => v,
        };
        let found = vault.update_account(id, name, account_type, password, url, username, notes,
            tags, now);
        if !found {
            return Err(PassManError::AccountNotFound);
        }
        self.save_vault()
    }

    /// Remove the account with identifier `id` and return the new file bytes
    /// to persist.
    pub fn delete_account(&mut self, id: u128, now: u64) -> (r: Result<Vec<u8>, PassManError>)
        requires
            old(self).inv(),
        ensures
            final(self).inv(),
            old(self).doc_view() is None ==> r == Err::<Vec<u8>, PassManError>(
                PassManError::AuthenticationFailed,
            ) && *final(self) == *old(self),
            old(self).doc_view() matches Some(d0) ==> (!Vault::contains_id(d0.accounts, id) ==> r
                == Err::<Vec<u8>, PassManError>(PassManError::AccountNotFound) && *final(self)
                == *old(self)),
            old(self).doc_view() matches Some(d0) ==> (Vault::contains_id(d0.accounts, id)
                ==> final(self).doc_view() == Some(
                VaultV {
                    metadata: VaultMetadataV {
                        last_modified: now,
                        account_count: (d0.accounts.len() - 1) as usize,
                        ..d0.metadata
                    },
                    accounts: d0.accounts.remove(Vault::index_of_id(d0.accounts, id)),
                    tags: d0.tags,
                },
            )),
            old(self).doc_view() is Some ==> (r matches Ok(data) ==> (
            final(self).auth_ref().key_view() matches Some(key)
                && final(self).auth_ref().salt_view() matches Some(salt) && saved_file_spec(
                data@,
                key,
                salt,
                final(self).doc_view().unwrap(),
            ))),
            old(self).doc_view() matches Some(d0) ==> (Vault::contains_id(d0.accounts, id)
                && vault_encodable(final(self).doc_view().unwrap())
                && final(self).auth_ref().key_view() is Some
                && final(self).auth_ref().salt_view() is Some && enc_vault(
                final(self).doc_view().unwrap(),
            ).len() <= MAX_PLAINTEXT_LEN ==> r is Ok),
    {
        let vault = match &mut self.vault {
            None => {
                return Err(PassManError::AuthenticationFailed);
            },
            Some(v) => v,
        };
        match vault.remove_account(id, now) {
            None => Err(PassManError::AccountNotFound),
            Some(_) => self.save_vault(),
        }
    }

    /// The record with identifier `id`, if a vault is open and it exists.
    pub fn get_account(&self, id: u128) -> (r: Option<&Account>)
        requires
            self.inv(),
        ensures
            r matches Some(a) ==> self.doc_view() matches Some(d) && Vault::contains_id(
                d.accounts,
                id,
            ) && a@ == d.accounts[Vault::index_of_id(d.accounts, id)],
            r is None ==> match self.doc_view() {
                None => true,
                Some(d) => !Vault::contains_id(d.accounts, id),
            },
    {
        match &self.vault {
            None => None,
            Some(v) => v.get_account(id),
        }
    }

    /// All records of the open vault (empty when no vault is open).
    pub fn get_all_accounts(&self) -> (r: Vec<&Account>)
        ensures
            self.doc_view() matches Some(d) ==> r@.len() == d.accounts.len() && forall|i: int|
                0 <= i < r@.len() ==> r@[i]@ == d.accounts[i],
            self.doc_view() is None ==> r@.len() == 0,
    {
        match &self.vault {
            None => Vec::new(),
            Some(v) => v.get_all_accounts(),
        }
    }

    /// The records whose lowercased name contains the lowercased query
    /// (empty when no vault is open).
    pub fn search_accounts(&self, query: &str) -> (r: Vec<&Account>)
        ensures
            self.doc_view() matches Some(d) ==> r.deep_view() == d.accounts.filter(
                |a: AccountV| name_matches(a, query@),
            ),
            self.doc_view() is None ==> r@.len() == 0,
    {
        match &self.vault {
            None => Vec::new(),
            Some(v) => v.search_accounts(query),
        }
    }

    /// The records of the given category (empty when no vault is open).
    pub fn get_accounts_by_type(&self, account_type: &AccountType) -> (r: Vec<&Account>)
        ensures
            self.doc_view() matches Some(d) ==> r.deep_view() == d.accounts.filter(
                |a: AccountV| type_matches(a, *account_type),
            ),
            self.doc_view() is None ==> r@.len() == 0,
    {
        match &self.vault {
            None => Vec::new(),
            Some(v) => v.get_accounts_by_type(account_type),
        }
    }

    /// The records carrying the given tag (empty when no vault is open).
    pub fn get_accounts_by_tag(&self, tag: &str) -> (r: Vec<&Account>)
        ensures
            self.doc_view() matches Some(d) ==> r.deep_view() == d.accounts.filter(
                |a: AccountV| tag_matches(a, tag@),
            ),
            self.doc_view() is None ==> r@.len() == 0,
    {
        match &self.vault {
            None => Vec::new(),
            Some(v) => v.get_accounts_by_tag(tag),
        }
    }

    /// Generate a password (see [`PasswordGenerator::generate`]).
    pub fn generate_password(&mut self, options: &PasswordOptions) -> (r: Result<
        String,
        PassManError,
    >)
        ensures
            r is Ok <==> options_valid(*options) && charset_spec(*options).len() >= 1,
            r matches Ok(p) ==> encode_utf8(p@).len() == generated_len(*options),
            r matches Err(e) ==> e == PassManError::InvalidInput,
    {
        self.generator.generate(options)
    }

    /// Generate a letters-and-numbers password of the given length.
    pub fn generate_simple_password(&mut self, length: usize) -> (r: Result<String, PassManError>)
        ensures
            r is Ok <==> options_valid(
                PasswordOptions { include_special: false, exclude_ambiguous: true, length, ..PasswordOptions::default_spec() },
            ) && charset_spec(
                PasswordOptions { include_special: false, exclude_ambiguous: true, length, ..PasswordOptions::default_spec() },
            ).len() >= 1,
            r matches Ok(p) ==> encode_utf8(p@).len() == generated_len(
                PasswordOptions { include_special: false, exclude_ambiguous: true, length, ..PasswordOptions::default_spec() },
            ),
            r matches Err(e) ==> e == PassManError::InvalidInput,
    {
        self.generator.generate_simple(length)
    }

    /// Generate an all-classes password of the given length.
    pub fn generate_strong_password(&mut self, length: usize) -> (r: Result<String, PassManError>)
        ensures
            r is Ok <==> options_valid(PasswordOptions { length, ..PasswordOptions::default_spec() })
                && charset_spec(
                PasswordOptions { length, ..PasswordOptions::default_spec() },
            ).len() >= 1,
            r matches Ok(p) ==> encode_utf8(p@).len() == generated_len(
                PasswordOptions { length, ..PasswordOptions::default_spec() },
            ),
            r matches Err(e) ==> e == PassManError::InvalidInput,
    {
        self.generator.generate_strong(length)
    }

    /// Score a password's strength (see [`strength_spec`]).
    pub fn calculate_password_strength(&self, password: &str) -> (r: u8)
        ensures
            r as int == strength_spec(encode_utf8(password@)),
            r <= 100,
    {
        self.generator.calculate_strength(password)
    }

    /// The description of a strength score.
    pub fn get_password_strength_description(&self, score: u8) -> (r: &'static str)
        ensures
            r@ == description_spec(score),
    {
        self.generator.get_strength_description(score)
    }

    /// Produce export bytes of the open vault, sealed under the session's
    /// key: the sealed document alone, without a salt prefix. Gated behind a
    /// valid session.
    pub fn export_vault(&self, now: u64) -> (r: Result<Vec<u8>, PassManError>)
        ensures
            self.doc_view() is None ==> r == Err::<Vec<u8>, PassManError>(
                PassManError::AuthenticationFailed,
            ),
            !self.auth_ref().valid_at(now) ==> r is Err,
            r matches Ok(data) ==> (self.doc_view() matches Some(d)
                && self.auth_ref().key_view() matches Some(key) && decrypt_spec(key, data@)
                == Some(enc_vault(d))),
            self.doc_view() matches Some(d) ==> (self.auth_ref().valid_at(now)
                && vault_encodable(d) && self.auth_ref().key_view() is Some && enc_vault(d).len()
                <= MAX_PLAINTEXT_LEN ==> r is Ok),
    {
        let vault = match &self.vault {
            None => {
                return Err(PassManError::AuthenticationFailed);
            },
            Some(v) => v,
        };
        let crypto = match self.auth.get_crypto(now) {
            Ok(c) => c,
            Err(e) => {
                return Err(e);
            },
        };
        self.storage.export_vault(vault, crypto)
    }

    /// Replace the document with one imported from export bytes sealed
    /// under the session's key, and return the new vault file bytes to
    /// persist. Gated behind a valid session.
    pub fn import_vault(&mut self, data: &Vec<u8>, now: u64) -> (r: Result<Vec<u8>, PassManError>)
        requires
            old(self).inv(),
        ensures
            final(self).inv(),
            !old(self).auth_ref().valid_at(now) ==> r == Err::<Vec<u8>, PassManError>(
                PassManError::AuthenticationFailed,
            ) && *final(self) == *old(self),
            r is Ok ==> (final(self).doc_view() matches Some(d)
                && old(self).auth_ref().key_view() matches Some(key) && decrypt_spec(key, data@)
                matches Some(pt) && crate::codec::dec_document(pt) == Some(d)),
    {
        let imported = match self.auth.get_crypto(now) {
            Ok(crypto) => self.storage.import_vault(crypto, data),
            Err(e) => {
                return Err(e);
            },
        };
        match imported {
            Ok(v) => {
                self.vault = Some(v);
                self.save_vault()
            },
            Err(e) => Err(e),
        }
    }

    /// Whether the session is valid at `now`.
    pub fn is_session_valid(&self, now: u64) -> (r: bool)
        ensures
            r == self.auth_ref().valid_at(now),
    {
        self.auth.is_authenticated(now)
    }

    /// Record session activity at `now`.
    pub fn update_activity(&mut self, now: u64)
        ensures
            old(self).auth_ref().session_view() matches Some(s) ==> final(self).auth_ref().session_view() == Some((AuthSession { last_activity: now, ..s })),
            final(self).doc_view() == old(self).doc_view(),
            old(self).inv() ==> final(self).inv(),
    {
        self.auth.update_activity(now);
    }

    /// The current session, when it is valid at `now`.
    pub fn get_session_info(&self, now: u64) -> (r: Option<&AuthSession>)
        ensures
            r is Some <==> self.auth_ref().valid_at(now),
            r matches Some(s) ==> self.auth_ref().session_view() == Some(*s),
    {
        self.auth.get_session(now)
    }

    /// Produce the file bytes of the held document, sealed under the
    /// session's key and salt.
    fn save_vault(&self) -> (r: Result<Vec<u8>, PassManError>)
        ensures
            self.doc_view() is None ==> r == Err::<Vec<u8>, PassManError>(
                PassManError::AuthenticationFailed,
            ),
            r matches Ok(data) ==> (self.doc_view() matches Some(d)
                && self.auth_ref().key_view() matches Some(key)
                && self.auth_ref().salt_view() matches Some(salt) && saved_file_spec(
                data@,
                key,
                salt,
                d,
            )),
            self.doc_view() matches Some(d) && vault_encodable(d)
                && self.auth_ref().key_view() is Some && self.auth_ref().salt_view() is Some
                && enc_vault(d).len() <= MAX_PLAINTEXT_LEN ==> r is Ok,
    {
        let vault = match &self.vault {
            None => {
                return Err(PassManError::AuthenticationFailed);
            },
            Some(v) => v,
        };
        self.storage.save_vault(vault, self.auth.get_crypto_for_init())
    }
}

} // verus!
