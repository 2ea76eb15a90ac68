//! The vault's durable representation.
//!
//! A vault file is the 16-byte salt followed by the AEAD-sealed document
//! (`salt || nonce || ciphertext || tag`). This module produces and opens
//! those bytes, and decides backup rotation; reading and writing the actual
//! files, with the atomic temp-file-and-rename protocol, is the embedding
//! application's part.
use vstd::prelude::*;
use vstd::utf8::encode_utf8;
use crate::PassManError;
use crate::codec::{decode_document, dec_document, enc_vault, encode_document, vault_encodable};
use crate::crypto::{
    CryptoManager, Salt, SecureKey, aead_open_of, decrypt_spec, derived_key_of, MAX_PLAINTEXT_LEN,
    SALT_SIZE,
};
use crate::models::{Vault, VaultV, wf_doc};

verus! {

/// How many backups rotation retains.
pub const BACKUP_KEEP: usize = 10;

/// What loading `data` under `password` yields, stage by stage: a file
/// shorter than a salt is a storage error; a failed AEAD tag — wrong
/// password and corrupted bytes alike — is a crypto error; bytes that do not
/// spell a well-formed document are a serialization error.
pub open spec fn load_result_spec(data: Seq<u8>, password: Seq<char>) -> Result<
    VaultV,
    PassManError,
> {
    if data.len() < SALT_SIZE {
        Err(PassManError::StorageError)
    } else if encode_utf8(password).len() > u32::MAX {
        Err(PassManError::CryptoError)
    } else {
        let salt = data.subrange(0, SALT_SIZE as int);
        let key = derived_key_of(password, salt);
        match decrypt_spec(key, data.skip(SALT_SIZE as int)) {
            None => Err(PassManError::CryptoError),
            Some(pt) => match dec_document(pt) {
                None => Err(PassManError::SerializationError),
                Some(d) => if wf_doc(d) {
                    Ok(d)
                } else {
                    Err(PassManError::SerializationError)
                },
            },
        }
    }
}

/// The bytes `save_vault` promises for document `v`: a 16-byte salt prefix,
/// and a payload that decrypts under `key` to the document's encoding.
pub open spec fn saved_file_spec(data: Seq<u8>, key: Seq<u8>, salt: Seq<u8>, v: VaultV) -> bool {
    &&& data.len() >= SALT_SIZE
    &&& data.subrange(0, SALT_SIZE as int) == salt
    &&& decrypt_spec(key, data.skip(SALT_SIZE as int)) == Some(enc_vault(v))
}

/// Round trip through the file format: bytes saved for a well-formed,
/// encodable document under the key derived from `password` and the file's
/// own salt load back as exactly that document. Every output of `save_vault`
/// whose key and salt came from `password` satisfies the requirements.
pub proof fn lemma_save_then_load(data: Seq<u8>, password: Seq<char>, v: VaultV)
    requires
        vault_encodable(v),
        wf_doc(v),
        encode_utf8(password).len() <= u32::MAX,
        saved_file_spec(data, derived_key_of(password, data.subrange(0, SALT_SIZE as int)),
            data.subrange(0, SALT_SIZE as int), v),
    ensures
        load_result_spec(data, password) == Ok::<VaultV, PassManError>(v),
{
    crate::codec::lemma_document_round_trip(v);
}

/// A wrong password and a corrupted file are indistinguishable: whenever the
/// AEAD tag fails to verify — whichever of the two caused it — loading fails
/// with the same crypto error category.
pub proof fn lemma_wrong_password_like_corruption(data: Seq<u8>, password: Seq<char>)
    requires
        data.len() >= SALT_SIZE,
        encode_utf8(password).len() <= u32::MAX,
        decrypt_spec(derived_key_of(password, data.subrange(0, SALT_SIZE as int)),
            data.skip(SALT_SIZE as int)) is None,
    ensures
        load_result_spec(data, password) == Err::<VaultV, PassManError>(PassManError::CryptoError),
{
}

/// The storage identity of one vault: its name decides the file name; the
/// surrounding application maps both to paths on disk.
pub struct VaultStorage {
    /// The vault's name.
    vault_name: String,
}

impl VaultStorage {
    /// The vault's name as given.
    pub closed spec fn name_view(self) -> Seq<char> {
        self.vault_name@
    }

    /// Storage identity for the vault called `vault_name`.
    pub fn new(vault_name: &str) -> (r: VaultStorage)
        ensures
            r.name_view() == vault_name@,
    {
        VaultStorage { vault_name: vault_name.to_owned() }
    }

    /// The vault's file name: its name with the vault extension.
    pub fn vault_path(&self) -> (r: String)
        ensures
            r@ == self.name_view() + ".vault"@,
    {
        let mut p = self.vault_name.clone();
        p.append(".vault");
        p
    }

    /// The file name under which a backup taken at the given timestamp text
    /// is stored.
    pub fn backup_file_name(&self, timestamp: &str) -> (r: String)
        ensures
            r@ == "vault_backup_"@ + timestamp@ + ".vault"@,
    {
        let mut p = "vault_backup_".to_owned();
        p.append(timestamp);
        p.append(".vault");
        proof {
            assert(p@ =~= "vault_backup_"@ + timestamp@ + ".vault"@);
        }
        p
    }

    /// Produce the vault file's bytes for `vault`: serialize, seal under the
    /// context's key, and prepend the context's salt.
    ///
    /// Fails with a serialization error when the document exceeds the
    /// layout's limits, with a crypto error when the context holds no key or
    /// sealing fails, and with a storage error when the context holds no
    /// salt. On success the bytes satisfy [`saved_file_spec`] for the
    /// context's key and salt.
    pub fn save_vault(&self, vault: &Vault, crypto: &CryptoManager) -> (r: Result<
        Vec<u8>,
        PassManError,
    >)
        ensures
            r matches Ok(data) ==> {
                &&& vault_encodable(vault@)
                &&& crypto.key_view() matches Some(key) && crypto.salt_view() matches Some(salt)
                    && saved_file_spec(data@, key, salt, vault@)
            },
            !vault_encodable(vault@) ==> r == Err::<Vec<u8>, PassManError>(
                PassManError::SerializationError,
            ),
            vault_encodable(vault@) && crypto.key_view() is None ==> r == Err::<
                Vec<u8>,
                PassManError,
            >(PassManError::CryptoError),
            vault_encodable(vault@) && crypto.key_view() is Some && crypto.salt_view() is Some
                && enc_vault(vault@).len() <= MAX_PLAINTEXT_LEN ==> r is Ok,
            r matches Err(e) ==> (e == PassManError::SerializationError || e
                == PassManError::CryptoError || e == PassManError::StorageError),
    {
        let doc_bytes = match encode_document(vault) {
            Ok(b) => b,
            Err(e) => {
                return Err(e);
            },
        };
        let sealed = match crypto.encrypt(doc_bytes.as_slice()) {
            Ok(ct) => ct,
            Err(e) => {
                return Err(e);
            },
        };
        let salt = match crypto.get_salt() {
            Some(s) => s,
            None => {
                return Err(PassManError::StorageError);
            },
        };
        let mut out: Vec<u8> = Vec::new();
        out.extend_from_slice(salt.as_bytes().as_slice());
        out.extend_from_slice(sealed.as_slice());
        proof {
            let key = crypto.key_view().unwrap();
            assert(out@.subrange(0, SALT_SIZE as int) =~= crypto.salt_view().unwrap());
            assert(out@.skip(SALT_SIZE as int) =~= sealed@);
        }
        Ok(out)
    }

    /// Open a vault file: split off the salt, derive the key from the
    /// password and that salt, decrypt, and decode the document.
    ///
    /// The result is exactly [`load_result_spec`] of the bytes and password;
    /// in particular a wrong password and corrupted bytes fail with the same
    /// crypto error.
    pub fn load_vault(&self, data: &Vec<u8>, master_password: &str) -> (r: Result<
        Vault,
        PassManError,
    >)
        ensures
            r matches Ok(v) ==> load_result_spec(data@, master_password@) == Ok::<
                VaultV,
                PassManError,
            >(v@) && v.wf(),
            r matches Err(e) ==> load_result_spec(data@, master_password@) == Err::<
                VaultV,
                PassManError,
            >(e),
    {
        if data.len() < 16 {
            return Err(PassManError::StorageError);
        }
        let mut salt_bytes = [0u8; 16];
        let mut i: usize = 0;
        while i < 16
            invariant
                i <= 16,
                data@.len() >= 16,
                forall|k: int| 0 <= k < i ==> salt_bytes@[k] == data@[k],
            decreases 16 - i,
        {
            salt_bytes[i] = data[i];
            i = i + 1;
        }
        proof {
            assert(salt_bytes@ =~= data@.subrange(0, SALT_SIZE as int));
        }
        let salt = Salt::from_bytes(salt_bytes);
        let rest = vstd::slice::slice_to_vec(vstd::slice::slice_subrange(
            data.as_slice(),
            16,
            data.len(),
        ));
        proof {
            assert(rest@ =~= data@.skip(SALT_SIZE as int));
        }
        let mut crypto = CryptoManager::new();
        let key = match crypto.derive_key(master_password, &salt) {
            Ok(k) => k,
            Err(e) => {
                return Err(e);
            },
        };
        let plaintext = match crypto.decrypt_with_key(rest.as_slice(), &key) {
            Ok(p) => p,
            Err(e) => {
                return Err(e);
            },
        };
        decode_document(&plaintext)
    }

    /// Produce export bytes for `vault`: the sealed document alone, without
    /// the salt prefix, for transfer to a caller that already holds the key.
    pub fn export_vault(&self, vault: &Vault, crypto: &CryptoManager) -> (r: Result<
        Vec<u8>,
        PassManError,
    >)
        ensures
            r matches Ok(data) ==> {
                &&& vault_encodable(vault@)
                &&& crypto.key_view() matches Some(key) && decrypt_spec(key, data@) == Some(
                    enc_vault(vault@),
                )
            },
            !vault_encodable(vault@) ==> r == Err::<Vec<u8>, PassManError>(
                PassManError::SerializationError,
            ),
            vault_encodable(vault@) && crypto.key_view() is None ==> r == Err::<
                Vec<u8>,
                PassManError,
            >(PassManError::CryptoError),
            vault_encodable(vault@) && crypto.key_view() is Some && enc_vault(vault@).len()
                <= MAX_PLAINTEXT_LEN ==> r is Ok,
    {
        let doc_bytes = match encode_document(vault) {
            Ok(b) => b,
            Err(e) => {
                return Err(e);
            },
        };
        crypto.encrypt(doc_bytes.as_slice())
    }

    /// Open export bytes with the context's key and decode the document.
    ///
    /// Succeeds exactly when the key opens the bytes and they spell a
    /// well-formed document.
    pub fn import_vault(&self, crypto: &CryptoManager, data: &Vec<u8>) -> (r: Result<
        Vault,
        PassManError,
    >)
        ensures
            crypto.key_view() is None ==> r is Err,
            r matches Ok(v) ==> {
                &&& crypto.key_view() matches Some(key)
                &&& decrypt_spec(key, data@) matches Some(pt) && dec_document(pt) == Some(v@)
                &&& v.wf()
            },
            crypto.key_view() matches Some(key) && decrypt_spec(key, data@) is None ==> r == Err::<
                Vault,
                PassManError,
            >(PassManError::CryptoError),
            crypto.key_view() matches Some(key) ==> (decrypt_spec(key, data@) matches Some(pt)
                ==> match dec_document(pt) {
                None => r == Err::<Vault, PassManError>(PassManError::SerializationError),
                Some(d) => (wf_doc(d) ==> r is Ok) && (!wf_doc(d) ==> r == Err::<
                    Vault,
                    PassManError,
                >(PassManError::SerializationError)),
            }),
    {
        let plaintext = match crypto.decrypt(data.as_slice()) {
            Ok(p) => p,
            Err(e) => {
                return Err(e);
            },
        };
        decode_document(&plaintext)
    }
}

/// Swapping two positions keeps length, the set of values, and freedom from
/// duplicates.
proof fn lemma_swap_permutes(s1: Seq<usize>, s2: Seq<usize>, t: int, p: int)
    requires
        0 <= t < s1.len(),
        0 <= p < s1.len(),
        s2 == s1.update(t, s1[p]).update(p, s1[t]),
    ensures
        s2.len() == s1.len(),
        s1.no_duplicates() ==> s2.no_duplicates(),
        forall|x: usize| s1.contains(x) ==> s2.contains(x),
        forall|a: int| 0 <= a < s1.len() && a != t && a != p ==> s2[a] == s1[a],
        s2[t] == s1[p],
        s2[p] == s1[t],
{
    assert forall|x: usize| s1.contains(x) implies s2.contains(x) by {
        let w = choose|w: int| 0 <= w < s1.len() && s1[w] == x;
        if w == t {
            assert(s2[p] == x);
        } else if w == p {
            assert(s2[t] == x);
        } else {
            assert(s2[w] == x);
        }
    }
    if s1.no_duplicates() {
        assert forall|a: int, b: int|
            0 <= a < s2.len() && 0 <= b < s2.len() && a != b implies s2[a] != s2[b] by {
            let a1: int = if a == t {
                p
            } else if a == p {
                t
            } else {
                a
            };
            let b1: int = if b == t {
                p
            } else if b == p {
                t
            } else {
                b
            };
            assert(s2[a] == s1[a1]);
            assert(s2[b] == s1[b1]);
        }
    }
}

/// Order the backup positions newest first.
///
/// Given the modification times of the backup files, in any order, the
/// result lists every position exactly once, with their times
/// non-increasing: the survivors of a rotation that keeps `k` backups are
/// the first `k` positions, and everything after them is deleted.
pub fn rank_backups_newest_first(times: &Vec<u64>) -> (r: Vec<usize>)
    ensures
        r@.len() == times@.len(),
        r@.no_duplicates(),
        forall|a: int| 0 <= a < r@.len() ==> r@[a] < times@.len(),
        forall|a: int, b: int|
            0 <= a < b < r@.len() ==> times@[r@[a] as int] >= times@[r@[b] as int],
        forall|j: int| 0 <= j < times@.len() ==> #[trigger] r@.contains(j as usize),
{
    let n = times.len();
    let mut idx: Vec<usize> = Vec::new();
    let mut i: usize = 0;
    while i < n
        invariant
            i <= n,
            idx@.len() == i,
            forall|a: int| 0 <= a < i ==> idx@[a] == a,
        decreases n - i,
    {
        idx.push(i);
        i = i + 1;
    }
    proof {
        assert(idx@.no_duplicates());
        assert forall|j: int| 0 <= j < n implies #[trigger] idx@.contains(j as usize) by {
            assert(idx@[j] == j as usize);
        }
    }
    let ghost tv = times@;
    let mut t: usize = 0;
    while t < n
        invariant
            t <= n,
            tv == times@,
            tv.len() == n,
            idx@.len() == n,
            idx@.no_duplicates(),
            forall|a: int| 0 <= a < n ==> idx@[a] < n,
            forall|j: int| 0 <= j < n ==> #[trigger] idx@.contains(j as usize),
            forall|a: int, b: int| 0 <= a < b < t ==> tv[idx@[a] as int] >= tv[idx@[b] as int],
            forall|a: int, b: int|
                0 <= a < t <= b < n ==> tv[idx@[a] as int] >= tv[idx@[b] as int],
        decreases n - t,
    {
        let mut best: usize = t;
        let mut j: usize = t + 1;
        while j < n
            invariant
                t <= best < j <= n,
                n == idx@.len(),
                tv == times@,
                tv.len() == n,
                forall|a: int| 0 <= a < n ==> idx@[a] < n,
                forall|a: int| t <= a < j ==> tv[idx@[best as int] as int] >= tv[idx@[a] as int],
            decreases n - j,
        {
            if times[idx[j]] > times[idx[best]] {
                best = j;
            }
            j = j + 1;
        }
        let ghost before = idx@;
        let vt = idx[t];
        let vb = idx[best];
        idx[t] = vb;
        idx[best] = vt;
        proof {
            lemma_swap_permutes(before, idx@, t as int, best as int);
        }
        t = t + 1;
    }
    idx
}


/// What a rotation keeps: in the ranking of the backups (newest first, every
/// position exactly once), each of the first `keep` positions — the
/// survivors — is no older than any position after the cut, which are the
/// ones deleted.
pub proof fn lemma_rotation_keeps_newest(times: Seq<u64>, r: Seq<usize>, keep: int)
    requires
        r.len() == times.len(),
        forall|a: int, b: int| 0 <= a < b < r.len() ==> times[r[a] as int] >= times[r[b] as int],
        0 <= keep <= r.len(),
    ensures
        forall|a: int, b: int|
            0 <= a < keep <= b < r.len() ==> times[r[a] as int] >= times[r[b] as int],
{
}

} // verus!
