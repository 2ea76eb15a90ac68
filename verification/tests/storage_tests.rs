use passman::crypto::CryptoManager;
use passman::models::{Account, AccountType, Vault};
use passman::storage::{rank_backups_newest_first, VaultStorage, BACKUP_KEEP};
use passman::PassManError;

const NOW: u64 = 1_700_000_000;

#[test]
fn test_vault_save_and_load() {
    let mut crypto = CryptoManager::new();
    let password = "test_password";
    let (_, _salt) = crypto.generate_key_and_salt(password).unwrap();

    let vault_storage = VaultStorage::new("test_vault");
    let mut vault = Vault::new("test@example.com".to_string(), NOW);

    let account = Account::new(
        "Test Account".to_string(),
        AccountType::Personal,
        "test_password".to_string(),
        NOW,
    );
    vault.add_account(account, NOW);

    let data = vault_storage.save_vault(&vault, &crypto).unwrap();

    let loaded_vault = vault_storage.load_vault(&data, password).unwrap();
    assert_eq!(vault.metadata.email, loaded_vault.metadata.email);
    assert_eq!(vault.accounts.len(), loaded_vault.accounts.len());
}

#[test]
fn short_file_is_a_storage_error() {
    let storage = VaultStorage::new("v");
    let data: Vec<u8> = vec![1, 2, 3];
    assert_eq!(storage.load_vault(&data, "pw").err(), Some(PassManError::StorageError));
}

#[test]
fn wrong_password_and_corruption_fail_alike() {
    // Loading with an incorrect password fails with the same error category
    // as loading a corrupted file: both are AEAD tag failures.
    let mut crypto = CryptoManager::new();
    let (_, _salt) = crypto.generate_key_and_salt("right horse").unwrap();
    let storage = VaultStorage::new("v");
    let vault = Vault::new("me@example.com".to_string(), NOW);
    let data = storage.save_vault(&vault, &crypto).unwrap();

    let wrong_password = storage.load_vault(&data, "wrong horse").err();
    assert_eq!(wrong_password, Some(PassManError::CryptoError));

    let mut corrupted = data.clone();
    let last = corrupted.len() - 1;
    corrupted[last] ^= 0x40;
    let corrupt = storage.load_vault(&corrupted, "right horse").err();
    assert_eq!(corrupt, Some(PassManError::CryptoError));

    assert_eq!(wrong_password, corrupt);
}

#[test]
fn export_and_import_round_trip() {
    let mut crypto = CryptoManager::new();
    let (_, _salt) = crypto.generate_key_and_salt("pw").unwrap();
    let storage = VaultStorage::new("v");
    let mut vault = Vault::new("x@y.z".to_string(), NOW);
    vault.add_account(
        Account::new("A".to_string(), AccountType::Work, "s".to_string(), NOW),
        NOW,
    );
    let exported = storage.export_vault(&vault, &crypto).unwrap();
    let imported = storage.import_vault(&crypto, &exported).unwrap();
    assert_eq!(imported.metadata.email, "x@y.z");
    assert_eq!(imported.accounts.len(), 1);
    assert_eq!(imported.accounts[0].name, "A");
}

#[test]
fn file_names() {
    let storage = VaultStorage::new("main");
    assert_eq!(storage.vault_path(), "main.vault");
    assert_eq!(storage.backup_file_name("20240102_030405"), "vault_backup_20240102_030405.vault");
}

#[test]
fn rotation_keeps_ten_newest_of_eleven() {
    // After 11 successive saves there are 11 backups; rotation keeps exactly
    // the 10 most recent.
    let times: Vec<u64> = (0..11u64).map(|k| 1000 + k).collect();
    let ranked = rank_backups_newest_first(&times);
    assert_eq!(ranked.len(), 11);
    let survivors = &ranked[..BACKUP_KEEP];
    let deleted = &ranked[BACKUP_KEEP..];
    assert_eq!(survivors.len(), 10);
    assert_eq!(deleted, &[0usize]);
    // survivors are indices 1..=10, the ten most recent
    let mut s: Vec<usize> = survivors.to_vec();
    s.sort();
    assert_eq!(s, (1usize..=10).collect::<Vec<usize>>());
}

#[test]
fn rotation_orders_newest_first_with_ties() {
    let times: Vec<u64> = vec![5, 9, 9, 1, 7];
    let ranked = rank_backups_newest_first(&times);
    assert_eq!(ranked.len(), 5);
    // times along the ranking never increase
    for w in ranked.windows(2) {
        assert!(times[w[0]] >= times[w[1]]);
    }
    // every index appears exactly once
    let mut seen = ranked.clone();
    seen.sort();
    assert_eq!(seen, vec![0, 1, 2, 3, 4]);
}

#[test]
fn rotation_with_few_backups_keeps_all() {
    let times: Vec<u64> = vec![3, 1, 2];
    let ranked = rank_backups_newest_first(&times);
    assert_eq!(ranked, vec![0, 2, 1]);
}
