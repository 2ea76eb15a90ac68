use passman::codec::{decode_document, encode_document};
use passman::models::{Account, AccountType, Vault, VaultMetadata, VaultSettings};
use passman::PassManError;

const NOW: u64 = 1_700_000_000;

fn sample_vault() -> Vault {
    let mut vault = Vault::new("owner@example.com".to_string(), NOW);
    let mut a = Account::new(
        "GitHub".to_string(),
        AccountType::Work,
        "abc123".to_string(),
        NOW,
    );
    a.url = Some("https://github.com".to_string());
    a.username = Some("octocat".to_string());
    a.notes = Some("notes with unicode: ü€".to_string());
    a.tags = vec!["dev".to_string(), "vc".to_string()];
    vault.add_account(a, NOW + 1);
    let b = Account::new(
        "Bank".to_string(),
        AccountType::Banking,
        "s3cret!".to_string(),
        NOW + 2,
    );
    vault.add_account(b, NOW + 2);
    vault.tags = vec!["personal".to_string()];
    vault
}

#[test]
fn document_round_trip() {
    let vault = sample_vault();
    let bytes = encode_document(&vault).unwrap();
    let back = decode_document(&bytes).unwrap();
    assert_eq!(back.metadata.version, vault.metadata.version);
    assert_eq!(back.metadata.email, vault.metadata.email);
    assert_eq!(back.metadata.created_at, vault.metadata.created_at);
    assert_eq!(back.metadata.last_modified, vault.metadata.last_modified);
    assert_eq!(back.metadata.account_count, 2);
    assert_eq!(back.tags, vault.tags);
    assert_eq!(back.accounts.len(), 2);
    for (x, y) in back.accounts.iter().zip(vault.accounts.iter()) {
        assert_eq!(x.id, y.id);
        assert_eq!(x.name, y.name);
        assert_eq!(x.account_type, y.account_type);
        assert_eq!(x.url, y.url);
        assert_eq!(x.username, y.username);
        assert_eq!(x.password, y.password);
        assert_eq!(x.notes, y.notes);
        assert_eq!(x.tags, y.tags);
        assert_eq!(x.created_at, y.created_at);
        assert_eq!(x.updated_at, y.updated_at);
        assert_eq!(x.last_accessed, y.last_accessed);
    }
}

#[test]
fn empty_vault_round_trip() {
    let vault = Vault::new(String::new(), 0);
    let bytes = encode_document(&vault).unwrap();
    let back = decode_document(&bytes).unwrap();
    assert_eq!(back.metadata.email, "");
    assert_eq!(back.accounts.len(), 0);
    assert_eq!(back.metadata.settings, VaultSettings::default());
}

#[test]
fn garbage_is_a_serialization_error() {
    let bytes: Vec<u8> = vec![0xFF; 40];
    assert_eq!(decode_document(&bytes).err(), Some(PassManError::SerializationError));
}

#[test]
fn truncated_document_is_rejected() {
    let vault = sample_vault();
    let bytes = encode_document(&vault).unwrap();
    let truncated: Vec<u8> = bytes[..bytes.len() - 1].to_vec();
    assert_eq!(decode_document(&truncated).err(), Some(PassManError::SerializationError));
}

#[test]
fn trailing_bytes_are_rejected() {
    let vault = sample_vault();
    let mut bytes = encode_document(&vault).unwrap();
    bytes.push(0);
    assert_eq!(decode_document(&bytes).err(), Some(PassManError::SerializationError));
}

#[test]
fn duplicate_identifiers_are_rejected() {
    // A document whose records share an identifier is not well formed.
    let a = Account::new("one".to_string(), AccountType::Other, "p".to_string(), NOW);
    let mut b = Account::new("two".to_string(), AccountType::Other, "q".to_string(), NOW);
    b.id = a.id;
    let vault = Vault {
        metadata: VaultMetadata {
            version: "1.0.0".to_string(),
            email: "e".to_string(),
            created_at: NOW,
            last_modified: NOW,
            account_count: 2,
            settings: VaultSettings::default(),
        },
        accounts: vec![a, b],
        tags: Vec::new(),
    };
    let bytes = encode_document(&vault).unwrap();
    assert_eq!(decode_document(&bytes).err(), Some(PassManError::SerializationError));
}

#[test]
fn wrong_stored_count_is_rejected() {
    let a = Account::new("one".to_string(), AccountType::Other, "p".to_string(), NOW);
    let vault = Vault {
        metadata: VaultMetadata {
            version: "1.0.0".to_string(),
            email: "e".to_string(),
            created_at: NOW,
            last_modified: NOW,
            account_count: 5,
            settings: VaultSettings::default(),
        },
        accounts: vec![a],
        tags: Vec::new(),
    };
    let bytes = encode_document(&vault).unwrap();
    assert_eq!(decode_document(&bytes).err(), Some(PassManError::SerializationError));
}
