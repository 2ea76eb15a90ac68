use passman::models::{AccountType, PasswordOptions};
use passman::vault::PassMan;
use passman::PassManError;

const NOW: u64 = 1_700_000_000;

#[test]
fn test_passman_creation() {
    let passman = PassMan::new("test_vault");
    assert!(!passman.is_vault_open(NOW));
}

#[test]
fn test_vault_initialization() {
    let mut passman = PassMan::new("test_vault");
    passman.init_vault("test@example.com".to_string(), "master_password", NOW).unwrap();
    assert!(passman.is_vault_open(NOW));
}

#[test]
fn test_account_operations() {
    let mut passman = PassMan::new("test_vault");
    passman.init_vault("test@example.com".to_string(), "master_password", NOW).unwrap();

    // Add account
    passman
        .add_account(
            "Test Account".to_string(),
            AccountType::Personal,
            "test_password".to_string(),
            Some("https://example.com".to_string()),
            Some("testuser".to_string()),
            Some("Test notes".to_string()),
            vec!["test".to_string()],
            NOW,
        )
        .unwrap();

    let accounts = passman.get_all_accounts();
    assert_eq!(accounts.len(), 1);
    assert_eq!(accounts[0].name, "Test Account");
}

#[test]
fn vault_test_password_generation() {
    let mut passman = PassMan::new("test_vault");
    let password = passman.generate_simple_password(12).unwrap();
    assert_eq!(password.len(), 12);
}

#[test]
fn save_and_reopen_reproduces_the_document() {
    // Create a vault with password "CorrectHorse1!", add one record
    // {name: "GitHub", password: "abc123"}, save, and reopen with the same
    // password: the reopened document holds exactly one record named
    // "GitHub" with secret "abc123".
    let mut passman = PassMan::new("p7");
    passman.init_vault("me@example.com".to_string(), "CorrectHorse1!", NOW).unwrap();
    let data = passman
        .add_account(
            "GitHub".to_string(),
            AccountType::Work,
            "abc123".to_string(),
            None,
            None,
            None,
            Vec::new(),
            NOW,
        )
        .unwrap();

    let mut reopened = PassMan::new("p7");
    reopened.open_vault(&data, "CorrectHorse1!", NOW + 5).unwrap();
    assert!(reopened.is_vault_open(NOW + 5));
    let accounts = reopened.get_all_accounts();
    assert_eq!(accounts.len(), 1);
    assert_eq!(accounts[0].name, "GitHub");
    assert_eq!(accounts[0].password, "abc123");
    let meta = reopened.get_vault_metadata().unwrap();
    assert_eq!(meta.email, "me@example.com");
    assert_eq!(meta.account_count, 1);
}

#[test]
fn lockout_blocks_even_the_correct_password() {
    // max_failed_attempts is 5 by default; this manager uses the stock
    // threshold, so three wrong attempts do not lock it; build the scenario
    // against a file so that each wrong attempt is a real failed open.
    let mut owner = PassMan::new("p8");
    let data = owner.init_vault("me@example.com".to_string(), "CorrectHorse1!", NOW).unwrap();

    let mut victim = PassMan::new("p8");
    for _ in 0..5 {
        let r = victim.open_vault(&data, "wrong", NOW);
        assert_eq!(r, Err(PassManError::CryptoError));
    }
    // locked out now: even the correct password is rejected immediately
    let r = victim.open_vault(&data, "CorrectHorse1!", NOW);
    assert_eq!(r, Err(PassManError::AuthenticationFailed));
    assert!(!victim.is_vault_open(NOW));

    // a fresh manager with the correct password opens fine
    let mut fresh = PassMan::new("p8");
    assert!(fresh.open_vault(&data, "CorrectHorse1!", NOW).is_ok());
}

#[test]
fn wrong_password_counts_failed_attempts() {
    let mut owner = PassMan::new("v");
    let data = owner.init_vault("a@b.c".to_string(), "pw-right", NOW).unwrap();
    let mut m = PassMan::new("v");
    assert_eq!(m.open_vault(&data, "pw-wrong", NOW), Err(PassManError::CryptoError));
    assert!(!m.is_vault_open(NOW));
    assert!(m.open_vault(&data, "pw-right", NOW).is_ok());
    assert!(m.is_vault_open(NOW));
}

#[test]
fn update_and_delete_accounts() {
    let mut m = PassMan::new("v");
    m.init_vault("a@b.c".to_string(), "pw", NOW).unwrap();
    m.add_account(
        "Mail".to_string(),
        AccountType::Email,
        "old-secret".to_string(),
        None,
        None,
        None,
        Vec::new(),
        NOW,
    )
    .unwrap();
    let id = m.get_all_accounts()[0].id;

    m.update_account(
        id,
        "Mail".to_string(),
        AccountType::Email,
        "new-secret".to_string(),
        None,
        Some("user@mail".to_string()),
        None,
        Vec::new(),
        NOW + 1,
    )
    .unwrap();
    let a = m.get_account(id).unwrap();
    assert_eq!(a.password, "new-secret");
    assert_eq!(a.username, Some("user@mail".to_string()));
    assert_eq!(a.updated_at, NOW + 1);
    assert_eq!(a.created_at, NOW);

    let missing = m.update_account(
        id.wrapping_add(1),
        "x".to_string(),
        AccountType::Other,
        "y".to_string(),
        None,
        None,
        None,
        Vec::new(),
        NOW,
    );
    assert_eq!(missing.err(), Some(PassManError::AccountNotFound));

    m.delete_account(id, NOW + 2).unwrap();
    assert!(m.get_account(id).is_none());
    assert_eq!(m.get_all_accounts().len(), 0);
    assert_eq!(m.delete_account(id, NOW + 2).err(), Some(PassManError::AccountNotFound));
}

#[test]
fn add_without_open_vault_fails() {
    let mut m = PassMan::new("v");
    let r = m.add_account(
        "X".to_string(),
        AccountType::Other,
        "p".to_string(),
        None,
        None,
        None,
        Vec::new(),
        NOW,
    );
    assert_eq!(r.err(), Some(PassManError::AuthenticationFailed));
}

#[test]
fn search_and_filters() {
    let mut m = PassMan::new("v");
    m.init_vault("a@b.c".to_string(), "pw", NOW).unwrap();
    m.add_account(
        "GitHub".to_string(),
        AccountType::Work,
        "1".to_string(),
        None,
        None,
        None,
        vec!["dev".to_string()],
        NOW,
    )
    .unwrap();
    m.add_account(
        "GitLab".to_string(),
        AccountType::Work,
        "2".to_string(),
        None,
        None,
        None,
        Vec::new(),
        NOW,
    )
    .unwrap();
    m.add_account(
        "Bank".to_string(),
        AccountType::Banking,
        "3".to_string(),
        None,
        None,
        None,
        vec!["dev".to_string()],
        NOW,
    )
    .unwrap();

    let git = m.search_accounts("git");
    assert_eq!(git.len(), 2);
    let hub = m.search_accounts("HUB");
    assert_eq!(hub.len(), 1);
    assert_eq!(hub[0].name, "GitHub");

    let work = m.get_accounts_by_type(&AccountType::Work);
    assert_eq!(work.len(), 2);
    let banking = m.get_accounts_by_type(&AccountType::Banking);
    assert_eq!(banking.len(), 1);

    let dev = m.get_accounts_by_tag("dev");
    assert_eq!(dev.len(), 2);
    assert_eq!(m.get_accounts_by_tag("none").len(), 0);
}

#[test]
fn export_import_round_trip() {
    let mut m = PassMan::new("v");
    m.init_vault("a@b.c".to_string(), "pw", NOW).unwrap();
    m.add_account(
        "X".to_string(),
        AccountType::Gaming,
        "p".to_string(),
        None,
        None,
        None,
        Vec::new(),
        NOW,
    )
    .unwrap();
    let exported = m.export_vault(NOW).unwrap();
    // import replaces the in-memory document and returns fresh file bytes
    let saved = m.import_vault(&exported, NOW).unwrap();
    assert_eq!(m.get_all_accounts().len(), 1);
    // the returned bytes open as the same document
    let mut n = PassMan::new("v");
    n.open_vault(&saved, "pw", NOW).unwrap();
    assert_eq!(n.get_all_accounts().len(), 1);
    assert_eq!(n.get_all_accounts()[0].name, "X");
}

#[test]
fn close_vault_ends_session() {
    let mut m = PassMan::new("v");
    m.init_vault("a@b.c".to_string(), "pw", NOW).unwrap();
    assert!(m.is_vault_open(NOW));
    assert!(m.get_session_info(NOW).is_some());
    m.close_vault();
    assert!(!m.is_vault_open(NOW));
    assert!(m.get_session_info(NOW).is_none());
    assert_eq!(m.export_vault(NOW).err(), Some(PassManError::AuthenticationFailed));
}

#[test]
fn session_expiry_closes_access() {
    let mut m = PassMan::new("v");
    m.init_vault("a@b.c".to_string(), "pw", NOW).unwrap();
    // stock timeout is 15 minutes
    assert!(m.is_vault_open(NOW + 899));
    assert!(!m.is_vault_open(NOW + 900));
    assert!(m.export_vault(NOW + 900).is_err());
}

#[test]
fn strength_via_manager() {
    let m = PassMan::new("v");
    assert_eq!(m.calculate_password_strength(""), 0);
    assert_eq!(m.get_password_strength_description(95), "Very Strong");
    let opts = PasswordOptions::strong(20);
    let mut m2 = PassMan::new("v");
    let p = m2.generate_password(&opts).unwrap();
    assert_eq!(p.len(), 20);
}
