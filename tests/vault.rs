use supamigrate::error::MigrateError;
use supamigrate::vault::{
    backup_vault, escape_literal, restore_vault, ListAction, RestoreAction, VaultBackup, VaultClient,
    VaultRestore, VaultSecret,
};

fn secret(name: &str, value: &str, desc: Option<&str>) -> VaultSecret {
    VaultSecret {
        id: "id".to_string(),
        name: name.to_string(),
        secret: value.to_string(),
        description: desc.map(|d| d.to_string()),
        created_at: "2024-01-01T00:00:00Z".to_string(),
        updated_at: "2024-01-01T00:00:00Z".to_string(),
    }
}

#[test]
fn quotes_are_doubled() {
    assert_eq!(escape_literal("it's"), "it''s");
    assert_eq!(escape_literal("''"), "''''");
    assert_eq!(escape_literal(""), "");
}

#[test]
fn create_statement_escapes_every_literal() {
    let c = VaultClient::new("postgres://t".to_string());
    let args = c.create_secret("a'b", "v'", Some("d'"));
    assert_eq!(
        args,
        vec![
            "postgres://t",
            "-t",
            "-A",
            "-c",
            "SELECT vault.create_secret('a''b', 'v''', 'd''')::text",
        ]
    );
    let args = c.create_secret("n", "v", None);
    assert_eq!(args[4], "SELECT vault.create_secret('n', 'v')::text");
}

#[test]
fn update_statement_uses_null_for_absent_parts() {
    let c = VaultClient::new("u".to_string());
    let args = c.update_secret("123", "new'", None, Some("desc"));
    assert_eq!(args[4], "SELECT vault.update_secret('123', 'new''', NULL, 'desc')");
}

#[test]
fn count_statement_escapes_name() {
    let c = VaultClient::new("u".to_string());
    assert_eq!(
        c.count_by_name("o'k")[4],
        "SELECT COUNT(*) FROM vault.decrypted_secrets WHERE name = 'o''k'"
    );
}

#[test]
fn replies_are_read() {
    assert!(VaultClient::is_vault_enabled("t"));
    assert!(VaultClient::is_vault_enabled("true"));
    assert!(!VaultClient::is_vault_enabled("f"));
    assert!(!VaultClient::is_vault_enabled(""));
    assert!(VaultClient::exists_from_reply("1").ok().unwrap());
    assert!(!VaultClient::exists_from_reply("0").ok().unwrap());
    assert!(!VaultClient::exists_from_reply("-3").ok().unwrap());
    assert!(VaultClient::exists_from_reply("2147483647").ok().unwrap());
    match VaultClient::exists_from_reply("garbage") {
        Err(MigrateError::Vault(m)) => assert_eq!(m, "Unreadable count: garbage"),
        _ => panic!("expected a vault error"),
    }
    assert!(VaultClient::exists_from_reply("99999999999").is_err());
    assert_eq!(VaultClient::query_reply(true, "  t\n", "").ok().unwrap(), "t");
    match VaultClient::query_reply(false, "", "boom") {
        Err(MigrateError::Vault(m)) => assert_eq!(m, "Query failed: boom"),
        _ => panic!("expected a vault error"),
    }
    match VaultClient::list_secrets(String::new()) {
        Err(MigrateError::Vault(m)) => assert_eq!(m, "Empty response"),
        _ => panic!("expected a vault error"),
    }
    assert_eq!(VaultClient::list_secrets("[]".to_string()).ok().unwrap(), "[]");
}

/// Drives a restore against a target that holds `existing` names.
fn run_restore(backup: &VaultBackup, existing: &[&str]) -> (usize, Vec<String>) {
    let client = VaultClient::new("u".to_string());
    let mut target: Vec<String> = existing.iter().map(|s| s.to_string()).collect();
    let mut created_names = Vec::new();
    let mut state = VaultRestore::new();
    loop {
        match client.restore(backup, &state) {
            RestoreAction::CheckExists { index, .. } => {
                let name = &backup.secrets[index].name;
                state.record(target.contains(name));
            }
            RestoreAction::Create { index, args } => {
                assert!(args[4].starts_with("SELECT vault.create_secret("));
                let name = backup.secrets[index].name.clone();
                assert!(!existing.contains(&name.as_str()));
                target.push(name.clone());
                created_names.push(name);
                state.record(false);
            }
            RestoreAction::Finished { created } => return (created, created_names),
        }
    }
}

#[test]
fn restore_skips_existing_names() {
    let backup = VaultBackup {
        secrets: vec![secret("A", "1", None), secret("B", "2", Some("b")), secret("C", "3", None)],
        exported_at: "now".to_string(),
    };
    let (count, created) = run_restore(&backup, &["B"]);
    assert_eq!(count, 2);
    assert!(count < backup.secrets.len());
    assert_eq!(created, vec!["A", "C"]);
    let (count, _) = run_restore(&backup, &[]);
    assert_eq!(count, 3);
    let (count, _) = run_restore(&backup, &["A", "B", "C"]);
    assert_eq!(count, 0);
}

#[test]
fn restore_of_duplicate_names_creates_one() {
    let backup = VaultBackup {
        secrets: vec![secret("A", "1", None), secret("A", "2", None)],
        exported_at: "now".to_string(),
    };
    let (count, created) = run_restore(&backup, &[]);
    assert_eq!(count, 1);
    assert_eq!(created, vec!["A"]);
}

#[test]
fn disabled_vault_lists_nothing_without_a_query() {
    let c = VaultClient::new("u".to_string());
    match c.list_action(false) {
        ListAction::Finished(v) => assert!(v.is_empty()),
        ListAction::Query(_) => panic!("a disabled vault is not queried"),
    }
    match c.list_action(true) {
        ListAction::Query(args) => {
            assert_eq!(args[0], "u");
            assert!(args[4].contains("vault.decrypted_secrets"));
        }
        ListAction::Finished(_) => panic!("an enabled vault is queried"),
    }
}

#[test]
fn vault_backup_gating() {
    let c = VaultClient::new("u".to_string());
    assert!(backup_vault(&c, false, vec![secret("A", "1", None)]).is_none());
    assert!(backup_vault(&c, true, vec![]).is_none());
    let b = backup_vault(&c, true, vec![secret("API_KEY", "secret_value", Some("Test key"))]).unwrap();
    assert_eq!(b.secrets.len(), 1);
    assert_eq!(b.secrets[0].secret, "secret_value");
    assert!(!b.exported_at.is_empty());
    match restore_vault(false) {
        Err(MigrateError::FeatureUnavailable(m)) => assert!(m.contains("supabase_vault")),
        _ => panic!("expected feature unavailable"),
    }
    assert!(restore_vault(true).is_ok());
}
