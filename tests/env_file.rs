use supamigrate::error::MigrateError;
use supamigrate::secrets::{
    check_response,
    generate_env_template, parse_env_file, plan_import, restore_secrets, secrets_from_answers,
    Secret, SecretMetadata, SecretsBackup, SecretsClient,
};

fn meta(name: &str) -> SecretMetadata {
    SecretMetadata { name: name.to_string() }
}

fn names(v: &[Secret]) -> Vec<String> {
    v.iter().map(|s| s.name.clone()).collect()
}

#[test]
fn test_parse_env_file() {
    let content = r#"
# Comment line
API_KEY=secret123
DATABASE_URL="postgres://localhost/db"
EMPTY_VALUE=

ANOTHER_KEY=value with spaces
"#;
    let secrets = parse_env_file(content);
    assert_eq!(secrets.len(), 4);
    assert_eq!(secrets[0].name, "API_KEY");
    assert_eq!(secrets[0].value, "secret123");
    assert_eq!(secrets[1].name, "DATABASE_URL");
    assert_eq!(secrets[1].value, "postgres://localhost/db");
    assert_eq!(secrets[2].name, "EMPTY_VALUE");
    assert_eq!(secrets[2].value, "");
    assert_eq!(secrets[3].name, "ANOTHER_KEY");
    assert_eq!(secrets[3].value, "value with spaces");
}

#[test]
fn test_generate_env_template() {
    let secrets = vec![
        SecretMetadata {
            name: "API_KEY".to_string(),
        },
        SecretMetadata {
            name: "DATABASE_URL".to_string(),
        },
    ];
    let template = generate_env_template(&secrets);
    assert!(template.contains("API_KEY="));
    assert!(template.contains("DATABASE_URL="));
}

#[test]
fn template_text_is_exact() {
    let template = generate_env_template(&[meta("A"), meta("B")]);
    assert_eq!(
        template,
        "# Secrets template generated by supamigrate\n# Fill in the values below and use with: supamigrate secrets import --file <this-file>\n\nA=\nB=\n"
    );
}

#[test]
fn template_of_nothing_is_the_header() {
    let template = generate_env_template(&[]);
    assert!(parse_env_file(&template).is_empty());
}

#[test]
fn parse_splits_at_first_equals_and_trims() {
    let s = parse_env_file("  KEY = a=b=c  \r\nNOEQUALS\n#X=1\n\t\n=v\nQ=\"\"\nR=\"\nS=\"x\"y\"");
    let got: Vec<(String, String)> = s.into_iter().map(|e| (e.name, e.value)).collect();
    assert_eq!(
        got,
        vec![
            ("KEY".to_string(), "a=b=c".to_string()),
            ("".to_string(), "v".to_string()),
            ("Q".to_string(), "".to_string()),
            ("R".to_string(), "\"".to_string()),
            ("S".to_string(), "x\"y".to_string()),
        ]
    );
}

#[test]
fn parse_of_empty_text_is_empty() {
    assert!(parse_env_file("").is_empty());
    assert!(parse_env_file("\n\n   \n# only comments\n").is_empty());
}

#[test]
fn parse_trims_unicode_white_space() {
    let s = parse_env_file("\u{3000}NAME\u{a0}=\u{2003}value\u{85}");
    assert_eq!(s.len(), 1);
    assert_eq!(s[0].name, "NAME");
    assert_eq!(s[0].value, "value");
}

#[test]
fn template_round_trip_keeps_names() {
    let content = "A=1\n  B = \"two\"\n# C=3\nD\n=empty-name\nE=\n";
    let first = parse_env_file(content);
    let metas: Vec<SecretMetadata> = first.iter().map(|s| meta(&s.name)).collect();
    let second = parse_env_file(&generate_env_template(&metas));
    assert_eq!(names(&first), names(&second));
    assert_eq!(names(&first), vec!["A", "B", "", "E"]);
    assert!(second.iter().all(|s| s.value.is_empty()));
}

#[test]
fn import_skips_empty_values() {
    let parsed = parse_env_file("A=\nB=val2\n");
    let plan = plan_import(&parsed);
    assert_eq!(plan.to_create.len(), 1);
    assert_eq!(plan.to_create[0].name, "B");
    assert_eq!(plan.to_create[0].value, "val2");
    assert_eq!(plan.empty_count, 1);
    assert_eq!(
        plan.summary("prod"),
        "Importing 1 secrets to prod (skipping 1 with empty values)"
    );
}

#[test]
fn restore_takes_first_non_empty_file_value() {
    let backup = SecretsBackup {
        secrets: vec![meta("A"), meta("B"), meta("C")],
        note: String::new(),
    };
    let file = parse_env_file("B=\nB=two\nA=one\nB=three\nZ=zz\n");
    let out = restore_secrets(&backup, &file);
    let got: Vec<(String, String)> = out.into_iter().map(|e| (e.name, e.value)).collect();
    assert_eq!(
        got,
        vec![("A".to_string(), "one".to_string()), ("B".to_string(), "two".to_string())]
    );
}

#[test]
fn restore_from_answers_skips_empty_and_missing() {
    let backup = SecretsBackup {
        secrets: vec![meta("A"), meta("B"), meta("C")],
        note: String::new(),
    };
    let out = secrets_from_answers(&backup, &vec!["x".to_string(), String::new()]);
    assert_eq!(out.len(), 1);
    assert_eq!(out[0].name, "A");
    assert_eq!(out[0].value, "x");
}

#[test]
fn secrets_client_requests() {
    let c = SecretsClient::new("abcd".to_string(), "tok".to_string());
    assert_eq!(c.auth_header(), "Bearer tok");
    assert_eq!(c.secrets_url(), "https://api.supabase.com/v1/projects/abcd/secrets");
    let list = c.list_secrets();
    assert_eq!(list.method, supamigrate::secrets::HttpMethod::Get);
    assert!(c.create_secrets(&[]).is_none());
    let create = c
        .create_secrets(&[Secret { name: "A".to_string(), value: "1".to_string() }])
        .unwrap();
    assert_eq!(create.method, supamigrate::secrets::HttpMethod::Post);
    assert!(c.delete_secrets(&[]).is_none());
    assert_eq!(
        c.delete_secrets(&["A".to_string()]).unwrap().method,
        supamigrate::secrets::HttpMethod::Delete
    );
    let b = SecretsClient::backup(vec![meta("A")]);
    assert_eq!(b.secrets.len(), 1);
    assert!(b.note.contains("cannot be backed up"));
}

#[test]
fn non_success_status_is_a_remote_failure() {
    assert!(check_response("list secrets", 200, String::new()).is_ok());
    assert!(check_response("list secrets", 299, String::new()).is_ok());
    match check_response("list secrets", 404, "missing".to_string()) {
        Err(MigrateError::RemoteApiFailure { action, status, body }) => {
            assert_eq!(action, "list secrets");
            assert_eq!(status, 404);
            assert_eq!(body, "missing");
        }
        _ => panic!("expected a remote failure"),
    }
    assert!(check_response("x", 300, String::new()).is_err());
    assert!(check_response("x", 199, String::new()).is_err());
}
