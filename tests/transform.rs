use supamigrate::error::MigrateError;
use supamigrate::restore::{restore_args, restore_outcome};
use supamigrate::transform::{transform_dump, TransformRules};

fn rules() -> TransformRules {
    TransformRules {
        managed_schemas: vec!["auth".to_string(), "storage".to_string()],
        source_roles: vec!["supabase_admin".to_string()],
    }
}

#[test]
fn managed_schemas_are_kept_and_source_owners_dropped() {
    let dump = "DROP SCHEMA IF EXISTS \"auth\";\nDROP SCHEMA IF EXISTS \"app\";\nCREATE SCHEMA \"auth\";\nCREATE SCHEMA \"app\";\nALTER TABLE \"app\".\"t\" OWNER TO \"supabase_admin\";\nALTER TABLE \"app\".\"t\" OWNER TO \"postgres\";\nGRANT ALL ON TABLE \"app\".\"t\" TO \"someone\";\n";
    let out = transform_dump(dump, &rules());
    assert_eq!(
        out,
        "DROP SCHEMA IF EXISTS \"app\";\nCREATE SCHEMA IF NOT EXISTS \"auth\";\nCREATE SCHEMA \"app\";\nALTER TABLE \"app\".\"t\" OWNER TO \"postgres\";\nGRANT ALL ON TABLE \"app\".\"t\" TO \"someone\";\n"
    );
}

#[test]
fn transform_keeps_other_text_verbatim() {
    let dump = "SELECT 1;\n\n-- comment\nINSERT INTO \"t\" VALUES ('x');";
    assert_eq!(transform_dump(dump, &rules()), dump);
    assert_eq!(transform_dump("", &rules()), "");
}

#[test]
fn transform_drops_a_final_line_without_newline() {
    let out = transform_dump("SELECT 1;\nDROP SCHEMA IF EXISTS \"storage\";", &rules());
    assert_eq!(out, "SELECT 1;\n");
}

#[test]
fn transform_twice_changes_nothing_more() {
    let dump = "CREATE SCHEMA \"auth\";\nALTER SCHEMA \"auth\" OWNER TO \"supabase_admin\";\nCREATE TABLE x();";
    let once = transform_dump(dump, &rules());
    assert_eq!(transform_dump(&once, &rules()), once);
}

#[test]
fn restore_arguments_and_outcomes() {
    let args = restore_args(&"postgres://t".to_string(), &"dump.sql".to_string());
    assert_eq!(
        args,
        vec!["postgres://t", "-v", "ON_ERROR_STOP=1", "--single-transaction", "-f", "dump.sql"]
    );
    match restore_outcome(false, false, String::new()) {
        Err(MigrateError::ToolingUnavailable) => {}
        _ => panic!("expected tooling unavailable"),
    }
    match restore_outcome(true, false, "syntax error".to_string()) {
        Err(MigrateError::ApplyFailure(m)) => assert_eq!(m, "syntax error"),
        _ => panic!("expected an apply failure"),
    }
    assert!(restore_outcome(true, true, String::new()).is_ok());
}
