use supamigrate::dump::{
    candidate_paths, dump_outcome, find_compatible_pg_dump, join_alternation, resolve_dump_binary,
    server_major_from_output, PgDump, TargetOs,
};
use supamigrate::error::MigrateError;

fn present_for(os: TargetOs, major: u32, available: &[u32]) -> Vec<bool> {
    candidate_paths(major, os)
        .iter()
        .map(|p| available.iter().any(|v| p.contains(&format!("/{}/", v)) || p.contains(&format!("@{}/", v)) || p.contains(&format!("-{}/", v))))
        .collect()
}

#[test]
fn resolver_prefers_closest_newer_version() {
    let present = present_for(TargetOs::Linux, 15, &[14, 16, 18]);
    let chosen = find_compatible_pg_dump(15, TargetOs::Linux, &present);
    assert_eq!(chosen, "/usr/lib/postgresql/16/bin/pg_dump");
    let present = present_for(TargetOs::MacOs, 15, &[14, 16, 18]);
    let chosen = find_compatible_pg_dump(15, TargetOs::MacOs, &present);
    assert_eq!(chosen, "/opt/homebrew/opt/postgresql@16/bin/pg_dump");
}

#[test]
fn resolver_never_picks_an_older_version() {
    let present = present_for(TargetOs::Linux, 15, &[14, 19]);
    assert_eq!(find_compatible_pg_dump(15, TargetOs::Linux, &present), "pg_dump");
}

#[test]
fn resolver_falls_back_to_path() {
    assert_eq!(resolve_dump_binary(None, TargetOs::Linux, &vec![true; 8]), "pg_dump");
    assert_eq!(find_compatible_pg_dump(15, TargetOs::Linux, &vec![]), "pg_dump");
    assert_eq!(
        resolve_dump_binary(Some(15), TargetOs::Linux, &vec![true]),
        "/usr/lib/postgresql/15/bin/pg_dump"
    );
}

#[test]
fn candidates_are_ordered_by_version_then_location() {
    let c = candidate_paths(15, TargetOs::Linux);
    assert_eq!(
        c,
        vec![
            "/usr/lib/postgresql/15/bin/pg_dump",
            "/usr/pgsql-15/bin/pg_dump",
            "/usr/lib/postgresql/16/bin/pg_dump",
            "/usr/pgsql-16/bin/pg_dump",
            "/usr/lib/postgresql/17/bin/pg_dump",
            "/usr/pgsql-17/bin/pg_dump",
            "/usr/lib/postgresql/18/bin/pg_dump",
            "/usr/pgsql-18/bin/pg_dump",
        ]
    );
    let m = candidate_paths(9, TargetOs::MacOs);
    assert_eq!(m.len(), 12);
    assert_eq!(m[2], "/Applications/Postgres.app/Contents/Versions/9/bin/pg_dump");
    assert_eq!(m[3], "/opt/homebrew/opt/postgresql@10/bin/pg_dump");
}

#[test]
fn version_probe_gives_major_version() {
    assert_eq!(server_major_from_output("150001\n"), Some(15));
    assert_eq!(server_major_from_output("  90624 "), Some(9));
    assert_eq!(server_major_from_output("+170000"), Some(17));
    assert_eq!(server_major_from_output("4294967295"), Some(429496));
    assert_eq!(server_major_from_output("4294967296"), None);
    assert_eq!(server_major_from_output(""), None);
    assert_eq!(server_major_from_output("15.1"), None);
    assert_eq!(server_major_from_output("-150001"), None);
}

#[test]
fn dump_args_carry_every_filter() {
    let d = PgDump::new("postgres://db".to_string(), "pg_dump".to_string())
        .exclude_schemas(vec!["auth".to_string(), "storage".to_string()])
        .exclude_tables(vec!["public.a".to_string(), "public.b".to_string()])
        .schema_only(true);
    let args = d.dump_args(Some("out.sql".to_string())).ok().unwrap();
    assert_eq!(
        args,
        vec![
            "postgres://db",
            "--clean",
            "--if-exists",
            "--quote-all-identifiers",
            "--schema-only",
            "--exclude-table-data=storage.objects",
            "--exclude-schema=auth|storage",
            "--exclude-table=public.a",
            "--exclude-table=public.b",
            "--schema=*",
            "-f",
            "out.sql",
        ]
    );
    assert_eq!(d.binary_path(), "pg_dump");
}

#[test]
fn dump_args_without_filters() {
    let d = PgDump::new("u".to_string(), "b".to_string()).data_only(true);
    let args = d.dump_args(None).ok().unwrap();
    assert_eq!(
        args,
        vec![
            "u",
            "--clean",
            "--if-exists",
            "--quote-all-identifiers",
            "--data-only",
            "--exclude-table-data=storage.objects",
            "--schema=*",
        ]
    );
}

#[test]
fn schema_only_with_data_only_is_refused() {
    let d = PgDump::new("u".to_string(), "b".to_string()).schema_only(true).data_only(true);
    match d.dump_args(None) {
        Err(MigrateError::Validation(_)) => {}
        _ => panic!("expected a validation failure"),
    }
}

#[test]
fn join_alternation_joins_with_bar() {
    assert_eq!(join_alternation(&vec![]), "");
    assert_eq!(join_alternation(&vec!["a".to_string()]), "a");
    assert_eq!(join_alternation(&vec!["a".to_string(), "b".to_string(), "c".to_string()]), "a|b|c");
}

#[test]
fn dump_outcome_classifies_failures() {
    match dump_outcome(false, true, String::new(), String::new()) {
        Err(MigrateError::ToolingUnavailable) => {}
        _ => panic!("expected tooling unavailable"),
    }
    match dump_outcome(true, false, String::new(), "permission denied".to_string()) {
        Err(MigrateError::ExternalToolFailure(m)) => assert_eq!(m, "permission denied"),
        _ => panic!("expected the tool's failure"),
    }
    assert_eq!(dump_outcome(true, true, "SQL".to_string(), String::new()).ok().unwrap(), "SQL");
}
