use std::io::Read;
use supamigrate::backup::{
    after_stage, backup_dir_name, backup_metadata, dump_file_bytes, dump_file_name, next_stage,
    RunScope, Stage,
};
use supamigrate::transfer::{
    enumerate_tasks, BucketListing, ObjectEntry, TransferOutcome, TransferRun, DEFAULT_PARALLEL,
};

fn listing(bucket: &str, objects: &[(&str, u64)]) -> BucketListing {
    BucketListing {
        bucket: bucket.to_string(),
        objects: objects
            .iter()
            .map(|(k, s)| ObjectEntry { key: k.to_string(), size_bytes: *s })
            .collect(),
    }
}

#[test]
fn every_object_becomes_a_task() {
    let tasks = enumerate_tasks(&vec![
        listing("avatars", &[("a.png", 10), ("b.png", 20)]),
        listing("empty", &[]),
        listing("docs", &[("x.pdf", 5)]),
    ]);
    let got: Vec<(String, String, u64)> =
        tasks.into_iter().map(|t| (t.bucket, t.object_key, t.size_bytes)).collect();
    assert_eq!(
        got,
        vec![
            ("avatars".to_string(), "a.png".to_string(), 10),
            ("avatars".to_string(), "b.png".to_string(), 20),
            ("docs".to_string(), "x.pdf".to_string(), 5),
        ]
    );
}

#[test]
fn completed_run_accounts_for_every_task() {
    let tasks = enumerate_tasks(&vec![
        listing("one", &[("a", 10), ("b", 20)]),
        listing("two", &[("c", 5)]),
    ]);
    let mut run = TransferRun::new(&tasks);
    assert!(!run.is_complete());
    assert!(run.report(2, TransferOutcome::Succeeded));
    assert!(run.report(0, TransferOutcome::Failed("timeout".to_string())));
    assert!(!run.report(0, TransferOutcome::Succeeded));
    assert!(!run.report(7, TransferOutcome::Succeeded));
    assert!(run.report(1, TransferOutcome::Failed("refused".to_string())));
    assert_eq!(run.failures(), &vec!["timeout".to_string(), "refused".to_string()]);
    let stats = run.finish().ok().unwrap();
    assert_eq!(stats.attempted(), 3);
    assert_eq!(stats.succeeded(), 1);
    assert_eq!(stats.failed(), 2);
    assert_eq!(stats.succeeded() + stats.failed(), stats.attempted());
    assert_eq!(stats.bytes_transferred(), 5);
    assert_eq!(stats.summary(), "1/3 objects transferred, 2 failed, 5 bytes");
}

#[test]
fn empty_run_is_complete() {
    let run = TransferRun::new(&vec![]);
    let stats = run.finish().ok().unwrap();
    assert_eq!(stats.attempted(), 0);
    assert_eq!(stats.summary(), "0/0 objects transferred, 0 failed, 0 bytes");
    assert_eq!(DEFAULT_PARALLEL, 4);
}

#[test]
fn bytes_saturate() {
    let tasks = enumerate_tasks(&vec![listing("b", &[("a", u64::MAX), ("c", 2)])]);
    let mut run = TransferRun::new(&tasks);
    run.report(0, TransferOutcome::Succeeded);
    run.report(1, TransferOutcome::Succeeded);
    assert_eq!(run.finish().ok().unwrap().bytes_transferred(), u64::MAX);
}

#[test]
fn backup_with_storage_and_vault() {
    let scope = RunScope { include_storage: true, include_write_only_secrets: false, include_vault: true };
    let mut stage = Stage::Planning;
    let mut seen = vec![];
    while stage != Stage::Done {
        seen.push(stage);
        stage = after_stage(stage, scope, true);
    }
    assert_eq!(
        seen,
        vec![
            Stage::Planning,
            Stage::DumpingSchema,
            Stage::TransformingSchema,
            Stage::RestoringOrWritingArtifact,
            Stage::TransferringStorage,
            Stage::MigratingVaultSecrets,
            Stage::Finalizing,
        ]
    );
    let tasks = enumerate_tasks(&vec![
        listing("one", &[("a", 1), ("b", 2)]),
        listing("two", &[("c", 3)]),
    ]);
    let mut run = TransferRun::new(&tasks);
    for i in 0..tasks.len() {
        run.report(i, TransferOutcome::Succeeded);
    }
    let stats = run.finish().ok().unwrap();
    assert_eq!(stats.succeeded(), 3);
    let m = backup_metadata("ref".to_string(), "t".to_string(), false, true, false, 0, 1, true);
    assert!(m.include_storage);
    assert!(m.include_vault);
    assert_eq!(m.vault_count, 1);
    assert!(!m.include_secrets);
}

#[test]
fn failures_after_schema_are_not_fatal() {
    let all = RunScope { include_storage: true, include_write_only_secrets: true, include_vault: true };
    assert_eq!(after_stage(Stage::DumpingSchema, all, false), Stage::Aborted);
    assert_eq!(after_stage(Stage::TransformingSchema, all, false), Stage::Aborted);
    assert_eq!(after_stage(Stage::RestoringOrWritingArtifact, all, false), Stage::Aborted);
    assert_eq!(after_stage(Stage::TransferringStorage, all, false), Stage::MigratingWriteOnlySecrets);
    assert_eq!(after_stage(Stage::MigratingVaultSecrets, all, false), Stage::Finalizing);
    let none = RunScope { include_storage: false, include_write_only_secrets: false, include_vault: false };
    assert_eq!(next_stage(Stage::RestoringOrWritingArtifact, none), Stage::Finalizing);
    assert_eq!(next_stage(Stage::Done, none), Stage::Done);
    assert_eq!(next_stage(Stage::Aborted, none), Stage::Aborted);
}

#[test]
fn artifact_names() {
    assert_eq!(dump_file_name(true), "database.sql.gz");
    assert_eq!(dump_file_name(false), "database.sql");
    assert_eq!(backup_dir_name("prod", "20240101_000000"), "prod_20240101_000000");
}

#[test]
fn dump_bytes_are_compressed_when_asked() {
    let plain = dump_file_bytes("SELECT 1;", false);
    assert_eq!(plain, b"SELECT 1;".to_vec());
    let gz = dump_file_bytes("SELECT 1;", true);
    assert_ne!(gz, plain);
    assert_eq!(&gz[..2], &[0x1f, 0x8b]);
    let mut d = flate2::read::GzDecoder::new(&gz[..]);
    let mut s = String::new();
    d.read_to_string(&mut s).unwrap();
    assert_eq!(s, "SELECT 1;");
}

#[test]
fn incomplete_run_is_handed_back() {
    let tasks = enumerate_tasks(&vec![listing("b", &[("a", 1), ("c", 2)])]);
    let mut run = TransferRun::new(&tasks);
    run.report(1, TransferOutcome::Succeeded);
    let mut run = match run.finish() {
        Ok(_) => panic!("run is not complete"),
        Err(run) => run,
    };
    assert!(run.report(0, TransferOutcome::Succeeded));
    assert_eq!(run.finish().ok().unwrap().bytes_transferred(), 3);
}
