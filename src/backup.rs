//! Sequencing of a migration or backup run, its failure policy, and the
//! artifacts and manifest that a backup leaves.

use std::io::Write;
use vstd::prelude::*;
use vstd::string::StringSliceAdditionalSpecFns;
use crate::text::push_char;

verus! {

/// The stages of a run, in the order they run.
#[derive(Clone, Copy, PartialEq, Eq, Structural, Debug)]
pub enum Stage {
    Planning,
    DumpingSchema,
    TransformingSchema,
    RestoringOrWritingArtifact,
    TransferringStorage,
    MigratingWriteOnlySecrets,
    MigratingVaultSecrets,
    Finalizing,
    Done,
    Aborted,
}

/// What a run was asked to include beyond the schema.
#[derive(Clone, Copy, PartialEq, Eq, Structural, Debug)]
pub struct RunScope {
    pub include_storage: bool,
    pub include_write_only_secrets: bool,
    pub include_vault: bool,
}

/// The position of a stage in a run.
pub open spec fn stage_order(s: Stage) -> nat {
    match s {
        Stage::Planning => 0,
        Stage::DumpingSchema => 1,
        Stage::TransformingSchema => 2,
        Stage::RestoringOrWritingArtifact => 3,
        Stage::TransferringStorage => 4,
        Stage::MigratingWriteOnlySecrets => 5,
        Stage::MigratingVaultSecrets => 6,
        Stage::Finalizing => 7,
        Stage::Done => 8,
        Stage::Aborted => 9,
    }
}

/// Whether a stage runs in a run of this scope.
pub open spec fn in_scope(s: Stage, scope: RunScope) -> bool {
    match s {
        Stage::TransferringStorage => scope.include_storage,
        Stage::MigratingWriteOnlySecrets => scope.include_write_only_secrets,
        Stage::MigratingVaultSecrets => scope.include_vault,
        Stage::Aborted => false,
        _ => true,
    }
}

/// The stages whose failure ends the run: without a schema baseline a
/// migration means nothing.
pub open spec fn is_schema_stage(s: Stage) -> bool {
    s == Stage::DumpingSchema || s == Stage::TransformingSchema || s
        == Stage::RestoringOrWritingArtifact
}

pub fn stage_is_fatal_on_failure(s: Stage) -> (r: bool)
    ensures
        r == is_schema_stage(s),
{
    s == Stage::DumpingSchema || s == Stage::TransformingSchema || s
        == Stage::RestoringOrWritingArtifact
}

fn following(s: Stage) -> (r: Stage)
    requires
        stage_order(s) < 8,
    ensures
        stage_order(r) == stage_order(s) + 1,
{
    match s {
        Stage::Planning => Stage::DumpingSchema,
        Stage::DumpingSchema => Stage::TransformingSchema,
        Stage::TransformingSchema => Stage::RestoringOrWritingArtifact,
        Stage::RestoringOrWritingArtifact => Stage::TransferringStorage,
        Stage::TransferringStorage => Stage::MigratingWriteOnlySecrets,
        Stage::MigratingWriteOnlySecrets => Stage::MigratingVaultSecrets,
        Stage::MigratingVaultSecrets => Stage::Finalizing,
        _ => Stage::Done,
    }
}

fn stage_in_scope(s: Stage, scope: RunScope) -> (r: bool)
    ensures
        r == in_scope(s, scope),
{
    match s {
        Stage::TransferringStorage => scope.include_storage,
        Stage::MigratingWriteOnlySecrets => scope.include_write_only_secrets,
        Stage::MigratingVaultSecrets => scope.include_vault,
        Stage::Aborted => false,
        _ => true,
    }
}

/// The stage after `s` in a run of this scope: the next one in order that the
/// scope includes. `Done` and `Aborted` are final.
pub fn next_stage(s: Stage, scope: RunScope) -> (r: Stage)
    ensures
        stage_order(s) >= 8 ==> r == s,
        stage_order(s) < 8 ==> {
            &&& stage_order(s) < stage_order(r) <= 8
            &&& in_scope(r, scope)
            &&& forall|t: Stage|
                stage_order(s) < stage_order(t) < stage_order(r) ==> !in_scope(t, scope)
        },
{
    if s == Stage::Done || s == Stage::Aborted {
        return s;
    }
    let mut r = following(s);
    while !stage_in_scope(r, scope)
        invariant
            stage_order(s) < stage_order(r) <= 8,
            forall|t: Stage|
                stage_order(s) < stage_order(t) < stage_order(r) ==> !in_scope(t, scope),
        decreases 8 - stage_order(r),
    {
        proof {
            assert(stage_order(r) < 8) by {
                if stage_order(r) == 8 {
                    assert(r == Stage::Done);
                }
            }
        }
        r = following(r);
    }
    r
}

/// The stage after `s` has ended: on success, the next stage in scope; on
/// failure, `Aborted` for a schema stage and the next stage in scope for any
/// other, whose failure is only reported.
pub fn after_stage(s: Stage, scope: RunScope, succeeded: bool) -> (r: Stage)
    ensures
        !succeeded && is_schema_stage(s) ==> r == Stage::Aborted,
        succeeded || !is_schema_stage(s) ==> stage_order(s) < 8 ==> {
            &&& stage_order(s) < stage_order(r) <= 8
            &&& in_scope(r, scope)
            &&& forall|t: Stage|
                stage_order(s) < stage_order(t) < stage_order(r) ==> !in_scope(t, scope)
        },
        succeeded || !is_schema_stage(s) ==> stage_order(s) >= 8 ==> r == s,
{
    if !succeeded && stage_is_fatal_on_failure(s) {
        Stage::Aborted
    } else {
        next_stage(s, scope)
    }
}

/// What a backup run records once it ends.
pub struct BackupMetadata {
    pub project_ref: String,
    pub timestamp: String,
    pub schema_only: bool,
    pub include_storage: bool,
    pub include_functions: bool,
    pub include_secrets: bool,
    pub secrets_count: usize,
    pub include_vault: bool,
    pub vault_count: usize,
    pub compressed: bool,
}

/// The manifest of a backup run. The secret classes count as included when
/// at least one secret of the class was saved.
pub fn backup_metadata(
    project_ref: String,
    timestamp: String,
    schema_only: bool,
    include_storage: bool,
    include_functions: bool,
    secrets_count: usize,
    vault_count: usize,
    compressed: bool,
) -> (r: BackupMetadata)
    ensures
        r.project_ref@ == project_ref@,
        r.timestamp@ == timestamp@,
        r.schema_only == schema_only,
        r.include_storage == include_storage,
        r.include_functions == include_functions,
        r.include_secrets == (secrets_count > 0),
        r.secrets_count == secrets_count,
        r.include_vault == (vault_count > 0),
        r.vault_count == vault_count,
        r.compressed == compressed,
{
    BackupMetadata {
        project_ref,
        timestamp,
        schema_only,
        include_storage,
        include_functions,
        include_secrets: secrets_count > 0,
        secrets_count,
        include_vault: vault_count > 0,
        vault_count,
        compressed,
    }
}

pub const DUMP_FILE: &'static str = "database.sql";
pub const COMPRESSED_DUMP_FILE: &'static str = "database.sql.gz";
pub const METADATA_FILE: &'static str = "metadata.json";
pub const SECRETS_FILE: &'static str = "secrets.json";
pub const VAULT_FILE: &'static str = "vault_secrets.json";
pub const STORAGE_DIR: &'static str = "storage";

/// The name of the file that holds the schema dump.
pub fn dump_file_name(compress: bool) -> (r: String)
    ensures
        r@ == if compress {
            COMPRESSED_DUMP_FILE@
        } else {
            DUMP_FILE@
        },
{
    if compress {
        String::from_str(COMPRESSED_DUMP_FILE)
    } else {
        String::from_str(DUMP_FILE)
    }
}

/// The directory of one backup run: the project and the run's time stamp.
pub fn backup_dir_name(project: &str, stamp: &str) -> (r: String)
    ensures
        r@ == project@ + seq!['_'] + stamp@,
{
    let mut r = String::from_str(project);
    push_char(&mut r, '_');
    r.append(stamp);
    r
}

/// What gzip compression with the default level and header gives for these bytes.
pub uninterp spec fn gzip_of(bytes: Seq<u8>) -> Seq<u8>;

/// Relies on `flate2::write::GzEncoder` with `Compression::default()` over a
/// `Vec<u8>`: the gzip stream of `bytes`. Its header has no time stamp, so the
/// result depends on the bytes alone. Writing into a `Vec` cannot fail, and the
/// in-memory compressor reports no error but a full buffer, which the encoder
/// treats as progress: the result is always there.
#[verifier::external_body]
fn gzip(bytes: &[u8]) -> (r: Option<Vec<u8>>)
    ensures
        r is Some,
        r.unwrap()@ == gzip_of(bytes@),
{
    let mut e = flate2::write::GzEncoder::new(Vec::new(), flate2::Compression::default());
    match e.write_all(bytes) {
        Ok(()) => e.finish().ok(),
        Err(_) => None,
    }
}

/// The bytes of the dump file: the dump text, gzip-compressed when asked.
pub fn dump_file_bytes(dump: &str, compress: bool) -> (r: Vec<u8>)
    ensures
        !compress ==> r@ == dump.spec_bytes(),
        compress ==> r@ == gzip_of(dump.spec_bytes()),
{
    let bytes = dump.as_bytes();
    if compress {
        match gzip(bytes) {
            Some(z) => z,
            None => Vec::new(),
        }
    } else {
        vstd::slice::slice_to_vec(bytes)
    }
}

} // verus!
