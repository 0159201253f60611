//! Replaying a transformed schema on a target through the `psql` client.

use vstd::prelude::*;
use crate::error::MigrateError;
use crate::text::{copy_string, views};

verus! {

pub const ON_ERROR_STOP_VAR: &'static str = "-v";
pub const ON_ERROR_STOP: &'static str = "ON_ERROR_STOP=1";
pub const SINGLE_TRANSACTION: &'static str = "--single-transaction";
pub const FILE_FLAG: &'static str = "-f";

/// The client arguments that replay `file` on `db_url`: stop at the first
/// error, all in one transaction.
pub open spec fn restore_args_spec(db_url: Seq<char>, file: Seq<char>) -> Seq<Seq<char>> {
    seq![db_url, ON_ERROR_STOP_VAR@, ON_ERROR_STOP@, SINGLE_TRANSACTION@, FILE_FLAG@, file]
}

pub fn restore_args(db_url: &String, file: &String) -> (r: Vec<String>)
    ensures
        views(r@) == restore_args_spec(db_url@, file@),
{
    let r = vec![
        copy_string(db_url),
        String::from_str(ON_ERROR_STOP_VAR),
        String::from_str(ON_ERROR_STOP),
        String::from_str(SINGLE_TRANSACTION),
        String::from_str(FILE_FLAG),
        copy_string(file),
    ];
    assert(views(r@) == restore_args_spec(db_url@, file@));
    r
}

/// The result of a replay: the client could not be executed, or it ran and
/// failed (its diagnostic text kept as it is), or the schema was applied.
pub fn restore_outcome(available: bool, success: bool, stderr: String) -> (r: Result<
    (),
    MigrateError,
>)
    ensures
        !available ==> r matches Err(MigrateError::ToolingUnavailable),
        available && !success ==> (r matches Err(MigrateError::ApplyFailure(m)) && m@ == stderr@),
        available && success ==> r is Ok,
{
    if !available {
        Err(MigrateError::ToolingUnavailable)
    } else if !success {
        Err(MigrateError::ApplyFailure(stderr))
    } else {
        Ok(())
    }
}

} // verus!
