//! Making sure that a shard is there.
use vstd::prelude::*;

use crate::text::push_str;
use crate::words;
use crate::words::replace;

verus! {

/// What to do about a shard.
pub enum ShardStep {
    /// It is there.
    Ready,
    /// Run this command to get it.
    Run(String),
}

/// The complaint about a missing shard that no command can bring.
pub open spec fn missing_text(path: Seq<char>) -> Seq<char> {
    path + " missing and no --fetch-cmd given"@
}

/// The complaint about a command that failed.
pub open spec fn failed_text(path: Seq<char>, status: Seq<char>) -> Seq<char> {
    "fetch command failed ("@ + status + ") for "@ + path
}

/// The complaint about a command that brought nothing.
pub open spec fn still_missing_text(path: Seq<char>) -> Seq<char> {
    "fetch command succeeded but "@ + path + " still missing"@
}

/// What to do about a shard: nothing where it is there, else run the command with the shard's path
/// in place of each `{}`.
pub fn ensure_shard(path: &str, exists_file: bool, fetch_cmd: Option<&str>) -> (r: Result<
    ShardStep,
    String,
>)
    ensures
        match r {
            Ok(ShardStep::Ready) => exists_file,
            Ok(ShardStep::Run(c)) => !exists_file && (fetch_cmd matches Some(f) && c@
                == words::replaced(f@, "{}"@, path@, 0)),
            Err(e) => !exists_file && fetch_cmd is None && e@ == missing_text(path@),
        },
{
    if exists_file {
        return Ok(ShardStep::Ready);
    }
    match fetch_cmd {
        None => {
            let mut m = String::new();
            push_str(&mut m, path);
            push_str(&mut m, " missing and no --fetch-cmd given");
            assert(m@ =~= missing_text(path@));
            Err(m)
        },
        Some(f) => {
            proof {
                reveal_strlit("{}");
            }
            Ok(ShardStep::Run(replace(f, "{}", path)))
        },
    }
}

/// What became of a command: `status` is how it ended where it did not succeed.
pub fn shard_fetched(path: &str, status: Option<&str>, exists_file: bool) -> (r: Result<(), String>)
    ensures
        match r {
            Ok(()) => status is None && exists_file,
            Err(e) => match status {
                Some(s) => e@ == failed_text(path@, s@),
                None => !exists_file && e@ == still_missing_text(path@),
            },
        },
{
    let mut m = String::new();
    match status {
        Some(s) => {
            push_str(&mut m, "fetch command failed (");
            push_str(&mut m, s);
            push_str(&mut m, ") for ");
            push_str(&mut m, path);
            assert(m@ =~= failed_text(path@, s@));
            Err(m)
        },
        None => {
            if exists_file {
                return Ok(());
            }
            push_str(&mut m, "fetch command succeeded but ");
            push_str(&mut m, path);
            push_str(&mut m, " still missing");
            assert(m@ =~= still_missing_text(path@));
            Err(m)
        },
    }
}

} // verus!
