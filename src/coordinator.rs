//! Decisions of a whole run: which files are archives, whether there is any
//! work, and whether the run's output passes the final check.

use crate::database::{plain_record, ScanDatabase, SkipReason};
use crate::scanner::PboScanResult;
use crate::utils::{extension_of, path_extension};
use vstd::prelude::*;

verus! {

/// The settings of a run.
#[derive(Clone, Debug)]
pub struct ExtractionConfig {
    /// Directory searched for archives, recursively.
    pub input_dir: String,
    /// Directory that receives the extracted files and the cache.
    pub output_dir: String,
    /// Comma-separated extensions to extract; empty for every file.
    pub extensions: String,
    /// How many archives are handled at once.
    pub threads: usize,
    /// Seconds allowed to each call of the archive tool.
    pub timeout: u32,
}

/// Why a run stops.
#[derive(Clone, Copy, Debug, PartialEq, Eq, Structural)]
pub enum PipelineError {
    /// The input directory holds no archive.
    NoArchivesFound,
    /// Files were expected, yet the output directory holds none.
    ExtractionVerificationFailed,
}

/// Whether `path` names an archive: its extension is exactly `pbo`.
pub open spec fn is_archive_spec(path: Seq<char>) -> bool {
    extension_of(path) == Some(seq!['p', 'b', 'o'])
}

/// Whether some scan result expects a file.
pub open spec fn any_expected_spec(results: Seq<PboScanResult>) -> bool {
    exists|i: int| 0 <= i < results.len() && #[trigger] results[i].expected_files@.len() > 0
}

/// Whether `path` names an archive.
pub fn is_archive(path: &str) -> (r: bool)
    ensures
        r == is_archive_spec(path@),
{
    match path_extension(path) {
        Some(e) => {
            let pbo = "pbo".to_owned();
            proof {
                reveal_strlit("pbo");
                assert(pbo@ =~= seq!['p', 'b', 'o']);
            }
            e == pbo
        },
        None => false,
    }
}

/// A run needs at least one archive.
pub fn check_candidates(count: usize) -> (r: Result<(), PipelineError>)
    ensures
        r is Ok <==> count > 0,
        r is Err ==> r == Err::<(), PipelineError>(PipelineError::NoArchivesFound),
{
    if count == 0 {
        Err(PipelineError::NoArchivesFound)
    } else {
        Ok(())
    }
}

/// Whether some scan result expects a file; where none does, the run ends
/// without extracting.
pub fn any_expected(results: &Vec<PboScanResult>) -> (r: bool)
    ensures
        r == any_expected_spec(results@),
{
    let mut i: usize = 0;
    while i < results.len()
        invariant
            i <= results@.len(),
            forall|j: int| 0 <= j < i ==> results@[j].expected_files@.len() == 0,
        decreases results@.len() - i,
    {
        if results[i].expected_files.len() > 0 {
            return true;
        }
        i = i + 1;
    }
    false
}

/// The final check of a run: where files were expected, the output
/// directory has to hold at least one.
pub fn verify_run(expected_any: bool, files_on_disk: usize) -> (r: Result<(), PipelineError>)
    ensures
        r is Err <==> expected_any && files_on_disk == 0,
        r is Err ==> r == Err::<(), PipelineError>(PipelineError::ExtractionVerificationFailed),
{
    if expected_any && files_on_disk == 0 {
        Err(PipelineError::ExtractionVerificationFailed)
    } else {
        Ok(())
    }
}

/// Records that the content scan could not list the archive at `path`.
pub fn record_scan_failure(db: &mut ScanDatabase, path: &str, hash: &str)
    ensures
        final(db)@ == old(db)@.insert(
            path@,
            plain_record(hash@, true, Some(SkipReason::InvalidFormat)),
        ),
{
    db.update_pbo_with_reason(path, hash, true, SkipReason::InvalidFormat);
}

} // verus!
