//! The extraction of one scanned archive, as a machine that the caller
//! drives: each stage names one action (list the archive, extract it with a
//! strategy, count what landed on disk), and the caller answers with the
//! event that the action produced.

use crate::database::{
    files_record, needs_processing_spec, plain_record, PboRecord, ScanDatabase, SkipReason,
};
use crate::scanner::PboScanResult;
use crate::utils::{chars_of, extension_of, path_extension};
use vstd::prelude::*;

verus! {

/// How an extraction attempt is made, in the order they are tried.
#[derive(Clone, Copy, Debug, PartialEq, Eq, Structural)]
pub enum Strategy {
    /// With options, limited to the extension filter.
    Standard,
    /// With options, without the filter.
    Permissive,
    /// Without options.
    Direct,
}

/// The strategy tried after `s` fails, if any.
pub open spec fn next_strategy(s: Strategy) -> Option<Strategy> {
    match s {
        Strategy::Standard => Some(Strategy::Permissive),
        Strategy::Permissive => Some(Strategy::Direct),
        Strategy::Direct => None,
    }
}

/// How one archive's extraction ended.
#[derive(Debug)]
pub enum ExtractOutcome {
    /// Recorded as a success under the current fingerprint; nothing was done.
    Unchanged,
    /// The archive does not lie under the input directory; nothing was done.
    NotUnderInput,
    /// No entry passed the filter; nothing was extracted.
    NoMatchingFiles,
    /// The archive could not be listed.
    InvalidFormat,
    /// Every strategy failed.
    ExtractionFailed,
    /// Extraction ran, but no file is in the output directory.
    Empty,
    /// These files, relative to the output directory, are on disk.
    Extracted(Vec<String>),
}

/// Where an archive's extraction stands.
#[derive(Debug)]
pub enum ExtractStage {
    /// Its listing is wanted, for the prefix under which it extracts into
    /// the given base directory.
    Listing(String),
    /// An attempt with the strategy into the given output directory is wanted.
    Attempting(Strategy, String),
    /// The files under the given output directory are wanted.
    Counting(String),
    /// It is over.
    Done(ExtractOutcome),
}

/// What the caller reports back.
#[derive(Debug)]
pub enum ExtractEvent {
    /// Listing succeeded and gave this prefix, empty where there is none.
    Listed(String),
    /// Listing failed.
    ListingFailed,
    /// The extraction attempt succeeded.
    ExtractSucceeded,
    /// The extraction attempt failed or timed out.
    ExtractFailed,
    /// The regular files found under the output directory, relative to it.
    Counted(Vec<String>),
}

/// The options of an extraction attempt.
#[derive(Debug)]
pub struct ExtractRequest {
    /// Whether the call carries options at all.
    pub with_options: bool,
    /// The extension filter handed to the archive tool, if any.
    pub filter: Option<String>,
}

/// What the caller is asked to do next.
#[derive(Debug)]
pub enum ExtractAction {
    /// Create the base directory and list the archive.
    ListContents(String),
    /// Create the output directory and extract the archive into it.
    Extract(ExtractRequest, String),
    /// Walk the output directory and report the regular files in it.
    CountOutput(String),
    /// Record the outcome.
    Finish,
}

/// Whether `q` holds the options of an attempt with strategy `s` under the
/// extension filter `exts`: the filter with options first, then options
/// without it, then no options.
pub open spec fn request_fits(q: ExtractRequest, s: Strategy, exts: Seq<char>) -> bool {
    match s {
        Strategy::Standard => q.with_options && (q.filter matches Some(f) && f@ == exts),
        Strategy::Permissive => q.with_options && q.filter is None,
        Strategy::Direct => !q.with_options && q.filter is None,
    }
}

/// `p` relative to the directory `root`, where it lies under it.
pub open spec fn relative_to(root: Seq<char>, p: Seq<char>) -> Option<Seq<char>> {
    if root.len() > 0 && root.last() == '/' && root.len() <= p.len() && p.take(root.len() as int)
        == root {
        Some(p.skip(root.len() as int))
    } else if root.len() < p.len() && p.take(root.len() as int) == root && p[root.len() as int]
        == '/' {
        Some(p.skip(root.len() as int + 1))
    } else {
        None
    }
}

/// `p` without the extension of its file name.
pub open spec fn strip_extension(p: Seq<char>) -> Seq<char> {
    match extension_of(p) {
        Some(e) => p.take(p.len() - e.len() - 1),
        None => p,
    }
}

/// `b` under the directory `a`; an empty `b` leaves `a` as it is.
pub open spec fn join_path(a: Seq<char>, b: Seq<char>) -> Seq<char> {
    if b.len() == 0 {
        a
    } else if a.len() > 0 && a.last() == '/' {
        a + b
    } else {
        a + seq!['/'] + b
    }
}

/// The directory into which an archive extracts, before its prefix: its path
/// under the input directory, without extension, under the output directory.
pub open spec fn base_dir_of(input: Seq<char>, output: Seq<char>, archive: Seq<char>) -> Option<
    Seq<char>,
> {
    match relative_to(input, archive) {
        Some(rel) => Some(join_path(output, strip_extension(rel))),
        None => None,
    }
}

/// One step of the machine: `r` is where `stage` goes on `event`. An event
/// that does not answer the stage's action leaves the stage as it is.
pub open spec fn step_spec(stage: ExtractStage, event: ExtractEvent, r: ExtractStage) -> bool {
    match stage {
        ExtractStage::Listing(base) => match event {
            ExtractEvent::Listed(prefix) => (r matches ExtractStage::Attempting(s, out) && s
                == Strategy::Standard && out@ == join_path(base@, prefix@)),
            ExtractEvent::ListingFailed => r == ExtractStage::Done(ExtractOutcome::InvalidFormat),
            _ => r == stage,
        },
        ExtractStage::Attempting(s, out) => match event {
            ExtractEvent::ExtractSucceeded => r == ExtractStage::Counting(out),
            ExtractEvent::ExtractFailed => match next_strategy(s) {
                Some(t) => r == ExtractStage::Attempting(t, out),
                None => r == ExtractStage::Done(ExtractOutcome::ExtractionFailed),
            },
            _ => r == stage,
        },
        ExtractStage::Counting(out) => match event {
            ExtractEvent::Counted(files) => if files@.len() == 0 {
                r == ExtractStage::Done(ExtractOutcome::Empty)
            } else {
                r == ExtractStage::Done(ExtractOutcome::Extracted(files))
            },
            _ => r == stage,
        },
        ExtractStage::Done(_) => r == stage,
    }
}

/// The record that an outcome leaves for an archive with fingerprint `hash`
/// and expected files `expected`; `None` where the cache is left alone.
pub open spec fn outcome_record(
    hash: Seq<char>,
    expected: Seq<Seq<char>>,
    outcome: ExtractOutcome,
) -> Option<PboRecord> {
    match outcome {
        ExtractOutcome::Unchanged => None,
        ExtractOutcome::NotUnderInput => None,
        ExtractOutcome::NoMatchingFiles => Some(
            plain_record(hash, true, Some(SkipReason::NoMatchingFiles)),
        ),
        ExtractOutcome::InvalidFormat => Some(
            plain_record(hash, true, Some(SkipReason::InvalidFormat)),
        ),
        ExtractOutcome::ExtractionFailed => Some(
            plain_record(hash, true, Some(SkipReason::Failed)),
        ),
        ExtractOutcome::Empty => Some(plain_record(hash, true, Some(SkipReason::Empty))),
        ExtractOutcome::Extracted(files) => Some(files_record(hash, expected, files.deep_view())),
    }
}

/// An archive's extraction succeeds exactly when the count of its output
/// directory finds some file, whether or not every expected file is there.
pub proof fn lemma_success_iff_files_on_disk(
    out: String,
    files: Vec<String>,
    r: ExtractStage,
    hash: Seq<char>,
    expected: Seq<Seq<char>>,
)
    requires
        step_spec(ExtractStage::Counting(out), ExtractEvent::Counted(files), r),
    ensures
        r matches ExtractStage::Done(o) && (outcome_record(hash, expected, o) matches Some(rec) && (
        !rec.failed <==> files@.len() > 0)),
{
    if files@.len() > 0 {
        assert(files.deep_view().len() == files@.len());
    }
}

/// An archive without matching entries ends before any extraction attempt
/// and is recorded as a failure for that reason: no event moves it on, and
/// its action is to finish.
pub proof fn lemma_no_matching_files_not_extracted(
    event: ExtractEvent,
    r: ExtractStage,
    hash: Seq<char>,
    expected: Seq<Seq<char>>,
)
    requires
        step_spec(ExtractStage::Done(ExtractOutcome::NoMatchingFiles), event, r),
    ensures
        r == ExtractStage::Done(ExtractOutcome::NoMatchingFiles),
        outcome_record(hash, expected, ExtractOutcome::NoMatchingFiles) == Some(
            plain_record(hash, true, Some(SkipReason::NoMatchingFiles)),
        ),
{
}

/// Whether `s` starts with the characters of `prefix`.
fn starts_with(s: &Vec<char>, prefix: &Vec<char>) -> (r: bool)
    ensures
        r == (prefix@.len() <= s@.len() && s@.take(prefix@.len() as int) == prefix@),
{
    if prefix.len() > s.len() {
        return false;
    }
    let mut i: usize = 0;
    while i < prefix.len()
        invariant
            prefix@.len() <= s@.len(),
            i <= prefix@.len(),
            forall|j: int| 0 <= j < i ==> s@[j] == prefix@[j],
        decreases prefix@.len() - i,
    {
        if s[i] != prefix[i] {
            proof {
                assert(s@.take(prefix@.len() as int)[i as int] != prefix@[i as int]);
            }
            return false;
        }
        i = i + 1;
    }
    proof {
        assert(s@.take(prefix@.len() as int) =~= prefix@);
    }
    true
}

/// `p` relative to the directory `root`, where it lies under it.
pub fn relative_path(root: &str, p: &str) -> (r: Option<String>)
    ensures
        r is None <==> relative_to(root@, p@) is None,
        r matches Some(rel) ==> relative_to(root@, p@) == Some(rel@),
{
    let rc = chars_of(root);
    let pc = chars_of(p);
    let n = rc.len();
    if !starts_with(&pc, &rc) {
        return None;
    }
    if n > 0 && rc[n - 1] == '/' {
        let rel = p.substring_char(n, pc.len());
        proof {
            assert(rel@ =~= p@.skip(n as int));
        }
        return Some(rel.to_owned());
    }
    if n < pc.len() && pc[n] == '/' {
        let rel = p.substring_char(n + 1, pc.len());
        proof {
            assert(rel@ =~= p@.skip(n + 1));
        }
        return Some(rel.to_owned());
    }
    None
}

/// `p` without the extension of its file name.
pub fn without_extension(p: &str) -> (r: String)
    ensures
        r@ == strip_extension(p@),
{
    match path_extension(p) {
        Some(e) => {
            let n = chars_of(p).len();
            let k = chars_of(e.as_str()).len();
            proof {
                crate::utils::lemma_extension_fits(p@);
            }
            let stem = p.substring_char(0, n - k - 1);
            proof {
                assert(stem@ =~= p@.take(p@.len() - e@.len() - 1));
            }
            stem.to_owned()
        },
        None => p.to_owned(),
    }
}

/// `b` under the directory `a`; an empty `b` leaves `a` as it is.
pub fn join(a: &str, b: &str) -> (r: String)
    ensures
        r@ == join_path(a@, b@),
{
    let n = chars_of(a).len();
    let m = chars_of(b).len();
    let mut r = a.to_owned();
    if m == 0 {
        return r;
    }
    if n > 0 && a.get_char(n - 1) == '/' {
        r.append(b);
        return r;
    }
    r.append("/");
    proof {
        reveal_strlit("/");
    }
    r.append(b);
    r
}

/// Settings of the extraction stage.
#[derive(Debug)]
pub struct PboProcessor {
    input_dir: String,
    cache_dir: String,
    extensions: String,
    threads: usize,
    timeout: u32,
}

impl PboProcessor {
    pub fn new(
        input_dir: &str,
        cache_dir: &str,
        extensions: &str,
        threads: usize,
        timeout: u32,
    ) -> (r: Self)
        ensures
            r.input_dir()@ == input_dir@,
            r.cache_dir()@ == cache_dir@,
            r.extensions()@ == extensions@,
            r.threads() == threads,
            r.timeout() == timeout,
    {
        PboProcessor {
            input_dir: input_dir.to_owned(),
            cache_dir: cache_dir.to_owned(),
            extensions: extensions.to_owned(),
            threads,
            timeout,
        }
    }

    pub closed spec fn input_dir(&self) -> String {
        self.input_dir
    }

    pub closed spec fn cache_dir(&self) -> String {
        self.cache_dir
    }

    pub closed spec fn extensions(&self) -> String {
        self.extensions
    }

    #[verifier::when_used_as_spec(threads_spec)]
    pub fn threads(&self) -> (r: usize)
        ensures
            r == self.threads_spec(),
    {
        self.threads
    }

    pub closed spec fn threads_spec(&self) -> usize {
        self.threads
    }

    #[verifier::when_used_as_spec(timeout_spec)]
    pub fn timeout(&self) -> (r: u32)
        ensures
            r == self.timeout_spec(),
    {
        self.timeout
    }

    pub closed spec fn timeout_spec(&self) -> u32 {
        self.timeout
    }

    /// The directory under which the archive at `archive` extracts, before
    /// its prefix.
    pub fn base_dir(&self, archive: &str) -> (r: Option<String>)
        ensures
            r is None <==> base_dir_of(self.input_dir()@, self.cache_dir()@, archive@) is None,
            r matches Some(d) ==> base_dir_of(self.input_dir()@, self.cache_dir()@, archive@) == Some(
                d@,
            ),
    {
        match relative_path(self.input_dir.as_str(), archive) {
            Some(rel) => {
                let stem = without_extension(rel.as_str());
                Some(join(self.cache_dir.as_str(), stem.as_str()))
            },
            None => None,
        }
    }

    /// Where the extraction of `scan` starts: nothing to do for an archive
    /// recorded as a success under its fingerprint, nothing to extract where
    /// no entry was expected, else a listing for its prefix.
    pub fn begin(&self, db: &ScanDatabase, scan: &PboScanResult) -> (r: ExtractStage)
        ensures
            !needs_processing_spec(db@, scan.path@, scan.hash@) ==> r == ExtractStage::Done(
                ExtractOutcome::Unchanged,
            ),
            needs_processing_spec(db@, scan.path@, scan.hash@) && scan.expected_files@.len() == 0
                ==> r == ExtractStage::Done(ExtractOutcome::NoMatchingFiles),
            needs_processing_spec(db@, scan.path@, scan.hash@) && scan.expected_files@.len() > 0
                ==> match base_dir_of(self.input_dir()@, self.cache_dir()@, scan.path@) {
                Some(d) => (r matches ExtractStage::Listing(b) && b@ == d),
                None => r == ExtractStage::Done(ExtractOutcome::NotUnderInput),
            },
    {
        if !db.needs_processing(scan.path.as_str(), scan.hash.as_str()) {
            return ExtractStage::Done(ExtractOutcome::Unchanged);
        }
        if scan.expected_files.len() == 0 {
            return ExtractStage::Done(ExtractOutcome::NoMatchingFiles);
        }
        match self.base_dir(scan.path.as_str()) {
            Some(d) => ExtractStage::Listing(d),
            None => ExtractStage::Done(ExtractOutcome::NotUnderInput),
        }
    }

    /// The options of an attempt with strategy `s`.
    pub fn extract_request(&self, s: Strategy) -> (r: ExtractRequest)
        ensures
            request_fits(r, s, self.extensions()@),
    {
        match s {
            Strategy::Standard => ExtractRequest {
                with_options: true,
                filter: Some(self.extensions.clone()),
            },
            Strategy::Permissive => ExtractRequest { with_options: true, filter: None },
            Strategy::Direct => ExtractRequest { with_options: false, filter: None },
        }
    }

    /// What the caller is asked to do at `stage`.
    pub fn action(&self, stage: &ExtractStage) -> (r: ExtractAction)
        ensures
            stage matches ExtractStage::Listing(b) ==> (r matches ExtractAction::ListContents(d)
                && d@ == b@),
            stage matches ExtractStage::Attempting(s, out) ==> (r matches ExtractAction::Extract(
                q,
                d,
            ) && d@ == out@ && request_fits(q, *s, self.extensions()@)),
            stage matches ExtractStage::Counting(out) ==> (r matches ExtractAction::CountOutput(d)
                && d@ == out@),
            stage is Done ==> r is Finish,
    {
        match stage {
            ExtractStage::Listing(b) => ExtractAction::ListContents(b.clone()),
            ExtractStage::Attempting(s, out) => ExtractAction::Extract(
                self.extract_request(*s),
                out.clone(),
            ),
            ExtractStage::Counting(out) => ExtractAction::CountOutput(out.clone()),
            ExtractStage::Done(_) => ExtractAction::Finish,
        }
    }
}

/// One step of the extraction of an archive.
pub fn step(stage: ExtractStage, event: ExtractEvent) -> (r: ExtractStage)
    ensures
        step_spec(stage, event, r),
{
    match stage {
        ExtractStage::Listing(base) => match event {
            ExtractEvent::Listed(prefix) => {
                let out = join(base.as_str(), prefix.as_str());
                ExtractStage::Attempting(Strategy::Standard, out)
            },
            ExtractEvent::ListingFailed => ExtractStage::Done(ExtractOutcome::InvalidFormat),
            _ => ExtractStage::Listing(base),
        },
        ExtractStage::Attempting(s, out) => match event {
            ExtractEvent::ExtractSucceeded => ExtractStage::Counting(out),
            ExtractEvent::ExtractFailed => match s {
                Strategy::Standard => ExtractStage::Attempting(Strategy::Permissive, out),
                Strategy::Permissive => ExtractStage::Attempting(Strategy::Direct, out),
                Strategy::Direct => ExtractStage::Done(ExtractOutcome::ExtractionFailed),
            },
            _ => ExtractStage::Attempting(s, out),
        },
        ExtractStage::Counting(out) => match event {
            ExtractEvent::Counted(files) => {
                if files.len() == 0 {
                    ExtractStage::Done(ExtractOutcome::Empty)
                } else {
                    ExtractStage::Done(ExtractOutcome::Extracted(files))
                }
            },
            _ => ExtractStage::Counting(out),
        },
        ExtractStage::Done(o) => ExtractStage::Done(o),
    }
}

/// Records how the extraction of `scan` ended: a failure with its reason, a
/// success with the expected and extracted files, or nothing where the
/// archive was left alone.
pub fn record_outcome(db: &mut ScanDatabase, scan: PboScanResult, outcome: ExtractOutcome)
    ensures
        match outcome_record(scan.hash@, scan.expected_files.deep_view(), outcome) {
            Some(rec) => final(db)@ == old(db)@.insert(scan.path@, rec),
            None => final(db)@ == old(db)@,
        },
{
    let path = scan.path.as_str();
    let hash = scan.hash.as_str();
    match outcome {
        ExtractOutcome::Unchanged => {},
        ExtractOutcome::NotUnderInput => {},
        ExtractOutcome::NoMatchingFiles => {
            db.update_pbo_with_reason(path, hash, true, SkipReason::NoMatchingFiles);
        },
        ExtractOutcome::InvalidFormat => {
            db.update_pbo_with_reason(path, hash, true, SkipReason::InvalidFormat);
        },
        ExtractOutcome::ExtractionFailed => {
            db.update_pbo_with_reason(path, hash, true, SkipReason::Failed);
        },
        ExtractOutcome::Empty => {
            db.update_pbo_with_reason(path, hash, true, SkipReason::Empty);
        },
        ExtractOutcome::Extracted(files) => {
            db.update_pbo_with_files(path, hash, scan.expected_files, files);
        },
    }
}

} // verus!
