//! Change detection and content scanning: which archives need work, and
//! which of their entries are wanted.

use crate::database::{needs_processing_spec, ScanDatabase};
use crate::utils::{matches_extension, matches_extension_spec};
use vstd::prelude::*;

verus! {

/// An archive whose fingerprint was computed.
#[derive(Debug)]
pub struct PboHashResult {
    pub path: String,
    pub hash: String,
}

/// An archive whose entries were scanned.
#[derive(Debug)]
pub struct PboScanResult {
    pub path: String,
    /// The fingerprint under which the outcome will be recorded.
    pub hash: String,
    /// Entries that pass the extension filter, in listing order.
    pub expected_files: Vec<String>,
}

/// Why an archive leaves the scan.
#[derive(Clone, Copy, Debug, PartialEq, Eq, Structural)]
pub enum ScanError {
    /// It is recorded as a success under the same fingerprint.
    Unchanged,
    /// Its entries could not be listed.
    ListingFailed,
}

/// The names among `files` that pass the extension filter `exts`.
pub open spec fn matching_names(files: Seq<Seq<char>>, exts: Seq<char>) -> Seq<Seq<char>> {
    files.filter(|f: Seq<char>| matches_extension_spec(f, exts))
}

/// The candidates of which the cache records no success under their
/// current fingerprint.
pub open spec fn pending_of(
    m: Map<Seq<char>, crate::database::PboRecord>,
    cands: Seq<(Seq<char>, Seq<char>)>,
) -> Seq<(Seq<char>, Seq<char>)> {
    cands.filter(|c: (Seq<char>, Seq<char>)| needs_processing_spec(m, c.0, c.1))
}

/// An archive's path and fingerprint.
pub open spec fn hash_view(h: PboHashResult) -> (Seq<char>, Seq<char>) {
    (h.path@, h.hash@)
}

/// The path and fingerprint of each archive, in order.
pub open spec fn hash_views(hs: Seq<PboHashResult>) -> Seq<(Seq<char>, Seq<char>)> {
    hs.map_values(|h: PboHashResult| hash_view(h))
}

/// Once every candidate is recorded as a success under its current
/// fingerprint, change detection selects none of them: a second run over an
/// unchanged directory hands nothing on to scanning and extraction, so the
/// cache stays as it was.
pub proof fn lemma_unchanged_rerun_selects_nothing(
    m: Map<Seq<char>, crate::database::PboRecord>,
    cands: Seq<(Seq<char>, Seq<char>)>,
)
    requires
        forall|i: int|
            0 <= i < cands.len() ==> m.contains_key(#[trigger] cands[i].0) && !m[cands[i].0].failed
                && m[cands[i].0].hash == cands[i].1,
    ensures
        pending_of(m, cands) == Seq::<(Seq<char>, Seq<char>)>::empty(),
{
    let p = |c: (Seq<char>, Seq<char>)| needs_processing_spec(m, c.0, c.1);
    assert forall|i: int| 0 <= i < cands.len() implies !p(#[trigger] cands[i]) by {
        assert(m.contains_key(cands[i].0));
    }
    cands.lemma_all_neg_filter_empty(p);
}

/// Whether the content scan has to list an archive of `file_size` bytes: an
/// empty archive is taken to hold no entries.
pub fn listing_needed(file_size: u64) -> (r: bool)
    ensures
        r == (file_size > 0),
{
    file_size > 0
}

/// The entries among `files` that pass the extension filter, in order.
pub fn filter_matching(files: &Vec<String>, extensions: &str) -> (r: Vec<String>)
    ensures
        r.deep_view() == matching_names(files.deep_view(), extensions@),
{
    let ghost p = |f: Seq<char>| matches_extension_spec(f, extensions@);
    let mut r: Vec<String> = Vec::new();
    let mut i: usize = 0;
    while i < files.len()
        invariant
            i <= files@.len(),
            p == (|f: Seq<char>| matches_extension_spec(f, extensions@)),
            r.deep_view() == files.deep_view().take(i as int).filter(p),
        decreases files@.len() - i,
    {
        let ghost before = r.deep_view();
        let keep = matches_extension(files[i].as_str(), extensions);
        proof {
            let t = files.deep_view().take(i + 1);
            assert(t =~= files.deep_view().take(i as int).push(files.deep_view()[i as int]));
            reveal(Seq::filter);
            assert(t.drop_last() =~= files.deep_view().take(i as int));
        }
        if keep {
            let name = files[i].clone();
            r.push(name);
            proof {
                assert(r.deep_view() =~= before.push(files.deep_view()[i as int]));
            }
        }
        i = i + 1;
    }
    proof {
        assert(files.deep_view().take(i as int) =~= files.deep_view());
    }
    r
}

/// The content scan of an archive of `file_size` bytes. `listing` is what
/// listing its entries gave, `None` where listing failed; an empty archive
/// is not listed and holds no expected files.
pub fn scan_pbo_contents(
    hashed: PboHashResult,
    file_size: u64,
    listing: Option<Vec<String>>,
    extensions: &str,
) -> (r: Result<PboScanResult, ScanError>)
    ensures
        file_size == 0 ==> (r matches Ok(s) && s.expected_files@.len() == 0),
        file_size > 0 && listing is None ==> r == Err::<PboScanResult, ScanError>(
            ScanError::ListingFailed,
        ),
        file_size > 0 && listing is Some ==> (r matches Ok(s) && s.expected_files.deep_view()
            == matching_names(listing->0.deep_view(), extensions@)),
        r matches Ok(s) ==> s.path@ == hashed.path@ && s.hash@ == hashed.hash@,
{
    if !listing_needed(file_size) {
        return Ok(PboScanResult { path: hashed.path, hash: hashed.hash, expected_files: Vec::new() });
    }
    match listing {
        Some(files) => {
            let expected_files = filter_matching(&files, extensions);
            Ok(PboScanResult { path: hashed.path, hash: hashed.hash, expected_files })
        },
        None => Err(ScanError::ListingFailed),
    }
}

/// Settings of the change detection stage.
#[derive(Debug)]
pub struct PreScanner {
    input_dir: String,
    extensions: String,
    threads: usize,
    timeout: u32,
}

impl PreScanner {
    pub fn new(input_dir: &str, extensions: &str, threads: usize, timeout: u32) -> (r: Self)
        ensures
            r.input_dir()@ == input_dir@,
            r.extensions()@ == extensions@,
            r.threads() == threads,
            r.timeout() == timeout,
    {
        PreScanner {
            input_dir: input_dir.to_owned(),
            extensions: extensions.to_owned(),
            threads,
            timeout,
        }
    }

    pub closed spec fn input_dir(&self) -> String {
        self.input_dir
    }

    pub closed spec fn extensions(&self) -> String {
        self.extensions
    }

    #[verifier::when_used_as_spec(threads_spec)]
    pub fn threads(&self) -> (r: usize)
        ensures
            r == self.threads_spec(),
    {
        self.threads
    }

    pub closed spec fn threads_spec(&self) -> usize {
        self.threads
    }

    #[verifier::when_used_as_spec(timeout_spec)]
    pub fn timeout(&self) -> (r: u32)
        ensures
            r == self.timeout_spec(),
    {
        self.timeout
    }

    pub closed spec fn timeout_spec(&self) -> u32 {
        self.timeout
    }

    /// The directory that is searched for archives.
    pub fn input_dir_str(&self) -> (r: &str)
        ensures
            r@ == self.input_dir()@,
    {
        self.input_dir.as_str()
    }

    /// The extension filter used by the content scan.
    pub fn extensions_str(&self) -> (r: &str)
        ensures
            r@ == self.extensions()@,
    {
        self.extensions.as_str()
    }

    /// The change detection of one archive: `Unchanged` where the cache
    /// records a success under the same fingerprint, else the archive with
    /// its fingerprint.
    pub fn check_pbo_hash(db: &ScanDatabase, path: &str, hash: String) -> (r: Result<
        PboHashResult,
        ScanError,
    >)
        ensures
            needs_processing_spec(db@, path@, hash@) ==> (r matches Ok(h) && h.path@ == path@
                && h.hash@ == hash@),
            !needs_processing_spec(db@, path@, hash@) ==> r == Err::<PboHashResult, ScanError>(
                ScanError::Unchanged,
            ),
    {
        if db.needs_processing(path, hash.as_str()) {
            Ok(PboHashResult { path: path.to_owned(), hash })
        } else {
            Err(ScanError::Unchanged)
        }
    }

    /// The first stage over all candidates: those that need processing, in
    /// their order.
    pub fn select_pending(db: &ScanDatabase, candidates: &Vec<PboHashResult>) -> (r: Vec<
        PboHashResult,
    >)
        ensures
            hash_views(r@) == pending_of(db@, hash_views(candidates@)),
    {
        let ghost cands = hash_views(candidates@);
        let ghost p = |c: (Seq<char>, Seq<char>)| needs_processing_spec(db@, c.0, c.1);
        let mut r: Vec<PboHashResult> = Vec::new();
        let mut i: usize = 0;
        while i < candidates.len()
            invariant
                i <= candidates@.len(),
                cands == hash_views(candidates@),
                p == (|c: (Seq<char>, Seq<char>)| needs_processing_spec(db@, c.0, c.1)),
                hash_views(r@) == cands.take(i as int).filter(p),
            decreases candidates@.len() - i,
        {
            let h = &candidates[i];
            let ghost hv = hash_view(*h);
            proof {
                assert(cands[i as int] == hv);
                let t = cands.take(i + 1);
                assert(t =~= cands.take(i as int).push(hv));
                reveal(Seq::filter);
                assert(t.drop_last() =~= cands.take(i as int));
            }
            let ghost before = r@;
            if db.needs_processing(h.path.as_str(), h.hash.as_str()) {
                r.push(PboHashResult { path: h.path.clone(), hash: h.hash.clone() });
                proof {
                    assert(hash_views(r@) =~= hash_views(before).push(hv));
                }
            }
            i = i + 1;
        }
        proof {
            assert(cands.take(i as int) =~= cands);
        }
        r
    }

    /// Change detection and content scan of one archive, in that order.
    pub fn scan_pbo(
        db: &ScanDatabase,
        path: &str,
        hash: String,
        file_size: u64,
        listing: Option<Vec<String>>,
        extensions: &str,
    ) -> (r: Result<PboScanResult, ScanError>)
        ensures
            !needs_processing_spec(db@, path@, hash@) ==> r == Err::<PboScanResult, ScanError>(
                ScanError::Unchanged,
            ),
            needs_processing_spec(db@, path@, hash@) && file_size == 0 ==> (r matches Ok(s)
                && s.expected_files@.len() == 0),
            needs_processing_spec(db@, path@, hash@) && file_size > 0 && listing is None ==> r
                == Err::<PboScanResult, ScanError>(ScanError::ListingFailed),
            needs_processing_spec(db@, path@, hash@) && file_size > 0 && listing is Some ==> (r matches Ok(
                s,
            ) && s.expected_files.deep_view() == matching_names(
                listing->0.deep_view(),
                extensions@,
            )),
            r matches Ok(s) ==> s.path@ == path@ && s.hash@ == hash@,
    {
        let hashed = Self::check_pbo_hash(db, path, hash)?;
        scan_pbo_contents(hashed, file_size, listing, extensions)
    }
}

} // verus!
