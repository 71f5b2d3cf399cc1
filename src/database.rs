//! The fingerprint cache: one record per archive path, with the fingerprint
//! seen when the archive was last handled and the outcome of that attempt.

use vstd::prelude::*;

verus! {

/// Why an archive is recorded as failed.
#[derive(Clone, Copy, Debug, PartialEq, Eq, Structural)]
pub enum SkipReason {
    /// Extraction ran, but nothing landed in the output directory.
    Empty,
    /// No entry of the archive passes the extension filter.
    NoMatchingFiles,
    /// The archive could not be listed.
    InvalidFormat,
    /// Every extraction strategy failed.
    Failed,
    /// Entries were expected, but none was extracted.
    MissingExpectedFiles,
}

/// What the cache remembers of one archive.
#[derive(Debug)]
pub struct PboInfo {
    /// Fingerprint of the archive when it was last handled.
    pub hash: String,
    /// Whether that attempt failed.
    pub failed: bool,
    /// Why it failed, where that is known.
    pub skip_reason: Option<SkipReason>,
    /// Entries that the content scan selected.
    pub expected_files: Option<Vec<String>>,
    /// Entries that were found on disk after extraction.
    pub extracted_files: Option<Vec<String>>,
}

/// The value of a [`PboInfo`], with every string as its characters.
pub struct PboRecord {
    pub hash: Seq<char>,
    pub failed: bool,
    pub skip_reason: Option<SkipReason>,
    pub expected_files: Option<Seq<Seq<char>>>,
    pub extracted_files: Option<Seq<Seq<char>>>,
}

/// The characters of each name, where there is a list.
pub open spec fn names_of(v: Option<Vec<String>>) -> Option<Seq<Seq<char>>> {
    match v {
        Some(v) => Some(v.deep_view()),
        None => None,
    }
}

impl View for PboInfo {
    type V = PboRecord;

    open spec fn view(&self) -> PboRecord {
        PboRecord {
            hash: self.hash@,
            failed: self.failed,
            skip_reason: self.skip_reason,
            expected_files: names_of(self.expected_files),
            extracted_files: names_of(self.extracted_files),
        }
    }
}

/// The record of an attempt that carries no file lists.
pub open spec fn plain_record(
    hash: Seq<char>,
    failed: bool,
    skip_reason: Option<SkipReason>,
) -> PboRecord {
    PboRecord { hash, failed, skip_reason, expected_files: None, extracted_files: None }
}

/// The record of an extraction: it succeeded exactly when some file was
/// extracted, whether or not every expected file was among them.
pub open spec fn files_record(
    hash: Seq<char>,
    expected: Seq<Seq<char>>,
    extracted: Seq<Seq<char>>,
) -> PboRecord {
    PboRecord {
        hash,
        failed: extracted.len() == 0,
        skip_reason: if extracted.len() == 0 {
            Some(SkipReason::MissingExpectedFiles)
        } else {
            None
        },
        expected_files: Some(expected),
        extracted_files: Some(extracted),
    }
}

/// An archive is skipped only when it is recorded as a success under the
/// same fingerprint; absent, changed and previously failed archives are
/// processed.
pub open spec fn needs_processing_spec(
    m: Map<Seq<char>, PboRecord>,
    path: Seq<char>,
    hash: Seq<char>,
) -> bool {
    !(m.contains_key(path) && !m[path].failed && m[path].hash == hash)
}

/// Whether every expected name is among the extracted ones.
pub open spec fn all_extracted_spec(expected: Seq<Seq<char>>, extracted: Seq<Seq<char>>) -> bool {
    forall|i: int| 0 <= i < expected.len() ==> extracted.contains(#[trigger] expected[i])
}

/// Whether the record of key `k` in `m` satisfies `p`.
pub open spec fn key_pred(
    m: Map<Seq<char>, PboRecord>,
    p: spec_fn(PboRecord) -> bool,
) -> spec_fn(Seq<char>) -> bool {
    |k: Seq<char>| p(m[k])
}

/// How many records of `m` satisfy `p`.
pub open spec fn count_where(m: Map<Seq<char>, PboRecord>, p: spec_fn(PboRecord) -> bool) -> nat {
    m.dom().filter(key_pred(m, p)).len()
}

/// A record of a successful extraction.
pub open spec fn processed_pred() -> spec_fn(PboRecord) -> bool {
    |r: PboRecord| !r.failed
}

/// A record of a failure for `reason`.
pub open spec fn reason_pred(reason: SkipReason) -> spec_fn(PboRecord) -> bool {
    |r: PboRecord| r.failed && r.skip_reason == Some(reason)
}

/// A failure tallied as a failed extraction: one recorded as such, or one
/// without a reason.
pub open spec fn otherwise_pred() -> spec_fn(PboRecord) -> bool {
    |r: PboRecord| r.failed && (r.skip_reason == Some(SkipReason::Failed) || r.skip_reason is None)
}

/// Counts over the records of a cache.
#[derive(Debug)]
pub struct ScanStats {
    pub total: usize,
    pub processed: usize,
    pub empty: usize,
    pub no_matching_files: usize,
    pub invalid_format: usize,
    pub failed: usize,
    pub unchanged: usize,
    pub previously_failed: usize,
    pub missing_expected_files: usize,
}

/// What [`ScanDatabase::get_stats`] returns for a cache whose records are `m`.
pub open spec fn stats_match(s: ScanStats, m: Map<Seq<char>, PboRecord>) -> bool {
    &&& s.total == m.dom().len()
    &&& s.processed == count_where(m, processed_pred())
    &&& s.empty == count_where(m, reason_pred(SkipReason::Empty))
    &&& s.no_matching_files == count_where(m, reason_pred(SkipReason::NoMatchingFiles))
    &&& s.invalid_format == count_where(m, reason_pred(SkipReason::InvalidFormat))
    &&& s.failed == count_where(m, otherwise_pred())
    &&& s.missing_expected_files == count_where(m, reason_pred(SkipReason::MissingExpectedFiles))
    &&& s.unchanged == 0
    &&& s.previously_failed == 0
}

/// One archive path with its record.
#[derive(Debug)]
pub struct PboEntry {
    pub path: String,
    pub info: PboInfo,
}

/// The cache: archive path to record, each path at most once.
pub struct ScanDatabase {
    pbos: Vec<PboEntry>,
    model: Ghost<Map<Seq<char>, PboRecord>>,
}

/// The paths of `entries`, in order.
pub open spec fn keys_of(entries: Seq<PboEntry>) -> Seq<Seq<char>> {
    entries.map_values(|e: PboEntry| e.path@)
}

impl View for ScanDatabase {
    type V = Map<Seq<char>, PboRecord>;

    closed spec fn view(&self) -> Map<Seq<char>, PboRecord> {
        self.model@
    }
}

impl ScanDatabase {
    #[verifier::type_invariant]
    spec fn inv(&self) -> bool {
        &&& keys_of(self.pbos@).no_duplicates()
        &&& forall|k: Seq<char>| #[trigger]
            self.model@.contains_key(k) <==> keys_of(self.pbos@).contains(k)
        &&& forall|i: int|
            0 <= i < self.pbos@.len() ==> self.model@.contains_key(#[trigger] self.pbos@[i].path@)
                && self.model@[self.pbos@[i].path@] == self.pbos@[i].info@
    }

    /// An empty cache.
    pub fn new() -> (r: Self)
        ensures
            r@ == Map::<Seq<char>, PboRecord>::empty(),
    {
        let r = ScanDatabase { pbos: Vec::new(), model: Ghost(Map::empty()) };
        proof {
            assert(keys_of(r.pbos@) =~= Seq::<Seq<char>>::empty());
        }
        r
    }

    /// The number of archives recorded.
    pub fn len(&self) -> (r: usize)
        ensures
            r == self@.dom().len(),
    {
        proof {
            use_type_invariant(self);
            self.lemma_dom_len();
        }
        self.pbos.len()
    }

    /// The entries, each path once, in no particular order.
    pub fn entries(&self) -> (r: &Vec<PboEntry>)
        ensures
            keys_of(r@).no_duplicates(),
            forall|k: Seq<char>| #[trigger] self@.contains_key(k) <==> keys_of(r@).contains(k),
            forall|i: int|
                0 <= i < r@.len() ==> self@.contains_key(#[trigger] r@[i].path@) && self@[r@[i].path@]
                    == r@[i].info@,
    {
        proof {
            use_type_invariant(self);
        }
        &self.pbos
    }

    proof fn lemma_dom_len(&self)
        requires
            self.inv(),
        ensures
            self.pbos@.len() == self@.dom().len(),
    {
        let ks = keys_of(self.pbos@);
        ks.unique_seq_to_set();
        assert(ks.to_set() =~= self@.dom());
    }

    /// Looks up the record of `path`.
    pub fn get_pbo_info(&self, path: &str) -> (r: Option<&PboInfo>)
        ensures
            r is Some <==> self@.contains_key(path@),
            r matches Some(info) ==> info@ == self@[path@],
    {
        proof {
            use_type_invariant(self);
        }
        let key = path.to_owned();
        match position_of(&self.pbos, &key) {
            Some(i) => Some(&self.pbos[i].info),
            None => None,
        }
    }

    /// Stores `info` as the record of `path`, replacing any earlier one.
    pub fn insert_record(&mut self, path: String, info: PboInfo)
        ensures
            final(self)@ == old(self)@.insert(path@, info@),
    {
        proof {
            use_type_invariant(&*self);
        }
        let ghost old_model = self.model@;
        let mut taken = ScanDatabase::new();
        core::mem::swap(self, &mut taken);
        proof {
            use_type_invariant(&taken);
        }
        let ScanDatabase { mut pbos, model } = taken;
        let ghost old_pbos = pbos@;
        let ghost new_model = old_model.insert(path@, info@);
        let pos = position_of(&pbos, &path);
        match pos {
            Some(i) => {
                let entry = PboEntry { path, info };
                pbos.set(i, entry);
                proof {
                    assert(keys_of(pbos@) =~= keys_of(old_pbos));
                }
            },
            None => {
                let entry = PboEntry { path, info };
                pbos.push(entry);
                proof {
                    assert(keys_of(pbos@) =~= keys_of(old_pbos).push(path@));
                }
            },
        }
        proof {
            let ks = keys_of(pbos@);
            let old_ks = keys_of(old_pbos);
            assert(model@ == old_model);
            assert forall|i: int| 0 <= i < pbos@.len() implies new_model.contains_key(
                #[trigger] pbos@[i].path@) && new_model[pbos@[i].path@] == pbos@[i].info@ by {
                if pbos@[i].path@ != path@ {
                    assert(old_pbos[i] == pbos@[i]);
                    assert(old_model.contains_key(old_pbos[i].path@));
                } else {
                    match pos {
                        Some(p) => {
                            if i != p {
                                assert(old_ks[i] == old_pbos[i].path@);
                                assert(old_ks[p as int] == old_pbos[p as int].path@);
                            }
                        },
                        None => {
                            if i < old_pbos.len() {
                                assert(old_ks[i] == old_pbos[i].path@);
                            }
                        },
                    }
                }
            }
            assert forall|k: Seq<char>| #[trigger]
                new_model.contains_key(k) <==> ks.contains(k) by {
                if ks.contains(k) {
                    let j = ks.index_of(k);
                    assert(ks[j] == pbos@[j].path@);
                }
                if new_model.contains_key(k) {
                    if k == path@ {
                        match pos {
                            Some(i) => {
                                assert(ks[i as int] == k);
                            },
                            None => {
                                assert(ks[ks.len() - 1] == k);
                            },
                        }
                    } else {
                        assert(old_model.contains_key(k));
                        assert(old_ks.contains(k));
                        let j = old_ks.index_of(k);
                        assert(ks[j] == k);
                    }
                }
            }
            assert forall|a: int, b: int| 0 <= a < b < ks.len() implies ks[a] != ks[b] by {
                if pos is None && b == ks.len() - 1 {
                    assert(old_ks[a] == ks[a]);
                    assert(old_ks.contains(ks[a]));
                }
            }
        }
        *self = ScanDatabase { pbos, model: Ghost(new_model) };
    }

    /// Records an attempt on `path` with fingerprint `hash`, without a reason
    /// or file lists.
    pub fn update_pbo(&mut self, path: &str, hash: &str, failed: bool)
        ensures
            final(self)@ == old(self)@.insert(path@, plain_record(hash@, failed, None)),
    {
        let info = PboInfo {
            hash: hash.to_owned(),
            failed,
            skip_reason: None,
            expected_files: None,
            extracted_files: None,
        };
        self.insert_record(path.to_owned(), info);
    }

    /// Records an attempt on `path` with fingerprint `hash` and the reason
    /// that it was skipped or failed.
    pub fn update_pbo_with_reason(&mut self, path: &str, hash: &str, failed: bool, reason: SkipReason)
        ensures
            final(self)@ == old(self)@.insert(path@, plain_record(hash@, failed, Some(reason))),
    {
        let info = PboInfo {
            hash: hash.to_owned(),
            failed,
            skip_reason: Some(reason),
            expected_files: None,
            extracted_files: None,
        };
        self.insert_record(path.to_owned(), info);
    }

    /// Records an extraction of `path`: a success exactly when some file was
    /// extracted, else a failure for missing expected files. Returns whether
    /// some file was extracted.
    pub fn update_pbo_with_files(
        &mut self,
        path: &str,
        hash: &str,
        expected_files: Vec<String>,
        extracted_files: Vec<String>,
    ) -> (r: bool)
        ensures
            r == (extracted_files@.len() > 0),
            final(self)@ == old(self)@.insert(
                path@,
                files_record(hash@, expected_files.deep_view(), extracted_files.deep_view()),
            ),
    {
        let any_files_extracted = extracted_files.len() > 0;
        let skip_reason = if any_files_extracted {
            None
        } else {
            Some(SkipReason::MissingExpectedFiles)
        };
        let ghost expected_view = expected_files.deep_view();
        let ghost extracted_view = extracted_files.deep_view();
        let info = PboInfo {
            hash: hash.to_owned(),
            failed: !any_files_extracted,
            skip_reason,
            expected_files: Some(expected_files),
            extracted_files: Some(extracted_files),
        };
        proof {
            assert(info@ == files_record(hash@, expected_view, extracted_view));
        }
        self.insert_record(path.to_owned(), info);
        any_files_extracted
    }

    /// Tallies the records by outcome and reason in one pass.
    pub fn get_stats(&self) -> (s: ScanStats)
        ensures
            stats_match(s, self@),
    {
        proof {
            use_type_invariant(self);
        }
        let ghost m = self@;
        let ghost ks = keys_of(self.pbos@);
        let ghost p_ok = processed_pred();
        let ghost p_empty = reason_pred(SkipReason::Empty);
        let ghost p_none = reason_pred(SkipReason::NoMatchingFiles);
        let ghost p_invalid = reason_pred(SkipReason::InvalidFormat);
        let ghost p_failed = otherwise_pred();
        let ghost p_missing = reason_pred(SkipReason::MissingExpectedFiles);
        let mut processed: usize = 0;
        let mut empty: usize = 0;
        let mut no_matching_files: usize = 0;
        let mut invalid_format: usize = 0;
        let mut failed: usize = 0;
        let mut missing_expected_files: usize = 0;
        let n = self.pbos.len();
        let mut i: usize = 0;
        while i < n
            invariant
                n == self.pbos@.len(),
                ks == keys_of(self.pbos@),
                m == self@,
                p_ok == processed_pred(),
                p_empty == reason_pred(SkipReason::Empty),
                p_none == reason_pred(SkipReason::NoMatchingFiles),
                p_invalid == reason_pred(SkipReason::InvalidFormat),
                p_failed == otherwise_pred(),
                p_missing == reason_pred(SkipReason::MissingExpectedFiles),
                forall|j: int|
                    0 <= j < self.pbos@.len() ==> m.contains_key(#[trigger] self.pbos@[j].path@)
                        && m[self.pbos@[j].path@] == self.pbos@[j].info@,
                i <= n,
                processed == ks.take(i as int).filter(key_pred(m, p_ok)).len(),
                empty == ks.take(i as int).filter(key_pred(m, p_empty)).len(),
                no_matching_files == ks.take(i as int).filter(key_pred(m, p_none)).len(),
                invalid_format == ks.take(i as int).filter(key_pred(m, p_invalid)).len(),
                failed == ks.take(i as int).filter(key_pred(m, p_failed)).len(),
                missing_expected_files == ks.take(i as int).filter(key_pred(m, p_missing)).len(),
            decreases n - i,
        {
            let info = &self.pbos[i].info;
            proof {
                assert(ks[i as int] == self.pbos@[i as int].path@);
                assert(m[ks[i as int]] == info@);
                lemma_tally_step(m, ks, p_ok, i as int);
                lemma_tally_step(m, ks, p_empty, i as int);
                lemma_tally_step(m, ks, p_none, i as int);
                lemma_tally_step(m, ks, p_invalid, i as int);
                lemma_tally_step(m, ks, p_failed, i as int);
                lemma_tally_step(m, ks, p_missing, i as int);
            }
            if info.failed {
                match info.skip_reason {
                    Some(SkipReason::Empty) => empty = empty + 1,
                    Some(SkipReason::NoMatchingFiles) => no_matching_files = no_matching_files + 1,
                    Some(SkipReason::InvalidFormat) => invalid_format = invalid_format + 1,
                    Some(SkipReason::Failed) => failed = failed + 1,
                    Some(SkipReason::MissingExpectedFiles) => {
                        missing_expected_files = missing_expected_files + 1
                    },
                    None => failed = failed + 1,
                }
            } else {
                processed = processed + 1;
            }
            i = i + 1;
        }
        proof {
            assert(ks.take(n as int) =~= ks);
            self.lemma_dom_len();
            lemma_count_by_keys(m, ks, p_ok);
            lemma_count_by_keys(m, ks, p_empty);
            lemma_count_by_keys(m, ks, p_none);
            lemma_count_by_keys(m, ks, p_invalid);
            lemma_count_by_keys(m, ks, p_failed);
            lemma_count_by_keys(m, ks, p_missing);
        }
        ScanStats {
            total: n,
            processed,
            empty,
            no_matching_files,
            invalid_format,
            failed,
            unchanged: 0,
            previously_failed: 0,
            missing_expected_files,
        }
    }

    /// Whether the archive at `path`, whose fingerprint is now `hash`, has to
    /// be processed.
    pub fn needs_processing(&self, path: &str, hash: &str) -> (r: bool)
        ensures
            r == needs_processing_spec(self@, path@, hash@),
    {
        match self.get_pbo_info(path) {
            Some(info) => {
                let current = hash.to_owned();
                info.failed || info.hash != current
            },
            None => true,
        }
    }
}

/// A failed archive is always processed again, whatever its fingerprint.
pub proof fn lemma_failed_always_retried(
    m: Map<Seq<char>, PboRecord>,
    path: Seq<char>,
    hash: Seq<char>,
)
    requires
        m.contains_key(path),
        m[path].failed,
    ensures
        needs_processing_spec(m, path, hash),
{
}

/// An extraction that placed some of the expected files, or others, is a
/// success without a reason.
pub proof fn lemma_partial_extraction_succeeds(
    hash: Seq<char>,
    expected: Seq<Seq<char>>,
    extracted: Seq<Seq<char>>,
)
    requires
        extracted.len() > 0,
    ensures
        !files_record(hash, expected, extracted).failed,
        files_record(hash, expected, extracted).skip_reason is None,
{
}

/// An extraction that placed no file, where files were expected, is a
/// failure for missing expected files.
pub proof fn lemma_zero_extraction_fails(
    hash: Seq<char>,
    expected: Seq<Seq<char>>,
    extracted: Seq<Seq<char>>,
)
    requires
        expected.len() > 0,
        extracted.len() == 0,
    ensures
        files_record(hash, expected, extracted).failed,
        files_record(hash, expected, extracted).skip_reason == Some(
            SkipReason::MissingExpectedFiles,
        ),
{
}

/// An extraction that placed files makes the next change detection skip the
/// archive while its fingerprint stays the same.
pub proof fn lemma_success_is_skipped_next_time(
    m: Map<Seq<char>, PboRecord>,
    path: Seq<char>,
    hash: Seq<char>,
    expected: Seq<Seq<char>>,
    extracted: Seq<Seq<char>>,
)
    requires
        extracted.len() > 0,
    ensures
        !needs_processing_spec(m.insert(path, files_record(hash, expected, extracted)), path, hash),
{
}

/// Whether `name` is one of `names`.
pub fn contains_name(names: &Vec<String>, name: &String) -> (r: bool)
    ensures
        r == names.deep_view().contains(name@),
{
    let mut i: usize = 0;
    while i < names.len()
        invariant
            i <= names@.len(),
            forall|j: int| 0 <= j < i ==> names.deep_view()[j] != name@,
        decreases names@.len() - i,
    {
        if names[i] == *name {
            proof {
                assert(names.deep_view()[i as int] == name@);
            }
            return true;
        }
        i = i + 1;
    }
    false
}

/// Whether every expected file is among the extracted ones. A record keeps
/// this apart from its outcome: an extraction that missed some expected files
/// still succeeds.
pub fn all_files_extracted(expected: &Vec<String>, extracted: &Vec<String>) -> (r: bool)
    ensures
        r == all_extracted_spec(expected.deep_view(), extracted.deep_view()),
{
    let mut i: usize = 0;
    while i < expected.len()
        invariant
            i <= expected@.len(),
            forall|j: int|
                0 <= j < i ==> extracted.deep_view().contains(#[trigger] expected.deep_view()[j]),
        decreases expected@.len() - i,
    {
        if !contains_name(extracted, &expected[i]) {
            proof {
                assert(expected.deep_view()[i as int] == expected@[i as int]@);
                assert(!extracted.deep_view().contains(expected.deep_view()[i as int]));
            }
            return false;
        }
        i = i + 1;
    }
    true
}

/// Counting one more key adds one where its record satisfies `p`.
proof fn lemma_tally_step(
    m: Map<Seq<char>, PboRecord>,
    ks: Seq<Seq<char>>,
    p: spec_fn(PboRecord) -> bool,
    i: int,
)
    requires
        0 <= i < ks.len(),
    ensures
        ks.take(i + 1).filter(key_pred(m, p)).len() == ks.take(i).filter(key_pred(m, p)).len() + (
        if p(m[ks[i]]) {
            1int
        } else {
            0int
        }),
{
    assert(ks.take(i + 1) =~= ks.take(i).push(ks[i]));
    ks.take(i).lemma_filter_len_push(key_pred(m, p), ks[i]);
}

/// Filtering keeps a sequence free of duplicates.
proof fn lemma_filter_no_duplicates<A>(s: Seq<A>, p: spec_fn(A) -> bool)
    requires
        s.no_duplicates(),
    ensures
        s.filter(p).no_duplicates(),
    decreases s.len(),
{
    reveal(Seq::filter);
    if s.len() > 0 {
        let rest = s.drop_last();
        let last = s.last();
        assert(rest.no_duplicates());
        lemma_filter_no_duplicates(rest, p);
        let f = rest.filter(p);
        if p(last) {
            if f.contains(last) {
                rest.lemma_filter_contains_rev(p, last);
                let j = rest.index_of(last);
                assert(s[j] == s[s.len() - 1]);
            }
            let g = f.push(last);
            assert forall|a: int, b: int| 0 <= a < b < g.len() implies g[a] != g[b] by {
                if b == g.len() - 1 {
                    assert(f.contains(g[a]));
                }
            }
        }
    }
}

/// Where `ks` lists each key of `m` once, the records of `m` that satisfy
/// `p` are counted by the keys whose record does.
proof fn lemma_count_by_keys(
    m: Map<Seq<char>, PboRecord>,
    ks: Seq<Seq<char>>,
    p: spec_fn(PboRecord) -> bool,
)
    requires
        ks.no_duplicates(),
        forall|k: Seq<char>| #[trigger] m.contains_key(k) <==> ks.contains(k),
    ensures
        count_where(m, p) == ks.filter(key_pred(m, p)).len(),
{
    let q = key_pred(m, p);
    let f = ks.filter(q);
    lemma_filter_no_duplicates(ks, q);
    f.unique_seq_to_set();
    assert forall|k: Seq<char>| f.to_set().contains(k) <==> m.dom().filter(q).contains(k) by {
        if f.contains(k) {
            ks.lemma_filter_contains_rev(q, k);
            let j = f.index_of(k);
            assert(q(f[j]));
        }
        if m.dom().contains(k) && q(k) {
            let j = ks.index_of(k);
            ks.lemma_filter_contains(q, j);
        }
    }
    assert(f.to_set() =~= m.dom().filter(q));
}

/// The position of `key` among the paths of `entries`, if it is there.
fn position_of(entries: &Vec<PboEntry>, key: &String) -> (r: Option<usize>)
    ensures
        r is None ==> !keys_of(entries@).contains(key@),
        r matches Some(i) ==> i < entries@.len() && entries@[i as int].path@ == key@,
{
    let mut i: usize = 0;
    while i < entries.len()
        invariant
            i <= entries@.len(),
            forall|j: int| 0 <= j < i ==> entries@[j].path@ != key@,
        decreases entries@.len() - i,
    {
        if entries[i].path == *key {
            return Some(i);
        }
        i = i + 1;
    }
    proof {
        if keys_of(entries@).contains(key@) {
            let j = keys_of(entries@).index_of(key@);
            assert(entries@[j].path@ == key@);
        }
    }
    None
}

impl Default for ScanDatabase {
    fn default() -> (r: Self)
        ensures
            r@ == Map::<Seq<char>, PboRecord>::empty(),
    {
        ScanDatabase::new()
    }
}

} // verus!
