use extraction::coordinator::{any_expected, check_candidates, is_archive, record_scan_failure, verify_run, PipelineError};
use extraction::database::all_files_extracted;
use extraction::fingerprint::{calculate_file_hash, to_hex};
use extraction::processor::{
    join, record_outcome, relative_path, step, without_extension, ExtractAction, ExtractEvent,
    ExtractOutcome, ExtractStage, PboProcessor, Strategy,
};
use extraction::scanner::{
    filter_matching, listing_needed, scan_pbo_contents, PboHashResult, PboScanResult, PreScanner,
    ScanError,
};
use extraction::{ScanDatabase, SkipReason};

fn names(v: &[&str]) -> Vec<String> {
    v.iter().map(|s| s.to_string()).collect()
}

fn scan(path: &str, hash: &str, expected: &[&str]) -> PboScanResult {
    PboScanResult { path: path.to_string(), hash: hash.to_string(), expected_files: names(expected) }
}

/// Drives one archive through the extraction machine, answering each action
/// from the given results; returns the outcome and the number of attempts.
fn drive(
    processor: &PboProcessor,
    db: &ScanDatabase,
    s: &PboScanResult,
    prefix: Option<&str>,
    attempts_ok: &[bool],
    on_disk: &[&str],
) -> (ExtractOutcome, usize, Vec<String>) {
    let mut stage = processor.begin(db, s);
    let mut attempts = 0;
    let mut dirs = Vec::new();
    loop {
        let event = match processor.action(&stage) {
            ExtractAction::ListContents(base) => {
                dirs.push(base);
                match prefix {
                    Some(p) => ExtractEvent::Listed(p.to_string()),
                    None => ExtractEvent::ListingFailed,
                }
            }
            ExtractAction::Extract(_, out) => {
                dirs.push(out);
                let ok = attempts_ok[attempts];
                attempts += 1;
                if ok { ExtractEvent::ExtractSucceeded } else { ExtractEvent::ExtractFailed }
            }
            ExtractAction::CountOutput(_) => ExtractEvent::Counted(names(on_disk)),
            ExtractAction::Finish => break,
        };
        stage = step(stage, event);
    }
    match stage {
        ExtractStage::Done(o) => (o, attempts, dirs),
        _ => unreachable!(),
    }
}

#[test]
fn stats_one_record_of_each_kind() {
    let mut db = ScanDatabase::new();
    db.update_pbo_with_files("/a/success.pbo", "h1", names(&["x.sqf"]), names(&["x.sqf"]));
    db.update_pbo_with_reason("/a/empty.pbo", "h2", true, SkipReason::Empty);
    db.update_pbo_with_reason("/a/none.pbo", "h3", true, SkipReason::NoMatchingFiles);
    db.update_pbo_with_reason("/a/invalid.pbo", "h4", true, SkipReason::InvalidFormat);
    db.update_pbo_with_reason("/a/failed.pbo", "h5", true, SkipReason::Failed);
    db.update_pbo_with_files("/a/missing.pbo", "h6", names(&["x.sqf"]), vec![]);
    let stats = db.get_stats();
    assert_eq!(stats.total, 6);
    assert_eq!(stats.processed, 1);
    assert_eq!(stats.empty, 1);
    assert_eq!(stats.no_matching_files, 1);
    assert_eq!(stats.invalid_format, 1);
    assert_eq!(stats.failed, 1);
    assert_eq!(stats.missing_expected_files, 1);
    assert_eq!(stats.unchanged, 0);
    assert_eq!(stats.previously_failed, 0);
}

#[test]
fn stats_of_empty_cache_and_failure_without_reason() {
    let mut db = ScanDatabase::new();
    let stats = db.get_stats();
    assert_eq!(stats.total, 0);
    assert_eq!(stats.processed, 0);
    db.update_pbo("/a/x.pbo", "h", true);
    let stats = db.get_stats();
    assert_eq!(stats.total, 1);
    assert_eq!(stats.failed, 1);
}

#[test]
fn upsert_keeps_one_record_per_path() {
    let mut db = ScanDatabase::new();
    db.update_pbo("/a/x.pbo", "h1", true);
    db.update_pbo("/a/x.pbo", "h2", false);
    assert_eq!(db.len(), 1);
    assert_eq!(db.entries().len(), 1);
    assert_eq!(db.get_pbo_info("/a/x.pbo").unwrap().hash, "h2");
    assert!(db.get_pbo_info("/a/y.pbo").is_none());
}

#[test]
fn partial_extraction_is_success() {
    let mut db = ScanDatabase::new();
    let ok = db.update_pbo_with_files("/a/p.pbo", "h", names(&["a", "b", "c"]), names(&["a", "b"]));
    assert!(ok);
    let info = db.get_pbo_info("/a/p.pbo").unwrap();
    assert!(!info.failed);
    assert!(info.skip_reason.is_none());
    assert!(!all_files_extracted(info.expected_files.as_ref().unwrap(), info.extracted_files.as_ref().unwrap()));
}

#[test]
fn zero_extraction_is_failure() {
    let mut db = ScanDatabase::new();
    let ok = db.update_pbo_with_files("/a/p.pbo", "h", names(&["a"]), vec![]);
    assert!(!ok);
    let info = db.get_pbo_info("/a/p.pbo").unwrap();
    assert!(info.failed);
    assert_eq!(info.skip_reason, Some(SkipReason::MissingExpectedFiles));
}

#[test]
fn all_files_extracted_checks_every_expected_name() {
    assert!(all_files_extracted(&names(&["a", "b"]), &names(&["b", "a", "c"])));
    assert!(!all_files_extracted(&names(&["a", "b"]), &names(&["a"])));
    assert!(all_files_extracted(&vec![], &vec![]));
}

#[test]
fn no_matching_files_is_recorded_without_extraction() {
    let db = ScanDatabase::new();
    let processor = PboProcessor::new("/in", "/out", "sqf", 1, 30);
    let s = scan("/in/mod.pbo", "h", &[]);
    let (outcome, attempts, dirs) = drive(&processor, &db, &s, Some(""), &[], &[]);
    assert!(matches!(outcome, ExtractOutcome::NoMatchingFiles));
    assert_eq!(attempts, 0);
    assert!(dirs.is_empty());
    let mut db = db;
    record_outcome(&mut db, s, outcome);
    let info = db.get_pbo_info("/in/mod.pbo").unwrap();
    assert!(info.failed);
    assert_eq!(info.skip_reason, Some(SkipReason::NoMatchingFiles));
}

#[test]
fn end_to_end_run_and_unchanged_rerun() {
    let mut db = ScanDatabase::new();
    let content = b"mock archive declaring file1.sqf and file2.sqf";
    let hash = calculate_file_hash(content.len() as u64, 1_700_000_000, content);
    let candidates = vec![PboHashResult { path: "/in/addons/mod.pbo".to_string(), hash: hash.clone() }];

    let pending = PreScanner::select_pending(&db, &candidates);
    assert_eq!(pending.len(), 1);
    let hashed = PboHashResult { path: pending[0].path.clone(), hash: pending[0].hash.clone() };
    let listing = Some(names(&["file1.sqf", "file2.sqf"]));
    let s = scan_pbo_contents(hashed, content.len() as u64, listing, "sqf").unwrap();
    assert_eq!(s.expected_files, names(&["file1.sqf", "file2.sqf"]));
    assert!(any_expected(&vec![scan("/x", "h", &["file1.sqf"])]));

    let processor = PboProcessor::new("/in", "/out", "sqf", 2, 30);
    let (outcome, attempts, dirs) =
        drive(&processor, &db, &s, Some(""), &[true], &["file1.sqf", "file2.sqf"]);
    assert_eq!(attempts, 1);
    assert_eq!(dirs, names(&["/out/addons/mod", "/out/addons/mod"]));
    record_outcome(&mut db, s, outcome);

    let info = db.get_pbo_info("/in/addons/mod.pbo").unwrap();
    assert!(!info.failed);
    assert!(info.skip_reason.is_none());
    assert_eq!(info.expected_files.as_ref().unwrap().len(), 2);
    assert_eq!(info.extracted_files.as_ref().unwrap().len(), 2);
    assert_eq!(info.hash, hash);
    assert!(verify_run(true, 2).is_ok());

    // Second run: same size, time and content.
    let hash_again = calculate_file_hash(content.len() as u64, 1_700_000_000, content);
    assert_eq!(hash_again, hash);
    let candidates = vec![PboHashResult { path: "/in/addons/mod.pbo".to_string(), hash: hash_again }];
    let pending = PreScanner::select_pending(&db, &candidates);
    assert!(pending.is_empty());
    let s = scan("/in/addons/mod.pbo", &hash, &["file1.sqf", "file2.sqf"]);
    let (outcome, attempts, _) = drive(&processor, &db, &s, Some(""), &[true], &["file1.sqf"]);
    assert!(matches!(outcome, ExtractOutcome::Unchanged));
    assert_eq!(attempts, 0);
    record_outcome(&mut db, s, outcome);
    let info = db.get_pbo_info("/in/addons/mod.pbo").unwrap();
    assert_eq!(info.extracted_files.as_ref().unwrap().len(), 2);
    assert_eq!(db.len(), 1);
}

#[test]
fn failed_record_is_retried_under_same_fingerprint() {
    let mut db = ScanDatabase::new();
    db.update_pbo_with_reason("/in/a.pbo", "h", true, SkipReason::Empty);
    let r = PreScanner::check_pbo_hash(&db, "/in/a.pbo", "h".to_string());
    assert_eq!(r.unwrap().hash, "h");
    db.update_pbo("/in/a.pbo", "h", false);
    let r = PreScanner::check_pbo_hash(&db, "/in/a.pbo", "h".to_string());
    assert_eq!(r.unwrap_err(), ScanError::Unchanged);
    let r = PreScanner::check_pbo_hash(&db, "/in/a.pbo", "other".to_string());
    assert!(r.is_ok());
}

#[test]
fn scan_pbo_checks_fingerprint_before_listing() {
    let mut db = ScanDatabase::new();
    db.update_pbo("/in/a.pbo", "h", false);
    let r = PreScanner::scan_pbo(&db, "/in/a.pbo", "h".to_string(), 10, Some(names(&["a.sqf"])), "sqf");
    assert_eq!(r.unwrap_err(), ScanError::Unchanged);
    let r = PreScanner::scan_pbo(&db, "/in/b.pbo", "h".to_string(), 10, None, "sqf");
    assert_eq!(r.unwrap_err(), ScanError::ListingFailed);
    let r = PreScanner::scan_pbo(&db, "/in/b.pbo", "h".to_string(), 10, Some(names(&["x.sqf", "y.hpp"])), "sqf");
    assert_eq!(r.unwrap().expected_files, names(&["x.sqf"]));
}

#[test]
fn empty_archive_is_not_listed() {
    assert!(!listing_needed(0));
    assert!(listing_needed(1));
    let hashed = PboHashResult { path: "/in/e.pbo".to_string(), hash: "h".to_string() };
    let s = scan_pbo_contents(hashed, 0, None, "sqf").unwrap();
    assert!(s.expected_files.is_empty());
}

#[test]
fn listing_failure_is_recorded_as_invalid_format() {
    let mut db = ScanDatabase::new();
    let hashed = PboHashResult { path: "/in/bad.pbo".to_string(), hash: "h".to_string() };
    let r = scan_pbo_contents(hashed, 10, None, "sqf");
    assert_eq!(r.unwrap_err(), ScanError::ListingFailed);
    record_scan_failure(&mut db, "/in/bad.pbo", "h");
    assert_eq!(db.get_pbo_info("/in/bad.pbo").unwrap().skip_reason, Some(SkipReason::InvalidFormat));

    let processor = PboProcessor::new("/in", "/out", "sqf", 1, 30);
    let s = scan("/in/bad.pbo", "h2", &["a.sqf"]);
    let (outcome, attempts, _) = drive(&processor, &db, &s, None, &[], &[]);
    assert!(matches!(outcome, ExtractOutcome::InvalidFormat));
    assert_eq!(attempts, 0);
}

#[test]
fn strategies_are_tried_in_order_until_one_succeeds() {
    let db = ScanDatabase::new();
    let processor = PboProcessor::new("/in", "/out", "sqf,hpp", 1, 30);
    let s = scan("/in/m.pbo", "h", &["a.sqf"]);
    let (outcome, attempts, dirs) = drive(&processor, &db, &s, Some("x\\prefix"), &[false, false, true], &["a.sqf"]);
    assert_eq!(attempts, 3);
    assert_eq!(dirs[1], "/out/m/x\\prefix");
    assert!(matches!(outcome, ExtractOutcome::Extracted(ref f) if f == &names(&["a.sqf"])));

    let (outcome, attempts, _) = drive(&processor, &db, &s, Some(""), &[false, false, false], &[]);
    assert_eq!(attempts, 3);
    assert!(matches!(outcome, ExtractOutcome::ExtractionFailed));

    let r = processor.extract_request(Strategy::Standard);
    assert!(r.with_options);
    assert_eq!(r.filter.as_deref(), Some("sqf,hpp"));
    let r = processor.extract_request(Strategy::Permissive);
    assert!(r.with_options && r.filter.is_none());
    let r = processor.extract_request(Strategy::Direct);
    assert!(!r.with_options && r.filter.is_none());
}

#[test]
fn success_is_decided_by_files_on_disk() {
    let mut db = ScanDatabase::new();
    let processor = PboProcessor::new("/in", "/out", "sqf", 1, 30);
    let s = scan("/in/m.pbo", "h", &["a.sqf", "b.sqf"]);
    let (outcome, _, _) = drive(&processor, &db, &s, Some(""), &[true], &[]);
    assert!(matches!(outcome, ExtractOutcome::Empty));
    record_outcome(&mut db, s, outcome);
    let info = db.get_pbo_info("/in/m.pbo").unwrap();
    assert!(info.failed);
    assert_eq!(info.skip_reason, Some(SkipReason::Empty));

    let s = scan("/in/m.pbo", "h", &["a.sqf", "b.sqf"]);
    let (outcome, _, _) = drive(&processor, &db, &s, Some(""), &[true], &["other.txt"]);
    record_outcome(&mut db, s, outcome);
    let info = db.get_pbo_info("/in/m.pbo").unwrap();
    assert!(!info.failed);
    assert_eq!(info.extracted_files.as_ref().unwrap(), &names(&["other.txt"]));
}

#[test]
fn events_that_do_not_answer_leave_the_stage() {
    let stage = step(ExtractStage::Counting("/out/m".to_string()), ExtractEvent::ExtractFailed);
    assert!(matches!(stage, ExtractStage::Counting(ref d) if d == "/out/m"));
    let stage = step(ExtractStage::Done(ExtractOutcome::Empty), ExtractEvent::Listed(String::new()));
    assert!(matches!(stage, ExtractStage::Done(ExtractOutcome::Empty)));
}

#[test]
fn archive_outside_input_is_left_alone() {
    let mut db = ScanDatabase::new();
    let processor = PboProcessor::new("/in", "/out", "sqf", 1, 30);
    let s = scan("/elsewhere/m.pbo", "h", &["a.sqf"]);
    let (outcome, attempts, _) = drive(&processor, &db, &s, Some(""), &[true], &["a.sqf"]);
    assert!(matches!(outcome, ExtractOutcome::NotUnderInput));
    assert_eq!(attempts, 0);
    record_outcome(&mut db, s, outcome);
    assert_eq!(db.len(), 0);
}

#[test]
fn output_paths_are_derived_from_the_archive_path() {
    assert_eq!(relative_path("/in", "/in/a/b.pbo").as_deref(), Some("a/b.pbo"));
    assert_eq!(relative_path("/in/", "/in/a/b.pbo").as_deref(), Some("a/b.pbo"));
    assert_eq!(relative_path("/in", "/inx/b.pbo"), None);
    assert_eq!(relative_path("/in", "/in"), None);
    assert_eq!(without_extension("a/b.pbo"), "a/b");
    assert_eq!(without_extension("a.d/b"), "a.d/b");
    assert_eq!(join("/out", ""), "/out");
    assert_eq!(join("/out/", "x"), "/out/x");
    assert_eq!(join("/out", "x/y"), "/out/x/y");
    let processor = PboProcessor::new("/in", "/out", "sqf", 1, 30);
    assert_eq!(processor.base_dir("/in/sub/mod.pbo").as_deref(), Some("/out/sub/mod"));
    assert_eq!(processor.base_dir("/other/mod.pbo"), None);
}

#[test]
fn run_level_checks() {
    assert!(is_archive("/in/a.pbo"));
    assert!(!is_archive("/in/a.PBO"));
    assert!(!is_archive("/in/pbo"));
    assert!(!is_archive("/in/a.pbo.bak"));
    assert_eq!(check_candidates(0), Err(PipelineError::NoArchivesFound));
    assert_eq!(check_candidates(3), Ok(()));
    assert_eq!(verify_run(true, 0), Err(PipelineError::ExtractionVerificationFailed));
    assert_eq!(verify_run(false, 0), Ok(()));
    assert!(!any_expected(&vec![scan("/x", "h", &[])]));
    assert!(!any_expected(&vec![]));
}

#[test]
fn filter_keeps_listing_order() {
    let files = names(&["b.sqf", "a.hpp", "c.SQF", "d.txt", "noext"]);
    assert_eq!(filter_matching(&files, "sqf"), names(&["b.sqf", "c.SQF"]));
    assert_eq!(filter_matching(&files, ""), files);
}

#[test]
fn fingerprint_exact_values() {
    assert_eq!(
        calculate_file_hash(0, 0, &[]),
        "374708fff7719dd5979ec875d56cd2286f6d3cf7ec317a3b25632aab28ec37bb"
    );
    assert_eq!(
        calculate_file_hash(12, 1_700_000_000, b"test content"),
        "87a112a9313678712831892f0c549313c1d04d8ed1c584644b2ee72e4454040d"
    );
}

#[test]
fn fingerprint_changes_with_each_input() {
    let head = vec![7u8; 5000];
    let base = calculate_file_hash(5000, 100, &head);
    assert_eq!(base.len(), 64);
    assert!(base.chars().all(|c| c.is_ascii_hexdigit() && !c.is_ascii_uppercase()));
    assert_eq!(calculate_file_hash(5000, 100, &head), base);
    assert_ne!(calculate_file_hash(5001, 100, &head), base);
    assert_ne!(calculate_file_hash(5000, 101, &head), base);
    let mut changed = head.clone();
    changed[4095] = 8;
    assert_ne!(calculate_file_hash(5000, 100, &changed), base);
    let mut beyond = head.clone();
    beyond[4096] = 8;
    assert_eq!(calculate_file_hash(5000, 100, &beyond), base);
}

#[test]
fn hex_is_lowercase_two_digits_per_byte() {
    assert_eq!(to_hex(&vec![0x00, 0xab, 0xff, 0x10]), "00abff10");
    assert_eq!(to_hex(&vec![]), "");
}
