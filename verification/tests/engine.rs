use astra_sentinel::digest::FileHasher;
use astra_sentinel::engine::{
    scan_file, should_skip_for_size, should_skip_hidden, update_summary, Elapsed, ScanPolicy,
    ScanResult, ScanSummary, Verdict,
};
use astra_sentinel::paths::{is_hidden_name, PathPart};
use astra_sentinel::signatures::{add_signature, HashAlgorithm, SignatureDb};
use astra_sentinel::yara::parse_yara_output;
use std::path::{Component, Path};

fn parts(path: &Path) -> Vec<PathPart> {
    path.components()
        .map(|component| match component {
            Component::Prefix(prefix) => {
                PathPart::Prefix(prefix.as_os_str().as_encoded_bytes().to_vec())
            }
            Component::RootDir => PathPart::RootDir,
            Component::CurDir => PathPart::CurDir,
            Component::ParentDir => PathPart::ParentDir,
            Component::Normal(name) => PathPart::Normal(name.as_encoded_bytes().to_vec()),
        })
        .collect()
}

#[test]
fn summary_counts_error_results() {
    let mut summary = ScanSummary::default();
    let result = ScanResult {
        file_path: "sample.bin".into(),
        md5: String::new(),
        sha1: String::new(),
        sha256: String::new(),
        detected: false,
        match_type: None,
        match_hash: None,
        threat_name: None,
        yara_matches: Vec::new(),
        verdict: Verdict::Error,
        scan_time: Default::default(),
        error: Some("boom".to_string()),
    };

    update_summary(&mut summary, &result);
    assert_eq!(summary.files_scanned, 1);
    assert_eq!(summary.errors, 1);
}

#[test]
fn hidden_paths_are_detected() {
    let policy = ScanPolicy { skip_hidden_paths: true, max_file_size_bytes: None };
    assert!(is_hidden_name(Some(".git".as_bytes())));
    assert!(should_skip_hidden(&parts(Path::new("/tmp/.git")), &policy));
    assert!(!should_skip_hidden(&parts(Path::new("/tmp/src")), &policy));
}

#[test]
fn hidden_paths_are_kept_without_the_policy() {
    let policy = ScanPolicy::default();
    assert!(!should_skip_hidden(&parts(Path::new("/tmp/.git")), &policy));
    let strict = ScanPolicy { skip_hidden_paths: true, max_file_size_bytes: None };
    assert!(!should_skip_hidden(&parts(Path::new("/")), &strict));
    assert!(!should_skip_hidden(&parts(Path::new("a/..")), &strict));
    assert!(!is_hidden_name(Some(b".")));
    assert!(!is_hidden_name(Some(b"..")));
    assert!(is_hidden_name(Some(b"...")));
    assert!(!is_hidden_name(Some(b".\xff")));
    assert!(!is_hidden_name(Some(b"")));
    assert!(!is_hidden_name(None));
}

#[test]
fn only_larger_files_are_skipped() {
    let policy = ScanPolicy { skip_hidden_paths: false, max_file_size_bytes: Some(100) };
    assert!(!should_skip_for_size(&policy, true, 100));
    assert!(should_skip_for_size(&policy, true, 101));
    assert!(!should_skip_for_size(&policy, false, 101));
    assert!(!should_skip_for_size(&ScanPolicy::default(), true, u64::MAX));
}

#[test]
fn spans_have_whole_milliseconds() {
    assert_eq!(Elapsed { secs: 2, nanos: 1_999_999 }.as_millis(), 2001);
    assert_eq!(Elapsed::default().as_millis(), 0);
}

#[test]
fn verdicts_have_labels() {
    assert_eq!(Verdict::Clean.label(), "CLEAN");
    assert_eq!(Verdict::Malicious.label(), "MALICIOUS");
    assert_eq!(Verdict::Error.label(), "ERROR");
}

fn database(lines: &str) -> SignatureDb {
    SignatureDb::load("db", lines.as_bytes(), true).unwrap()
}

#[test]
fn files_are_judged_by_hash_and_rules() {
    let time = Elapsed { secs: 1, nanos: 5 };
    let hashes = || FileHasher::new().update(b"abc").finish();
    let empty = database("");

    let clean = scan_file("f", Ok(hashes()), &empty, None, time);
    assert_eq!(clean.verdict, Verdict::Clean);
    assert_eq!(clean.scan_time, time);
    assert_eq!(clean.md5, "900150983cd24fb0d6963f7d28e17f72");

    let known = database("MD5|900150983CD24FB0D6963F7D28E17F72|Test File\n");
    let hit = scan_file("f", Ok(hashes()), &known, Some(Ok(Vec::new())), time);
    assert!(hit.detected);
    assert_eq!(hit.verdict, Verdict::Malicious);
    assert_eq!(hit.match_type, Some(HashAlgorithm::Md5));
    assert_eq!(hit.match_hash.unwrap(), "900150983cd24fb0d6963f7d28e17f72");
    assert_eq!(hit.threat_name.unwrap(), "Test File");

    let rules = parse_yara_output("evil f\n", "ns");
    let matched = scan_file("f", Ok(hashes()), &empty, Some(Ok(rules)), time);
    assert!(!matched.detected);
    assert_eq!(matched.verdict, Verdict::Malicious);
    assert_eq!(matched.yara_matches.len(), 1);

    let failed = scan_file("f", Ok(hashes()), &known, Some(Err("yara error: x".to_string())), time);
    assert!(failed.detected);
    assert_eq!(failed.verdict, Verdict::Error);
    assert_eq!(failed.error.unwrap(), "yara error: x");

    let unread = scan_file("f", Err("could not open file f".to_string()), &known, None, time);
    assert_eq!(unread.verdict, Verdict::Error);
    assert_eq!(unread.error.unwrap(), "could not open file f");
    assert!(unread.md5.is_empty());
}

#[test]
fn the_strongest_hash_is_reported() {
    let hashes = FileHasher::new().update(b"abc").finish();
    let lines = format!("MD5|{}|weak\nSHA1|{}|middle\n", hashes.md5, hashes.sha1);
    let result = scan_file("f", Ok(hashes), &database(&lines), None, Elapsed::default());
    assert_eq!(result.match_type, Some(HashAlgorithm::Sha1));
    assert_eq!(result.threat_name.unwrap(), "middle");
}

#[test]
fn an_added_file_is_found() {
    let hashes = FileHasher::new().update(b"sample").finish();
    let record = add_signature(HashAlgorithm::Sha256, &hashes.sha256, " Sample ").unwrap();
    let content = format!("# known files\nMD5|aa|other\n{record}");
    let result = scan_file("f", Ok(hashes), &database(&content), None, Elapsed::default());
    assert_eq!(result.verdict, Verdict::Malicious);
    assert_eq!(result.threat_name.unwrap(), "Sample");
}

#[test]
fn error_results_say_nothing_else() {
    let result = ScanResult::error("p".to_string(), "gone".to_string());
    assert_eq!(result.file_path, "p");
    assert_eq!(result.verdict, Verdict::Error);
    assert_eq!(result.error.unwrap(), "gone");
    assert!(!result.detected);
    assert_eq!(result.scan_time, Elapsed::default());
}
