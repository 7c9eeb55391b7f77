use astra_sentinel::app::{
    max_file_size_fits, parse_max_file_size_mb, policy_text, validate_request, AstraApp,
    ExportOutcome, FeedSyncEvent, ResultFilter, ScanProgress,
};
use astra_sentinel::display::TargetMode;
use astra_sentinel::engine::{
    Elapsed, ScanEvent, ScanPolicy, ScanRequest, ScanResult, ScanSummary, ScanTarget, Verdict,
};
use astra_sentinel::feeds::FeedSyncSummary;
use astra_sentinel::report::ScanReport;
use astra_sentinel::signatures::HashAlgorithm;
use astra_sentinel::yara::parse_yara_output;

fn console() -> AstraApp {
    AstraApp::new(Some("db.txt".to_string()), None, Some("rules".to_string()), false)
}

fn result(path: &str, verdict: Verdict, threat: Option<&str>) -> ScanResult {
    let mut result = ScanResult::error(path.to_string(), String::new());
    result.verdict = verdict;
    result.threat_name = threat.map(str::to_string);
    result.error = None;
    result
}

fn started() -> AstraApp {
    let mut app = console();
    app.target_path = " target ".to_string();
    assert!(app.start_scan().is_some());
    app
}

#[test]
fn the_console_opens_at_rest() {
    let app = AstraApp::new(None, None, None, false);
    assert_eq!(app.database_path, "signatures/hashes.txt");
    assert_eq!(app.rules_path, "rules");
    assert!(!app.enable_yara);
    assert!(app.skip_hidden_paths);
    assert_eq!(app.add_hash_type, HashAlgorithm::Sha256);
    assert_eq!(app.status_message, "Workspace armed. Select a target to begin.");
    assert_eq!(app.feed_status_message, "Curated feeds not synced yet.");
    assert!(!app.is_scanning && app.cancel_flag.is_none());

    let found = AstraApp::new(None, Some("feeds/rules".to_string()), Some("r".to_string()), false);
    assert_eq!(found.rules_path, "feeds/rules");
    assert!(found.enable_yara);
    assert!(AstraApp::new(None, None, None, true).enable_yara);
}

#[test]
fn a_scan_is_started_with_what_was_entered() {
    let mut app = console();
    app.target_path = " dir \n".to_string();
    app.target_mode = TargetMode::Directory;
    app.max_file_size_mb = " 3 ".to_string();
    app.results.push(result("old", Verdict::Clean, None));
    app.progress.completed = 1;
    let request = app.start_scan().unwrap();
    assert!(matches!(request.target, ScanTarget::Directory(path) if path == "dir"));
    assert_eq!(request.database_path, "db.txt");
    assert_eq!(request.rules_path.unwrap(), "rules");
    assert!(request.policy.skip_hidden_paths);
    assert_eq!(request.policy.max_file_size_bytes, Some(3 * 1024 * 1024));
    assert!(app.is_scanning && app.awaits_scan);
    assert_eq!(app.cancel_flag, Some(false));
    assert!(app.results.is_empty());
    assert_eq!(app.progress, ScanProgress::default());
    assert_eq!(app.status_message, "Scan dispatched. Hashing and rule evaluation in progress.");
}

#[test]
fn a_scan_is_refused_where_something_is_missing() {
    let mut app = console();
    assert!(app.start_scan().is_none());
    assert_eq!(app.status_message, "Select a file to scan.");
    app.target_mode = TargetMode::Directory;
    assert!(app.start_scan().is_none());
    assert_eq!(app.status_message, "Select a directory to scan.");
    app.target_path = "dir".to_string();
    app.database_path = "  ".to_string();
    assert!(app.start_scan().is_none());
    assert_eq!(app.status_message, "Select a signature database.");
    app.database_path = "db".to_string();
    app.rules_path = String::new();
    assert!(app.start_scan().is_none());
    assert_eq!(app.status_message, "Select a YARA rule file or directory.");
    app.max_file_size_mb = "0".to_string();
    assert!(app.start_scan().is_none());
    assert_eq!(app.status_message, "Max File Size (MB) must be greater than zero.");
    app.max_file_size_mb = String::new();
    app.enable_yara = false;
    assert!(app.start_scan().unwrap().rules_path.is_none());
}

#[test]
fn requests_are_validated() {
    let request = ScanRequest {
        target: ScanTarget::File("f".to_string()),
        database_path: "db".to_string(),
        rules_path: None,
        policy: ScanPolicy::default(),
    };
    assert_eq!(validate_request(&request), Ok(()));
}

#[test]
fn size_limits_are_read() {
    assert_eq!(parse_max_file_size_mb("  "), Ok(None));
    assert_eq!(parse_max_file_size_mb(" 25 "), Ok(Some(26_214_400)));
    assert_eq!(parse_max_file_size_mb("+1"), Ok(Some(1_048_576)));
    for bad in ["x", "1.5", "-1", "99999999999999999999"] {
        assert_eq!(
            parse_max_file_size_mb(bad),
            Err("Max File Size (MB) must be a whole number.".to_string())
        );
    }
    assert_eq!(
        parse_max_file_size_mb("0"),
        Err("Max File Size (MB) must be greater than zero.".to_string())
    );
    assert!(max_file_size_fits("17592186044415"));
    assert_eq!(parse_max_file_size_mb("17592186044415"), Ok(Some(17_592_186_044_415 << 20)));
    assert!(!max_file_size_fits("17592186044416"));
    assert!(max_file_size_fits("x") && max_file_size_fits(""));
}

#[test]
fn policies_are_shown() {
    assert_eq!(policy_text(true, ""), "skip hidden | no size limit");
    assert_eq!(policy_text(false, "12"), "include hidden | max 12 MB");
    assert_eq!(policy_text(false, "bad"), "include hidden | no size limit");
}

#[test]
fn events_fill_the_console() {
    let mut app = started();
    app.poll_scan_events(
        vec![
            ScanEvent::Started { total: 0, signature_count: 4, rule_files: 2 },
            ScanEvent::FileScanned(result("a", Verdict::Clean, None)),
            ScanEvent::FileScanned(result("b", Verdict::Malicious, Some("T"))),
        ],
        Vec::new(),
    );
    assert_eq!(app.status_message, "Loaded 4 signatures and 2 YARA rule file(s).");
    assert_eq!(app.progress.completed, 2);
    assert_eq!(app.progress.signature_count, 4);
    assert_eq!(app.selected_result, Some(0));
    assert!(app.is_scanning);
    app.select_result(1);

    let summary = ScanSummary { files_scanned: 3, hash_detections: 1, ..ScanSummary::default() };
    app.poll_scan_events(
        vec![
            ScanEvent::FileScanned(result("c", Verdict::Clean, None)),
            ScanEvent::Finished { summary, cancelled: false },
        ],
        Vec::new(),
    );
    assert_eq!(app.status_message, "Scan complete: 3 files inspected, 1 hash hits, 0 YARA hits.");
    assert_eq!(app.results.len(), 3);
    assert_eq!(app.selected_result, Some(1));
    assert!(!app.is_scanning && !app.awaits_scan && app.cancel_flag.is_none());
    assert_eq!(app.summary, Some(summary));

    app.poll_scan_events(vec![ScanEvent::Failed("late".to_string())], Vec::new());
    assert_eq!(app.results.len(), 3);
    assert!(app.status_message.starts_with("Scan complete"));
}

#[test]
fn a_stopped_scan_says_so() {
    let mut app = console();
    app.stop_scan();
    assert_eq!(app.status_message, "Workspace armed. Select a target to begin.");
    let mut app = started();
    app.stop_scan();
    assert_eq!(app.cancel_flag, Some(true));
    assert_eq!(app.status_message, "Stopping scan after the current file completes.");
    let summary = ScanSummary { files_scanned: 9, ..ScanSummary::default() };
    app.poll_scan_events(vec![ScanEvent::Finished { summary, cancelled: true }], Vec::new());
    assert_eq!(app.status_message, "Scan stopped: 9 files inspected before cancellation.");
}

#[test]
fn a_failed_scan_says_so() {
    let mut app = started();
    app.poll_scan_events(vec![ScanEvent::Failed("no database".to_string())], Vec::new());
    assert_eq!(app.status_message, "no database");
    assert!(!app.is_scanning && app.summary.is_none());
}

#[test]
fn synced_feeds_become_the_rules() {
    let mut app = AstraApp::new(None, None, None, false);
    app.sync_curated_feeds();
    assert!(app.is_syncing_feeds);
    assert_eq!(app.feed_status_message, "Syncing curated threat feeds...");
    let mut summary = FeedSyncSummary::new("feeds/rules".to_string());
    summary.synced_feeds = 2;
    summary.total_rules = 40;
    app.poll_scan_events(Vec::new(), vec![FeedSyncEvent::Completed(summary)]);
    assert!(app.enable_yara && !app.is_syncing_feeds && !app.awaits_feeds);
    assert_eq!(app.rules_path, "feeds/rules");
    assert_eq!(app.feed_status_message, "Synced 2 feeds and 40 rules into feeds/rules.");
    assert!(app.feed_summary.is_some());

    app.sync_curated_feeds();
    app.poll_scan_events(Vec::new(), vec![FeedSyncEvent::Failed("offline".to_string())]);
    assert_eq!(app.feed_status_message, "offline");
    assert!(!app.is_syncing_feeds);
}

#[test]
fn signatures_are_added_from_the_form() {
    let mut app = console();
    app.database_path = " db.txt ".to_string();
    app.add_hash_type = HashAlgorithm::Md5;
    app.add_hash_value = "AA".repeat(16);
    assert!(app.add_signature().is_none());
    assert_eq!(app.status_message, "threat name is required");
    app.add_threat_name = "Beacon".to_string();
    let (path, record) = app.add_signature().unwrap();
    assert_eq!(path, "db.txt");
    assert_eq!(record, format!("MD5|{}|Beacon\n", "aa".repeat(16)));
    app.signature_appended(Err("could not open db.txt for writing".to_string()));
    assert_eq!(app.status_message, "could not open db.txt for writing");
    assert_eq!(app.add_threat_name, "Beacon");
    app.signature_appended(Ok(()));
    assert_eq!(app.status_message, "Added MD5 signature to db.txt.");
    assert!(app.add_hash_value.is_empty() && app.add_threat_name.is_empty());
}

#[test]
fn results_are_listed_by_filter_and_query() {
    let mut app = console();
    app.results = vec![
        result("/a/Invoice.PDF", Verdict::Clean, None),
        result("/a/run.exe", Verdict::Malicious, Some("Invoice Stealer")),
        result("/b/x", Verdict::Error, None),
    ];
    assert_eq!(app.filtered_result_indices(), vec![0, 1, 2]);
    app.results_search = " INVOICE ".to_string();
    assert_eq!(app.filtered_result_indices(), vec![0, 1]);
    app.results_search = "invoice".to_string();
    assert_eq!(app.filtered_result_indices(), vec![0, 1]);
    app.result_filter = ResultFilter::Malicious;
    assert_eq!(app.filtered_result_indices(), vec![1]);
    app.result_filter = ResultFilter::Errors;
    assert!(app.filtered_result_indices().is_empty());
    app.results_search = String::new();
    assert_eq!(app.filtered_result_indices(), vec![2]);
    app.result_filter = ResultFilter::Clean;
    assert_eq!(app.filtered_result_indices(), vec![0]);
}

#[test]
fn results_are_cleared() {
    let mut app = started();
    app.poll_scan_events(
        vec![ScanEvent::FileScanned(result("a", Verdict::Clean, None))],
        Vec::new(),
    );
    app.clear_results();
    assert!(app.results.is_empty() && app.selected_result.is_none());
    assert_eq!(app.progress.completed, 0);
    assert_eq!(app.status_message, "Results cleared. Workspace is ready.");
}

#[test]
fn reports_need_a_scan() {
    let mut app = console();
    assert!(app.export_report().is_none());
    assert_eq!(app.status_message, "Run a scan before exporting a report.");
    app.report_exported(ExportOutcome::Written("r.json".to_string()));
    assert_eq!(app.status_message, "Exported report to r.json.");
    app.report_exported(ExportOutcome::NotWritten("full".to_string()));
    assert_eq!(app.status_message, "Failed to write report: full");
    app.report_exported(ExportOutcome::NotSerialized("odd".to_string()));
    assert_eq!(app.status_message, "Failed to serialize report: odd");
}

#[test]
fn reports_say_what_the_console_shows() {
    let mut app = console();
    app.target_path = "t".to_string();
    app.max_file_size_mb = "7".to_string();
    let mut found = result("f", Verdict::Malicious, Some("Threat"));
    found.detected = true;
    found.match_type = Some(HashAlgorithm::Sha1);
    found.match_hash = Some("abcd".to_string());
    found.sha1 = "abcd".to_string();
    found.scan_time = Elapsed { secs: 0, nanos: 12_900_000 };
    let long = format!("evil [x,y] f\n0x20:$a: {}\n", "z".repeat(50));
    found.yara_matches = parse_yara_output(&long, "ns");
    app.results = vec![found];
    let summary = ScanSummary {
        files_scanned: 1,
        hash_detections: 1,
        yara_detections: 1,
        errors: 0,
        skipped_files: 4,
        elapsed: Elapsed { secs: 2, nanos: 5_000_000 },
    };
    let report = ScanReport::from_app(&app, summary, 1_700_000_000);
    assert_eq!(report.product, "Astra Sentinel");
    assert_eq!(report.version, "0.3.0");
    assert_eq!(report.generated_at_epoch_seconds, 1_700_000_000);
    assert_eq!(report.target_mode, "Single File");
    assert_eq!(report.signature_database, "db.txt");
    assert_eq!(report.yara_rules_path.as_deref(), Some("rules"));
    assert_eq!(report.max_file_size_mb, Some(7));
    assert_eq!(report.summary.elapsed_ms, 2005);
    assert_eq!(report.summary.skipped_files, 4);
    let only = &report.results[0];
    assert_eq!(only.verdict, "MALICIOUS");
    assert_eq!(only.match_type.as_deref(), Some("SHA1"));
    assert_eq!(only.threat_name.as_deref(), Some("Threat"));
    assert_eq!(only.hashes.sha1, "abcd");
    assert_eq!(only.scan_time_ms, 12);
    assert!(only.error.is_none());
    assert_eq!(only.yara_matches[0].namespace, "ns");
    assert_eq!(only.yara_matches[0].tags, vec!["x".to_string(), "y".to_string()]);
    assert_eq!(only.yara_matches[0].strings[0].offset, 32);
    assert_eq!(only.yara_matches[0].strings[0].preview, format!("{}...", "z".repeat(40)));

    app.enable_yara = false;
    app.max_file_size_mb = "none".to_string();
    let plain = ScanReport::from_app(&app, summary, 0);
    assert!(plain.yara_rules_path.is_none() && plain.max_file_size_mb.is_none());
}
