use astra_sentinel::display::{
    elapsed_text, feed_rules_text, format_duration, hash_detections_text, hash_text, mark_beginning,
    match_count_text, match_type_text, mode_label, preview_bytes, processed_text, progress_text,
    result_text, rule_count_text, rule_text, scan_time_text, shown_count_text, skipped_text,
    string_text, truncate_middle, verdict_badge_label, yara_detections_text, TargetMode,
};
use astra_sentinel::engine::{Elapsed, ScanResult, ScanSummary, Verdict};
use astra_sentinel::feeds::FeedSyncSummary;
use astra_sentinel::signatures::HashAlgorithm;
use astra_sentinel::yara::parse_yara_output;

#[test]
fn long_texts_lose_their_middle() {
    assert_eq!(truncate_middle("short", 5), "short");
    assert_eq!(truncate_middle("abcdefghij", 8), "ab...hij");
    assert_eq!(truncate_middle("abcdefghij", 9), "ab...ghij");
    assert_eq!(truncate_middle("abcdefghij", 4), "...j");
    assert_eq!(truncate_middle("", 0), "");
    let text = "\u{e9}".repeat(50);
    let short = truncate_middle(&text, 20);
    assert_eq!(short.chars().count(), 20);
    assert_eq!(truncate_middle(&short, 20), short);
}

#[test]
fn bytes_are_previewed() {
    assert_eq!(preview_bytes(b"WNcry"), "WNcry");
    assert_eq!(preview_bytes(&[b'a'; 40]), "a".repeat(40));
    assert_eq!(preview_bytes(&[b'a'; 41]), format!("{}...", "a".repeat(40)));
    assert_eq!(preview_bytes(b"a\xffb"), "a\u{fffd}b");
    assert_eq!(mark_beginning("x".to_string(), true), "x...");
    assert_eq!(mark_beginning("x".to_string(), false), "x");
}

#[test]
fn durations_are_shown() {
    assert_eq!(format_duration(Elapsed { secs: 0, nanos: 999_999_999 }, "1.00"), "999ms");
    assert_eq!(format_duration(Elapsed { secs: 0, nanos: 0 }, "0.00"), "0ms");
    assert_eq!(format_duration(Elapsed { secs: 1, nanos: 250_000_000 }, "1.25"), "1.25s");
}

#[test]
fn modes_and_verdicts_are_shown() {
    assert_eq!(mode_label(TargetMode::File), "Single File");
    assert_eq!(mode_label(TargetMode::Directory), "Directory Sweep");
    assert_eq!(verdict_badge_label(&Verdict::Clean), "Clean");
    assert_eq!(verdict_badge_label(&Verdict::Malicious), "Malicious");
    assert_eq!(verdict_badge_label(&Verdict::Error), "Error");
}

#[test]
fn counts_are_shown() {
    assert_eq!(progress_text(3, 0), "3/1");
    assert_eq!(progress_text(3, 10), "3/10");
    let summary = ScanSummary {
        files_scanned: 12,
        hash_detections: 3,
        yara_detections: 4,
        errors: 0,
        skipped_files: 5,
        elapsed: Elapsed { secs: 0, nanos: 7_000_000 },
    };
    assert_eq!(processed_text(Some(&summary), 99), "12");
    assert_eq!(processed_text(None, 99), "99");
    assert_eq!(hash_detections_text(Some(&summary)), "3");
    assert_eq!(hash_detections_text(None), "0");
    assert_eq!(yara_detections_text(Some(&summary)), "4");
    assert_eq!(yara_detections_text(None), "0");
    assert_eq!(elapsed_text(Some(&summary), "0.01"), "7ms");
    assert_eq!(elapsed_text(None, ""), "--");
    assert_eq!(skipped_text(Some(&summary)), "5");
    assert_eq!(skipped_text(None), "0");
    assert_eq!(shown_count_text(2), "2 shown");
    assert_eq!(rule_count_text(8), "8 rules imported");
}

#[test]
fn feeds_are_shown() {
    let mut summary = FeedSyncSummary::new("/very/long/path/to/some/feeds/rules/dir".to_string());
    summary.synced_feeds = 2;
    summary.total_rules = 31;
    assert_eq!(
        feed_rules_text(&summary),
        format!("2 feeds | 31 rules | {}", truncate_middle(&summary.destination, 34))
    );
}

#[test]
fn results_are_shown() {
    let mut result = ScanResult::error("/tmp/a.bin".to_string(), "x".to_string());
    assert_eq!(result_text(&result, Some("a.bin")), "a.bin\n/tmp/a.bin\nERROR");
    assert_eq!(result_text(&result, None), "/tmp/a.bin\n/tmp/a.bin\nERROR");
    result.yara_matches = parse_yara_output("evil f\n0x1f:$a: x\n", "apt");
    assert_eq!(match_count_text(&result), "1 YARA");
    assert_eq!(rule_text(&result.yara_matches[0]), "apt::evil");
    assert_eq!(string_text(&result.yara_matches[0].strings[0]), "$a @ 0x1f");
    assert_eq!(scan_time_text(&result, "0.00"), "Scan time 0ms");
    assert_eq!(match_type_text(HashAlgorithm::Sha256), "Matched SHA256");
    assert_eq!(hash_text(""), "-");
    assert_eq!(hash_text("abcd"), "abcd");
}
