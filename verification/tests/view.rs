use astra_sentinel::app::{AstraApp, ResultFilter};
use astra_sentinel::display::TargetMode;
use astra_sentinel::engine::{Elapsed, ScanResult, ScanSummary, Verdict};
use astra_sentinel::feeds::{curated_feeds, FeedSyncSummary};
use astra_sentinel::paths::PathPart;
use astra_sentinel::signatures::HashAlgorithm;
use astra_sentinel::view::{
    detail_selection, feed_strips, hero_view, metrics, operation_lines, result_detail,
    results_view, row_view, setting_strips, shown_name, target_button_label, Strip,
};
use astra_sentinel::yara::parse_yara_output;

fn console() -> AstraApp {
    AstraApp::new(Some("db.txt".to_string()), None, Some("rules".to_string()), false)
}

fn result(path: &str) -> ScanResult {
    let mut result = ScanResult::error(path.to_string(), "boom".to_string());
    result.md5 = "aa".to_string();
    result
}

fn shown(strips: &[Strip]) -> Vec<(&str, &str)> {
    strips.iter().map(|strip| (strip.label.as_str(), strip.value.as_str())).collect()
}

#[test]
fn the_head_follows_the_scan() {
    let mut app = console();
    let view = hero_view(&app);
    assert_eq!(view.mode, "Single File");
    assert_eq!(view.yara, "YARA Enabled");
    assert_eq!(view.version, "v0.3.0");
    assert_eq!(view.start_label, "Start Scan");
    assert!(view.can_start && !view.can_stop);
    assert_eq!(view.status, "Workspace armed. Select a target to begin.");
    app.target_path = "t".to_string();
    app.start_scan();
    app.enable_yara = false;
    let view = hero_view(&app);
    assert_eq!(view.yara, "YARA Disabled");
    assert_eq!(view.start_label, "Scan Running");
    assert!(!view.can_start && view.can_stop);
}

#[test]
fn targets_are_chosen_by_mode() {
    assert_eq!(target_button_label(TargetMode::File), "Choose file");
    assert_eq!(target_button_label(TargetMode::Directory), "Choose folder");
}

#[test]
fn synced_feeds_are_listed() {
    let mut app = console();
    assert!(feed_strips(&app).is_empty());
    let mut summary = FeedSyncSummary::new("d".to_string());
    for feed in curated_feeds() {
        summary.record(feed, 3);
    }
    app.feed_summary = Some(summary);
    assert_eq!(
        shown(&feed_strips(&app)),
        vec![
            ("Active Feed Rules", "2 feeds | 6 rules | d"),
            ("Yara-Rules", "3 rules imported"),
            ("Neo23x0 signature-base", "3 rules imported"),
        ]
    );
}

#[test]
fn the_state_is_listed() {
    let mut app = console();
    app.progress.signature_count = 9;
    app.summary = Some(ScanSummary { skipped_files: 2, ..ScanSummary::default() });
    assert_eq!(
        shown(&operation_lines(&app)),
        vec![
            ("Mode", "Single File"),
            ("Progress", "0/1"),
            ("Signatures", "9"),
            ("Rule Files", "0"),
            ("Skipped", "2"),
        ]
    );
    assert_eq!(
        shown(&setting_strips(&app)),
        vec![("Database", "db.txt"), ("Rules", "rules"), ("Policy", "skip hidden | no size limit")]
    );
    app.enable_yara = false;
    app.max_file_size_mb = "5".to_string();
    assert_eq!(
        shown(&setting_strips(&app)),
        vec![("Database", "db.txt"), ("Policy", "skip hidden | max 5 MB")]
    );
}

#[test]
fn the_counts_come_from_the_summary() {
    let mut app = console();
    app.results.push(result("f"));
    app.progress.completed = 1;
    assert_eq!(
        shown(&metrics(&app, "")),
        vec![
            ("Processed", "1"),
            ("Hash Detections", "0"),
            ("YARA Detections", "0"),
            ("Elapsed", "--"),
        ]
    );
    app.summary = Some(ScanSummary {
        files_scanned: 8,
        hash_detections: 2,
        yara_detections: 1,
        elapsed: Elapsed { secs: 3, nanos: 0 },
        ..ScanSummary::default()
    });
    assert_eq!(
        shown(&metrics(&app, "3.00")),
        vec![
            ("Processed", "8"),
            ("Hash Detections", "2"),
            ("YARA Detections", "1"),
            ("Elapsed", "3.00s"),
        ]
    );
}

#[test]
fn empty_lists_have_a_notice() {
    let mut app = console();
    assert_eq!(results_view(&app).notice.unwrap().title, "No results yet");
    app.results.push(result("f"));
    let view = results_view(&app);
    assert!(view.notice.is_none());
    assert_eq!(view.rows, vec![0]);
    assert_eq!(view.count, "1 shown");
    app.result_filter = ResultFilter::Clean;
    let view = results_view(&app);
    assert_eq!(view.notice.unwrap().title, "No matching results");
    assert_eq!(view.count, "0 shown");
}

#[test]
fn rows_have_badges() {
    let mut app = console();
    let mut hit = result("/d/f");
    hit.detected = true;
    hit.verdict = Verdict::Malicious;
    hit.yara_matches = parse_yara_output("a f\nb f\n", "n");
    app.results = vec![hit, result("/d/g")];
    app.selected_result = Some(1);
    let path = [PathPart::RootDir, PathPart::Normal(b"d".to_vec()), PathPart::Normal(b"f".to_vec())];
    let row = row_view(&app, 0, &path);
    assert_eq!(row.text, "f\n/d/f\nMALICIOUS");
    assert!(!row.selected);
    assert_eq!(row.verdict, "Malicious");
    assert_eq!(row.matches.as_deref(), Some("2 YARA"));
    assert_eq!(row.hit, Some("Hash Hit"));
    let unknown = [PathPart::Normal(vec![0xff])];
    let row = row_view(&app, 1, &unknown);
    assert_eq!(row.text, "/d/g\n/d/g\nERROR");
    assert!(row.selected);
    assert_eq!(row.verdict, "Error");
    assert!(row.matches.is_none() && row.hit.is_none());
}

#[test]
fn names_are_shown_where_they_are_text() {
    let name = |bytes: &[u8]| PathPart::Normal(bytes.to_vec());
    assert_eq!(shown_name(&[name(b"d"), name(b"f.bin")]).as_deref(), Some("f.bin"));
    assert_eq!(shown_name(&[name("\u{e9}".as_bytes())]).as_deref(), Some("\u{e9}"));
    assert_eq!(shown_name(&[name(b"d"), name(b"\xff")]), None);
    assert_eq!(shown_name(&[name(b"d"), PathPart::ParentDir]), None);
    assert_eq!(shown_name(&[]), None);
}

#[test]
fn details_need_a_selection() {
    let mut app = console();
    assert_eq!(detail_selection(&app).unwrap_err().title, "Nothing selected");
    app.selected_result = Some(0);
    assert_eq!(detail_selection(&app).unwrap_err().title, "Selection lost");
    app.results.push(result("f"));
    assert_eq!(detail_selection(&app).unwrap(), 0);
}

#[test]
fn details_show_the_evidence() {
    let detail = result_detail(&result("/d/f"), "0.00");
    assert_eq!(detail.path, "/d/f");
    assert_eq!(detail.error.as_deref(), Some("boom"));
    assert_eq!(detail.scan_time, "Scan time 0ms");
    assert_eq!(shown(&detail.hashes), vec![("MD5", "aa"), ("SHA1", "-"), ("SHA256", "-")]);
    assert_eq!(shown(&detail.assessment), vec![("Verdict", "ERROR"), ("YARA Matches", "0")]);
    assert_eq!(detail.no_evidence, Some("No YARA matches for this file."));
    assert!(detail.evidence.is_empty());

    let mut hit = result("/d/f");
    hit.match_type = Some(HashAlgorithm::Md5);
    hit.match_hash = Some("aa".to_string());
    hit.threat_name = Some("T".to_string());
    hit.yara_matches = parse_yara_output("a [x] f\n0xff:$s: data\nb f\n", "n");
    let detail = result_detail(&hit, "0.00");
    assert_eq!(detail.matched.as_deref(), Some("Matched MD5"));
    assert_eq!(detail.threat.as_deref(), Some("T"));
    assert_eq!(shown(&detail.hashes)[3], ("Matched Hash", "aa"));
    assert_eq!(
        shown(&detail.assessment),
        vec![("Verdict", "ERROR"), ("Threat", "T"), ("YARA Matches", "2")]
    );
    assert!(detail.no_evidence.is_none());
    assert_eq!(detail.evidence[0].title, "n::a");
    assert_eq!(detail.evidence[0].tags, vec!["x".to_string()]);
    assert_eq!(shown(&detail.evidence[0].strings), vec![("$s @ 0xff", "data")]);
    assert!(detail.evidence[0].note.is_none());
    assert_eq!(detail.evidence[1].note, Some("Rule matched without string offsets."));
}
