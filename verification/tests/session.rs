use astra_sentinel::engine::{
    Elapsed, ScanEvent, ScanPolicy, ScanRequest, ScanResult, ScanSummary, ScanTarget, Verdict,
};
use astra_sentinel::session::{run_scan, ScanAction, ScanObservation, ScanSession, WalkEntry};

fn request(target: ScanTarget, rules: Option<&str>, limit: Option<u64>) -> ScanRequest {
    ScanRequest {
        target,
        database_path: "db.txt".to_string(),
        rules_path: rules.map(str::to_string),
        policy: ScanPolicy { skip_hidden_paths: true, max_file_size_bytes: limit },
    }
}

fn directory() -> ScanTarget {
    ScanTarget::Directory("dir".to_string())
}

fn entry(path: &str) -> ScanObservation {
    ScanObservation::Entry { cancelled: false, entry: WalkEntry::File(path.to_string()) }
}

/// A scan that has come as far as its first entry.
fn walking(target: ScanTarget, limit: Option<u64>) -> ScanSession {
    let (mut session, action) = run_scan(request(target, None, limit));
    assert!(matches!(action, ScanAction::LoadDatabase(path) if path == "db.txt"));
    let action = session.step(ScanObservation::DatabaseLoaded(3));
    assert!(matches!(
        action,
        ScanAction::Send(ScanEvent::Started { signature_count: 3, rule_files: 0, .. })
    ));
    assert!(matches!(session.step(ScanObservation::Delivered), ScanAction::Inspect(_)));
    assert!(matches!(session.step(ScanObservation::TargetPresent(true)), ScanAction::Next));
    session
}

fn finish(mut session: ScanSession) -> (ScanSummary, bool) {
    let action = session.step(ScanObservation::Clock(Elapsed { secs: 4, nanos: 0 }));
    let ending = match action {
        ScanAction::Send(ScanEvent::Finished { summary, cancelled }) => (summary, cancelled),
        _ => panic!("the scan did not finish"),
    };
    assert!(matches!(session.step(ScanObservation::Delivered), ScanAction::Stop));
    assert!(matches!(session.step(ScanObservation::Delivered), ScanAction::Stop));
    ending
}

fn failure(action: ScanAction) -> String {
    match action {
        ScanAction::Send(ScanEvent::Failed(message)) => message,
        _ => panic!("the scan did not fail"),
    }
}

#[test]
fn rules_are_loaded_after_the_database() {
    let file = ScanTarget::File("f".to_string());
    let (mut session, _) = run_scan(request(file, Some("rules"), None));
    let action = session.step(ScanObservation::DatabaseLoaded(7));
    assert!(matches!(action, ScanAction::LoadRules(path) if path == "rules"));
    assert!(matches!(
        session.step(ScanObservation::RulesLoaded(2)),
        ScanAction::Send(ScanEvent::Started { total: 1, signature_count: 7, rule_files: 2 })
    ));
}

#[test]
fn a_directory_is_scanned_file_by_file() {
    let mut session = walking(directory(), Some(10));
    assert!(matches!(session.step(entry("a")), ScanAction::Measure(path) if path == "a"));
    assert!(matches!(
        session.step(ScanObservation::Measured { is_file: true, len: 10 }),
        ScanAction::Scan(path) if path == "a"
    ));
    let result = ScanResult::error("a".to_string(), "boom".to_string());
    assert!(matches!(
        session.step(ScanObservation::Scanned(result)),
        ScanAction::Send(ScanEvent::FileScanned(_))
    ));
    assert!(matches!(session.step(ScanObservation::Delivered), ScanAction::Next));
    assert!(matches!(session.step(entry("b")), ScanAction::Measure(_)));
    assert!(matches!(
        session.step(ScanObservation::Measured { is_file: true, len: 11 }),
        ScanAction::Next
    ));
    let other = ScanObservation::Entry { cancelled: false, entry: WalkEntry::Other };
    assert!(matches!(session.step(other), ScanAction::Next));
    assert!(session.can_step());
    assert!(matches!(session.step(ScanObservation::EndOfWalk), ScanAction::ReadClock));
    let (summary, cancelled) = finish(session);
    assert!(!cancelled);
    assert_eq!(summary.files_scanned, 1);
    assert_eq!(summary.errors, 1);
    assert_eq!(summary.skipped_files, 1);
    assert_eq!(summary.elapsed, Elapsed { secs: 4, nanos: 0 });
}

#[test]
fn a_file_is_its_only_entry() {
    let mut session = walking(ScanTarget::File("f".to_string()), None);
    assert!(matches!(session.step(entry("f")), ScanAction::Scan(path) if path == "f"));
    let mut result = ScanResult::error("f".to_string(), String::new());
    result.verdict = Verdict::Clean;
    session.step(ScanObservation::Scanned(result));
    assert!(matches!(session.step(ScanObservation::Delivered), ScanAction::ReadClock));
    let (summary, cancelled) = finish(session);
    assert!(!cancelled);
    assert_eq!(summary.files_scanned, 1);
    assert_eq!(summary.errors, 0);
}

#[test]
fn a_cancelled_scan_finishes_early() {
    let mut session = walking(directory(), None);
    let seen = ScanObservation::Entry { cancelled: true, entry: WalkEntry::File("a".to_string()) };
    assert!(matches!(session.step(seen), ScanAction::ReadClock));
    let (summary, cancelled) = finish(session);
    assert!(cancelled);
    assert_eq!(summary.files_scanned, 0);
}

#[test]
fn unreadable_entries_are_reported() {
    let mut session = walking(directory(), None);
    for (path, shown) in [(Some("dir/x".to_string()), "dir/x"), (None, "dir")] {
        let entry = WalkEntry::Unreadable { path, message: "denied".to_string() };
        match session.step(ScanObservation::Entry { cancelled: false, entry }) {
            ScanAction::Send(ScanEvent::FileScanned(result)) => {
                assert_eq!(result.file_path, shown);
                assert_eq!(result.error.unwrap(), "denied");
            }
            _ => panic!("the entry was not reported"),
        }
        assert!(matches!(session.step(ScanObservation::Delivered), ScanAction::Next));
    }
    session.step(ScanObservation::EndOfWalk);
    assert_eq!(finish(session).0.errors, 2);
}

#[test]
fn failures_end_a_scan() {
    let (mut session, _) = run_scan(request(directory(), Some("r"), None));
    let fault = ScanObservation::Failure("no database".to_string());
    assert_eq!(failure(session.step(fault)), "no database");
    assert!(matches!(session.step(ScanObservation::Delivered), ScanAction::Stop));

    let (mut session, _) = run_scan(request(directory(), Some("r"), None));
    session.step(ScanObservation::DatabaseLoaded(0));
    let fault = ScanObservation::Failure("no rules".to_string());
    assert_eq!(failure(session.step(fault)), "no rules");

    let mut session = walking(directory(), Some(1));
    session.step(entry("a"));
    let fault = ScanObservation::Failure("could not stat a".to_string());
    assert_eq!(failure(session.step(fault)), "could not stat a");
}

#[test]
fn missing_targets_end_a_scan() {
    for (target, message) in [
        (directory(), "scan target dir is not a directory"),
        (ScanTarget::File("f".to_string()), "scan target f is not a file"),
    ] {
        let (mut session, _) = run_scan(request(target, None, None));
        session.step(ScanObservation::DatabaseLoaded(0));
        session.step(ScanObservation::Delivered);
        assert_eq!(failure(session.step(ScanObservation::TargetPresent(false))), message);
    }
}

#[test]
fn a_lost_report_of_success_is_followed_by_one_of_failure() {
    let mut session = walking(directory(), None);
    session.step(ScanObservation::EndOfWalk);
    let action = session.step(ScanObservation::Clock(Elapsed::default()));
    assert!(matches!(action, ScanAction::Send(ScanEvent::Finished { .. })));
    let action = session.step(ScanObservation::Undelivered);
    assert_eq!(failure(action), "sending on a closed channel");
    for _ in 0..3 {
        assert!(matches!(session.step(ScanObservation::Undelivered), ScanAction::Stop));
    }
}

#[test]
fn a_scan_that_nobody_follows_ends() {
    let (mut session, _) = run_scan(request(directory(), None, None));
    session.step(ScanObservation::DatabaseLoaded(0));
    assert_eq!(
        failure(session.step(ScanObservation::Undelivered)),
        "sending on a closed channel"
    );
}
