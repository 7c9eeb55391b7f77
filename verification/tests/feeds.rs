use astra_sentinel::archive::ArchiveFault;
use astra_sentinel::feeds::{
    curated_feeds, default_feed_rules_dir, fault_message, sync_curated_feeds, FeedSync,
    FeedSyncSummary, SyncAction, SyncFault, SyncObservation,
};
use astra_sentinel::paths::Platform;
use std::io::{Cursor, Write};
use zip::write::SimpleFileOptions;
use zip::ZipWriter;

fn archive(files: &[&str]) -> Vec<u8> {
    let mut writer = ZipWriter::new(Cursor::new(Vec::new()));
    for file in files {
        writer.start_file(*file, SimpleFileOptions::default()).unwrap();
        writer.write_all(b"rule x { condition: true }").unwrap();
    }
    writer.finish().unwrap().into_inner()
}

/// Feeds that have come as far as the download of the first.
fn downloading() -> FeedSync {
    let (mut sync, action) = sync_curated_feeds("feeds/rules".to_string(), Platform::Linux);
    assert!(matches!(action, SyncAction::MakeBase));
    let action = sync.step(SyncObservation::Done);
    assert!(matches!(action, SyncAction::Connect("astra-sentinel/0.3.0")));
    assert!(matches!(sync.step(SyncObservation::Done), SyncAction::Probe(f) if f.id == "yara-rules"));
    assert!(matches!(sync.step(SyncObservation::Present(true)), SyncAction::Clear(_)));
    assert!(matches!(sync.step(SyncObservation::Done), SyncAction::Make(_)));
    assert!(matches!(
        sync.step(SyncObservation::Done),
        SyncAction::Download(f)
            if f.archive_url == "https://codeload.github.com/Yara-Rules/rules/zip/refs/heads/master"
    ));
    sync
}

#[test]
fn there_are_two_feeds() {
    let feeds = curated_feeds();
    assert_eq!(feeds.len(), 2);
    assert_eq!(feeds[0].id, "yara-rules");
    assert_eq!(feeds[0].name, "Yara-Rules");
    assert_eq!(feeds[1].id, "signature-base");
    assert_eq!(feeds[1].source_url, "https://github.com/Neo23x0/signature-base");
    assert_eq!(default_feed_rules_dir(), vec!["feeds", "rules"]);
}

#[test]
fn feeds_are_synced_one_after_the_other() {
    let mut sync = downloading();
    let first = SyncObservation::Downloaded(archive(&["r/a.yar", "r/b.yar", "r/c.txt"]));
    assert!(matches!(
        sync.step(first),
        SyncAction::Write(f, out) if f.id == "yara-rules" && out.files.len() == 2
    ));
    assert!(sync.can_step());
    let action = sync.step(SyncObservation::Done);
    assert!(matches!(action, SyncAction::Probe(f) if f.id == "signature-base"));
    assert!(matches!(sync.step(SyncObservation::Present(false)), SyncAction::Make(_)));
    assert!(matches!(sync.step(SyncObservation::Done), SyncAction::Download(_)));
    sync.step(SyncObservation::Downloaded(archive(&["r/d.yara"])));
    assert!(matches!(sync.step(SyncObservation::Done), SyncAction::Finish));
    assert_eq!(sync.summary.synced_feeds, 2);
    assert_eq!(sync.summary.total_rules, 3);
    assert_eq!(sync.summary.destination, "feeds/rules");
    assert_eq!(sync.summary.per_feed[0].rule_count, 2);
    assert_eq!(sync.summary.per_feed[1].feed.id, "signature-base");
    assert!(matches!(sync.step(SyncObservation::Done), SyncAction::Stop));
}

#[test]
fn a_broken_archive_ends_the_sync() {
    let mut sync = downloading();
    let action = sync.step(SyncObservation::Downloaded(b"nothing".to_vec()));
    assert!(matches!(
        action,
        SyncAction::Write(_, out) if matches!(out.fault, Some(ArchiveFault::NotAnArchive))
    ));
    assert!(matches!(
        sync.step(SyncObservation::Done),
        SyncAction::Fail(message) if message == "failed to open ZIP archive"
    ));

    let mut sync = downloading();
    let mut bytes = archive(&["r/a.yar", "r/b.yar"]);
    let second = (1..bytes.len()).find(|&i| bytes[i..].starts_with(b"PK\x03\x04")).unwrap();
    bytes[second] = b'X';
    assert!(matches!(
        sync.step(SyncObservation::Downloaded(bytes)),
        SyncAction::Write(_, out) if out.files.len() == 1
    ));
    assert!(matches!(
        sync.step(SyncObservation::Done),
        SyncAction::Fail(message) if message == "failed to read ZIP entry"
    ));
}

#[test]
fn an_outside_failure_ends_the_sync() {
    let mut sync = downloading();
    let action = sync.step(SyncObservation::Failure {
        fault: SyncFault::NotSent,
        shown: "https://x".to_string(),
    });
    assert!(matches!(action, SyncAction::Fail(message) if message == "failed to download https://x"));
    assert!(matches!(sync.step(SyncObservation::Done), SyncAction::Stop));
    assert_eq!(sync.summary.synced_feeds, 0);
}

#[test]
fn outside_failures_have_messages() {
    for (fault, message) in [
        (SyncFault::BaseNotMade, "could not create x"),
        (SyncFault::NoClient, "failed to build HTTP client"),
        (SyncFault::NotCleared, "failed to clean x"),
        (SyncFault::NotMade, "failed to create x"),
        (SyncFault::NotSent, "failed to download x"),
        (SyncFault::BadStatus, "download failed for x"),
        (SyncFault::NotRead, "failed to read archive bytes"),
        (SyncFault::NotWritten, "failed to write x"),
    ] {
        assert_eq!(fault_message(fault, "x"), message);
    }
}

#[test]
fn summaries_add_up() {
    let mut summary = FeedSyncSummary::default();
    let feeds = curated_feeds();
    summary.record(feeds[0], 5);
    summary.record(feeds[1], 7);
    assert_eq!(summary.synced_feeds, 2);
    assert_eq!(summary.total_rules, 12);
    assert!(summary.destination.is_empty());
}
