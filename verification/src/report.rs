//! The report of a scan.

use crate::app;
use crate::app::{parse_max_file_size_mb, AstraApp};
use crate::display;
use crate::display::{mode_label, preview_bytes};
use crate::engine::{ScanResult, ScanSummary};
use crate::signatures::HashAlgorithm;
use crate::text;
use crate::text::{copy_option, copy_strings};
use crate::yara::{YaraMatch, YaraMatchString};
use vstd::prelude::*;

verus! {

/// The counts of a scan.
#[derive(Debug)]
pub struct SerializableSummary {
    pub files_scanned: usize,
    pub hash_detections: usize,
    pub yara_detections: usize,
    pub errors: usize,
    pub skipped_files: usize,
    pub elapsed_ms: u128,
}

/// The hashes of a file.
#[derive(Debug)]
pub struct SerializableHashes {
    pub md5: String,
    pub sha1: String,
    pub sha256: String,
}

/// A string of a rule, found in a file.
#[derive(Debug)]
pub struct SerializableYaraString {
    pub name: String,
    pub offset: u64,
    pub preview: String,
}

/// A rule that matched a file.
#[derive(Debug)]
pub struct SerializableYaraMatch {
    pub rule_name: String,
    pub namespace: String,
    pub tags: Vec<String>,
    pub strings: Vec<SerializableYaraString>,
}

/// What a scan found in a file.
#[derive(Debug)]
pub struct SerializableResult {
    pub file_path: String,
    pub verdict: String,
    pub detected: bool,
    pub threat_name: Option<String>,
    pub match_type: Option<String>,
    pub match_hash: Option<String>,
    pub hashes: SerializableHashes,
    pub yara_matches: Vec<SerializableYaraMatch>,
    pub error: Option<String>,
    pub scan_time_ms: u128,
}

/// The report of a scan.
#[derive(Debug)]
pub struct ScanReport {
    pub product: String,
    pub version: String,
    pub generated_at_epoch_seconds: u64,
    pub target_mode: String,
    pub target_path: String,
    pub signature_database: String,
    pub yara_enabled: bool,
    pub yara_rules_path: Option<String>,
    pub skip_hidden_paths: bool,
    pub max_file_size_mb: Option<u64>,
    pub summary: SerializableSummary,
    pub results: Vec<SerializableResult>,
}

/// Whether the report is that of the string.
pub open spec fn reports_string(report: SerializableYaraString, found: YaraMatchString) -> bool {
    &&& report.name@ == found.name@
    &&& report.offset == found.offset
    &&& report.preview@ == display::preview(found.data@)
}

/// Whether the report is that of the match.
pub open spec fn reports_match(report: SerializableYaraMatch, matched: YaraMatch) -> bool {
    &&& report.rule_name@ == matched.rule_name@
    &&& report.namespace@ == matched.namespace@
    &&& text::string_texts(report.tags@) == text::string_texts(matched.tags@)
    &&& report.strings@.len() == matched.strings@.len()
    &&& forall|i: int|
        0 <= i < matched.strings@.len() ==> reports_string(
            #[trigger] report.strings@[i],
            matched.strings@[i],
        )
}

/// The name of an algorithm, where there is one.
pub open spec fn algorithm_name(algorithm: Option<HashAlgorithm>) -> Option<Seq<char>> {
    match algorithm {
        Some(found) => Some(found.name()),
        None => None,
    }
}

/// A text, where there is one.
pub open spec fn text_of(value: Option<String>) -> Option<Seq<char>> {
    match value {
        Some(known) => Some(known@),
        None => None,
    }
}

/// Whether the report is that of the result.
pub open spec fn reports_result(report: SerializableResult, result: ScanResult) -> bool {
    &&& report.file_path@ == result.file_path@
    &&& report.verdict@ == result.verdict.name()
    &&& report.detected == result.detected
    &&& text_of(report.threat_name) == text_of(result.threat_name)
    &&& text_of(report.match_type) == algorithm_name(result.match_type)
    &&& text_of(report.match_hash) == text_of(result.match_hash)
    &&& report.hashes.md5@ == result.md5@
    &&& report.hashes.sha1@ == result.sha1@
    &&& report.hashes.sha256@ == result.sha256@
    &&& report.yara_matches@.len() == result.yara_matches@.len()
    &&& forall|i: int|
        0 <= i < result.yara_matches@.len() ==> reports_match(
            #[trigger] report.yara_matches@[i],
            result.yara_matches@[i],
        )
    &&& text_of(report.error) == text_of(result.error)
    &&& report.scan_time_ms == result.scan_time.millis()
}

impl SerializableYaraMatch {
    /// The report of a match.
    pub fn from(matched: &YaraMatch) -> (report: SerializableYaraMatch)
        ensures
            reports_match(report, *matched),
    {
        let mut strings: Vec<SerializableYaraString> = Vec::new();
        for i in 0..matched.strings.len()
            invariant
                strings@.len() == i,
                forall|j: int|
                    0 <= j < i ==> reports_string(#[trigger] strings@[j], matched.strings@[j]),
        {
            let found = &matched.strings[i];
            strings.push(
                SerializableYaraString {
                    name: found.name.clone(),
                    offset: found.offset,
                    preview: preview_bytes(&found.data),
                },
            );
        }
        SerializableYaraMatch {
            rule_name: matched.rule_name.clone(),
            namespace: matched.namespace.clone(),
            tags: copy_strings(&matched.tags),
            strings,
        }
    }
}

impl SerializableResult {
    /// The report of a result.
    pub fn from(result: &ScanResult) -> (report: SerializableResult)
        ensures
            reports_result(report, *result),
    {
        let mut yara_matches: Vec<SerializableYaraMatch> = Vec::new();
        for i in 0..result.yara_matches.len()
            invariant
                yara_matches@.len() == i,
                forall|j: int|
                    0 <= j < i ==> reports_match(
                        #[trigger] yara_matches@[j],
                        result.yara_matches@[j],
                    ),
        {
            yara_matches.push(SerializableYaraMatch::from(&result.yara_matches[i]));
        }
        SerializableResult {
            file_path: result.file_path.clone(),
            verdict: result.verdict.label().to_owned(),
            detected: result.detected,
            threat_name: copy_option(&result.threat_name),
            match_type: match result.match_type {
                Some(algorithm) => Some(algorithm.to_string()),
                None => None,
            },
            match_hash: copy_option(&result.match_hash),
            hashes: SerializableHashes {
                md5: result.md5.clone(),
                sha1: result.sha1.clone(),
                sha256: result.sha256.clone(),
            },
            yara_matches,
            error: copy_option(&result.error),
            scan_time_ms: result.scan_time.as_millis(),
        }
    }
}

/// Whether the report is that of the counts.
pub open spec fn reports_summary(report: SerializableSummary, summary: ScanSummary) -> bool {
    &&& report.files_scanned == summary.files_scanned
    &&& report.hash_detections == summary.hash_detections
    &&& report.yara_detections == summary.yara_detections
    &&& report.errors == summary.errors
    &&& report.skipped_files == summary.skipped_files
    &&& report.elapsed_ms == summary.elapsed.millis()
}

/// The limit in megabytes that a text sets, where it sets one.
pub open spec fn limit_in_mb(value: Seq<char>) -> Option<nat> {
    match app::max_file_size(value) {
        Ok(Some(bytes)) => Some(bytes / (1024 * 1024)),
        _ => None,
    }
}

/// Whether the report is that of the console, with these counts and made at this time.
pub open spec fn reports_app(
    report: ScanReport,
    m: app::AppModel,
    summary: ScanSummary,
    epoch_seconds: u64,
) -> bool {
    &&& report.product@ == "Astra Sentinel"@
    &&& report.version@ == "0.3.0"@
    &&& report.generated_at_epoch_seconds == epoch_seconds
    &&& report.target_mode@ == m.target_mode.name()
    &&& report.target_path@ == m.target_path
    &&& report.signature_database@ == m.database_path
    &&& report.yara_enabled == m.enable_yara
    &&& text_of(report.yara_rules_path) == if m.enable_yara {
        Some(m.rules_path)
    } else {
        None
    }
    &&& report.skip_hidden_paths == m.skip_hidden_paths
    &&& match report.max_file_size_mb {
        Some(mb) => limit_in_mb(m.max_file_size_mb) == Some(mb as nat),
        None => limit_in_mb(m.max_file_size_mb) is None,
    }
    &&& reports_summary(report.summary, summary)
    &&& report.results@.len() == m.results.len()
    &&& forall|i: int|
        0 <= i < m.results.len() ==> reports_result(#[trigger] report.results@[i], m.results[i])
}

impl ScanReport {
    /// The report of what the console shows, with the counts of the scan, made at a time.
    pub fn from_app(app: &AstraApp, summary: ScanSummary, epoch_seconds: u64) -> (report:
        ScanReport)
        requires
            app::size_fits(app.max_file_size_mb@),
        ensures
            reports_app(report, app@, summary, epoch_seconds),
    {
        let mut results: Vec<SerializableResult> = Vec::new();
        for i in 0..app.results.len()
            invariant
                results@.len() == i,
                forall|j: int|
                    0 <= j < i ==> reports_result(#[trigger] results@[j], app.results@[j]),
        {
            results.push(SerializableResult::from(&app.results[i]));
        }
        let max_file_size_mb = match parse_max_file_size_mb(&app.max_file_size_mb) {
            Ok(Some(bytes)) => Some(bytes / (1024 * 1024)),
            _ => None,
        };
        ScanReport {
            product: "Astra Sentinel".to_owned(),
            version: "0.3.0".to_owned(),
            generated_at_epoch_seconds: epoch_seconds,
            target_mode: mode_label(app.target_mode).to_owned(),
            target_path: app.target_path.clone(),
            signature_database: app.database_path.clone(),
            yara_enabled: app.enable_yara,
            yara_rules_path: if app.enable_yara {
                Some(app.rules_path.clone())
            } else {
                None
            },
            skip_hidden_paths: app.skip_hidden_paths,
            max_file_size_mb,
            summary: SerializableSummary {
                files_scanned: summary.files_scanned,
                hash_detections: summary.hash_detections,
                yara_detections: summary.yara_detections,
                errors: summary.errors,
                skipped_files: summary.skipped_files,
                elapsed_ms: summary.elapsed.as_millis(),
            },
            results,
        }
    }
}

/// The limit that the report of a scan gives in megabytes is the number that was entered.
pub proof fn reported_limit_is_entered(value: Seq<char>, mb: nat)
    requires
        limit_in_mb(value) == Some(mb),
    ensures
        text::unsigned_value(text::trimmed(value), 10) == Some(mb),
        mb > 0,
{
    let entered = text::unsigned_value(text::trimmed(value), 10)->0;
    assert((entered * 1024 * 1024) as nat / (1024 * 1024) == entered) by (nonlinear_arith);
}

/// A report of a result tells results apart: two results that one report is of have the same path,
/// verdict, hashes, detection, threat, error and time, and the same matches, rule by rule and
/// string by string.
pub proof fn report_tells_results_apart(
    report: SerializableResult,
    one: ScanResult,
    other: ScanResult,
    i: int,
    j: int,
)
    requires
        reports_result(report, one),
        reports_result(report, other),
    ensures
        one.file_path@ == other.file_path@,
        one.verdict == other.verdict,
        one.detected == other.detected,
        one.match_type == other.match_type,
        text_of(one.threat_name) == text_of(other.threat_name),
        text_of(one.match_hash) == text_of(other.match_hash),
        one.md5@ == other.md5@ && one.sha1@ == other.sha1@ && one.sha256@ == other.sha256@,
        text_of(one.error) == text_of(other.error),
        one.scan_time.millis() == other.scan_time.millis(),
        one.yara_matches@.len() == other.yara_matches@.len(),
        0 <= i < one.yara_matches@.len() ==> {
            let a = one.yara_matches@[i];
            let b = other.yara_matches@[i];
            &&& a.rule_name@ == b.rule_name@
            &&& a.namespace@ == b.namespace@
            &&& text::string_texts(a.tags@) == text::string_texts(b.tags@)
            &&& a.strings@.len() == b.strings@.len()
            &&& 0 <= j < a.strings@.len() ==> a.strings@[j].name@ == b.strings@[j].name@
                && a.strings@[j].offset == b.strings@[j].offset && display::preview(
                a.strings@[j].data@,
            ) == display::preview(b.strings@[j].data@)
        },
{
    reveal_strlit("CLEAN");
    reveal_strlit("MALICIOUS");
    reveal_strlit("ERROR");
    reveal_strlit("MD5");
    reveal_strlit("SHA1");
    reveal_strlit("SHA256");
    assert("CLEAN"@[0] == 'C' && "ERROR"@[0] == 'E' && "MALICIOUS"@[0] == 'M');
    assert("MD5"@.len() == 3 && "SHA1"@.len() == 4 && "SHA256"@.len() == 6);
    if 0 <= i < one.yara_matches@.len() {
        let shown = report.yara_matches@[i];
        assert(reports_match(shown, one.yara_matches@[i]));
        assert(reports_match(shown, other.yara_matches@[i]));
        if 0 <= j < shown.strings@.len() {
            assert(reports_string(shown.strings@[j], one.yara_matches@[i].strings@[j]));
            assert(reports_string(shown.strings@[j], other.yara_matches@[i].strings@[j]));
        }
    }
}

/// A report of a result says what the result says, in its own words: the label of the verdict, the
/// name of the algorithm, the hashes, the milliseconds, and every match with every string of it.
pub proof fn report_says_what_the_result_says(
    report: SerializableResult,
    result: ScanResult,
    i: int,
    j: int,
)
    requires
        reports_result(report, result),
    ensures
        report.file_path@ == result.file_path@,
        report.verdict@ == result.verdict.name(),
        report.detected == result.detected,
        report.hashes.md5@ == result.md5@,
        report.hashes.sha1@ == result.sha1@,
        report.hashes.sha256@ == result.sha256@,
        result.match_type matches Some(algorithm) ==> (report.match_type matches Some(name) && name@
            == algorithm.name()),
        result.match_type is None ==> report.match_type is None,
        report.scan_time_ms == result.scan_time.millis(),
        report.yara_matches@.len() == result.yara_matches@.len(),
        0 <= i < result.yara_matches@.len() ==> {
            let shown = report.yara_matches@[i];
            let matched = result.yara_matches@[i];
            &&& shown.rule_name@ == matched.rule_name@
            &&& shown.namespace@ == matched.namespace@
            &&& shown.tags@.len() == matched.tags@.len()
            &&& 0 <= j < matched.tags@.len() ==> shown.tags@[j]@ == matched.tags@[j]@
            &&& shown.strings@.len() == matched.strings@.len()
            &&& 0 <= j < matched.strings@.len() ==> shown.strings@[j].name@
                == matched.strings@[j].name@ && shown.strings@[j].offset
                == matched.strings@[j].offset && shown.strings@[j].preview@ == display::preview(
                matched.strings@[j].data@,
            )
        },
{
    if 0 <= i < result.yara_matches@.len() {
        let shown = report.yara_matches@[i];
        let matched = result.yara_matches@[i];
        assert(reports_match(shown, matched));
        assert(text::string_texts(shown.tags@).len() == shown.tags@.len());
        assert(text::string_texts(matched.tags@).len() == matched.tags@.len());
        if 0 <= j < matched.tags@.len() {
            assert(text::string_texts(shown.tags@)[j] == shown.tags@[j]@);
            assert(text::string_texts(matched.tags@)[j] == matched.tags@[j]@);
        }
        if 0 <= j < matched.strings@.len() {
            assert(reports_string(shown.strings@[j], matched.strings@[j]));
        }
    }
}

/// A report has every result of the console, each once and in their order, the counts of the scan,
/// and what the scan went by.
pub proof fn report_has_every_result(
    report: ScanReport,
    m: app::AppModel,
    summary: ScanSummary,
    epoch_seconds: u64,
    i: int,
)
    requires
        reports_app(report, m, summary, epoch_seconds),
    ensures
        report.results@.len() == m.results.len(),
        0 <= i < m.results.len() ==> reports_result(report.results@[i], m.results[i]),
        report.summary.files_scanned == summary.files_scanned,
        report.summary.hash_detections == summary.hash_detections,
        report.summary.yara_detections == summary.yara_detections,
        report.summary.errors == summary.errors,
        report.summary.skipped_files == summary.skipped_files,
        report.summary.elapsed_ms == summary.elapsed.millis(),
        report.generated_at_epoch_seconds == epoch_seconds,
        report.target_path@ == m.target_path,
        report.target_mode@ == m.target_mode.name(),
        report.signature_database@ == m.database_path,
        report.yara_enabled == m.enable_yara,
        m.enable_yara ==> (report.yara_rules_path matches Some(path) && path@ == m.rules_path),
        !m.enable_yara ==> report.yara_rules_path is None,
        report.skip_hidden_paths == m.skip_hidden_paths,
        report.max_file_size_mb matches Some(mb) ==> text::unsigned_value(
            text::trimmed(m.max_file_size_mb),
            10,
        ) == Some(mb as nat),
        report.max_file_size_mb is None ==> text::trimmed(m.max_file_size_mb).len() == 0
            || text::unsigned_value(text::trimmed(m.max_file_size_mb), 10) is None
            || text::unsigned_value(text::trimmed(m.max_file_size_mb), 10) == Some(0nat),
{
    if let Some(mb) = report.max_file_size_mb {
        reported_limit_is_entered(m.max_file_size_mb, mb as nat);
    }
}

} // verus!
