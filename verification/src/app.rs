//! The state of the console: what was asked for, what came back, and what is shown of it.

use crate::display::TargetMode;
use crate::engine::{
    ScanEvent, ScanPolicy, ScanRequest, ScanResult, ScanSummary, ScanTarget, Verdict,
};
use crate::feeds::FeedSyncSummary;
use crate::signatures;
use crate::signatures::{add_signature, HashAlgorithm};
use crate::text;
use crate::text::{
    contains_chars, from_chars, push_decimal, read_unsigned, to_chars, to_lower, trim,
};
use vstd::prelude::*;

verus! {

/// Which results are listed.
#[derive(Clone, Copy, Debug, PartialEq, Eq, Structural)]
pub enum ResultFilter {
    All,
    Malicious,
    Errors,
    Clean,
}

/// How far a scan is.
#[derive(Clone, Copy, Debug, PartialEq, Eq, Structural)]
pub struct ScanProgress {
    pub total: usize,
    pub completed: usize,
    pub signature_count: usize,
    pub rule_files: usize,
}

impl ScanProgress {
    /// The progress of a scan that has not begun.
    pub open spec fn zero() -> ScanProgress {
        ScanProgress { total: 0, completed: 0, signature_count: 0, rule_files: 0 }
    }
}

impl Default for ScanProgress {
    fn default() -> (progress: ScanProgress)
        ensures
            progress == ScanProgress::zero(),
    {
        ScanProgress { total: 0, completed: 0, signature_count: 0, rule_files: 0 }
    }
}

/// What bringing the feeds up to date reports.
#[derive(Debug)]
pub enum FeedSyncEvent {
    Completed(FeedSyncSummary),
    Failed(String),
}

/// The console.
#[derive(Debug)]
pub struct AstraApp {
    pub target_mode: TargetMode,
    pub target_path: String,
    pub database_path: String,
    pub rules_path: String,
    pub enable_yara: bool,
    pub skip_hidden_paths: bool,
    pub max_file_size_mb: String,
    pub results: Vec<ScanResult>,
    pub selected_result: Option<usize>,
    pub result_filter: ResultFilter,
    pub results_search: String,
    pub summary: Option<ScanSummary>,
    pub progress: ScanProgress,
    /// Whether events of a scan are awaited.
    pub awaits_scan: bool,
    /// Whether an event of the feeds is awaited.
    pub awaits_feeds: bool,
    /// Whether the scan is to stop, where there is one.
    pub cancel_flag: Option<bool>,
    pub is_scanning: bool,
    pub is_syncing_feeds: bool,
    pub status_message: String,
    pub feed_status_message: String,
    pub feed_summary: Option<FeedSyncSummary>,
    pub add_hash_value: String,
    pub add_hash_type: HashAlgorithm,
    pub add_threat_name: String,
}

/// What an `AstraApp` says.
pub ghost struct AppModel {
    pub target_mode: TargetMode,
    pub target_path: Seq<char>,
    pub database_path: Seq<char>,
    pub rules_path: Seq<char>,
    pub enable_yara: bool,
    pub skip_hidden_paths: bool,
    pub max_file_size_mb: Seq<char>,
    pub results: Seq<ScanResult>,
    pub selected_result: Option<usize>,
    pub result_filter: ResultFilter,
    pub results_search: Seq<char>,
    pub summary: Option<ScanSummary>,
    pub progress: ScanProgress,
    pub awaits_scan: bool,
    pub awaits_feeds: bool,
    pub cancel_flag: Option<bool>,
    pub is_scanning: bool,
    pub is_syncing_feeds: bool,
    pub status_message: Seq<char>,
    pub feed_status_message: Seq<char>,
    pub feed_summary: Option<FeedSyncSummary>,
    pub add_hash_value: Seq<char>,
    pub add_hash_type: HashAlgorithm,
    pub add_threat_name: Seq<char>,
}

impl View for AstraApp {
    type V = AppModel;

    open spec fn view(&self) -> AppModel {
        AppModel {
            target_mode: self.target_mode,
            target_path: self.target_path@,
            database_path: self.database_path@,
            rules_path: self.rules_path@,
            enable_yara: self.enable_yara,
            skip_hidden_paths: self.skip_hidden_paths,
            max_file_size_mb: self.max_file_size_mb@,
            results: self.results@,
            selected_result: self.selected_result,
            result_filter: self.result_filter,
            results_search: self.results_search@,
            summary: self.summary,
            progress: self.progress,
            awaits_scan: self.awaits_scan,
            awaits_feeds: self.awaits_feeds,
            cancel_flag: self.cancel_flag,
            is_scanning: self.is_scanning,
            is_syncing_feeds: self.is_syncing_feeds,
            status_message: self.status_message@,
            feed_status_message: self.feed_status_message@,
            feed_summary: self.feed_summary,
            add_hash_value: self.add_hash_value@,
            add_hash_type: self.add_hash_type,
            add_threat_name: self.add_threat_name@,
        }
    }
}

impl AppModel {
    /// As many files are done as there are results, and a selected result is there.
    pub open spec fn wf(self) -> bool {
        &&& self.progress.completed == self.results.len()
        &&& self.selected_result matches Some(index) ==> index < self.results.len()
    }
}

/// The first of the paths that were found, or else a path of last resort.
pub open spec fn first_found(
    first: Option<String>,
    second: Option<String>,
    otherwise: Seq<char>,
) -> Seq<char> {
    match (first, second) {
        (Some(path), _) => path@,
        (None, Some(path)) => path@,
        (None, None) => otherwise,
    }
}

/// The console when it opens.
pub open spec fn opened(
    database_path: Seq<char>,
    rules_path: Seq<char>,
    enable_yara: bool,
) -> AppModel {
    AppModel {
        target_mode: TargetMode::File,
        target_path: Seq::empty(),
        database_path,
        rules_path,
        enable_yara,
        skip_hidden_paths: true,
        max_file_size_mb: Seq::empty(),
        results: Seq::empty(),
        selected_result: None,
        result_filter: ResultFilter::All,
        results_search: Seq::empty(),
        summary: None,
        progress: ScanProgress::zero(),
        awaits_scan: false,
        awaits_feeds: false,
        cancel_flag: None,
        is_scanning: false,
        is_syncing_feeds: false,
        status_message: "Workspace armed. Select a target to begin."@,
        feed_status_message: "Curated feeds not synced yet."@,
        feed_summary: None,
        add_hash_value: Seq::empty(),
        add_hash_type: HashAlgorithm::Sha256,
        add_threat_name: Seq::empty(),
    }
}

/// The limit that a text sets, in bytes, where it sets one: so many times 1024 times 1024.
pub open spec fn max_file_size(value: Seq<char>) -> Result<Option<nat>, Seq<char>> {
    let trimmed = text::trimmed(value);
    if trimmed.len() == 0 {
        Ok(None)
    } else {
        match text::unsigned_value(trimmed, 10) {
            None => Err("Max File Size (MB) must be a whole number."@),
            Some(mb) => if mb == 0 {
                Err("Max File Size (MB) must be greater than zero."@)
            } else {
                Ok(Some(mb * 1024 * 1024))
            },
        }
    }
}

/// Whether the limit that a text sets, where it sets one, can be held.
pub open spec fn size_fits(value: Seq<char>) -> bool {
    max_file_size(value) matches Ok(Some(bytes)) ==> bytes <= u64::MAX
}

/// Whether the limit that a text sets, where it sets one, can be held.
pub fn max_file_size_fits(value: &str) -> (fits: bool)
    ensures
        fits == size_fits(value@),
{
    let trimmed = trim(value);
    if trimmed.len() == 0 {
        return true;
    }
    match read_unsigned(&trimmed, 10) {
        None => true,
        Some(mb) => mb <= u64::MAX / 1_048_576,
    }
}

/// Reads the limit that a text sets.
pub fn parse_max_file_size_mb(value: &str) -> (limit: Result<Option<u64>, String>)
    requires
        size_fits(value@),
    ensures
        match limit {
            Ok(None) => max_file_size(value@) == Ok::<Option<nat>, Seq<char>>(None),
            Ok(Some(bytes)) => max_file_size(value@) == Ok::<Option<nat>, Seq<char>>(
                Some(bytes as nat),
            ),
            Err(message) => max_file_size(value@) == Err::<Option<nat>, Seq<char>>(message@),
        },
{
    let trimmed = trim(value);
    if trimmed.len() == 0 {
        return Ok(None);
    }
    match read_unsigned(&trimmed, 10) {
        None => Err("Max File Size (MB) must be a whole number.".to_owned()),
        Some(mb) => {
            if mb == 0 {
                return Err("Max File Size (MB) must be greater than zero.".to_owned());
            }
            Ok(Some(mb * 1024 * 1024))
        },
    }
}

/// The policy as it is shown.
pub open spec fn policy_shown(skip_hidden_paths: bool, max_file_size_mb: Seq<char>) -> Seq<char> {
    let hidden = if skip_hidden_paths {
        "skip hidden"@
    } else {
        "include hidden"@
    };
    let limit = match max_file_size(max_file_size_mb) {
        Ok(Some(bytes)) => "max "@ + text::decimal(bytes / (1024 * 1024)) + " MB"@,
        _ => "no size limit"@,
    };
    hidden + " | "@ + limit
}

/// Shows the policy.
pub fn policy_text(skip_hidden_paths: bool, max_file_size_mb: &str) -> (shown: String)
    requires
        size_fits(max_file_size_mb@),
    ensures
        shown@ == policy_shown(skip_hidden_paths, max_file_size_mb@),
{
    let mut shown = if skip_hidden_paths {
        "skip hidden".to_owned()
    } else {
        "include hidden".to_owned()
    };
    shown.append(" | ");
    let mut limit = String::new();
    match parse_max_file_size_mb(max_file_size_mb) {
        Ok(Some(bytes)) => {
            limit.append("max ");
            push_decimal(&mut limit, (bytes / (1024 * 1024)) as u128);
            limit.append(" MB");
            assert(limit@ =~= "max "@ + text::decimal(bytes as nat / (1024 * 1024)) + " MB"@);
        },
        _ => {
            limit.append("no size limit");
            assert(limit@ =~= "no size limit"@);
        },
    }
    shown.append(&limit);
    shown
}

/// What is missing for a scan, the first of these: its target, the database, the rules.
pub open spec fn request_fault(
    mode: TargetMode,
    target: Seq<char>,
    database: Seq<char>,
    rules: Option<Seq<char>>,
) -> Option<Seq<char>> {
    if target.len() == 0 {
        match mode {
            TargetMode::File => Some("Select a file to scan."@),
            TargetMode::Directory => Some("Select a directory to scan."@),
        }
    } else if database.len() == 0 {
        Some("Select a signature database."@)
    } else if rules matches Some(path) && path.len() == 0 {
        Some("Select a YARA rule file or directory."@)
    } else {
        None
    }
}

/// What kind of target a request has.
pub open spec fn request_mode(request: ScanRequest) -> TargetMode {
    match request.target {
        ScanTarget::File(_) => TargetMode::File,
        ScanTarget::Directory(_) => TargetMode::Directory,
    }
}

/// The rules of a request.
pub open spec fn request_rules(request: ScanRequest) -> Option<Seq<char>> {
    match request.rules_path {
        Some(path) => Some(path@),
        None => None,
    }
}

/// Says what is missing for a scan.
pub fn validate_request(request: &ScanRequest) -> (validity: Result<(), String>)
    ensures
        match validity {
            Ok(()) => request_fault(
                request_mode(*request),
                request.target.path()@,
                request.database_path@,
                request_rules(*request),
            ) is None,
            Err(message) => request_fault(
                request_mode(*request),
                request.target.path()@,
                request.database_path@,
                request_rules(*request),
            ) == Some(message@),
        },
{
    match &request.target {
        ScanTarget::File(path) => {
            if path.as_str().is_empty() {
                return Err("Select a file to scan.".to_owned());
            }
        },
        ScanTarget::Directory(path) => {
            if path.as_str().is_empty() {
                return Err("Select a directory to scan.".to_owned());
            }
        },
    }
    if request.database_path.as_str().is_empty() {
        return Err("Select a signature database.".to_owned());
    }
    if let Some(path) = &request.rules_path {
        if path.as_str().is_empty() {
            return Err("Select a YARA rule file or directory.".to_owned());
        }
    }
    Ok(())
}

/// The rules that the console asks for.
pub open spec fn asked_rules(m: AppModel) -> Option<Seq<char>> {
    if m.enable_yara {
        Some(text::trimmed(m.rules_path))
    } else {
        None
    }
}

/// What keeps a scan from being started.
pub open spec fn start_fault(m: AppModel) -> Option<Seq<char>> {
    match max_file_size(m.max_file_size_mb) {
        Err(message) => Some(message),
        Ok(_) => request_fault(
            m.target_mode,
            text::trimmed(m.target_path),
            text::trimmed(m.database_path),
            asked_rules(m),
        ),
    }
}

/// Whether the request is the one that the console asks for.
pub open spec fn is_asked(m: AppModel, request: ScanRequest) -> bool {
    &&& request_mode(request) == m.target_mode
    &&& request.target.path()@ == text::trimmed(m.target_path)
    &&& request.database_path@ == text::trimmed(m.database_path)
    &&& request_rules(request) == asked_rules(m)
    &&& request.policy.skip_hidden_paths == m.skip_hidden_paths
    &&& match request.policy.max_file_size_bytes {
        Some(bytes) => max_file_size(m.max_file_size_mb) == Ok::<Option<nat>, Seq<char>>(
            Some(bytes as nat),
        ),
        None => max_file_size(m.max_file_size_mb) == Ok::<Option<nat>, Seq<char>>(None),
    }
}

/// The console after a scan was started.
pub open spec fn scan_started(m: AppModel) -> AppModel {
    AppModel {
        results: Seq::empty(),
        selected_result: None,
        summary: None,
        progress: ScanProgress::zero(),
        awaits_scan: true,
        cancel_flag: Some(false),
        is_scanning: true,
        status_message: "Scan dispatched. Hashing and rule evaluation in progress."@,
        ..m
    }
}

/// The message about a scan that came to its end.
pub open spec fn finished_text(summary: ScanSummary, cancelled: bool) -> Seq<char> {
    if cancelled {
        "Scan stopped: "@ + text::decimal(summary.files_scanned as nat)
            + " files inspected before cancellation."@
    } else {
        "Scan complete: "@ + text::decimal(summary.files_scanned as nat) + " files inspected, "@
            + text::decimal(summary.hash_detections as nat) + " hash hits, "@ + text::decimal(
            summary.yara_detections as nat,
        ) + " YARA hits."@
    }
}

/// The console after an event of a scan.
pub open spec fn after_event(m: AppModel, event: ScanEvent) -> AppModel {
    match event {
        ScanEvent::Started { total, signature_count, rule_files } => AppModel {
            progress: ScanProgress { total, signature_count, rule_files, ..m.progress },
            status_message: "Loaded "@ + text::decimal(signature_count as nat)
                + " signatures and "@ + text::decimal(rule_files as nat) + " YARA rule file(s)."@,
            ..m
        },
        ScanEvent::FileScanned(result) => AppModel {
            progress: ScanProgress {
                completed: (m.progress.completed + 1) as usize,
                ..m.progress
            },
            results: m.results.push(result),
            selected_result: match m.selected_result {
                Some(index) => Some(index),
                None => Some(0),
            },
            ..m
        },
        ScanEvent::Failed(message) => AppModel {
            status_message: message@,
            is_scanning: false,
            ..m
        },
        ScanEvent::Finished { summary, cancelled } => AppModel {
            summary: Some(summary),
            status_message: finished_text(summary, cancelled),
            is_scanning: false,
            ..m
        },
    }
}

/// The console after events of a scan.
pub open spec fn after_events(m: AppModel, events: Seq<ScanEvent>) -> AppModel
    decreases events.len(),
{
    if events.len() == 0 {
        m
    } else {
        after_event(after_events(m, events.drop_last()), events.last())
    }
}

/// Whether the scan ends with the event.
pub open spec fn ends_scan(event: ScanEvent) -> bool {
    event is Failed || event is Finished
}

/// The console after the events of a scan that came in, which nobody awaits when the scan is over.
pub open spec fn scan_polled(m: AppModel, events: Seq<ScanEvent>) -> AppModel {
    if !m.awaits_scan {
        m
    } else if exists|i: int| 0 <= i < events.len() && ends_scan(#[trigger] events[i]) {
        AppModel { awaits_scan: false, cancel_flag: None, ..after_events(m, events) }
    } else {
        after_events(m, events)
    }
}

/// The console after an event of the feeds.
pub open spec fn after_feed_event(m: AppModel, event: FeedSyncEvent) -> AppModel {
    match event {
        FeedSyncEvent::Completed(summary) => AppModel {
            enable_yara: true,
            rules_path: summary.destination@,
            feed_status_message: "Synced "@ + text::decimal(summary.synced_feeds as nat)
                + " feeds and "@ + text::decimal(summary.total_rules as nat) + " rules into "@
                + summary.destination@ + "."@,
            feed_summary: Some(summary),
            is_syncing_feeds: false,
            ..m
        },
        FeedSyncEvent::Failed(message) => AppModel {
            feed_status_message: message@,
            is_syncing_feeds: false,
            ..m
        },
    }
}

/// The console after events of the feeds.
pub open spec fn after_feed_events(m: AppModel, events: Seq<FeedSyncEvent>) -> AppModel
    decreases events.len(),
{
    if events.len() == 0 {
        m
    } else {
        after_feed_event(after_feed_events(m, events.drop_last()), events.last())
    }
}

/// The console after the events of the feeds that came in, which nobody awaits after the first.
pub open spec fn feeds_polled(m: AppModel, events: Seq<FeedSyncEvent>) -> AppModel {
    if !m.awaits_feeds || events.len() == 0 {
        m
    } else {
        AppModel { awaits_feeds: false, ..after_feed_events(m, events) }
    }
}

/// Whether a filter lets a result through.
pub open spec fn passes_filter(result: ScanResult, filter: ResultFilter) -> bool {
    match filter {
        ResultFilter::All => true,
        ResultFilter::Malicious => result.verdict is Malicious,
        ResultFilter::Errors => result.verdict is Error,
        ResultFilter::Clean => result.verdict is Clean,
    }
}

/// Whether a filter lets a result through.
pub fn matches_result_filter(result: &ScanResult, filter: ResultFilter) -> (passes: bool)
    ensures
        passes == passes_filter(*result, filter),
{
    match filter {
        ResultFilter::All => true,
        ResultFilter::Malicious => match result.verdict {
            Verdict::Malicious => true,
            _ => false,
        },
        ResultFilter::Errors => match result.verdict {
            Verdict::Error => true,
            _ => false,
        },
        ResultFilter::Clean => match result.verdict {
            Verdict::Clean => true,
            _ => false,
        },
    }
}

/// The threat that a result names, or nothing.
pub open spec fn threat_text(result: ScanResult) -> Seq<char> {
    match result.threat_name {
        Some(name) => name@,
        None => Seq::empty(),
    }
}

/// Whether a result has a query, in lower case, in its path or in its threat, in any case.
pub open spec fn has_query(result: ScanResult, query: Seq<char>) -> bool {
    ||| query.len() == 0
    ||| text::occurs_in(query, text::lower(result.file_path@))
    ||| text::occurs_in(query, text::lower(threat_text(result)))
}

/// Whether a result is listed.
pub open spec fn is_listed(m: AppModel, result: ScanResult) -> bool {
    passes_filter(result, m.result_filter) && has_query(
        result,
        text::lower(text::trimmed(m.results_search)),
    )
}

/// The places of the listed results among the first results, in their order.
pub open spec fn listed(m: AppModel, n: nat) -> Seq<usize>
    decreases n,
{
    if n == 0 {
        Seq::empty()
    } else if is_listed(m, m.results[n - 1]) {
        listed(m, (n - 1) as nat).push((n - 1) as usize)
    } else {
        listed(m, (n - 1) as nat)
    }
}

fn result_has_query(result: &ScanResult, query: &Vec<char>) -> (has: bool)
    ensures
        has == has_query(*result, query@),
{
    if query.len() == 0 {
        return true;
    }
    let path = to_lower(&to_chars(&result.file_path));
    if contains_chars(&path, query) {
        return true;
    }
    let threat = match &result.threat_name {
        Some(name) => to_lower(&to_chars(name)),
        None => Vec::new(),
    };
    assert(text::lower(Seq::<char>::empty()) =~= Seq::<char>::empty());
    contains_chars(&threat, query)
}

/// How the writing of a report ended.
#[derive(Debug)]
pub enum ExportOutcome {
    /// The report is in the file at this path.
    Written(String),
    /// The file could not be written.
    NotWritten(String),
    /// The report could not be put into words.
    NotSerialized(String),
}

/// The message about the writing of a report.
pub open spec fn export_text(outcome: ExportOutcome) -> Seq<char> {
    match outcome {
        ExportOutcome::Written(path) => "Exported report to "@ + path@ + "."@,
        ExportOutcome::NotWritten(error) => "Failed to write report: "@ + error@,
        ExportOutcome::NotSerialized(error) => "Failed to serialize report: "@ + error@,
    }
}

impl AstraApp {
    /// Opens the console. The paths are those of the signature database, of the rules of the
    /// feeds and of other rules, where they were found. `rules_here` says whether there are rules
    /// in the current directory after all.
    pub fn new(
        database_path: Option<String>,
        feed_rules: Option<String>,
        rules: Option<String>,
        rules_here: bool,
    ) -> (app: AstraApp)
        ensures
            app@ == opened(
                first_found(database_path, None, "signatures/hashes.txt"@),
                first_found(feed_rules, rules, "rules"@),
                feed_rules is Some || rules is Some || rules_here,
            ),
            app@.wf(),
    {
        let enable_yara = feed_rules.is_some() || rules.is_some() || rules_here;
        let database_path = match database_path {
            Some(path) => path,
            None => "signatures/hashes.txt".to_owned(),
        };
        let rules_path = match feed_rules {
            Some(path) => path,
            None => match rules {
                Some(path) => path,
                None => "rules".to_owned(),
            },
        };
        let app = AstraApp {
            target_mode: TargetMode::File,
            target_path: String::new(),
            database_path,
            rules_path,
            enable_yara,
            skip_hidden_paths: true,
            max_file_size_mb: String::new(),
            results: Vec::new(),
            selected_result: None,
            result_filter: ResultFilter::All,
            results_search: String::new(),
            summary: None,
            progress: ScanProgress::default(),
            awaits_scan: false,
            awaits_feeds: false,
            cancel_flag: None,
            is_scanning: false,
            is_syncing_feeds: false,
            status_message: "Workspace armed. Select a target to begin.".to_owned(),
            feed_status_message: "Curated feeds not synced yet.".to_owned(),
            feed_summary: None,
            add_hash_value: String::new(),
            add_hash_type: HashAlgorithm::Sha256,
            add_threat_name: String::new(),
        };
        assert(app@.target_path =~= Seq::<char>::empty());
        assert(app@.max_file_size_mb =~= Seq::<char>::empty());
        assert(app@.results_search =~= Seq::<char>::empty());
        assert(app@.add_hash_value =~= Seq::<char>::empty());
        assert(app@.add_threat_name =~= Seq::<char>::empty());
        assert(app@.results =~= Seq::<ScanResult>::empty());
        app
    }

    /// Starts a scan with what was entered, or says what is missing.
    pub fn start_scan(&mut self) -> (request: Option<ScanRequest>)
        requires
            size_fits(old(self).max_file_size_mb@),
        ensures
            match request {
                Some(asked) => {
                    &&& start_fault(old(self)@) is None
                    &&& is_asked(old(self)@, asked)
                    &&& final(self)@ == scan_started(old(self)@)
                    &&& final(self)@.wf()
                },
                None => {
                    &&& start_fault(old(self)@) matches Some(message) && final(self)@ == (
                    AppModel { status_message: message, ..old(self)@ })
                },
            },
    {
        let target_path = from_chars(&trim(&self.target_path));
        let database_path = from_chars(&trim(&self.database_path));
        let target = match self.target_mode {
            TargetMode::File => ScanTarget::File(target_path),
            TargetMode::Directory => ScanTarget::Directory(target_path),
        };
        let rules_path = if self.enable_yara {
            Some(from_chars(&trim(&self.rules_path)))
        } else {
            None
        };
        let max_file_size_bytes = match parse_max_file_size_mb(&self.max_file_size_mb) {
            Ok(limit) => limit,
            Err(message) => {
                self.status_message = message;
                return None;
            },
        };
        let request = ScanRequest {
            target,
            database_path,
            rules_path,
            policy: ScanPolicy { skip_hidden_paths: self.skip_hidden_paths, max_file_size_bytes },
        };
        if let Err(message) = validate_request(&request) {
            self.status_message = message;
            return None;
        }
        self.results = Vec::new();
        self.selected_result = None;
        self.summary = None;
        self.progress = ScanProgress::default();
        self.awaits_scan = true;
        self.cancel_flag = Some(false);
        self.is_scanning = true;
        self.status_message =
        "Scan dispatched. Hashing and rule evaluation in progress.".to_owned();
        assert(self@.results =~= Seq::<ScanResult>::empty());
        Some(request)
    }

    /// Asks the scan to stop, where there is one.
    pub fn stop_scan(&mut self)
        ensures
            final(self)@ == if old(self).cancel_flag is Some {
                AppModel {
                    cancel_flag: Some(true),
                    status_message: "Stopping scan after the current file completes."@,
                    ..old(self)@
                }
            } else {
                old(self)@
            },
            old(self)@.wf() ==> final(self)@.wf(),
    {
        if self.cancel_flag.is_some() {
            self.cancel_flag = Some(true);
            self.status_message = "Stopping scan after the current file completes.".to_owned();
        }
    }

    /// Begins to bring the feeds up to date.
    pub fn sync_curated_feeds(&mut self)
        ensures
            final(self)@ == (AppModel {
                awaits_feeds: true,
                is_syncing_feeds: true,
                feed_status_message: "Syncing curated threat feeds..."@,
                ..old(self)@
            }),
            old(self)@.wf() ==> final(self)@.wf(),
    {
        self.awaits_feeds = true;
        self.is_syncing_feeds = true;
        self.feed_status_message = "Syncing curated threat feeds...".to_owned();
    }

    /// Takes an event of a scan.
    fn take_event(&mut self, event: ScanEvent)
        requires
            old(self)@.wf(),
        ensures
            final(self)@ == after_event(old(self)@, event),
            final(self)@.wf(),
    {
        match event {
            ScanEvent::Started { total, signature_count, rule_files } => {
                self.progress.total = total;
                self.progress.signature_count = signature_count;
                self.progress.rule_files = rule_files;
                let mut message = "Loaded ".to_owned();
                push_decimal(&mut message, signature_count as u128);
                message.append(" signatures and ");
                push_decimal(&mut message, rule_files as u128);
                message.append(" YARA rule file(s).");
                self.status_message = message;
            },
            ScanEvent::FileScanned(result) => {
                self.results.push(result);
                let count: usize = self.results.len();
                assert(count == self.progress.completed + 1);
                self.progress.completed += 1;
                if self.selected_result.is_none() {
                    self.selected_result = Some(0);
                }
            },
            ScanEvent::Failed(message) => {
                self.status_message = message;
                self.is_scanning = false;
            },
            ScanEvent::Finished { summary, cancelled } => {
                self.summary = Some(summary);
                let mut message = if cancelled {
                    "Scan stopped: ".to_owned()
                } else {
                    "Scan complete: ".to_owned()
                };
                push_decimal(&mut message, summary.files_scanned as u128);
                if cancelled {
                    message.append(" files inspected before cancellation.");
                } else {
                    message.append(" files inspected, ");
                    push_decimal(&mut message, summary.hash_detections as u128);
                    message.append(" hash hits, ");
                    push_decimal(&mut message, summary.yara_detections as u128);
                    message.append(" YARA hits.");
                }
                self.status_message = message;
                self.is_scanning = false;
            },
        }
    }

    /// Takes an event of the feeds.
    fn take_feed_event(&mut self, event: FeedSyncEvent)
        ensures
            final(self)@ == after_feed_event(old(self)@, event),
    {
        match event {
            FeedSyncEvent::Completed(summary) => {
                self.enable_yara = true;
                self.rules_path = summary.destination.clone();
                let mut message = "Synced ".to_owned();
                push_decimal(&mut message, summary.synced_feeds as u128);
                message.append(" feeds and ");
                push_decimal(&mut message, summary.total_rules as u128);
                message.append(" rules into ");
                message.append(&summary.destination);
                message.append(".");
                self.feed_status_message = message;
                self.feed_summary = Some(summary);
                self.is_syncing_feeds = false;
            },
            FeedSyncEvent::Failed(message) => {
                self.feed_status_message = message;
                self.is_syncing_feeds = false;
            },
        }
    }

    /// Takes the events of a scan that came in.
    fn poll_scan(&mut self, events: Vec<ScanEvent>)
        requires
            old(self)@.wf(),
        ensures
            final(self)@ == scan_polled(old(self)@, events@),
            final(self)@.wf(),
    {
        if !self.awaits_scan {
            return;
        }
        let ghost all = events@;
        let mut over = false;
        assert(all.take(0) =~= Seq::<ScanEvent>::empty());
        for event in it: events
            invariant
                it.seq() == all,
                self@ == after_events(old(self)@, all.take(it.index() as int)),
                self@.wf(),
                over <==> exists|i: int| 0 <= i < it.index() && ends_scan(#[trigger] all[i]),
        {
            let ghost n = it.index() as int;
            assert(all.take(n + 1).drop_last() =~= all.take(n));
            assert(all.take(n + 1).last() == event);
            assert(all[n] == event);
            match &event {
                ScanEvent::Failed(_) => {
                    over = true;
                },
                ScanEvent::Finished { .. } => {
                    over = true;
                },
                _ => {},
            }
            self.take_event(event);
        }
        assert(all.take(all.len() as int) =~= all);
        if over {
            self.awaits_scan = false;
            self.cancel_flag = None;
        }
    }

    /// Takes the events of the feeds that came in.
    fn poll_feeds(&mut self, events: Vec<FeedSyncEvent>)
        requires
            old(self)@.wf(),
        ensures
            final(self)@ == feeds_polled(old(self)@, events@),
            final(self)@.wf(),
    {
        if !self.awaits_feeds || events.len() == 0 {
            return;
        }
        let ghost all = events@;
        assert(all.take(0) =~= Seq::<FeedSyncEvent>::empty());
        for event in it: events
            invariant
                it.seq() == all,
                self@ == after_feed_events(old(self)@, all.take(it.index() as int)),
                self@.wf(),
        {
            let ghost n = it.index() as int;
            assert(all.take(n + 1).drop_last() =~= all.take(n));
            assert(all.take(n + 1).last() == event);
            self.take_feed_event(event);
        }
        assert(all.take(all.len() as int) =~= all);
        self.awaits_feeds = false;
    }

    /// Takes the events that came in, in their order.
    pub fn poll_scan_events(&mut self, events: Vec<ScanEvent>, feed_events: Vec<FeedSyncEvent>)
        requires
            old(self)@.wf(),
        ensures
            final(self)@ == feeds_polled(scan_polled(old(self)@, events@), feed_events@),
            final(self)@.wf(),
    {
        self.poll_scan(events);
        self.poll_feeds(feed_events);
    }

    /// Checks the signature that was entered, and gives the database and the record to append to
    /// it, or says what is wrong.
    pub fn add_signature(&mut self) -> (addition: Option<(String, String)>)
        ensures
            match addition {
                Some((path, record)) => {
                    &&& signatures::signature_fault(
                        old(self).add_hash_type,
                        old(self).add_hash_value@,
                        old(self).add_threat_name@,
                    ) is None
                    &&& path@ == text::trimmed(old(self).database_path@)
                    &&& record@ == signatures::signature_line(
                        old(self).add_hash_type,
                        old(self).add_hash_value@,
                        old(self).add_threat_name@,
                    ).push('\n')
                    &&& final(self)@ == old(self)@
                },
                None => {
                    &&& signatures::signature_fault(
                        old(self).add_hash_type,
                        old(self).add_hash_value@,
                        old(self).add_threat_name@,
                    ) matches Some(fault) && final(self)@ == (AppModel {
                        status_message: fault.text(),
                        ..old(self)@
                    })
                },
            },
            old(self)@.wf() ==> final(self)@.wf(),
    {
        match add_signature(self.add_hash_type, &self.add_hash_value, &self.add_threat_name) {
            Ok(record) => Some((from_chars(&trim(&self.database_path)), record)),
            Err(fault) => {
                self.status_message = fault.message();
                None
            },
        }
    }

    /// Takes note of whether a record was appended to the database.
    pub fn signature_appended(&mut self, outcome: Result<(), String>)
        ensures
            final(self)@ == match outcome {
                Ok(()) => AppModel {
                    add_hash_value: Seq::empty(),
                    add_threat_name: Seq::empty(),
                    status_message: "Added "@ + old(self).add_hash_type.name() + " signature to "@
                        + text::trimmed(old(self).database_path@) + "."@,
                    ..old(self)@
                },
                Err(message) => AppModel { status_message: message@, ..old(self)@ },
            },
            old(self)@.wf() ==> final(self)@.wf(),
    {
        match outcome {
            Ok(()) => {
                self.add_hash_value = String::new();
                self.add_threat_name = String::new();
                let mut message = "Added ".to_owned();
                message.append(self.add_hash_type.as_str());
                message.append(" signature to ");
                message.append(&from_chars(&trim(&self.database_path)));
                message.append(".");
                self.status_message = message;
                assert(self.add_hash_value@ =~= Seq::<char>::empty());
                assert(self.add_threat_name@ =~= Seq::<char>::empty());
            },
            Err(message) => {
                self.status_message = message;
            },
        }
    }

    /// Gives the counts that a report is made with, or says that there are none.
    pub fn export_report(&mut self) -> (summary: Option<ScanSummary>)
        ensures
            summary == old(self).summary,
            final(self)@ == if old(self).summary is Some {
                old(self)@
            } else {
                AppModel {
                    status_message: "Run a scan before exporting a report."@,
                    ..old(self)@
                }
            },
            old(self)@.wf() ==> final(self)@.wf(),
    {
        if self.summary.is_none() {
            self.status_message = "Run a scan before exporting a report.".to_owned();
        }
        self.summary
    }

    /// Takes note of how the writing of a report ended.
    pub fn report_exported(&mut self, outcome: ExportOutcome)
        ensures
            final(self)@ == (AppModel { status_message: export_text(outcome), ..old(self)@ }),
            old(self)@.wf() ==> final(self)@.wf(),
    {
        self.status_message = match outcome {
            ExportOutcome::Written(path) => {
                let mut message = "Exported report to ".to_owned();
                message.append(&path);
                message.append(".");
                message
            },
            ExportOutcome::NotWritten(error) => {
                "Failed to write report: ".to_owned().concat(&error)
            },
            ExportOutcome::NotSerialized(error) => {
                "Failed to serialize report: ".to_owned().concat(&error)
            },
        };
    }

    /// Forgets the results.
    pub fn clear_results(&mut self)
        ensures
            final(self)@ == (AppModel {
                results: Seq::empty(),
                selected_result: None,
                summary: None,
                progress: ScanProgress::zero(),
                status_message: "Results cleared. Workspace is ready."@,
                ..old(self)@
            }),
            final(self)@.wf(),
    {
        self.results = Vec::new();
        self.selected_result = None;
        self.summary = None;
        self.progress = ScanProgress::default();
        self.status_message = "Results cleared. Workspace is ready.".to_owned();
        assert(self@.results =~= Seq::<ScanResult>::empty());
    }

    /// Selects a result.
    pub fn select_result(&mut self, index: usize)
        requires
            index < old(self).results@.len(),
        ensures
            final(self)@ == (AppModel { selected_result: Some(index), ..old(self)@ }),
            old(self)@.wf() ==> final(self)@.wf(),
    {
        self.selected_result = Some(index);
    }

    /// The places of the listed results, in their order.
    pub fn filtered_result_indices(&self) -> (indices: Vec<usize>)
        ensures
            indices@ == listed(self@, self.results@.len()),
    {
        let query = to_lower(&trim(&self.results_search));
        let mut indices: Vec<usize> = Vec::new();
        assert(indices@ =~= listed(self@, 0));
        for i in 0..self.results.len()
            invariant
                indices@ == listed(self@, i as nat),
                query@ == text::lower(text::trimmed(self.results_search@)),
        {
            let result = &self.results[i];
            if matches_result_filter(result, self.result_filter) && result_has_query(
                result,
                &query,
            ) {
                indices.push(i);
            }
        }
        indices
    }
}

/// The listed results are those, and only those, that pass the filter and have the query, each
/// once and in their order.
pub proof fn listed_results_match(m: AppModel, n: nat)
    requires
        n <= m.results.len(),
        m.results.len() <= usize::MAX,
    ensures
        forall|i: usize|
            #[trigger] listed(m, n).contains(i) <==> i < n && is_listed(m, m.results[i as int]),
        forall|a: int, b: int|
            0 <= a < b < listed(m, n).len() ==> #[trigger] listed(m, n)[a] < #[trigger] listed(
                m,
                n,
            )[b],
    decreases n,
{
    if n > 0 {
        let before = listed(m, (n - 1) as nat);
        let last = (n - 1) as usize;
        listed_results_match(m, (n - 1) as nat);
        assert forall|i: usize| #[trigger] listed(m, n).contains(i) <==> i < n && is_listed(
            m,
            m.results[i as int],
        ) by {
            if is_listed(m, m.results[n - 1]) {
                assert(before.push(last)[before.len() as int] == last);
                if before.contains(i) {
                    let k = before.index_of(i);
                    assert(before.push(last)[k] == i);
                }
            }
            if listed(m, n).contains(i) && i != last {
                let k = listed(m, n).index_of(i);
                assert(before[k] == i);
            }
            assert(before.contains(i) <==> i < n - 1 && is_listed(m, m.results[i as int]));
        }
        assert forall|a: int, b: int|
            0 <= a < b < listed(m, n).len() implies #[trigger] listed(m, n)[a] < #[trigger] listed(
            m,
            n,
        )[b] by {
            assert(before.contains(before[a]));
            if b < before.len() {
                assert(before[a] < before[b]);
            }
        }
    }
}

/// Neither the case of the query nor white space around it changes what is listed.
pub proof fn search_ignores_case(m: AppModel, n: nat)
    ensures
        listed(AppModel { results_search: text::lower(m.results_search), ..m }, n) == listed(m, n),
        listed(AppModel { results_search: text::trimmed(m.results_search), ..m }, n) == listed(
            m,
            n,
        ),
    decreases n,
{
    let query = m.results_search;
    let class = text::CharClass::WhiteSpace;
    text::lemma_trim_lower(query, class);
    text::lower_ignores_case(text::trimmed(query));
    text::lemma_trimmed_ends(query, class);
    text::lemma_trim_fixed(text::trimmed(query), class);
    if n > 0 {
        search_ignores_case(m, (n - 1) as nat);
    }
}

/// The results that events of a scan bring.
pub open spec fn scanned_results(events: Seq<ScanEvent>) -> Seq<ScanResult>
    decreases events.len(),
{
    if events.len() == 0 {
        Seq::empty()
    } else {
        match events.last() {
            ScanEvent::FileScanned(result) => scanned_results(events.drop_last()).push(result),
            _ => scanned_results(events.drop_last()),
        }
    }
}

/// The results of the events that come in are added to those that are there, in their order, and
/// what was entered, and a selection, stay as they are.
pub proof fn polling_adds_results(m: AppModel, events: Seq<ScanEvent>)
    requires
        m.awaits_scan,
    ensures
        scan_polled(m, events).results == m.results + scanned_results(events),
        scan_polled(m, events).target_path == m.target_path,
        scan_polled(m, events).database_path == m.database_path,
        scan_polled(m, events).rules_path == m.rules_path,
        scan_polled(m, events).max_file_size_mb == m.max_file_size_mb,
        scan_polled(m, events).results_search == m.results_search,
        m.selected_result is Some ==> scan_polled(m, events).selected_result == m.selected_result,
{
    lemma_events_add_results(m, events);
}

proof fn lemma_events_add_results(m: AppModel, events: Seq<ScanEvent>)
    ensures
        after_events(m, events).results == m.results + scanned_results(events),
        after_events(m, events).target_path == m.target_path,
        after_events(m, events).database_path == m.database_path,
        after_events(m, events).rules_path == m.rules_path,
        after_events(m, events).max_file_size_mb == m.max_file_size_mb,
        after_events(m, events).results_search == m.results_search,
        after_events(m, events).awaits_scan == m.awaits_scan,
        m.selected_result is Some ==> after_events(m, events).selected_result == m.selected_result,
    decreases events.len(),
{
    if events.len() > 0 {
        lemma_events_add_results(m, events.drop_last());
    }
    assert(after_events(m, events).results =~= m.results + scanned_results(events));
}

/// When a scan has ended, the console is at rest: it awaits no more events of the scan, no scan
/// is running and none can be stopped.
pub proof fn ended_scan_rests(m: AppModel, events: Seq<ScanEvent>, n: int)
    requires
        m.awaits_scan,
        0 <= n < events.len(),
        ends_scan(events[n]),
    ensures
        !scan_polled(m, events).awaits_scan,
        !scan_polled(m, events).is_scanning,
        scan_polled(m, events).cancel_flag is None,
{
    lemma_end_stops(m, events, n);
}

proof fn lemma_end_stops(m: AppModel, events: Seq<ScanEvent>, n: int)
    requires
        0 <= n < events.len(),
        ends_scan(events[n]),
    ensures
        !after_events(m, events).is_scanning,
    decreases events.len(),
{
    if n < events.len() - 1 {
        assert(events.drop_last()[n] == events[n]);
        lemma_end_stops(m, events.drop_last(), n);
    }
}

/// A scan runs, in the eyes of the console, from its start to its end: after a start it runs, can
/// be stopped, and shows nothing of an earlier scan.
pub proof fn started_scan_is_fresh(m: AppModel)
    ensures
        scan_started(m).wf(),
        scan_started(m).is_scanning,
        scan_started(m).awaits_scan,
        scan_started(m).cancel_flag == Some(false),
        scan_started(m).results.len() == 0,
        scan_started(m).summary is None,
        scan_started(m).selected_result is None,
        scan_started(m).target_mode == m.target_mode,
        scan_started(m).target_path == m.target_path,
        scan_started(m).database_path == m.database_path,
        scan_started(m).rules_path == m.rules_path,
        scan_started(m).enable_yara == m.enable_yara,
        scan_started(m).skip_hidden_paths == m.skip_hidden_paths,
        scan_started(m).max_file_size_mb == m.max_file_size_mb,
        scan_started(m).results_search == m.results_search,
        scan_started(m).result_filter == m.result_filter,
        scan_started(m).awaits_feeds == m.awaits_feeds,
        scan_started(m).is_syncing_feeds == m.is_syncing_feeds,
        scan_started(m).feed_summary == m.feed_summary,
        scan_started(m).add_hash_value == m.add_hash_value,
        scan_started(m).add_threat_name == m.add_threat_name,
{
}

/// Searching for any part of a threat's name, or of a path, finds the result, wherever in it the
/// part stands and in whatever case it is written, as long as the result passes the filter.
pub proof fn any_part_is_found(
    m: AppModel,
    result: ScanResult,
    before: Seq<char>,
    query: Seq<char>,
    after: Seq<char>,
)
    requires
        query.len() > 0 ==> !text::is_white_space(query[0]) && !text::is_white_space(query.last()),
        text::lower(m.results_search) == text::lower(query),
        passes_filter(result, m.result_filter),
        (result.threat_name matches Some(name) && name@ == before + query + after)
            || result.file_path@ == before + query + after,
    ensures
        is_listed(m, result),
{
    let class = text::CharClass::WhiteSpace;
    let whole = before + query + after;
    text::lemma_trim_fixed(query, class);
    text::lemma_trim_lower(query, class);
    text::lemma_trim_lower(m.results_search, class);
    assert(text::lower(text::trimmed(m.results_search)) == text::lower(query));
    text::lemma_lower_concat(before + query, after);
    text::lemma_lower_concat(before, query);
    text::part_occurs(text::lower(before), text::lower(query), text::lower(after));
}

/// A result is listed only where the query is a part of its path or of its threat's name, in
/// whatever case, or where there is no query.
pub proof fn only_what_has_the_query_is_listed(m: AppModel, result: ScanResult) -> (around: (
    Seq<char>,
    Seq<char>,
))
    requires
        is_listed(m, result),
    ensures
        ({
            let query = text::lower(text::trimmed(m.results_search));
            ||| query.len() == 0
            ||| text::lower(result.file_path@) == around.0 + query + around.1
            ||| result.threat_name matches Some(name) && text::lower(name@) == around.0 + query
                + around.1
        }),
        passes_filter(result, m.result_filter),
{
    let query = text::lower(text::trimmed(m.results_search));
    let path = text::lower(result.file_path@);
    let threat = text::lower(threat_text(result));
    if query.len() == 0 {
        (query, query)
    } else if text::occurs_in(query, path) {
        text::what_occurs_is_a_part(query, path)
    } else {
        let around = text::what_occurs_is_a_part(query, threat);
        assert(threat.len() > 0);
        around
    }
}

/// Each filter lets exactly the results of its verdict through, and a blank query all of these.
pub proof fn filters_go_by_verdict(m: AppModel, result: ScanResult)
    requires
        text::trimmed(m.results_search).len() == 0,
    ensures
        is_listed(m, result) <==> match m.result_filter {
            ResultFilter::All => true,
            ResultFilter::Malicious => result.verdict is Malicious,
            ResultFilter::Errors => result.verdict is Error,
            ResultFilter::Clean => result.verdict is Clean,
        },
{
}

/// A limit that is entered as a number of megabytes, with white space around it, is that many
/// times 1,048,576 bytes; nothing entered is no limit; and zero is refused.
pub proof fn entered_limit_is_in_megabytes(before: Seq<char>, mb: nat, after: Seq<char>)
    requires
        forall|i: int| 0 <= i < before.len() ==> text::is_white_space(#[trigger] before[i]),
        forall|i: int| 0 <= i < after.len() ==> text::is_white_space(#[trigger] after[i]),
        mb <= u64::MAX,
    ensures
        mb > 0 ==> max_file_size(before + text::decimal(mb) + after) == Ok::<
            Option<nat>,
            Seq<char>,
        >(Some((mb * 1_048_576) as nat)),
        mb == 0 ==> max_file_size(before + text::decimal(mb) + after) == Err::<
            Option<nat>,
            Seq<char>,
        >("Max File Size (MB) must be greater than zero."@),
        max_file_size(before) == Ok::<Option<nat>, Seq<char>>(None),
{
    let class = text::CharClass::WhiteSpace;
    let none = Seq::<char>::empty();
    assert forall|i: int| 0 <= i < before.len() implies class.has(#[trigger] before[i]) by {}
    assert forall|i: int| 0 <= i < after.len() implies class.has(#[trigger] after[i]) by {}
    text::decimal_is_read_back(mb);
    text::trimming_leaves_the_core(before, text::decimal(mb), after, class);
    text::trimming_leaves_the_core(before, none, none, class);
    assert(before + none + none =~= before);
    assert((mb * 1024 * 1024) as nat == (mb * 1_048_576) as nat) by (nonlinear_arith);
}

/// What is entered and is no number is refused.
pub proof fn other_limits_are_refused(value: Seq<char>)
    requires
        text::trimmed(value).len() > 0,
        text::unsigned_value(text::trimmed(value), 10) is None,
    ensures
        max_file_size(value) == Err::<Option<nat>, Seq<char>>(
            "Max File Size (MB) must be a whole number."@,
        ),
{
}

/// A scan starts exactly where a target and a database are entered, and rules where rules are to
/// be evaluated, and the limit is none or a number above zero. Else the first of these that is
/// wrong is reported, the limit before the rest.
pub proof fn scan_starts_where_nothing_is_missing(m: AppModel)
    ensures
        start_fault(m) is None <==> {
            &&& text::trimmed(m.target_path).len() > 0
            &&& text::trimmed(m.database_path).len() > 0
            &&& m.enable_yara ==> text::trimmed(m.rules_path).len() > 0
            &&& text::trimmed(m.max_file_size_mb).len() == 0 || (text::unsigned_value(
                text::trimmed(m.max_file_size_mb),
                10,
            ) matches Some(mb) && mb > 0)
        },
        max_file_size(m.max_file_size_mb) matches Err(message) ==> start_fault(m) == Some(message),
        max_file_size(m.max_file_size_mb) is Ok && text::trimmed(m.target_path).len() == 0
            ==> start_fault(m) == Some(
            if m.target_mode is File {
                "Select a file to scan."@
            } else {
                "Select a directory to scan."@
            },
        ),
        max_file_size(m.max_file_size_mb) is Ok && text::trimmed(m.target_path).len() > 0
            && text::trimmed(m.database_path).len() == 0 ==> start_fault(m) == Some(
            "Select a signature database."@,
        ),
        max_file_size(m.max_file_size_mb) is Ok && text::trimmed(m.target_path).len() > 0
            && text::trimmed(m.database_path).len() > 0 && m.enable_yara && text::trimmed(
            m.rules_path,
        ).len() == 0 ==> start_fault(m) == Some("Select a YARA rule file or directory."@),
{
}

/// The scan that is asked for is the one that was entered: its target of its kind, its database,
/// its rules where they are to be evaluated, and its policy.
pub proof fn request_is_what_was_entered(m: AppModel, request: ScanRequest)
    requires
        is_asked(m, request),
    ensures
        m.target_mode is File ==> (request.target matches ScanTarget::File(path) && path@
            == text::trimmed(m.target_path)),
        m.target_mode is Directory ==> (request.target matches ScanTarget::Directory(path) && path@
            == text::trimmed(m.target_path)),
        request.database_path@ == text::trimmed(m.database_path),
        m.enable_yara ==> (request.rules_path matches Some(path) && path@ == text::trimmed(
            m.rules_path,
        )),
        !m.enable_yara ==> request.rules_path is None,
        request.policy.skip_hidden_paths == m.skip_hidden_paths,
        request.policy.max_file_size_bytes matches Some(bytes) ==> bytes > 0 && bytes % 1_048_576
            == 0 && text::unsigned_value(text::trimmed(m.max_file_size_mb), 10) == Some(
            (bytes / 1_048_576) as nat,
        ),
        request.policy.max_file_size_bytes is None ==> text::trimmed(m.max_file_size_mb).len() == 0,
{
    if let Some(bytes) = request.policy.max_file_size_bytes {
        let mb = text::unsigned_value(text::trimmed(m.max_file_size_mb), 10)->0;
        assert((mb * 1024 * 1024) as int == mb * 1_048_576) by (nonlinear_arith);
        assert(bytes as int == mb * 1_048_576);
        assert(bytes as int % 1_048_576 == 0 && bytes as int / 1_048_576 == mb) by (nonlinear_arith)
            requires
                bytes as int == mb * 1_048_576,
        ;
    }
}

/// What the console shows after events of a scan is what the last of each kind says: the counts of
/// the last end, and the sizes of the last start; and as many files are done as were reported.
pub proof fn last_event_of_a_kind_counts(m: AppModel, events: Seq<ScanEvent>, event: ScanEvent)
    requires
        m.awaits_scan,
        m.wf(),
        m.results.len() + scanned_results(events).len() < usize::MAX,
    ensures
        ({
            let before = scan_polled(m, events);
            let after = scan_polled(m, events.push(event));
            match event {
                ScanEvent::Started { total, signature_count, rule_files } => {
                    &&& after.progress.total == total
                    &&& after.progress.signature_count == signature_count
                    &&& after.progress.rule_files == rule_files
                    &&& after.progress.completed == before.progress.completed
                    &&& after.summary == before.summary
                    &&& after.results == before.results
                    &&& after.status_message == "Loaded "@ + text::decimal(signature_count as nat)
                        + " signatures and "@ + text::decimal(rule_files as nat)
                        + " YARA rule file(s)."@
                },
                ScanEvent::FileScanned(result) => {
                    &&& after.results == before.results.push(result)
                    &&& after.progress.completed == before.progress.completed + 1
                    &&& after.progress.total == before.progress.total
                    &&& after.status_message == before.status_message
                    &&& before.selected_result is None ==> after.selected_result == Some(0usize)
                    &&& after.summary == before.summary
                },
                ScanEvent::Failed(message) => {
                    &&& after.status_message == message@
                    &&& !after.is_scanning
                    &&& after.results == before.results
                    &&& after.summary == before.summary
                },
                ScanEvent::Finished { summary, cancelled } => {
                    &&& after.summary == Some(summary)
                    &&& after.status_message == finished_text(summary, cancelled)
                    &&& !after.is_scanning
                    &&& after.results == before.results
                    &&& after.progress == before.progress
                },
            }
        }),
{
    let all = events.push(event);
    assert(all.drop_last() =~= events);
    assert(all.last() == event);
    lemma_events_add_results(m, events);
    lemma_events_keep_wf(m, events);
}

proof fn lemma_events_keep_wf(m: AppModel, events: Seq<ScanEvent>)
    requires
        m.wf(),
        m.results.len() + scanned_results(events).len() <= usize::MAX,
    ensures
        after_events(m, events).wf(),
    decreases events.len(),
{
    if events.len() > 0 {
        let before = events.drop_last();
        assert(scanned_results(before).len() <= scanned_results(events).len());
        lemma_events_keep_wf(m, before);
        lemma_events_add_results(m, before);
        lemma_events_add_results(m, events);
    }
}

/// When the feeds were brought up to date, their rules are the ones that scans evaluate from then
/// on; where that failed, the rules stay as they were. Either way nobody waits for them any more,
/// and the results and the scan are not touched.
pub proof fn synced_rules_are_used(m: AppModel, event: FeedSyncEvent)
    requires
        m.awaits_feeds,
    ensures
        ({
            let after = feeds_polled(m, seq![event]);
            &&& !after.awaits_feeds && !after.is_syncing_feeds
            &&& after.results == m.results && after.summary == m.summary && after.progress
                == m.progress && after.status_message == m.status_message && after.is_scanning
                == m.is_scanning && after.cancel_flag == m.cancel_flag
            &&& event matches FeedSyncEvent::Completed(summary) ==> after.enable_yara
                && after.rules_path == summary.destination@ && after.feed_summary == Some(summary)
            &&& event matches FeedSyncEvent::Failed(message) ==> after.enable_yara == m.enable_yara
                && after.rules_path == m.rules_path && after.feed_summary == m.feed_summary
                && after.feed_status_message == message@
        }),
{
    let events = seq![event];
    assert(events.drop_last() =~= Seq::<FeedSyncEvent>::empty());
    assert(events.last() == event);
    reveal_with_fuel(after_feed_events, 2);
}

/// Events that nobody awaits change nothing, and neither does it where none came in.
pub proof fn unawaited_events_change_nothing(
    m: AppModel,
    events: Seq<ScanEvent>,
    feed_events: Seq<FeedSyncEvent>,
)
    ensures
        !m.awaits_scan ==> scan_polled(m, events) == m,
        !m.awaits_feeds ==> feeds_polled(m, feed_events) == m,
        scan_polled(m, Seq::empty()) == m,
        feeds_polled(m, Seq::empty()) == m,
{
}

/// The message at the end of a scan tells its counts as they are: the files, and where the scan was
/// not stopped the hash detections and the rule detections too.
pub proof fn end_is_told_with_its_counts(files: nat, hashes: nat, rules: nat, summary: ScanSummary)
    requires
        summary.files_scanned == files,
        summary.hash_detections == hashes,
        summary.yara_detections == rules,
    ensures
        finished_text(summary, false) == "Scan complete: "@ + text::decimal(files)
            + " files inspected, "@ + text::decimal(hashes) + " hash hits, "@ + text::decimal(rules)
            + " YARA hits."@,
        finished_text(summary, true) == "Scan stopped: "@ + text::decimal(files)
            + " files inspected before cancellation."@,
{
}

/// The policy is shown with the number of megabytes that was entered.
pub proof fn policy_shows_the_entered_limit(skip: bool, mb: nat)
    requires
        0 < mb <= u64::MAX,
    ensures
        policy_shown(skip, text::decimal(mb)) == (if skip {
            "skip hidden"@
        } else {
            "include hidden"@
        }) + " | "@ + ("max "@ + text::decimal(mb) + " MB"@),
        policy_shown(skip, Seq::empty()) == (if skip {
            "skip hidden"@
        } else {
            "include hidden"@
        }) + " | "@ + "no size limit"@,
{
    let none = Seq::<char>::empty();
    entered_limit_is_in_megabytes(none, mb, none);
    assert(none + text::decimal(mb) + none =~= text::decimal(mb));
    assert((mb * 1_048_576) as nat / (1024 * 1024) == mb) by (nonlinear_arith);
}

/// What is said of the console is said of all its fields.
pub proof fn console_is_seen_whole(app: AstraApp)
    ensures
        app@.target_mode == app.target_mode,
        app@.target_path == app.target_path@,
        app@.database_path == app.database_path@,
        app@.rules_path == app.rules_path@,
        app@.enable_yara == app.enable_yara,
        app@.skip_hidden_paths == app.skip_hidden_paths,
        app@.max_file_size_mb == app.max_file_size_mb@,
        app@.results == app.results@,
        app@.selected_result == app.selected_result,
        app@.result_filter == app.result_filter,
        app@.results_search == app.results_search@,
        app@.summary == app.summary,
        app@.progress == app.progress,
        app@.awaits_scan == app.awaits_scan,
        app@.awaits_feeds == app.awaits_feeds,
        app@.cancel_flag == app.cancel_flag,
        app@.is_scanning == app.is_scanning,
        app@.is_syncing_feeds == app.is_syncing_feeds,
        app@.status_message == app.status_message@,
        app@.feed_status_message == app.feed_status_message@,
        app@.feed_summary == app.feed_summary,
        app@.add_hash_value == app.add_hash_value@,
        app@.add_hash_type == app.add_hash_type,
        app@.add_threat_name == app.add_threat_name@,
{
}

/// The console opens at rest, with nothing entered but the paths that were found: the rules of the
/// feeds before other rules.
pub proof fn console_opens_at_rest(
    feeds: Option<String>,
    rules: Option<String>,
    otherwise: Seq<char>,
    database: Seq<char>,
    enable_yara: bool,
)
    ensures
        feeds matches Some(path) ==> first_found(feeds, rules, otherwise) == path@,
        feeds is None ==> (rules matches Some(path) ==> first_found(feeds, rules, otherwise)
            == path@),
        feeds is None && rules is None ==> first_found(feeds, rules, otherwise) == otherwise,
        ({
            let m = opened(database, otherwise, enable_yara);
            &&& m.wf()
            &&& m.database_path == database && m.rules_path == otherwise && m.enable_yara
                == enable_yara
            &&& m.target_path.len() == 0 && m.max_file_size_mb.len() == 0 && m.results_search.len()
                == 0 && m.add_hash_value.len() == 0 && m.add_threat_name.len() == 0
            &&& m.results.len() == 0 && m.summary is None && m.selected_result is None
            &&& !m.is_scanning && !m.is_syncing_feeds && !m.awaits_scan && !m.awaits_feeds
                && m.cancel_flag is None
            &&& m.skip_hidden_paths && m.target_mode is File && m.result_filter is All
        }),
{
}

/// The message about the writing of a report names where it is, or what went wrong.
pub proof fn export_names_its_place(outcome: ExportOutcome)
    ensures
        match outcome {
            ExportOutcome::Written(path) => export_text(outcome) == "Exported report to "@ + path@
                + "."@,
            ExportOutcome::NotWritten(error) => export_text(outcome) == "Failed to write report: "@
                + error@,
            ExportOutcome::NotSerialized(error) => export_text(outcome)
                == "Failed to serialize report: "@ + error@,
        },
{
}

} // verus!
