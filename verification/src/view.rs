//! What the panels of the console show, for each state of the console.

use crate::app;
use crate::app::{policy_text, AstraApp};
use crate::display;
use crate::display::{
    decimal_text, elapsed_text, feed_rules_text, hash_detections_text, hash_text, match_count_text,
    match_type_text, mode_label, preview_bytes, processed_text, progress_text, result_text,
    rule_count_text, rule_text, scan_time_text, shown_count_text, skipped_text, string_text,
    truncate_middle, verdict_badge_label, yara_detections_text, TargetMode,
};
use crate::engine::{ScanResult, ScanSummary};
use crate::feeds::{FeedStatus, FeedSyncSummary};
use crate::hex;
use crate::paths;
use crate::paths::{path_file_name, PathPart};
use crate::text;
use crate::text::{copy_option, copy_strings, utf8_text};
use crate::yara::{YaraMatch, YaraMatchString};
use vstd::prelude::*;
use vstd::utf8::*;

verus! {

/// The version that is shown.
pub open spec fn version_text() -> Seq<char> {
    "v0.3.0"@
}

/// What the head of the console shows.
#[derive(Debug)]
pub struct HeroView {
    pub mode: &'static str,
    pub yara: &'static str,
    pub version: &'static str,
    pub start_label: &'static str,
    pub can_start: bool,
    pub can_stop: bool,
    pub status: String,
}

/// Shows the head of the console.
pub fn hero_view(app: &AstraApp) -> (view: HeroView)
    ensures
        view.mode@ == app.target_mode.name(),
        view.yara@ == if app.enable_yara {
            "YARA Enabled"@
        } else {
            "YARA Disabled"@
        },
        view.version@ == version_text(),
        view.start_label@ == if app.is_scanning {
            "Scan Running"@
        } else {
            "Start Scan"@
        },
        view.can_start == !app.is_scanning,
        view.can_stop == app.is_scanning,
        view.status@ == app.status_message@,
{
    HeroView {
        mode: mode_label(app.target_mode),
        yara: if app.enable_yara {
            "YARA Enabled"
        } else {
            "YARA Disabled"
        },
        version: "v0.3.0",
        start_label: if app.is_scanning {
            "Scan Running"
        } else {
            "Start Scan"
        },
        can_start: !app.is_scanning,
        can_stop: app.is_scanning,
        status: app.status_message.clone(),
    }
}

/// A label with its value.
#[derive(Debug)]
pub struct Strip {
    pub label: String,
    pub value: String,
}

/// What a `Strip` says.
pub ghost struct StripModel {
    pub label: Seq<char>,
    pub value: Seq<char>,
}

impl View for Strip {
    type V = StripModel;

    open spec fn view(&self) -> StripModel {
        StripModel { label: self.label@, value: self.value@ }
    }
}

/// What a row of strips says.
pub open spec fn strip_models(strips: Seq<Strip>) -> Seq<StripModel> {
    Seq::new(strips.len(), |i: int| strips[i]@)
}

fn push_strip(strips: &mut Vec<Strip>, label: &str, value: String)
    ensures
        strip_models(final(strips)@) == strip_models(old(strips)@).push(
            (StripModel { label: label@, value: value@ }),
        ),
{
    strips.push(Strip { label: label.to_owned(), value });
    assert(strip_models(strips@) =~= strip_models(old(strips)@).push(
        StripModel { label: label@, value: value@ },
    ));
}

fn no_strips() -> (strips: Vec<Strip>)
    ensures
        strip_models(strips@) == Seq::<StripModel>::empty(),
{
    let strips: Vec<Strip> = Vec::new();
    assert(strip_models(strips@) =~= Seq::<StripModel>::empty());
    strips
}

/// The label of the button that chooses a target.
pub fn target_button_label(mode: TargetMode) -> (label: &'static str)
    ensures
        label@ == match mode {
            TargetMode::File => "Choose file"@,
            TargetMode::Directory => "Choose folder"@,
        },
{
    match mode {
        TargetMode::File => "Choose file",
        TargetMode::Directory => "Choose folder",
    }
}

/// The strip of a feed that was brought up to date.
pub open spec fn feed_strip(status: FeedStatus) -> StripModel {
    StripModel {
        label: status.feed.name@,
        value: text::decimal(status.rule_count as nat) + " rules imported"@,
    }
}

/// The strips of the feeds that were brought up to date.
pub open spec fn feed_strip_models(summary: FeedSyncSummary) -> Seq<StripModel> {
    seq![
        StripModel {
            label: "Active Feed Rules"@,
            value: text::decimal(summary.synced_feeds as nat) + " feeds | "@ + text::decimal(
                summary.total_rules as nat,
            ) + " rules | "@ + display::shortened(summary.destination@, 34),
        },
    ] + Seq::new(summary.per_feed@.len(), |i: int| feed_strip(summary.per_feed@[i]))
}

/// Shows what the feeds brought, where they were brought up to date.
pub fn feed_strips(app: &AstraApp) -> (strips: Vec<Strip>)
    ensures
        strip_models(strips@) == match app.feed_summary {
            Some(summary) => feed_strip_models(summary),
            None => Seq::empty(),
        },
{
    let mut strips = no_strips();
    if let Some(summary) = &app.feed_summary {
        push_strip(&mut strips, "Active Feed Rules", feed_rules_text(summary));
        let ghost all = feed_strip_models(*summary);
        assert(strip_models(strips@) =~= all.take(1));
        for i in 0..summary.per_feed.len()
            invariant
                all == feed_strip_models(*summary),
                strip_models(strips@) == all.take(1 + i),
        {
            let status = &summary.per_feed[i];
            push_strip(&mut strips, status.feed.name, rule_count_text(status.rule_count));
            assert(all[1 + i] == feed_strip(summary.per_feed@[i as int]));
            assert(all.take(1 + i).push(all[1 + i]) =~= all.take(2 + i));
        }
        assert(all.take(all.len() as int) =~= all);
    }
    strips
}

/// How many files were left out.
pub open spec fn skipped_count(summary: Option<ScanSummary>) -> nat {
    match summary {
        Some(counts) => counts.skipped_files as nat,
        None => 0,
    }
}

/// The lines on the state of the console.
pub open spec fn operation_line_models(m: app::AppModel) -> Seq<StripModel> {
    seq![
        StripModel { label: "Mode"@, value: m.target_mode.name() },
        StripModel {
            label: "Progress"@,
            value: text::decimal(m.progress.completed as nat) + "/"@ + text::decimal(
                (if m.progress.total == 0 {
                    1
                } else {
                    m.progress.total as nat
                }),
            ),
        },
        StripModel {
            label: "Signatures"@,
            value: text::decimal(m.progress.signature_count as nat),
        },
        StripModel { label: "Rule Files"@, value: text::decimal(m.progress.rule_files as nat) },
        StripModel { label: "Skipped"@, value: text::decimal(skipped_count(m.summary)) },
    ]
}

/// Shows the state of the console.
pub fn operation_lines(app: &AstraApp) -> (lines: Vec<Strip>)
    ensures
        strip_models(lines@) == operation_line_models(app@),
{
    let mut lines = no_strips();
    push_strip(&mut lines, "Mode", mode_label(app.target_mode).to_owned());
    push_strip(
        &mut lines,
        "Progress",
        progress_text(app.progress.completed, app.progress.total),
    );
    push_strip(&mut lines, "Signatures", decimal_text(app.progress.signature_count as u128));
    push_strip(&mut lines, "Rule Files", decimal_text(app.progress.rule_files as u128));
    push_strip(&mut lines, "Skipped", skipped_text(app.summary.as_ref()));
    assert(strip_models(lines@) =~= operation_line_models(app@));
    lines
}

/// The strips on what a scan goes by.
pub open spec fn setting_strip_models(m: app::AppModel) -> Seq<StripModel> {
    let database = seq![
        StripModel { label: "Database"@, value: display::shortened(m.database_path, 38) },
    ];
    let rules = seq![StripModel { label: "Rules"@, value: display::shortened(m.rules_path, 38) }];
    let policy = seq![
        StripModel {
            label: "Policy"@,
            value: app::policy_shown(m.skip_hidden_paths, m.max_file_size_mb),
        },
    ];
    if m.enable_yara {
        database + rules + policy
    } else {
        database + policy
    }
}

/// Shows what a scan goes by.
pub fn setting_strips(app: &AstraApp) -> (strips: Vec<Strip>)
    requires
        app::size_fits(app.max_file_size_mb@),
    ensures
        strip_models(strips@) == setting_strip_models(app@),
{
    let mut strips = no_strips();
    push_strip(&mut strips, "Database", truncate_middle(&app.database_path, 38));
    if app.enable_yara {
        push_strip(&mut strips, "Rules", truncate_middle(&app.rules_path, 38));
    }
    push_strip(&mut strips, "Policy", policy_text(app.skip_hidden_paths, &app.max_file_size_mb));
    assert(strip_models(strips@) =~= setting_strip_models(app@));
    strips
}

/// The four counts of a scan. `seconds` are its seconds, written with two decimals.
pub open spec fn metric_models(m: app::AppModel, seconds: Seq<char>) -> Seq<StripModel> {
    seq![
        StripModel {
            label: "Processed"@,
            value: text::decimal(
                match m.summary {
                    Some(counts) => counts.files_scanned as nat,
                    None => m.progress.completed as nat,
                },
            ),
        },
        StripModel {
            label: "Hash Detections"@,
            value: match m.summary {
                Some(counts) => text::decimal(counts.hash_detections as nat),
                None => "0"@,
            },
        },
        StripModel {
            label: "YARA Detections"@,
            value: match m.summary {
                Some(counts) => text::decimal(counts.yara_detections as nat),
                None => "0"@,
            },
        },
        StripModel {
            label: "Elapsed"@,
            value: match m.summary {
                Some(counts) => display::duration_text(counts.elapsed, seconds),
                None => "--"@,
            },
        },
    ]
}

/// Shows the four counts of a scan. `seconds` are its seconds, written with two decimals.
pub fn metrics(app: &AstraApp, seconds: &str) -> (tiles: Vec<Strip>)
    ensures
        strip_models(tiles@) == metric_models(app@, seconds@),
{
    let summary = app.summary.as_ref();
    let mut tiles = no_strips();
    push_strip(&mut tiles, "Processed", processed_text(summary, app.progress.completed));
    push_strip(&mut tiles, "Hash Detections", hash_detections_text(summary));
    push_strip(&mut tiles, "YARA Detections", yara_detections_text(summary));
    push_strip(&mut tiles, "Elapsed", elapsed_text(summary, seconds));
    assert(strip_models(tiles@) =~= metric_models(app@, seconds@));
    tiles
}

/// A notice in place of what is not there.
#[derive(Clone, Copy, Debug)]
pub struct Notice {
    pub title: &'static str,
    pub message: &'static str,
}

/// What the list of results shows.
#[derive(Debug)]
pub struct ResultsView {
    /// How many results are listed.
    pub count: String,
    /// The notice in place of the list, where nothing is listed.
    pub notice: Option<Notice>,
    /// The places of the listed results.
    pub rows: Vec<usize>,
}

/// The notice in place of a list of so many results, of so many in all.
pub open spec fn list_notice(results: nat, listed: nat) -> Option<Notice> {
    if results == 0 {
        Some(
            Notice {
                title: "No results yet",
                message: "Start a scan to populate this queue with file verdicts and YARA matches.",
            },
        )
    } else if listed == 0 {
        Some(
            Notice {
                title: "No matching results",
                message: "Adjust the search query or filter to see more files.",
            },
        )
    } else {
        None
    }
}

/// Shows the list of results.
pub fn results_view(app: &AstraApp) -> (view: ResultsView)
    ensures
        view.rows@ == app::listed(app@, app.results@.len()),
        view.count@ == text::decimal(view.rows@.len()) + " shown"@,
        view.notice == list_notice(app.results@.len(), view.rows@.len()),
{
    let rows = app.filtered_result_indices();
    let notice = if app.results.len() == 0 {
        Some(
            Notice {
                title: "No results yet",
                message: "Start a scan to populate this queue with file verdicts and YARA matches.",
            },
        )
    } else if rows.len() == 0 {
        Some(
            Notice {
                title: "No matching results",
                message: "Adjust the search query or filter to see more files.",
            },
        )
    } else {
        None
    };
    ResultsView { count: shown_count_text(rows.len()), notice, rows }
}

/// The name that a path leads to, where it is text.
pub open spec fn name_shown(path: Seq<paths::PartModel>) -> Option<Seq<char>> {
    match paths::file_name(path) {
        Some(name) => if valid_utf8(name) {
            Some(decode_utf8(name))
        } else {
            None
        },
        None => None,
    }
}

/// The name that a path leads to, where it is text.
pub fn shown_name(path: &[PathPart]) -> (name: Option<String>)
    ensures
        match name {
            Some(known) => name_shown(paths::parts(path@)) == Some(known@),
            None => name_shown(paths::parts(path@)) is None,
        },
{
    match path_file_name(path) {
        None => None,
        Some(bytes) => match utf8_text(bytes) {
            None => None,
            Some(known) => {
                proof {
                    encode_utf8_decode_utf8(known@);
                }
                Some(known.to_owned())
            },
        },
    }
}

/// What the list shows of a result.
#[derive(Debug)]
pub struct RowView {
    pub text: String,
    pub selected: bool,
    pub verdict: &'static str,
    /// The number of rules that matched, where one did.
    pub matches: Option<String>,
    /// The mark of a known hash, where it is one.
    pub hit: Option<&'static str>,
}

/// Whether the row shows the result of the file at the path: under its name, or else under the
/// whole path.
pub open spec fn shows_row(
    row: RowView,
    result: ScanResult,
    path: Seq<paths::PartModel>,
    selected: bool,
) -> bool {
    &&& row.text@ == match name_shown(path) {
        Some(name) => name,
        None => result.file_path@,
    } + "\n"@ + display::shortened(result.file_path@, 68) + "\n"@ + result.verdict.name()
    &&& row.selected == selected
    &&& row.verdict@ == display::badge_name(result.verdict)
    &&& match row.matches {
        Some(count) => result.yara_matches@.len() > 0 && count@ == text::decimal(
            result.yara_matches@.len(),
        ) + " YARA"@,
        None => result.yara_matches@.len() == 0,
    }
    &&& match row.hit {
        Some(mark) => result.detected && mark@ == "Hash Hit"@,
        None => !result.detected,
    }
}

/// Shows a result in the list. `path` is the path of its file.
pub fn row_view(app: &AstraApp, index: usize, path: &[PathPart]) -> (row: RowView)
    requires
        index < app.results@.len(),
    ensures
        shows_row(
            row,
            app.results@[index as int],
            paths::parts(path@),
            app.selected_result == Some(index),
        ),
{
    let result = &app.results[index];
    let text = match shown_name(path) {
        Some(name) => result_text(result, Some(&name)),
        None => result_text(result, None),
    };
    RowView {
        text,
        selected: match app.selected_result {
            Some(chosen) => chosen == index,
            None => false,
        },
        verdict: verdict_badge_label(&result.verdict),
        matches: if result.yara_matches.len() > 0 {
            Some(match_count_text(result))
        } else {
            None
        },
        hit: if result.detected {
            Some("Hash Hit")
        } else {
            None
        },
    }
}

/// What is shown of a rule that matched.
#[derive(Debug)]
pub struct Evidence {
    pub title: String,
    pub tags: Vec<String>,
    /// A note, where the rule has no strings.
    pub note: Option<&'static str>,
    pub strings: Vec<Strip>,
}

/// The strip of a string that was found.
pub open spec fn string_strip(found: YaraMatchString) -> StripModel {
    StripModel {
        label: found.name@ + " @ 0x"@ + hex::hex_number(found.offset as nat),
        value: display::preview(found.data@),
    }
}

/// Whether the evidence is that of the match.
pub open spec fn shows_match(evidence: Evidence, matched: YaraMatch) -> bool {
    &&& evidence.title@ == matched.namespace@ + "::"@ + matched.rule_name@
    &&& text::string_texts(evidence.tags@) == text::string_texts(matched.tags@)
    &&& match evidence.note {
        Some(note) => matched.strings@.len() == 0 && note@
            == "Rule matched without string offsets."@,
        None => matched.strings@.len() > 0,
    }
    &&& strip_models(evidence.strings@) == Seq::new(
        matched.strings@.len(),
        |i: int| string_strip(matched.strings@[i]),
    )
}

fn evidence(matched: &YaraMatch) -> (shown: Evidence)
    ensures
        shows_match(shown, *matched),
{
    let mut strings = no_strips();
    let ghost all = Seq::new(
        matched.strings@.len(),
        |i: int| string_strip(matched.strings@[i]),
    );
    assert(all.take(0) =~= Seq::<StripModel>::empty());
    for i in 0..matched.strings.len()
        invariant
            all == Seq::new(matched.strings@.len(), |i: int| string_strip(matched.strings@[i])),
            strip_models(strings@) == all.take(i as int),
    {
        let found = &matched.strings[i];
        push_strip(&mut strings, &string_text(found), preview_bytes(&found.data));
        assert(all.take(i as int).push(all[i as int]) =~= all.take(i + 1));
    }
    assert(all.take(all.len() as int) =~= all);
    Evidence {
        title: rule_text(matched),
        tags: copy_strings(&matched.tags),
        note: if matched.strings.len() == 0 {
            Some("Rule matched without string offsets.")
        } else {
            None
        },
        strings,
    }
}

/// What is shown of the selected result.
#[derive(Debug)]
pub struct ResultDetail {
    pub path: String,
    pub verdict: &'static str,
    pub threat: Option<String>,
    pub matched: Option<String>,
    pub scan_time: String,
    pub error: Option<String>,
    pub hashes: Vec<Strip>,
    pub assessment: Vec<Strip>,
    /// The notice in place of the evidence, where no rule matched.
    pub no_evidence: Option<&'static str>,
    pub evidence: Vec<Evidence>,
}

/// A hash as it is shown.
pub open spec fn hash_shown(hash: Seq<char>) -> Seq<char> {
    if hash.len() == 0 {
        "-"@
    } else {
        display::shortened(hash, 72)
    }
}

/// The strips of the hashes of a result.
pub open spec fn hash_strip_models(result: ScanResult) -> Seq<StripModel> {
    let taken = seq![
        StripModel { label: "MD5"@, value: hash_shown(result.md5@) },
        StripModel { label: "SHA1"@, value: hash_shown(result.sha1@) },
        StripModel { label: "SHA256"@, value: hash_shown(result.sha256@) },
    ];
    match result.match_hash {
        Some(hash) => taken.push(
            StripModel { label: "Matched Hash"@, value: hash_shown(hash@) },
        ),
        None => taken,
    }
}

/// The lines of the assessment of a result.
pub open spec fn assessment_models(result: ScanResult) -> Seq<StripModel> {
    let verdict = seq![StripModel { label: "Verdict"@, value: result.verdict.name() }];
    let threat = match result.threat_name {
        Some(name) => seq![StripModel { label: "Threat"@, value: name@ }],
        None => Seq::empty(),
    };
    let matches = seq![
        StripModel {
            label: "YARA Matches"@,
            value: text::decimal(result.yara_matches@.len()),
        },
    ];
    verdict + threat + matches
}

/// Whether the detail is that of the result. `seconds` are the seconds that its scan took, written
/// with two decimals.
pub open spec fn shows_detail(
    detail: ResultDetail,
    result: ScanResult,
    seconds: Seq<char>,
) -> bool {
    &&& detail.path@ == display::shortened(result.file_path@, 96)
    &&& detail.verdict@ == display::badge_name(result.verdict)
    &&& detail.threat == result.threat_name
    &&& match (detail.matched, result.match_type) {
        (Some(shown), Some(algorithm)) => shown@ == "Matched "@ + algorithm.name(),
        (None, None) => true,
        _ => false,
    }
    &&& detail.scan_time@ == "Scan time "@ + display::duration_text(result.scan_time, seconds)
    &&& detail.error == result.error
    &&& strip_models(detail.hashes@) == hash_strip_models(result)
    &&& strip_models(detail.assessment@) == assessment_models(result)
    &&& match detail.no_evidence {
        Some(note) => result.yara_matches@.len() == 0 && note@
            == "No YARA matches for this file."@,
        None => result.yara_matches@.len() > 0,
    }
    &&& detail.evidence@.len() == result.yara_matches@.len()
    &&& forall|i: int|
        0 <= i < result.yara_matches@.len() ==> shows_match(
            #[trigger] detail.evidence@[i],
            result.yara_matches@[i],
        )
}

fn hash_strips(result: &ScanResult) -> (strips: Vec<Strip>)
    ensures
        strip_models(strips@) == hash_strip_models(*result),
{
    let mut strips = no_strips();
    push_strip(&mut strips, "MD5", hash_text(&result.md5));
    push_strip(&mut strips, "SHA1", hash_text(&result.sha1));
    push_strip(&mut strips, "SHA256", hash_text(&result.sha256));
    if let Some(hash) = &result.match_hash {
        push_strip(&mut strips, "Matched Hash", hash_text(hash));
    }
    assert(strip_models(strips@) =~= hash_strip_models(*result));
    strips
}

fn assessment(result: &ScanResult) -> (lines: Vec<Strip>)
    ensures
        strip_models(lines@) == assessment_models(*result),
{
    let mut lines = no_strips();
    push_strip(&mut lines, "Verdict", result.verdict.label().to_owned());
    if let Some(name) = &result.threat_name {
        push_strip(&mut lines, "Threat", name.clone());
    }
    push_strip(&mut lines, "YARA Matches", decimal_text(result.yara_matches.len() as u128));
    assert(strip_models(lines@) =~= assessment_models(*result));
    lines
}

/// Shows a result in detail. `seconds` are the seconds that its scan took, written with two
/// decimals.
pub fn result_detail(result: &ScanResult, seconds: &str) -> (detail: ResultDetail)
    ensures
        shows_detail(detail, *result, seconds@),
{
    let mut shown: Vec<Evidence> = Vec::new();
    for i in 0..result.yara_matches.len()
        invariant
            shown@.len() == i,
            forall|j: int|
                0 <= j < i ==> shows_match(#[trigger] shown@[j], result.yara_matches@[j]),
    {
        shown.push(evidence(&result.yara_matches[i]));
    }
    ResultDetail {
        path: truncate_middle(&result.file_path, 96),
        verdict: verdict_badge_label(&result.verdict),
        threat: copy_option(&result.threat_name),
        matched: match result.match_type {
            Some(algorithm) => Some(match_type_text(algorithm)),
            None => None,
        },
        scan_time: scan_time_text(result, seconds),
        error: copy_option(&result.error),
        hashes: hash_strips(result),
        assessment: assessment(result),
        no_evidence: if result.yara_matches.len() == 0 {
            Some("No YARA matches for this file.")
        } else {
            None
        },
        evidence: shown,
    }
}

/// The notice in place of the detail, where there is none: nothing is selected, or what is
/// selected is not there.
pub open spec fn detail_notice(m: app::AppModel) -> Option<Notice> {
    match m.selected_result {
        None => Some(
            Notice {
                title: "Nothing selected",
                message: "Choose a result from the queue to inspect hashes, matched rules, and verdict context.",
            },
        ),
        Some(index) => if index < m.results.len() {
            None
        } else {
            Some(
                Notice {
                    title: "Selection lost",
                    message: "The selected result is no longer available.",
                },
            )
        },
    }
}

/// The place of the result that is shown in detail, or the notice in place of it.
pub fn detail_selection(app: &AstraApp) -> (selection: Result<usize, Notice>)
    ensures
        match selection {
            Ok(index) => detail_notice(app@) is None && app.selected_result == Some(index) && index
                < app.results@.len(),
            Err(notice) => detail_notice(app@) == Some(notice),
        },
{
    match app.selected_result {
        None => Err(
            Notice {
                title: "Nothing selected",
                message: "Choose a result from the queue to inspect hashes, matched rules, and verdict context.",
            },
        ),
        Some(index) => {
            if index < app.results.len() {
                Ok(index)
            } else {
                Err(
                    Notice {
                        title: "Selection lost",
                        message: "The selected result is no longer available.",
                    },
                )
            }
        },
    }
}

/// A selection is never lost: a well-formed console that has results to select from shows the one
/// that is selected.
pub proof fn selection_is_never_lost(m: app::AppModel)
    requires
        m.wf(),
        m.selected_result is Some,
    ensures
        detail_notice(m) is None,
{
}

/// The list shows a notice exactly where it has no row.
pub proof fn notice_or_rows(m: app::AppModel)
    requires
        m.results.len() <= usize::MAX,
    ensures
        list_notice(m.results.len(), app::listed(m, m.results.len()).len()) is None <==> app::listed(
            m,
            m.results.len(),
        ).len() > 0,
{
    app::listed_results_match(m, m.results.len());
    let rows = app::listed(m, m.results.len());
    if m.results.len() == 0 && rows.len() > 0 {
        assert(rows.contains(rows[0]));
    }
}

/// A file is shown under its own name, the last part of its path, in whatever directory it is, as
/// long as the name is text.
pub proof fn name_of_a_file_is_shown(
    directory: Seq<paths::PartModel>,
    name: Seq<char>,
    bytes: Seq<u8>,
)
    ensures
        name_shown(directory.push(paths::PartModel::Normal(encode_utf8(name)))) == Some(name),
        !valid_utf8(bytes) ==> name_shown(directory.push(paths::PartModel::Normal(bytes))) is None,
        name_shown(Seq::empty()) is None,
{
    paths::last_name_is_file_name(directory, paths::PartModel::Normal(encode_utf8(name)));
    paths::last_name_is_file_name(directory, paths::PartModel::Normal(bytes));
    encode_utf8_valid_utf8(name);
    encode_utf8_decode_utf8(name);
}

/// A row marks a result as selected, as a hash hit and with its rule matches exactly where it is
/// that, has a known hash and has such matches.
pub proof fn row_marks_what_the_result_is(
    row: RowView,
    result: ScanResult,
    path: Seq<paths::PartModel>,
    selected: bool,
)
    requires
        shows_row(row, result, path, selected),
    ensures
        row.selected == selected,
        row.hit is Some <==> result.detected,
        row.matches is Some <==> result.yara_matches@.len() > 0,
        row.matches matches Some(count) ==> count@ == text::decimal(result.yara_matches@.len())
            + " YARA"@,
        name_shown(path) matches Some(name) ==> name.is_prefix_of(row.text@),
        result.verdict.name().is_suffix_of(row.text@),
{
}

/// The four counts are those of the last scan that ended, and before that the files that are done.
pub proof fn tiles_show_the_counts(m: app::AppModel, seconds: Seq<char>)
    ensures
        metric_models(m, seconds).len() == 4,
        m.summary matches Some(counts) ==> {
            &&& metric_models(m, seconds)[0].value == text::decimal(counts.files_scanned as nat)
            &&& metric_models(m, seconds)[1].value == text::decimal(counts.hash_detections as nat)
            &&& metric_models(m, seconds)[2].value == text::decimal(counts.yara_detections as nat)
            &&& metric_models(m, seconds)[3].value == display::duration_text(
                counts.elapsed,
                seconds,
            )
        },
        m.summary is None ==> metric_models(m, seconds)[0].value == text::decimal(
            m.progress.completed as nat,
        ),
{
}

/// The state of the console is shown as it is: how far the scan is, what it loaded and what it left
/// out; and each feed that was brought up to date is shown with its rules.
pub proof fn lines_show_the_state(m: app::AppModel, summary: FeedSyncSummary, i: int)
    ensures
        operation_line_models(m).len() == 5,
        m.progress.total > 0 ==> operation_line_models(m)[1].value == text::decimal(
            m.progress.completed as nat,
        ) + "/"@ + text::decimal(m.progress.total as nat),
        operation_line_models(m)[2].value == text::decimal(m.progress.signature_count as nat),
        operation_line_models(m)[3].value == text::decimal(m.progress.rule_files as nat),
        m.summary matches Some(counts) ==> operation_line_models(m)[4].value == text::decimal(
            counts.skipped_files as nat,
        ),
        feed_strip_models(summary).len() == 1 + summary.per_feed@.len(),
        0 <= i < summary.per_feed@.len() ==> feed_strip_models(summary)[1 + i].label
            == summary.per_feed@[i].feed.name@ && feed_strip_models(summary)[1 + i].value
            == text::decimal(summary.per_feed@[i].rule_count as nat) + " rules imported"@,
{
}

/// The detail of a result shows every hash, the threat, the error, and every match with every
/// string of it at its offset.
pub proof fn detail_shows_all_findings(
    detail: ResultDetail,
    result: ScanResult,
    seconds: Seq<char>,
    i: int,
    j: int,
)
    requires
        shows_detail(detail, result, seconds),
    ensures
        detail.threat == result.threat_name,
        detail.error == result.error,
        detail.matched is Some <==> result.match_type is Some,
        detail.no_evidence is Some <==> result.yara_matches@.len() == 0,
        strip_models(detail.hashes@).len() == if result.match_hash is Some {
            4int
        } else {
            3
        },
        0 < result.md5@.len() <= 72 ==> strip_models(detail.hashes@)[0].value == result.md5@,
        0 < result.sha1@.len() <= 72 ==> strip_models(detail.hashes@)[1].value == result.sha1@,
        0 < result.sha256@.len() <= 72 ==> strip_models(detail.hashes@)[2].value == result.sha256@,
        detail.evidence@.len() == result.yara_matches@.len(),
        0 <= i < result.yara_matches@.len() ==> {
            let shown = detail.evidence@[i];
            let matched = result.yara_matches@[i];
            &&& shown.title@ == matched.namespace@ + "::"@ + matched.rule_name@
            &&& shown.strings@.len() == matched.strings@.len()
            &&& 0 <= j < matched.strings@.len() ==> {
                &&& shown.strings@[j].label@ == matched.strings@[j].name@ + " @ 0x"@
                    + hex::hex_number(matched.strings@[j].offset as nat)
                &&& shown.strings@[j].value@ == display::preview(matched.strings@[j].data@)
            }
        },
{
    if 0 <= i < result.yara_matches@.len() {
        let shown = detail.evidence@[i];
        let matched = result.yara_matches@[i];
        assert(shows_match(shown, matched));
        assert(strip_models(shown.strings@).len() == shown.strings@.len());
        if 0 <= j < matched.strings@.len() {
            assert(strip_models(shown.strings@)[j] == shown.strings@[j]@);
        }
    }
}

/// What a scan goes by is shown as it was entered: the database, the policy, and the rules where
/// they are evaluated; and the assessment of a result names its verdict, its threat where it has
/// one, and the number of its matches.
pub proof fn settings_and_assessment_are_shown(m: app::AppModel, result: ScanResult)
    requires
        m.database_path.len() <= 38,
        m.rules_path.len() <= 38,
    ensures
        setting_strip_models(m).len() == if m.enable_yara {
            3int
        } else {
            2
        },
        setting_strip_models(m)[0].value == m.database_path,
        m.enable_yara ==> setting_strip_models(m)[1].value == m.rules_path,
        setting_strip_models(m).last().value == app::policy_shown(
            m.skip_hidden_paths,
            m.max_file_size_mb,
        ),
        assessment_models(result)[0].value == result.verdict.name(),
        result.threat_name matches Some(name) ==> assessment_models(result)[1].value == name@,
        assessment_models(result).last().value == text::decimal(result.yara_matches@.len()),
        assessment_models(result).len() == if result.threat_name is Some {
            3int
        } else {
            2
        },
{
}

} // verus!
