//! The texts that are shown.

use crate::engine::{Elapsed, ScanResult, ScanSummary, Verdict};
use crate::feeds::FeedSyncSummary;
use crate::hex;
use crate::hex::push_hex_number;
use crate::signatures::HashAlgorithm;
use crate::text;
use crate::text::{from_chars, lossy_text, push_decimal, to_chars};
use crate::yara::{YaraMatch, YaraMatchString};
use vstd::prelude::*;
use vstd::slice::slice_subrange;

verus! {

/// What the target of a scan is to be.
#[derive(Clone, Copy, Debug, PartialEq, Eq, Structural)]
pub enum TargetMode {
    File,
    Directory,
}

impl TargetMode {
    /// The name of the mode, as it is shown.
    pub open spec fn name(self) -> Seq<char> {
        match self {
            TargetMode::File => "Single File"@,
            TargetMode::Directory => "Directory Sweep"@,
        }
    }
}

/// The name of the mode, as it is shown.
pub fn mode_label(mode: TargetMode) -> (label: &'static str)
    ensures
        label@ == mode.name(),
{
    match mode {
        TargetMode::File => "Single File",
        TargetMode::Directory => "Directory Sweep",
    }
}

/// A text with its middle left out, where it has more characters than there is room for.
pub open spec fn shortened(value: Seq<char>, max_chars: nat) -> Seq<char> {
    if value.len() <= max_chars {
        value
    } else {
        let head = max_chars / 2 - 2;
        let tail = max_chars - head - 3;
        value.take(head) + "..."@ + value.skip(value.len() - tail)
    }
}

/// Leaves out the middle of a text that has more characters than there is room for. There has to
/// be room for the three dots and one character.
pub fn truncate_middle(value: &str, max_chars: usize) -> (short: String)
    requires
        value@.len() <= max_chars || max_chars >= 4,
    ensures
        short@ == shortened(value@, max_chars as nat),
{
    let chars = to_chars(value);
    let total: usize = chars.len();
    if total <= max_chars {
        return value.to_owned();
    }
    let head: usize = max_chars / 2 - 2;
    let tail: usize = max_chars - head - 3;
    let start = slice_subrange(&chars, 0, head);
    let end = slice_subrange(&chars, total - tail, total);
    let mut short = from_chars(start);
    short.append("...");
    short.append(&from_chars(end));
    assert(start@ =~= value@.take(head as int));
    assert(end@ =~= value@.skip(total - tail));
    short
}

/// A shortened text takes all the room there is, and no more, and keeps its ends.
pub proof fn shortened_fits(value: Seq<char>, max_chars: nat)
    requires
        max_chars >= 4,
    ensures
        shortened(value, max_chars).len() <= max_chars,
        value.len() > max_chars ==> shortened(value, max_chars).len() == max_chars,
        value.len() > 0 ==> shortened(value, max_chars).last() == value.last(),
        value.len() > 0 && max_chars >= 6 ==> shortened(value, max_chars)[0] == value[0],
{
    reveal_strlit("...");
}

/// A shortened text is not shortened further.
pub proof fn shortening_is_final(value: Seq<char>, max_chars: nat)
    requires
        max_chars >= 4,
    ensures
        shortened(shortened(value, max_chars), max_chars) == shortened(value, max_chars),
{
    shortened_fits(value, max_chars);
}

/// How many bytes of a match are shown.
pub const PREVIEW_BYTES: usize = 40;

/// The beginning of bytes as text, with three dots where there are more.
pub open spec fn preview(bytes: Seq<u8>) -> Seq<char> {
    if bytes.len() > PREVIEW_BYTES {
        preview_text(text::utf8_lossy(bytes.take(PREVIEW_BYTES as int)), true)
    } else {
        preview_text(text::utf8_lossy(bytes), false)
    }
}

/// A text, with three dots where it is only a beginning.
pub open spec fn preview_text(beginning: Seq<char>, more: bool) -> Seq<char> {
    if more {
        beginning + "..."@
    } else {
        beginning
    }
}

/// Marks a text that is only a beginning.
pub fn mark_beginning(beginning: String, more: bool) -> (shown: String)
    ensures
        shown@ == preview_text(beginning@, more),
{
    if more {
        beginning.concat("...")
    } else {
        beginning
    }
}

/// Shows the beginning of bytes as text.
pub fn preview_bytes(bytes: &[u8]) -> (shown: String)
    ensures
        shown@ == preview(bytes@),
{
    let more = bytes.len() > PREVIEW_BYTES;
    if more {
        let beginning = slice_subrange(bytes, 0, PREVIEW_BYTES);
        assert(beginning@ =~= bytes@.take(PREVIEW_BYTES as int));
        mark_beginning(lossy_text(beginning), true)
    } else {
        mark_beginning(lossy_text(bytes), false)
    }
}

/// A span of time as it is shown: the seconds with two decimals, where it has one at least, or
/// else the whole milliseconds.
pub open spec fn duration_text(span: Elapsed, seconds: Seq<char>) -> Seq<char> {
    if span.secs >= 1 {
        seconds + "s"@
    } else {
        text::decimal(span.millis()) + "ms"@
    }
}

/// Shows a span of time. `seconds` are its seconds, written with two decimals.
pub fn format_duration(span: Elapsed, seconds: &str) -> (shown: String)
    ensures
        shown@ == duration_text(span, seconds@),
{
    if span.secs >= 1 {
        seconds.to_owned().concat("s")
    } else {
        decimal_text(span.as_millis()).concat("ms")
    }
}

/// A number in decimal.
pub fn decimal_text(n: u128) -> (shown: String)
    ensures
        shown@ == text::decimal(n as nat),
{
    let mut shown = String::new();
    push_decimal(&mut shown, n);
    assert(Seq::<char>::empty() + text::decimal(n as nat) =~= text::decimal(n as nat));
    shown
}

/// Shows how far a scan is: the files that are done, of those that are announced, or of one.
pub fn progress_text(completed: usize, total: usize) -> (shown: String)
    ensures
        shown@ == text::decimal(completed as nat) + "/"@ + text::decimal(
            (if total == 0 {
                1
            } else {
                total as nat
            }),
        ),
{
    let mut shown = decimal_text(completed as u128);
    shown.append("/");
    push_decimal(
        &mut shown,
        if total == 0 {
            1u128
        } else {
            total as u128
        },
    );
    shown
}

/// Shows the number of files that were looked at: those of the summary, or of the progress.
pub fn processed_text(summary: Option<&ScanSummary>, completed: usize) -> (shown: String)
    ensures
        shown@ == text::decimal(
            match summary {
                Some(counts) => counts.files_scanned as nat,
                None => completed as nat,
            },
        ),
{
    match summary {
        Some(counts) => decimal_text(counts.files_scanned as u128),
        None => decimal_text(completed as u128),
    }
}

/// Shows how many files had a known hash.
pub fn hash_detections_text(summary: Option<&ScanSummary>) -> (shown: String)
    ensures
        shown@ == match summary {
            Some(counts) => text::decimal(counts.hash_detections as nat),
            None => "0"@,
        },
{
    match summary {
        Some(counts) => decimal_text(counts.hash_detections as u128),
        None => "0".to_owned(),
    }
}

/// Shows how many files matched a rule.
pub fn yara_detections_text(summary: Option<&ScanSummary>) -> (shown: String)
    ensures
        shown@ == match summary {
            Some(counts) => text::decimal(counts.yara_detections as nat),
            None => "0"@,
        },
{
    match summary {
        Some(counts) => decimal_text(counts.yara_detections as u128),
        None => "0".to_owned(),
    }
}

/// Shows how long a scan took. `seconds` are its seconds, written with two decimals.
pub fn elapsed_text(summary: Option<&ScanSummary>, seconds: &str) -> (shown: String)
    ensures
        shown@ == match summary {
            Some(counts) => duration_text(counts.elapsed, seconds@),
            None => "--"@,
        },
{
    match summary {
        Some(counts) => format_duration(counts.elapsed, seconds),
        None => "--".to_owned(),
    }
}

/// Shows how many files were left out.
pub fn skipped_text(summary: Option<&ScanSummary>) -> (shown: String)
    ensures
        shown@ == text::decimal(
            match summary {
                Some(counts) => counts.skipped_files as nat,
                None => 0,
            },
        ),
{
    match summary {
        Some(counts) => decimal_text(counts.skipped_files as u128),
        None => decimal_text(0),
    }
}

/// Shows what the feeds brought.
pub fn feed_rules_text(summary: &FeedSyncSummary) -> (shown: String)
    ensures
        shown@ == text::decimal(summary.synced_feeds as nat) + " feeds | "@ + text::decimal(
            summary.total_rules as nat,
        ) + " rules | "@ + shortened(summary.destination@, 34),
{
    let mut shown = decimal_text(summary.synced_feeds as u128);
    shown.append(" feeds | ");
    push_decimal(&mut shown, summary.total_rules as u128);
    shown.append(" rules | ");
    shown.append(&truncate_middle(&summary.destination, 34));
    shown
}

/// Shows a number of rules of a feed.
pub fn rule_count_text(rule_count: usize) -> (shown: String)
    ensures
        shown@ == text::decimal(rule_count as nat) + " rules imported"@,
{
    decimal_text(rule_count as u128).concat(" rules imported")
}

/// Shows a hash, or a dash where there is none.
pub fn hash_text(hash: &str) -> (shown: String)
    ensures
        shown@ == if hash@.len() == 0 {
            "-"@
        } else {
            shortened(hash@, 72)
        },
{
    if hash.is_empty() {
        "-".to_owned()
    } else {
        truncate_middle(hash, 72)
    }
}

/// Shows a result in the list: its name, where that is known, its path and its verdict, each on a
/// line.
pub fn result_text(result: &ScanResult, name: Option<&str>) -> (shown: String)
    ensures
        shown@ == match name {
            Some(known) => known@,
            None => result.file_path@,
        } + "\n"@ + shortened(result.file_path@, 68) + "\n"@ + result.verdict.name(),
{
    let mut shown = match name {
        Some(known) => known.to_owned(),
        None => result.file_path.clone(),
    };
    shown.append("\n");
    shown.append(&truncate_middle(&result.file_path, 68));
    shown.append("\n");
    shown.append(result.verdict.label());
    shown
}

/// Shows the number of rules that matched.
pub fn match_count_text(result: &ScanResult) -> (shown: String)
    ensures
        shown@ == text::decimal(result.yara_matches@.len()) + " YARA"@,
{
    decimal_text(result.yara_matches.len() as u128).concat(" YARA")
}

/// Shows which hash of a file is known.
pub fn match_type_text(algorithm: HashAlgorithm) -> (shown: String)
    ensures
        shown@ == "Matched "@ + algorithm.name(),
{
    "Matched ".to_owned().concat(algorithm.as_str())
}

/// Shows how long a file took. `seconds` are its seconds, written with two decimals.
pub fn scan_time_text(result: &ScanResult, seconds: &str) -> (shown: String)
    ensures
        shown@ == "Scan time "@ + duration_text(result.scan_time, seconds@),
{
    "Scan time ".to_owned().concat(&format_duration(result.scan_time, seconds))
}

/// Shows a rule with its namespace.
pub fn rule_text(matched: &YaraMatch) -> (shown: String)
    ensures
        shown@ == matched.namespace@ + "::"@ + matched.rule_name@,
{
    let mut shown = matched.namespace.clone();
    shown.append("::");
    shown.append(&matched.rule_name);
    shown
}

/// Shows a string of a rule with where it was found.
pub fn string_text(matched: &YaraMatchString) -> (shown: String)
    ensures
        shown@ == matched.name@ + " @ 0x"@ + hex::hex_number(matched.offset as nat),
{
    let mut shown = matched.name.clone();
    shown.append(" @ 0x");
    push_hex_number(&mut shown, matched.offset);
    shown
}

/// Shows a number of results.
pub fn shown_count_text(count: usize) -> (shown: String)
    ensures
        shown@ == text::decimal(count as nat) + " shown"@,
{
    decimal_text(count as u128).concat(" shown")
}

/// The name of a verdict on its badge.
pub open spec fn badge_name(verdict: Verdict) -> Seq<char> {
    match verdict {
        Verdict::Clean => "Clean"@,
        Verdict::Malicious => "Malicious"@,
        Verdict::Error => "Error"@,
    }
}

/// The name of a verdict on its badge.
pub fn verdict_badge_label(verdict: &Verdict) -> (label: &'static str)
    ensures
        label@ == badge_name(*verdict),
{
    match verdict {
        Verdict::Clean => "Clean",
        Verdict::Malicious => "Malicious",
        Verdict::Error => "Error",
    }
}

/// A text that is too long keeps its beginning and its end, letter by letter, with three dots in
/// between; its beginning takes half of the room less two, and its end what the dots leave. A text
/// that is not too long stays as it is.
pub proof fn shortened_keeps_both_ends(value: Seq<char>, max_chars: nat, i: int)
    requires
        max_chars >= 4,
    ensures
        value.len() <= max_chars ==> shortened(value, max_chars) == value,
        value.len() > max_chars ==> {
            let short = shortened(value, max_chars);
            let head = max_chars / 2 - 2;
            &&& short.len() == max_chars
            &&& 0 <= i < head ==> short[i] == value[i]
            &&& head <= i < head + 3 ==> short[i] == '.'
            &&& head + 3 <= i < max_chars ==> short[i] == value[value.len() - max_chars + i]
        },
{
    reveal_strlit("...");
}

/// What is shown of bytes depends on the first forty of them alone, and on whether there are more;
/// where there are, it ends in three dots, and where not, it is the text that the bytes make.
pub proof fn preview_shows_the_first_bytes(
    bytes: Seq<u8>,
    more: Seq<u8>,
    other: Seq<u8>,
)
    ensures
        bytes.len() <= 40 ==> preview(bytes) == text::utf8_lossy(bytes),
        bytes.len() == 40 && more.len() > 0 && other.len() > 0 ==> preview(bytes + more) == preview(
            bytes + other,
        ) && preview(bytes + more) == text::utf8_lossy(bytes) + "..."@,
{
    if bytes.len() == 40 {
        assert((bytes + more).take(40) =~= bytes);
        assert((bytes + other).take(40) =~= bytes);
    }
}

/// A span below a second is shown in its whole milliseconds, any other in seconds.
pub proof fn spans_are_shown_in_their_unit(span: Elapsed, seconds: Seq<char>)
    requires
        span.nanos < 1_000_000_000,
    ensures
        span.secs == 0 ==> duration_text(span, seconds) == text::decimal(
            span.nanos as nat / 1_000_000,
        ) + "ms"@,
        span.secs > 0 ==> duration_text(span, seconds) == seconds + "s"@,
{
}

} // verus!
