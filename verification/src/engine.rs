//! Scans: what is asked for, what is found, and what a file is judged to be.

use crate::digest::FileHashes;
use crate::paths;
use crate::paths::{is_hidden_name, path_file_name, PathPart};
use crate::signatures;
use crate::signatures::{HashAlgorithm, SignatureDb};
use crate::text;
use crate::yara::YaraMatch;
use vstd::prelude::*;
use vstd::utf8::*;

verus! {

/// A span of time.
#[derive(Clone, Copy, Debug, PartialEq, Eq, Structural)]
pub struct Elapsed {
    pub secs: u64,
    /// The part of a second beyond `secs`, below 1,000,000,000.
    pub nanos: u32,
}

impl Elapsed {
    /// The whole milliseconds of the span.
    pub open spec fn millis(self) -> nat {
        self.secs as nat * 1000 + self.nanos as nat / 1_000_000
    }

    /// The whole milliseconds of the span.
    pub fn as_millis(self) -> (millis: u128)
        ensures
            millis == self.millis(),
    {
        self.secs as u128 * 1000 + (self.nanos / 1_000_000) as u128
    }
}

impl Default for Elapsed {
    fn default() -> (span: Elapsed)
        ensures
            span == (Elapsed { secs: 0, nanos: 0 }),
    {
        Elapsed { secs: 0, nanos: 0 }
    }
}

/// What a file is judged to be.
#[derive(Clone, Debug, PartialEq, Eq, Structural)]
pub enum Verdict {
    Clean,
    Malicious,
    Error,
}

impl Verdict {
    /// The name of the verdict.
    pub open spec fn name(self) -> Seq<char> {
        match self {
            Verdict::Clean => "CLEAN"@,
            Verdict::Malicious => "MALICIOUS"@,
            Verdict::Error => "ERROR"@,
        }
    }

    /// The name of the verdict.
    pub fn label(&self) -> (label: &'static str)
        ensures
            label@ == self.name(),
    {
        match self {
            Verdict::Clean => "CLEAN",
            Verdict::Malicious => "MALICIOUS",
            Verdict::Error => "ERROR",
        }
    }
}

/// What a scan found in a file.
#[derive(Clone, Debug)]
pub struct ScanResult {
    pub file_path: String,
    pub md5: String,
    pub sha1: String,
    pub sha256: String,
    pub detected: bool,
    pub match_type: Option<HashAlgorithm>,
    pub match_hash: Option<String>,
    pub threat_name: Option<String>,
    pub yara_matches: Vec<YaraMatch>,
    pub verdict: Verdict,
    pub scan_time: Elapsed,
    pub error: Option<String>,
}

impl ScanResult {
    /// Whether the result has no hashes.
    pub open spec fn has_no_hashes(self) -> bool {
        &&& self.md5@ == Seq::<char>::empty()
        &&& self.sha1@ == Seq::<char>::empty()
        &&& self.sha256@ == Seq::<char>::empty()
    }

    /// Whether the hashes matched no signature.
    pub open spec fn has_no_hit(self) -> bool {
        &&& !self.detected
        &&& self.match_type is None
        &&& self.match_hash is None
        &&& self.threat_name is None
    }

    /// Whether the result says nothing but that the file could not be scanned.
    pub open spec fn is_failure(self, path: Seq<char>, message: Seq<char>, time: Elapsed) -> bool {
        &&& self.file_path@ == path
        &&& self.has_no_hashes()
        &&& self.has_no_hit()
        &&& self.yara_matches@.len() == 0
        &&& self.verdict == Verdict::Error
        &&& self.scan_time == time
        &&& self.error matches Some(text) && text@ == message
    }

    /// A result for a file that could not be scanned.
    pub fn error(path: String, message: String) -> (result: ScanResult)
        ensures
            result.is_failure(path@, message@, Elapsed { secs: 0, nanos: 0 }),
            result.file_path == path,
    {
        ScanResult {
            file_path: path,
            md5: String::new(),
            sha1: String::new(),
            sha256: String::new(),
            detected: false,
            match_type: None,
            match_hash: None,
            threat_name: None,
            yara_matches: Vec::new(),
            verdict: Verdict::Error,
            scan_time: Elapsed { secs: 0, nanos: 0 },
            error: Some(message),
        }
    }
}

/// What a scan counted.
#[derive(Clone, Copy, Debug, PartialEq, Eq, Structural)]
pub struct ScanSummary {
    pub files_scanned: usize,
    pub hash_detections: usize,
    pub yara_detections: usize,
    pub errors: usize,
    pub skipped_files: usize,
    pub elapsed: Elapsed,
}

impl ScanSummary {
    /// A scan that counted nothing.
    pub open spec fn zero() -> ScanSummary {
        ScanSummary {
            files_scanned: 0,
            hash_detections: 0,
            yara_detections: 0,
            errors: 0,
            skipped_files: 0,
            elapsed: Elapsed { secs: 0, nanos: 0 },
        }
    }

    /// No kind of finding is counted more often than files.
    pub open spec fn is_consistent(self) -> bool {
        &&& self.hash_detections <= self.files_scanned
        &&& self.yara_detections <= self.files_scanned
        &&& self.errors <= self.files_scanned
    }

    /// Whether the result can still be counted.
    pub open spec fn has_room_for(self, result: ScanResult) -> bool {
        &&& self.files_scanned < usize::MAX
        &&& result.detected ==> self.hash_detections < usize::MAX
        &&& result.yara_matches@.len() > 0 ==> self.yara_detections < usize::MAX
        &&& result.verdict == Verdict::Error ==> self.errors < usize::MAX
    }

    /// The summary with one more result counted.
    pub open spec fn counting(self, result: ScanResult) -> ScanSummary {
        ScanSummary {
            files_scanned: (self.files_scanned + 1) as usize,
            hash_detections: (self.hash_detections + if result.detected {
                1int
            } else {
                0
            }) as usize,
            yara_detections: (self.yara_detections + if result.yara_matches@.len() > 0 {
                1int
            } else {
                0
            }) as usize,
            errors: (self.errors + if result.verdict == Verdict::Error {
                1int
            } else {
                0
            }) as usize,
            skipped_files: self.skipped_files,
            elapsed: self.elapsed,
        }
    }
}

impl Default for ScanSummary {
    fn default() -> (summary: ScanSummary)
        ensures
            summary == ScanSummary::zero(),
    {
        ScanSummary {
            files_scanned: 0,
            hash_detections: 0,
            yara_detections: 0,
            errors: 0,
            skipped_files: 0,
            elapsed: Elapsed { secs: 0, nanos: 0 },
        }
    }
}

/// Counts a result.
pub fn update_summary(summary: &mut ScanSummary, result: &ScanResult)
    requires
        old(summary).has_room_for(*result),
    ensures
        *final(summary) == old(summary).counting(*result),
        old(summary).is_consistent() ==> final(summary).is_consistent(),
{
    summary.files_scanned += 1;
    if result.detected {
        summary.hash_detections += 1;
    }
    if result.yara_matches.len() > 0 {
        summary.yara_detections += 1;
    }
    if let Verdict::Error = result.verdict {
        summary.errors += 1;
    }
}

/// Which files a scan leaves out.
#[derive(Clone, Copy, Debug, PartialEq, Eq, Structural)]
pub struct ScanPolicy {
    pub skip_hidden_paths: bool,
    pub max_file_size_bytes: Option<u64>,
}

impl Default for ScanPolicy {
    fn default() -> (policy: ScanPolicy)
        ensures
            !policy.skip_hidden_paths,
            policy.max_file_size_bytes is None,
    {
        ScanPolicy { skip_hidden_paths: false, max_file_size_bytes: None }
    }
}

impl ScanPolicy {
    /// Whether a file is too large.
    pub open spec fn is_oversized(self, is_file: bool, len: u64) -> bool {
        self.max_file_size_bytes matches Some(limit) && is_file && len > limit
    }
}

/// Whether the policy leaves out a hidden path, and with it what is below it.
pub fn should_skip_hidden(path: &[PathPart], policy: &ScanPolicy) -> (skip: bool)
    ensures
        skip == (policy.skip_hidden_paths && match paths::file_name(paths::parts(path@)) {
            Some(name) => paths::is_hidden(name),
            None => false,
        }),
{
    policy.skip_hidden_paths && is_hidden_name(path_file_name(path))
}

/// Whether the policy leaves out something of this kind and size.
pub fn should_skip_for_size(policy: &ScanPolicy, is_file: bool, len: u64) -> (skip: bool)
    ensures
        skip == policy.is_oversized(is_file, len),
{
    match policy.max_file_size_bytes {
        None => false,
        Some(limit) => is_file && len > limit,
    }
}

/// What is scanned.
#[derive(Clone, Debug)]
pub enum ScanTarget {
    File(String),
    Directory(String),
}

impl ScanTarget {
    /// The path of the target.
    pub open spec fn path(self) -> String {
        match self {
            ScanTarget::File(path) => path,
            ScanTarget::Directory(path) => path,
        }
    }
}

/// A scan that is asked for.
#[derive(Clone, Debug)]
pub struct ScanRequest {
    pub target: ScanTarget,
    pub database_path: String,
    pub rules_path: Option<String>,
    pub policy: ScanPolicy,
}

/// What a scan reports while it runs.
#[derive(Debug)]
pub enum ScanEvent {
    Started { total: usize, signature_count: usize, rule_files: usize },
    FileScanned(ScanResult),
    Failed(String),
    Finished { summary: ScanSummary, cancelled: bool },
}

/// The algorithm whose hash of the file is in the database: the strongest of them.
pub open spec fn hash_hit(
    signatures: Map<Seq<char>, Seq<char>>,
    hashes: FileHashes,
) -> Option<HashAlgorithm> {
    if signatures.contains_key(text::lower(hashes.sha256@)) {
        Some(HashAlgorithm::Sha256)
    } else if signatures.contains_key(text::lower(hashes.sha1@)) {
        Some(HashAlgorithm::Sha1)
    } else if signatures.contains_key(text::lower(hashes.md5@)) {
        Some(HashAlgorithm::Md5)
    } else {
        None
    }
}

/// Whether the result has these hashes, and the signature that the first of them matches.
pub open spec fn reports_hashes(
    result: ScanResult,
    signatures: Map<Seq<char>, Seq<char>>,
    hashes: FileHashes,
) -> bool {
    &&& result.md5 == hashes.md5
    &&& result.sha1 == hashes.sha1
    &&& result.sha256 == hashes.sha256
    &&& match hash_hit(signatures, hashes) {
        None => result.has_no_hit(),
        Some(algorithm) => {
            &&& result.detected
            &&& result.match_type == Some(algorithm)
            &&& result.match_hash matches Some(hash) && hash@ == hashes.of(algorithm)
            &&& result.threat_name matches Some(name) && name@ == signatures[text::lower(
                hashes.of(algorithm),
            )]
        },
    }
}

/// Whether the result is what a file is judged to be by its hashes and by what the rules said of
/// it, where rules were evaluated.
pub open spec fn is_judgement(
    result: ScanResult,
    path: Seq<char>,
    hashes: Result<FileHashes, String>,
    signatures: Map<Seq<char>, Seq<char>>,
    yara: Option<Result<Vec<YaraMatch>, String>>,
    scan_time: Elapsed,
) -> bool {
    match hashes {
        Err(message) => result.is_failure(path, message@, scan_time),
        Ok(taken) => {
            &&& result.file_path@ == path
            &&& result.scan_time == scan_time
            &&& reports_hashes(result, signatures, taken)
            &&& match yara {
                Some(Err(message)) => {
                    &&& result.verdict == Verdict::Error
                    &&& result.error == Some(message)
                    &&& result.yara_matches@.len() == 0
                },
                Some(Ok(matches)) => {
                    &&& result.verdict == if result.detected || matches@.len() > 0 {
                        Verdict::Malicious
                    } else {
                        Verdict::Clean
                    }
                    &&& result.error is None
                    &&& result.yara_matches@ == matches@
                },
                None => {
                    &&& result.verdict == if result.detected {
                        Verdict::Malicious
                    } else {
                        Verdict::Clean
                    }
                    &&& result.error is None
                    &&& result.yara_matches@.len() == 0
                },
            }
        },
    }
}

/// The first of the hashes that is in the database, with its algorithm and its threat name.
fn find_hit(database: &SignatureDb, hashes: &FileHashes) -> (hit: Option<
    (HashAlgorithm, String, String),
>)
    ensures
        match hit {
            Some((algorithm, hash, name)) => {
                &&& hash_hit(database@, *hashes) == Some(algorithm)
                &&& hash@ == hashes.of(algorithm)
                &&& name@ == database@[text::lower(hash@)]
            },
            None => hash_hit(database@, *hashes) is None,
        },
{
    if let Some(signature) = database.lookup(&hashes.sha256) {
        return Some(
            (HashAlgorithm::Sha256, hashes.sha256.clone(), signature.threat_name.clone()),
        );
    }
    if let Some(signature) = database.lookup(&hashes.sha1) {
        return Some((HashAlgorithm::Sha1, hashes.sha1.clone(), signature.threat_name.clone()));
    }
    if let Some(signature) = database.lookup(&hashes.md5) {
        return Some((HashAlgorithm::Md5, hashes.md5.clone(), signature.threat_name.clone()));
    }
    None
}

/// Judges a file by its hashes, and by what the rules said of it where rules were evaluated.
pub fn scan_file(
    path: &str,
    hashes: Result<FileHashes, String>,
    database: &SignatureDb,
    yara: Option<Result<Vec<YaraMatch>, String>>,
    scan_time: Elapsed,
) -> (result: ScanResult)
    ensures
        is_judgement(result, path@, hashes, database@, yara, scan_time),
{
    let taken = match hashes {
        Err(message) => {
            let mut result = ScanResult::error(path.to_owned(), message);
            result.scan_time = scan_time;
            return result;
        },
        Ok(taken) => taken,
    };
    let hit = find_hit(database, &taken);
    let mut result = ScanResult {
        file_path: path.to_owned(),
        md5: taken.md5,
        sha1: taken.sha1,
        sha256: taken.sha256,
        detected: false,
        match_type: None,
        match_hash: None,
        threat_name: None,
        yara_matches: Vec::new(),
        verdict: Verdict::Clean,
        scan_time,
        error: None,
    };
    if let Some((algorithm, hash, name)) = hit {
        result.detected = true;
        result.match_type = Some(algorithm);
        result.match_hash = Some(hash);
        result.threat_name = Some(name);
        result.verdict = Verdict::Malicious;
    }
    match yara {
        None => {},
        Some(Ok(matches)) => {
            if matches.len() > 0 {
                result.yara_matches = matches;
                result.verdict = Verdict::Malicious;
            } else {
                assert(result.yara_matches@ =~= matches@);
            }
        },
        Some(Err(message)) => {
            result.verdict = Verdict::Error;
            result.error = Some(message);
        },
    }
    result
}

/// A file is found once its hash was added: where the hash of a file, by any of the algorithms,
/// was appended to the database as `added_signature_is_found` says, scans that evaluate the rules
/// without an error, or not at all, judge the file malicious.
pub proof fn added_file_is_detected(
    content: Seq<u8>,
    algorithm: HashAlgorithm,
    hashes: FileHashes,
    threat_name: Seq<char>,
    database: Map<Seq<char>, Seq<char>>,
    result: ScanResult,
    path: Seq<char>,
    yara: Option<Result<Vec<YaraMatch>, String>>,
    scan_time: Elapsed,
)
    requires
        signatures::signature_fault(algorithm, hashes.of(algorithm), threat_name) is None,
        signatures::normalized_hash(hashes.of(algorithm)) == hashes.of(algorithm),
        signatures::file_signatures(content, true) is Ok,
        signatures::leaves_record_whole(decode_utf8(signatures::byte_lines(content).last())),
        !text::trimmed(threat_name).contains('\n'),
        signatures::file_signatures(
            content + encode_utf8(
                signatures::signature_line(algorithm, hashes.of(algorithm), threat_name).push('\n'),
            ),
            true,
        ) == Ok::<Map<Seq<char>, Seq<char>>, nat>(database),
        is_judgement(result, path, Ok(hashes), database, yara, scan_time),
        !(yara matches Some(Err(_))),
    ensures
        result.detected,
        result.verdict == Verdict::Malicious,
        hash_hit(database, hashes) == Some(algorithm) ==> (result.threat_name matches Some(name)
            && name@ == text::trimmed(threat_name)),
{
    signatures::added_signature_is_found(content, algorithm, hashes.of(algorithm), threat_name);
    text::lower_ignores_case(text::trimmed(hashes.of(algorithm)));
}

/// The rule matches of a file do not depend on the database: for the same evaluation of the rules
/// two scans report the same matches, namely all that the evaluation gave, whether or not a hash
/// of the file is known; and where the evaluation failed or there was none, they report none.
pub proof fn rule_matches_ignore_the_database(
    one: ScanResult,
    other: ScanResult,
    path: Seq<char>,
    hashes: FileHashes,
    one_database: Map<Seq<char>, Seq<char>>,
    other_database: Map<Seq<char>, Seq<char>>,
    yara: Option<Result<Vec<YaraMatch>, String>>,
    scan_time: Elapsed,
)
    requires
        is_judgement(one, path, Ok(hashes), one_database, yara, scan_time),
        is_judgement(other, path, Ok(hashes), other_database, yara, scan_time),
    ensures
        one.yara_matches@ == other.yara_matches@,
        yara matches Some(Ok(matches)) ==> one.yara_matches@ == matches@
            && one.yara_matches@.len() == matches@.len(),
        !(yara matches Some(Ok(_))) ==> one.yara_matches@.len() == 0,
        one.error == other.error,
{
}

/// What the database says of a file does not depend on the rules: a hash of the file is known
/// exactly where the database has one of the three, the strongest of those that it has is the one
/// that is reported, and with it the threat that the database names.
pub proof fn hash_hits_ignore_the_rules(
    result: ScanResult,
    path: Seq<char>,
    hashes: FileHashes,
    database: Map<Seq<char>, Seq<char>>,
    yara: Option<Result<Vec<YaraMatch>, String>>,
    scan_time: Elapsed,
)
    requires
        is_judgement(result, path, Ok(hashes), database, yara, scan_time),
    ensures
        result.detected <==> database.contains_key(text::lower(hashes.md5@))
            || database.contains_key(text::lower(hashes.sha1@)) || database.contains_key(
            text::lower(hashes.sha256@),
        ),
        database.contains_key(text::lower(hashes.sha256@)) ==> result.match_type == Some(
            HashAlgorithm::Sha256,
        ) && (result.match_hash matches Some(hash) && hash@ == hashes.sha256@) && (
        result.threat_name matches Some(name) && name@ == database[text::lower(hashes.sha256@)]),
        !database.contains_key(text::lower(hashes.sha256@)) && database.contains_key(
            text::lower(hashes.sha1@),
        ) ==> result.match_type == Some(HashAlgorithm::Sha1) && (result.match_hash matches Some(hash)
            && hash@ == hashes.sha1@) && (result.threat_name matches Some(name) && name@
            == database[text::lower(hashes.sha1@)]),
        !database.contains_key(text::lower(hashes.sha256@)) && !database.contains_key(
            text::lower(hashes.sha1@),
        ) && database.contains_key(text::lower(hashes.md5@)) ==> result.match_type == Some(
            HashAlgorithm::Md5,
        ) && (result.match_hash matches Some(hash) && hash@ == hashes.md5@) && (
        result.threat_name matches Some(name) && name@ == database[text::lower(hashes.md5@)]),
        !result.detected ==> result.match_type is None && result.match_hash is None
            && result.threat_name is None,
{
}

/// A file is in error exactly where it could not be hashed or the rules could not be evaluated; it
/// is malicious exactly where it is not in error and a hash of it is known or a rule matches it;
/// and else it is clean. Its path, its hashes and the time are reported as they are.
pub proof fn verdict_follows_from_the_findings(
    result: ScanResult,
    path: Seq<char>,
    hashes: Result<FileHashes, String>,
    database: Map<Seq<char>, Seq<char>>,
    yara: Option<Result<Vec<YaraMatch>, String>>,
    scan_time: Elapsed,
)
    requires
        is_judgement(result, path, hashes, database, yara, scan_time),
    ensures
        result.verdict is Error <==> hashes is Err || (yara matches Some(Err(_))),
        result.verdict is Malicious <==> !(result.verdict is Error) && (result.detected
            || result.yara_matches@.len() > 0),
        result.verdict is Clean <==> !(result.verdict is Error) && !result.detected
            && result.yara_matches@.len() == 0,
        result.error is Some <==> result.verdict is Error,
        hashes matches Err(message) ==> (result.error matches Some(text) && text@ == message@)
            && !result.detected && result.yara_matches@.len() == 0 && result.md5@.len() == 0
            && result.sha1@.len() == 0 && result.sha256@.len() == 0,
        hashes matches Ok(taken) ==> result.md5@ == taken.md5@ && result.sha1@ == taken.sha1@
            && result.sha256@ == taken.sha256@,
        hashes is Ok ==> (yara matches Some(Err(message)) ==> (result.error matches Some(text)
            && text@ == message@)),
        result.file_path@ == path,
        result.scan_time == scan_time,
{
}

/// A result is counted once as a file, and once among the hash detections, the rule detections and
/// the errors for each of these that it is; nothing else changes.
pub proof fn result_is_counted_once(summary: ScanSummary, result: ScanResult)
    requires
        summary.has_room_for(result),
    ensures
        summary.counting(result).files_scanned == summary.files_scanned + 1,
        summary.counting(result).hash_detections - summary.hash_detections == if result.detected {
            1int
        } else {
            0
        },
        summary.counting(result).yara_detections - summary.yara_detections == if (
        result.yara_matches@.len() > 0) {
            1int
        } else {
            0
        },
        summary.counting(result).errors - summary.errors == if result.verdict is Error {
            1int
        } else {
            0
        },
        summary.counting(result).skipped_files == summary.skipped_files,
        summary.counting(result).elapsed == summary.elapsed,
        ScanSummary::zero().files_scanned == 0 && ScanSummary::zero().hash_detections == 0
            && ScanSummary::zero().yara_detections == 0 && ScanSummary::zero().errors == 0
            && ScanSummary::zero().skipped_files == 0,
{
}

/// Without a limit nothing is too large; with one, exactly the files that are longer are, and what
/// is no file never is.
pub proof fn only_longer_files_are_oversized(policy: ScanPolicy, is_file: bool, len: u64)
    ensures
        policy.max_file_size_bytes is None ==> !policy.is_oversized(is_file, len),
        policy.max_file_size_bytes matches Some(limit) ==> (policy.is_oversized(true, len) <==> len
            > limit),
        !policy.is_oversized(false, len),
{
}

/// The milliseconds of a span are those that are whole.
pub proof fn milliseconds_are_whole(span: Elapsed)
    requires
        span.nanos < 1_000_000_000,
    ensures
        span.millis() * 1_000_000 <= span.secs * 1_000_000_000 + span.nanos,
        span.secs * 1_000_000_000 + span.nanos < (span.millis() + 1) * 1_000_000,
{
}

/// A result of a file that could not be scanned says which file, and why, and nothing else.
pub proof fn failure_says_nothing_else(
    result: ScanResult,
    path: Seq<char>,
    message: Seq<char>,
    time: Elapsed,
)
    requires
        result.is_failure(path, message, time),
    ensures
        result.file_path@ == path,
        result.error matches Some(text) && text@ == message,
        result.verdict is Error,
        !result.detected && result.yara_matches@.len() == 0,
        result.match_type is None && result.match_hash is None && result.threat_name is None,
        result.md5@.len() == 0 && result.sha1@.len() == 0 && result.sha256@.len() == 0,
        result.scan_time == time,
{
}

} // verus!
