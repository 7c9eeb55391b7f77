//! What the `yara` command prints, and what its runs mean.

use crate::hex;
use crate::hex::decode_hex;
use crate::paths;
use crate::paths::{has_rule_extension, name_stem, path_file_name, PathPart, Platform};
use crate::text;
use crate::text::{
    contains_chars, from_chars, lossy_text, read_unsigned, split_chars, split_once_chars,
    split_words, starts_with_chars, to_chars, trim, trim_chars, trim_pieces, utf8_text, CharClass,
};
use vstd::prelude::*;
use vstd::slice::{slice_subrange, slice_to_vec};
use vstd::utf8::*;

verus! {

/// A rule that matched a file.
#[derive(Clone, Debug)]
pub struct YaraMatch {
    pub rule_name: String,
    pub namespace: String,
    pub tags: Vec<String>,
    pub strings: Vec<YaraMatchString>,
}

/// A string of a rule, found in a file.
#[derive(Clone, Debug)]
pub struct YaraMatchString {
    pub name: String,
    pub offset: u64,
    pub data: Vec<u8>,
}

/// What a `YaraMatch` says.
pub ghost struct MatchModel {
    pub rule_name: Seq<char>,
    pub namespace: Seq<char>,
    pub tags: Seq<Seq<char>>,
    pub strings: Seq<StringModel>,
}

/// What a `YaraMatchString` says.
pub ghost struct StringModel {
    pub name: Seq<char>,
    pub offset: nat,
    pub data: Seq<u8>,
}

impl View for YaraMatchString {
    type V = StringModel;

    open spec fn view(&self) -> StringModel {
        StringModel { name: self.name@, offset: self.offset as nat, data: self.data@ }
    }
}

impl View for YaraMatch {
    type V = MatchModel;

    open spec fn view(&self) -> MatchModel {
        MatchModel {
            rule_name: self.rule_name@,
            namespace: self.namespace@,
            tags: Seq::new(self.tags@.len(), |i: int| self.tags@[i]@),
            strings: Seq::new(self.strings@.len(), |i: int| self.strings@[i]@),
        }
    }
}

/// What a row of matches says.
pub open spec fn models(matches: Seq<YaraMatch>) -> Seq<MatchModel> {
    Seq::new(matches.len(), |i: int| matches[i]@)
}

/// Whether the text starts with one character and ends with another.
pub open spec fn enclosed(s: Seq<char>, open: char, close: char) -> bool {
    s.len() > 0 && s[0] == open && s.last() == close
}

/// The bytes that the data column of a string match stands for: hexadecimal between braces,
/// any other text as it is.
pub open spec fn match_data(raw: Seq<char>) -> Seq<u8> {
    if enclosed(raw, '{', '}') {
        let inner = text::trim_class(raw, CharClass::Brace);
        match hex::hex_decoded(text::concatenated(text::words(inner))) {
            Ok(bytes) => bytes,
            Err(_) => encode_utf8(raw),
        }
    } else {
        encode_utf8(raw)
    }
}

/// The string match that a line `0xOFFSET:NAME: DATA` stands for.
pub open spec fn match_string(line: Seq<char>) -> Option<StringModel> {
    if !is_string_line(line) {
        None
    } else {
        match text::split_once(line.skip(2), CharClass::Colon) {
            None => None,
            Some((offset, rest)) => match text::split_once(rest, CharClass::Colon) {
                None => None,
                Some((name, data)) => match text::unsigned_value(offset, 16) {
                    None => None,
                    Some(value) => Some(
                        StringModel {
                            name: text::trimmed(name),
                            offset: value,
                            data: match_data(text::trimmed(data)),
                        },
                    ),
                },
            },
        }
    }
}

/// Whether the line reports a string of a rule.
pub open spec fn is_string_line(line: Seq<char>) -> bool {
    seq!['0', 'x'].is_prefix_of(line)
}

/// The tags of a rule line, in the second of at least three words.
pub open spec fn rule_tags(parts: Seq<Seq<char>>) -> Seq<Seq<char>> {
    if parts.len() >= 3 && enclosed(parts[1], '[', ']') {
        let inner = text::trim_class(parts[1], CharClass::Bracket);
        text::non_empty(text::trimmed_all(text::split(inner, CharClass::Comma)))
    } else {
        Seq::empty()
    }
}

/// The matched rule that a line `NAME FILE` or `NAME [TAGS] FILE` stands for.
pub open spec fn rule_line(line: Seq<char>, namespace: Seq<char>) -> Option<MatchModel> {
    let parts = text::words(line);
    if parts.len() < 2 {
        None
    } else {
        Some(
            MatchModel {
                rule_name: parts[0],
                namespace,
                tags: rule_tags(parts),
                strings: Seq::empty(),
            },
        )
    }
}

/// The matches with one more string in the last of them.
pub open spec fn with_string(matches: Seq<MatchModel>, string: StringModel) -> Seq<MatchModel> {
    let last = matches.last();
    matches.update(
        matches.len() - 1,
        MatchModel { strings: last.strings.push(string), ..last },
    )
}

/// The matches that the lines report. A string line belongs to the rule line before it.
pub open spec fn line_matches(lines: Seq<Seq<char>>, namespace: Seq<char>) -> Seq<MatchModel>
    decreases lines.len(),
{
    if lines.len() == 0 {
        Seq::empty()
    } else {
        let before = line_matches(lines.drop_last(), namespace);
        let line = lines.last();
        if is_string_line(line) {
            match match_string(line) {
                Some(string) if before.len() > 0 => with_string(before, string),
                _ => before,
            }
        } else {
            match rule_line(line, namespace) {
                Some(matched) => before.push(matched),
                None => before,
            }
        }
    }
}

/// The lines of an output that say something, without the white space at their ends.
pub open spec fn output_lines(output: Seq<char>) -> Seq<Seq<char>> {
    text::non_empty(text::trimmed_all(text::split(output, CharClass::LineFeed)))
}

/// The matches that an output reports.
pub open spec fn output_matches(output: Seq<char>, namespace: Seq<char>) -> Seq<MatchModel> {
    line_matches(output_lines(output), namespace)
}

/// Whether a run of characters starts with one character and ends with another.
fn is_enclosed(s: &[char], open: char, close: char) -> (held: bool)
    ensures
        held == enclosed(s@, open, close),
{
    s.len() > 0 && s[0] == open && s[s.len() - 1] == close
}

fn concat_chars(parts: &Vec<Vec<char>>) -> (all: String)
    ensures
        all@ == text::concatenated(text::texts(parts@)),
{
    let mut all = String::new();
    let ghost views = text::texts(parts@);
    assert(views.take(0) =~= Seq::<Seq<char>>::empty());
    for i in 0..parts.len()
        invariant
            views == text::texts(parts@),
            all@ == text::concatenated(views.take(i as int)),
    {
        let part = from_chars(&parts[i]);
        all.append(&part);
        assert(views.take(i + 1).drop_last() =~= views.take(i as int));
        assert(views.take(i + 1).last() == part@);
    }
    assert(views.take(views.len() as int) =~= views);
    all
}

/// Reads the data column of a string match.
pub fn parse_match_data(raw: &str) -> (data: Vec<u8>)
    ensures
        data@ == match_data(raw@),
{
    let chars = to_chars(raw);
    if is_enclosed(&chars, '{', '}') {
        let inner = trim_chars(&chars, CharClass::Brace);
        let hex_data = concat_chars(&split_words(inner));
        match decode_hex(&hex_data) {
            Ok(bytes) => {
                return bytes;
            },
            Err(_) => {},
        }
    }
    slice_to_vec(raw.as_bytes())
}

/// Reads a line that reports a string of a rule.
pub fn parse_match_string(line: &str) -> (matched: Option<YaraMatchString>)
    ensures
        match matched {
            Some(string) => match_string(line@) == Some(string@),
            None => match_string(line@) is None,
        },
{
    parse_string_chars(&to_chars(line))
}

fn parse_string_chars(line: &[char]) -> (matched: Option<YaraMatchString>)
    ensures
        match matched {
            Some(string) => match_string(line@) == Some(string@),
            None => match_string(line@) is None,
        },
{
    if !starts_with_chars(line, &['0', 'x']) {
        return None;
    }
    let body = slice_subrange(line, 2, line.len());
    assert(body@ =~= line@.skip(2));
    match split_once_chars(body, CharClass::Colon) {
        None => None,
        Some((offset_hex, rest)) => match split_once_chars(rest, CharClass::Colon) {
            None => None,
            Some((name, data)) => match read_unsigned(offset_hex, 16) {
                None => None,
                Some(offset) => {
                    let name = from_chars(trim_chars(name, CharClass::WhiteSpace));
                    let raw = from_chars(trim_chars(data, CharClass::WhiteSpace));
                    Some(YaraMatchString { name, offset, data: parse_match_data(&raw) })
                },
            },
        },
    }
}

fn to_strings(pieces: &Vec<Vec<char>>) -> (strings: Vec<String>)
    ensures
        Seq::new(strings@.len(), |i: int| strings@[i]@) == text::texts(pieces@),
{
    let mut strings: Vec<String> = Vec::new();
    for i in 0..pieces.len()
        invariant
            strings@.len() == i,
            forall|j: int| 0 <= j < i ==> (#[trigger] strings@[j])@ == pieces@[j]@,
    {
        strings.push(from_chars(&pieces[i]));
    }
    assert(Seq::new(strings@.len(), |i: int| strings@[i]@) =~= text::texts(pieces@));
    strings
}

fn parse_rule_line(line: &[char], namespace: &str) -> (matched: Option<YaraMatch>)
    ensures
        match matched {
            Some(rule) => rule_line(line@, namespace@) == Some(rule@),
            None => rule_line(line@, namespace@) is None,
        },
{
    let parts = split_words(line);
    assert(text::texts(parts@).len() == parts@.len());
    if parts.len() < 2 {
        return None;
    }
    assert(text::texts(parts@)[0] == parts@[0]@ && text::texts(parts@)[1] == parts@[1]@);
    let tags = if parts.len() >= 3 && is_enclosed(&parts[1], '[', ']') {
        to_strings(
            &trim_pieces(
                &split_chars(trim_chars(&parts[1], CharClass::Bracket), CharClass::Comma),
            ),
        )
    } else {
        let none: Vec<String> = Vec::new();
        assert(Seq::new(none@.len(), |i: int| none@[i]@) =~= Seq::<Seq<char>>::empty());
        none
    };
    let strings: Vec<YaraMatchString> = Vec::new();
    let rule = YaraMatch {
        rule_name: from_chars(&parts[0]),
        namespace: namespace.to_owned(),
        tags,
        strings,
    };
    assert(rule@.strings =~= Seq::<StringModel>::empty());
    assert(rule@.tags =~= rule_tags(text::texts(parts@)));
    Some(rule)
}

/// Reads what `yara -s` printed for a file.
pub fn parse_yara_output(output: &str, namespace: &str) -> (matches: Vec<YaraMatch>)
    ensures
        models(matches@) == output_matches(output@, namespace@),
        matches@.len() == output_matches(output@, namespace@).len(),
{
    let lines = trim_pieces(&split_chars(&to_chars(output), CharClass::LineFeed));
    let ghost all = text::texts(lines@);
    let mut matches: Vec<YaraMatch> = Vec::new();
    assert(all.take(0) =~= Seq::<Seq<char>>::empty());
    assert(models(matches@) =~= line_matches(all.take(0), namespace@));
    for i in 0..lines.len()
        invariant
            all == text::texts(lines@),
            models(matches@) == line_matches(all.take(i as int), namespace@),
    {
        let line = &lines[i];
        assert(all.take(i + 1).drop_last() =~= all.take(i as int));
        assert(all.take(i + 1).last() == line@);
        let ghost before = models(matches@);
        if starts_with_chars(line, &['0', 'x']) {
            if matches.len() > 0 {
                if let Some(string) = parse_string_chars(line) {
                    let current: usize = matches.len() - 1;
                    let ghost old_matches = matches@;
                    matches[current].strings.push(string);
                    assert(matches@[current as int]@.strings
                        =~= old_matches[current as int]@.strings.push(string@));
                    assert(models(matches@) =~= with_string(before, string@));
                }
            }
        } else if let Some(matched) = parse_rule_line(line, namespace) {
            matches.push(matched);
            assert(models(matches@) =~= before.push(matched@));
        }
    }
    assert(all.take(all.len() as int) =~= all);
    matches
}

/// The file name of a program on a platform.
pub open spec fn program_name(platform: Platform, base: Seq<char>) -> Seq<char> {
    match platform {
        Platform::Windows => base + ".exe"@,
        _ => base,
    }
}

/// Where `yara` is commonly installed on a platform.
pub open spec fn install_locations(platform: Platform) -> Seq<Seq<char>> {
    let program = program_name(platform, "yara"@);
    match platform {
        Platform::MacOs => seq!["/opt/homebrew/bin/"@ + program, "/usr/local/bin/"@ + program],
        Platform::Linux => seq!["/usr/bin/"@ + program, "/usr/local/bin/"@ + program],
        Platform::Windows => seq![
            "C:\\Program Files\\YARA\\"@ + program,
            "C:\\Program Files (x86)\\YARA\\"@ + program,
        ],
        Platform::Other => Seq::empty(),
    }
}

/// The file name of a program on a platform.
pub fn binary_name(platform: Platform, base: &str) -> (name: String)
    ensures
        name@ == program_name(platform, base@),
{
    match platform {
        Platform::Windows => base.to_owned().concat(".exe"),
        _ => base.to_owned(),
    }
}

/// Where `yara` is looked for besides the search path.
pub fn fallback_yara_locations(platform: Platform) -> (locations: Vec<String>)
    ensures
        text::string_texts(locations@) == install_locations(platform),
        locations@.len() == install_locations(platform).len(),
{
    let mut locations: Vec<String> = Vec::new();
    let program = binary_name(platform, "yara");
    match platform {
        Platform::MacOs => {
            locations.push("/opt/homebrew/bin/".to_owned().concat(&program));
            locations.push("/usr/local/bin/".to_owned().concat(&program));
        },
        Platform::Linux => {
            locations.push("/usr/bin/".to_owned().concat(&program));
            locations.push("/usr/local/bin/".to_owned().concat(&program));
        },
        Platform::Windows => {
            locations.push("C:\\Program Files\\YARA\\".to_owned().concat(&program));
            locations.push("C:\\Program Files (x86)\\YARA\\".to_owned().concat(&program));
        },
        Platform::Other => {},
    }
    assert(text::string_texts(locations@) =~= install_locations(platform));
    locations
}

/// The device of a platform that is always empty.
pub fn null_device(platform: Platform) -> (device: &'static str)
    ensures
        device@ == match platform {
            Platform::Windows => "NUL"@,
            _ => "/dev/null"@,
        },
{
    match platform {
        Platform::Windows => "NUL",
        _ => "/dev/null",
    }
}

/// A place where `yara` may be, and whether there is a file.
#[derive(Clone, Debug)]
pub struct BinaryCandidate {
    pub path: String,
    pub is_file: bool,
}

/// The paths of the candidates.
pub open spec fn candidate_paths(candidates: Seq<BinaryCandidate>) -> Seq<Seq<char>> {
    Seq::new(candidates.len(), |i: int| candidates[i].path@)
}

/// The message where no candidate is a file.
pub open spec fn binary_not_found(candidates: Seq<BinaryCandidate>) -> Seq<char> {
    "yara binary not found. Checked PATH and common install locations: "@ + text::joined(
        candidate_paths(candidates),
        ", "@,
    )
}

/// The position of the first candidate that is a file.
pub fn find_yara_binary(candidates: &Vec<BinaryCandidate>) -> (found: Result<usize, String>)
    ensures
        match found {
            Ok(position) => {
                &&& position < candidates@.len()
                &&& candidates@[position as int].is_file
                &&& forall|i: int| 0 <= i < position ==> !(#[trigger] candidates@[i]).is_file
            },
            Err(message) => {
                &&& forall|i: int|
                    0 <= i < candidates@.len() ==> !(#[trigger] candidates@[i]).is_file
                &&& message@ == binary_not_found(candidates@)
            },
        },
{
    for i in 0..candidates.len()
        invariant
            forall|j: int| 0 <= j < i ==> !(#[trigger] candidates@[j]).is_file,
    {
        if candidates[i].is_file {
            return Ok(i);
        }
    }
    let ghost paths = candidate_paths(candidates@);
    let mut list = String::new();
    assert(paths.take(0) =~= Seq::<Seq<char>>::empty());
    for i in 0..candidates.len()
        invariant
            paths == candidate_paths(candidates@),
            list@ == text::joined(paths.take(i as int), ", "@),
    {
        assert(paths.take(i + 1).drop_last() =~= paths.take(i as int));
        assert(paths.take(i + 1).last() == candidates@[i as int].path@);
        if i > 0 {
            list.append(", ");
        } else {
            assert(list@ + candidates@[0].path@ =~= candidates@[0].path@);
        }
        list.append(&candidates[i].path);
    }
    assert(paths.take(paths.len() as int) =~= paths);
    Err(
        "yara binary not found. Checked PATH and common install locations: ".to_owned().concat(
            &list,
        ),
    )
}

/// What rules are loaded from, as it was found: a file, or a directory with what is below it.
#[derive(Clone, Debug)]
pub enum RulesSource {
    File(Vec<PathPart>),
    Directory(Vec<RulesEntry>),
}

/// Something below a rules directory.
#[derive(Clone, Debug)]
pub struct RulesEntry {
    pub is_file: bool,
    pub path: Vec<PathPart>,
}

/// The positions of the rule files among the first entries of a directory.
pub open spec fn rule_positions(entries: Seq<RulesEntry>) -> Seq<usize>
    decreases entries.len(),
{
    if entries.len() == 0 {
        Seq::empty()
    } else if entries.last().is_file && paths::is_rule_path(paths::parts(entries.last().path@)) {
        rule_positions(entries.drop_last()).push((entries.len() - 1) as usize)
    } else {
        rule_positions(entries.drop_last())
    }
}

/// The positions of the rule files: that of the file itself, which must be one, or those of the
/// rule files in the directory.
pub fn collect_rule_files(source: &RulesSource) -> (found: Result<Vec<usize>, String>)
    ensures
        match source {
            RulesSource::File(path) => if paths::is_rule_path(paths::parts(path@)) {
                found matches Ok(positions) && positions@ == seq![0usize]
            } else {
                found matches Err(message) && message@ == "rules file must end with .yar or .yara"@
            },
            RulesSource::Directory(entries) => {
                found matches Ok(positions) && positions@ == rule_positions(entries@)
            },
        },
{
    match source {
        RulesSource::File(path) => {
            if has_rule_extension(path) {
                let mut positions: Vec<usize> = Vec::new();
                positions.push(0);
                assert(positions@ =~= seq![0usize]);
                Ok(positions)
            } else {
                Err("rules file must end with .yar or .yara".to_owned())
            }
        },
        RulesSource::Directory(entries) => {
            let mut positions: Vec<usize> = Vec::new();
            assert(entries@.take(0) =~= Seq::<RulesEntry>::empty());
            for i in 0..entries.len()
                invariant
                    positions@ == rule_positions(entries@.take(i as int)),
            {
                assert(entries@.take(i + 1).drop_last() =~= entries@.take(i as int));
                assert(entries@.take(i + 1).last() == entries@[i as int]);
                if entries[i].is_file && has_rule_extension(&entries[i].path) {
                    positions.push(i);
                }
            }
            assert(entries@.take(entries@.len() as int) =~= entries@);
            Ok(positions)
        },
    }
}

/// How a run of `yara` ended.
#[derive(Clone, Debug)]
pub enum YaraRun {
    /// The program could not be started.
    NotStarted,
    /// The program ran, with this success and these outputs.
    Finished { success: bool, stdout: Vec<u8>, stderr: Vec<u8> },
}

/// What is wrong with a rule file, where something is: `yara` failed on it, and not for want of
/// something to scan.
pub open spec fn check_fault(
    file: Seq<char>,
    success: bool,
    stderr: Seq<char>,
) -> Option<Seq<char>> {
    if success || text::occurs_in("could not open file"@, stderr) || text::occurs_in(
        "No such file"@,
        stderr,
    ) {
        None
    } else {
        Some("YARA rule error in "@ + file + ": "@ + text::trimmed(stderr))
    }
}

/// What is wrong with a rule file, by a run of `yara` on it with nothing to scan.
pub open spec fn check_run_fault(file: Seq<char>, run: YaraRun) -> Option<Seq<char>> {
    match run {
        YaraRun::NotStarted => Some("failed to invoke yara for "@ + file),
        YaraRun::Finished { success, stderr, .. } => check_fault(
            file,
            success,
            text::utf8_lossy(stderr@),
        ),
    }
}

/// What is wrong with the first of the rule files that something is wrong with.
pub open spec fn first_check_fault(files: Seq<String>, runs: Seq<YaraRun>) -> Option<Seq<char>>
    decreases runs.len(),
{
    if runs.len() == 0 {
        None
    } else {
        match check_run_fault(files[0]@, runs[0]) {
            Some(fault) => Some(fault),
            None => first_check_fault(files.skip(1), runs.skip(1)),
        }
    }
}

/// Judges a rule file by the success and the error output of `yara`.
pub fn judge_check(file: &str, success: bool, stderr: &str) -> (fault: Option<String>)
    ensures
        match fault {
            Some(message) => check_fault(file@, success, stderr@) == Some(message@),
            None => check_fault(file@, success, stderr@) is None,
        },
{
    if success {
        return None;
    }
    let chars = to_chars(stderr);
    if contains_chars(&chars, &to_chars("could not open file")) || contains_chars(
        &chars,
        &to_chars("No such file"),
    ) {
        return None;
    }
    let mut message = "YARA rule error in ".to_owned();
    message.append(file);
    message.append(": ");
    message.append(&from_chars(trim_chars(&chars, CharClass::WhiteSpace)));
    Some(message)
}

/// Judges a rule file by a run of `yara` on it with nothing to scan.
pub fn judge_check_run(file: &str, run: &YaraRun) -> (fault: Option<String>)
    ensures
        match fault {
            Some(message) => check_run_fault(file@, *run) == Some(message@),
            None => check_run_fault(file@, *run) is None,
        },
{
    match run {
        YaraRun::NotStarted => Some("failed to invoke yara for ".to_owned().concat(file)),
        YaraRun::Finished { success, stderr, .. } => {
            judge_check(file, *success, &lossy_text(stderr))
        },
    }
}

/// The rule namespace of a rule file: its name without the extension, or `default` where that is
/// no text.
pub open spec fn rule_namespace(path: Seq<paths::PartModel>) -> Seq<char> {
    match paths::file_name(path) {
        Some(name) => {
            let stem = if paths::last_dot(name) > 0 {
                name.take(paths::last_dot(name))
            } else {
                name
            };
            if valid_utf8(stem) {
                decode_utf8(stem)
            } else {
                "default"@
            }
        },
        None => "default"@,
    }
}

/// The rule namespace of a rule file.
pub fn namespace_of(path: &[PathPart]) -> (namespace: String)
    ensures
        namespace@ == rule_namespace(paths::parts(path@)),
{
    match path_file_name(path) {
        None => "default".to_owned(),
        Some(name) => match utf8_text(name_stem(name)) {
            None => "default".to_owned(),
            Some(stem) => {
                proof {
                    encode_utf8_decode_utf8(stem@);
                }
                stem.to_owned()
            },
        },
    }
}

/// A rule file.
#[derive(Clone, Debug)]
pub struct RuleName {
    /// Its path, as it is shown.
    pub shown: String,
    /// The parts of its path.
    pub path: Vec<PathPart>,
}

/// What a finished run of `yara` says of the scanned file.
pub open spec fn finished_outcome(
    namespace: Seq<char>,
    success: bool,
    stdout: Seq<char>,
    stderr: Seq<char>,
) -> Result<Seq<MatchModel>, Seq<char>> {
    if !success && text::trimmed(stdout).len() == 0 && text::trimmed(stderr).len() > 0 {
        Err("yara error: "@ + text::trimmed(stderr))
    } else if text::trimmed(stdout).len() == 0 {
        Ok(Seq::empty())
    } else {
        Ok(output_matches(stdout, namespace))
    }
}

/// What a run of `yara` with a rule file says of the scanned file.
pub open spec fn run_outcome(path: Seq<char>, file: RuleName, run: YaraRun) -> Result<
    Seq<MatchModel>,
    Seq<char>,
> {
    match run {
        YaraRun::NotStarted => Err(
            "failed to invoke yara for rule "@ + file.shown@ + " against "@ + path,
        ),
        YaraRun::Finished { success, stdout, stderr } => finished_outcome(
            rule_namespace(paths::parts(file.path@)),
            success,
            text::utf8_lossy(stdout@),
            text::utf8_lossy(stderr@),
        ),
    }
}

/// What the runs say of the scanned file, each of them with the rule file at its place: the matches
/// of all, or the first error.
pub open spec fn runs_outcome(
    path: Seq<char>,
    files: Seq<RuleName>,
    runs: Seq<YaraRun>,
) -> Result<Seq<MatchModel>, Seq<char>>
    decreases runs.len(),
{
    if runs.len() == 0 {
        Ok(Seq::empty())
    } else {
        match run_outcome(path, files[0], runs[0]) {
            Err(message) => Err(message),
            Ok(first) => match runs_outcome(path, files.skip(1), runs.skip(1)) {
                Err(message) => Err(message),
                Ok(rest) => Ok(first + rest),
            },
        }
    }
}

/// Judges what a finished run of `yara` printed.
pub fn judge_output(
    namespace: &str,
    success: bool,
    stdout: &str,
    stderr: &str,
) -> (outcome: Result<Vec<YaraMatch>, String>)
    ensures
        match outcome {
            Ok(matches) => finished_outcome(namespace@, success, stdout@, stderr@) == Ok::<
                Seq<MatchModel>,
                Seq<char>,
            >(models(matches@)) && models(matches@).len() == matches@.len(),
            Err(message) => finished_outcome(namespace@, success, stdout@, stderr@) == Err::<
                Seq<MatchModel>,
                Seq<char>,
            >(message@),
        },
{
    let printed = trim(stdout);
    if !success && printed.len() == 0 {
        let complaint = trim(stderr);
        if complaint.len() > 0 {
            return Err("yara error: ".to_owned().concat(&from_chars(&complaint)));
        }
    }
    if printed.len() == 0 {
        let none: Vec<YaraMatch> = Vec::new();
        assert(models(none@) =~= Seq::<MatchModel>::empty());
        return Ok(none);
    }
    Ok(parse_yara_output(stdout, namespace))
}

/// Judges a run of `yara` with a rule file on the file that is scanned.
pub fn judge_run(path: &str, file: &RuleName, run: &YaraRun) -> (outcome: Result<
    Vec<YaraMatch>,
    String,
>)
    ensures
        match outcome {
            Ok(matches) => run_outcome(path@, *file, *run) == Ok::<Seq<MatchModel>, Seq<char>>(
                models(matches@),
            ) && models(matches@).len() == matches@.len(),
            Err(message) => run_outcome(path@, *file, *run) == Err::<Seq<MatchModel>, Seq<char>>(
                message@,
            ),
        },
{
    match run {
        YaraRun::NotStarted => {
            let mut message = "failed to invoke yara for rule ".to_owned();
            message.append(&file.shown);
            message.append(" against ");
            message.append(path);
            Err(message)
        },
        YaraRun::Finished { success, stdout, stderr } => judge_output(
            &namespace_of(&file.path),
            *success,
            &lossy_text(stdout),
            &lossy_text(stderr),
        ),
    }
}

/// Whether another rule file is to be checked: no run found a fault, and files are left.
pub open spec fn needs_check(files: Seq<String>, runs: Seq<YaraRun>) -> bool {
    runs.len() < files.len() && first_check_fault(files, runs) is None
}

fn find_check_fault(files: &Vec<String>, runs: &Vec<YaraRun>) -> (found: Option<String>)
    requires
        runs@.len() <= files@.len(),
    ensures
        match found {
            Some(fault) => first_check_fault(files@, runs@) == Some(fault@),
            None => first_check_fault(files@, runs@) is None,
        },
{
    let total: usize = runs.len();
    let mut i: usize = 0;
    assert(files@.skip(0) =~= files@);
    assert(runs@.skip(0) =~= runs@);
    while i < total
        invariant
            total == runs@.len(),
            total <= files@.len(),
            i <= total,
            first_check_fault(files@, runs@) == first_check_fault(
                files@.skip(i as int),
                runs@.skip(i as int),
            ),
        decreases total - i,
    {
        assert(files@.skip(i as int).skip(1) =~= files@.skip(i + 1));
        assert(runs@.skip(i as int).skip(1) =~= runs@.skip(i + 1));
        if let Some(fault) = judge_check_run(&files[i], &runs[i]) {
            return Some(fault);
        }
        i += 1;
    }
    None
}

/// The place of the rule file that is to be checked next, after these runs of `yara` on the rule
/// files before it with nothing to scan.
pub fn next_check(files: &Vec<String>, runs: &Vec<YaraRun>) -> (next: Option<usize>)
    requires
        runs@.len() <= files@.len(),
    ensures
        next == if needs_check(files@, runs@) {
            Some(runs@.len() as usize)
        } else {
            None
        },
{
    if runs.len() < files.len() && find_check_fault(files, runs).is_none() {
        Some(runs.len())
    } else {
        None
    }
}

/// Whether another rule file is to be run on the scanned file: no run ended in an error, and files
/// are left.
pub open spec fn needs_run(path: Seq<char>, files: Seq<RuleName>, runs: Seq<YaraRun>) -> bool {
    runs.len() < files.len() && runs_outcome(path, files, runs) is Ok
}

/// Judges a file by the runs of `yara` on it with the first of the rule files.
fn judge_runs(path: &str, files: &Vec<RuleName>, runs: &Vec<YaraRun>) -> (outcome: Result<
    Vec<YaraMatch>,
    String,
>)
    requires
        runs@.len() <= files@.len(),
    ensures
        match outcome {
            Ok(matches) => runs_outcome(path@, files@, runs@) == Ok::<Seq<MatchModel>, Seq<char>>(
                models(matches@),
            ),
            Err(message) => runs_outcome(path@, files@, runs@) == Err::<
                Seq<MatchModel>,
                Seq<char>,
            >(message@),
        },
{
    let mut matches: Vec<YaraMatch> = Vec::new();
    let total: usize = runs.len();
    let mut i: usize = 0;
    assert(files@.skip(0) =~= files@);
    assert(runs@.skip(0) =~= runs@);
    proof {
        if let Ok(all) = runs_outcome(path@, files@, runs@) {
            assert(models(matches@) + all =~= all);
        }
    }
    while i < total
        invariant
            total == runs@.len(),
            total <= files@.len(),
            i <= total,
            runs_outcome(path@, files@, runs@) == match runs_outcome(
                path@,
                files@.skip(i as int),
                runs@.skip(i as int),
            ) {
                Ok(rest) => Ok(models(matches@) + rest),
                Err(message) => Err(message),
            },
        decreases total - i,
    {
        let ghost rest_files = files@.skip(i as int);
        let ghost rest = runs@.skip(i as int);
        let ghost before = models(matches@);
        assert(rest_files[0] == files@[i as int]);
        assert(rest[0] == runs@[i as int]);
        assert(rest_files.skip(1) =~= files@.skip(i + 1));
        assert(rest.skip(1) =~= runs@.skip(i + 1));
        match judge_run(path, &files[i], &runs[i]) {
            Err(message) => {
                return Err(message);
            },
            Ok(mut found) => {
                let ghost new = models(found@);
                matches.append(&mut found);
                assert(models(matches@) =~= before + new);
                proof {
                    if let Ok(tail) = runs_outcome(path@, rest_files.skip(1), rest.skip(1)) {
                        assert(before + (new + tail) =~= before + new + tail);
                    }
                }
                i += 1;
            },
        }
    }
    assert(models(matches@) + Seq::<MatchModel>::empty() =~= models(matches@));
    Ok(matches)
}

/// The place of the rule file that is to be run next on the scanned file, after these runs of
/// `yara` on it with the rule files before.
pub fn next_run(path: &str, files: &Vec<RuleName>, runs: &Vec<YaraRun>) -> (next: Option<usize>)
    requires
        runs@.len() <= files@.len(),
    ensures
        next == if needs_run(path@, files@, runs@) {
            Some(runs@.len() as usize)
        } else {
            None
        },
{
    if runs.len() < files.len() && judge_runs(path, files, runs).is_ok() {
        Some(runs.len())
    } else {
        None
    }
}

/// A `yara` program and the rules that it evaluates.
#[derive(Clone, Debug)]
pub struct YaraScanner {
    pub rules_path: String,
    pub binary_path: String,
}

impl YaraScanner {
    /// Takes rules into use: `files` are the rule files at `path`, and `runs` are the runs of
    /// `yara` on the first of them, in their order, with nothing to scan. Gives nothing as long as
    /// another rule file is to be checked.
    pub fn load(
        path: &str,
        binary_path: &str,
        files: &Vec<String>,
        runs: &Vec<YaraRun>,
    ) -> (loaded: Option<Result<(YaraScanner, usize), String>>)
        requires
            runs@.len() <= files@.len(),
        ensures
            if files@.len() == 0 {
                loaded matches Some(Err(message)) && message@
                    == "no .yar or .yara files found at "@ + path@
            } else {
                match first_check_fault(files@, runs@) {
                    Some(fault) => loaded matches Some(Err(message)) && message@ == fault,
                    None => if needs_check(files@, runs@) {
                        loaded is None
                    } else {
                        loaded matches Some(Ok((scanner, count))) && {
                            &&& scanner.rules_path@ == path@
                            &&& scanner.binary_path@ == binary_path@
                            &&& count == files@.len()
                        }
                    },
                }
            },
    {
        if files.len() == 0 {
            return Some(Err("no .yar or .yara files found at ".to_owned().concat(path)));
        }
        if let Some(fault) = find_check_fault(files, runs) {
            return Some(Err(fault));
        }
        if runs.len() < files.len() {
            return None;
        }
        let scanner = YaraScanner {
            rules_path: path.to_owned(),
            binary_path: binary_path.to_owned(),
        };
        Some(Ok((scanner, files.len())))
    }

    /// Judges a file: `files` are the rule files, and `runs` are the runs of `yara` on the file
    /// with the first of them, in their order. Gives nothing as long as another rule file is to
    /// be run.
    pub fn scan_file(&self, path: &str, files: &Vec<RuleName>, runs: &Vec<YaraRun>) -> (outcome:
        Option<Result<Vec<YaraMatch>, String>>)
        requires
            runs@.len() <= files@.len(),
        ensures
            match runs_outcome(path@, files@, runs@) {
                Err(error) => outcome matches Some(Err(message)) && message@ == error,
                Ok(found) => if needs_run(path@, files@, runs@) {
                    outcome is None
                } else {
                    outcome matches Some(Ok(matches)) && models(matches@) == found && matches@.len()
                        == found.len()
                },
            },
    {
        match judge_runs(path, files, runs) {
            Err(message) => Some(Err(message)),
            Ok(matches) => {
                assert(models(matches@).len() == matches@.len());
                if runs.len() < files.len() {
                    None
                } else {
                    Some(Ok(matches))
                }
            },
        }
    }
}

/// Bytes as pairs of hexadecimal digits.
pub open spec fn hex_words(bytes: Seq<u8>) -> Seq<Seq<char>> {
    Seq::new(
        bytes.len(),
        |i: int| seq![hex::hex_char(bytes[i] / 16), hex::hex_char(bytes[i] % 16)],
    )
}

/// Bytes as pairs of hexadecimal digits, each with a space before it.
pub open spec fn spaced_hex(bytes: Seq<u8>) -> Seq<char>
    decreases bytes.len(),
{
    if bytes.len() == 0 {
        Seq::empty()
    } else {
        spaced_hex(bytes.drop_last()).push(' ').push(hex::hex_char(bytes.last() / 16)).push(
            hex::hex_char(bytes.last() % 16),
        )
    }
}

proof fn lemma_spaced_hex_split(bytes: Seq<u8>)
    ensures
        text::split(spaced_hex(bytes), CharClass::WhiteSpace) == seq![Seq::<char>::empty()]
            + hex_words(bytes),
        bytes.len() > 0 ==> spaced_hex(bytes).len() > 0 && spaced_hex(bytes)[0] == ' ',
    decreases bytes.len(),
{
    let class = CharClass::WhiteSpace;
    let empty = Seq::<char>::empty();
    if bytes.len() == 0 {
        assert(seq![empty] + hex_words(bytes) =~= seq![empty]);
    } else {
        let before = bytes.drop_last();
        lemma_spaced_hex_split(before);
        let high = hex::hex_char(bytes.last() / 16);
        let low = hex::hex_char(bytes.last() % 16);
        let s0 = spaced_hex(before);
        let s1 = s0.push(' ');
        let s2 = s1.push(high);
        let s3 = s2.push(low);
        assert(s1.drop_last() =~= s0);
        assert(s2.drop_last() =~= s1);
        assert(s3.drop_last() =~= s2);
        let pieces = seq![empty] + hex_words(before);
        assert(text::split(s1, class) =~= pieces.push(empty));
        assert(text::split(s2, class).last() =~= seq![high]);
        assert(text::split(s2, class) =~= pieces.push(seq![high]));
        assert(text::split(s3, class).last() =~= seq![high, low]);
        assert(text::split(s3, class) =~= pieces.push(seq![high, low]));
        assert(pieces.push(seq![high, low]) =~= seq![empty] + hex_words(bytes));
    }
}

proof fn lemma_hex_words(bytes: Seq<u8>)
    ensures
        text::non_empty(seq![Seq::<char>::empty()] + hex_words(bytes)) == hex_words(bytes),
        text::concatenated(hex_words(bytes)) == hex::hex_encoded(bytes),
    decreases bytes.len(),
{
    let empty = Seq::<char>::empty();
    let words = hex_words(bytes);
    let pieces = seq![empty] + words;
    if bytes.len() == 0 {
        reveal_with_fuel(text::non_empty, 2);
        assert(pieces =~= seq![empty]);
        assert(pieces.drop_last() =~= Seq::<Seq<char>>::empty());
        assert(words =~= Seq::<Seq<char>>::empty());
        assert(hex::hex_encoded(bytes) =~= empty);
    } else {
        let before = bytes.drop_last();
        lemma_hex_words(before);
        assert(words.drop_last() =~= hex_words(before));
        assert(pieces.drop_last() =~= seq![empty] + hex_words(before));
        assert(pieces.last() == words.last());
        assert(hex_words(before).push(words.last()) =~= words);
        assert(hex::hex_encoded(before) + words.last() =~= hex::hex_encoded(bytes));
    }
}

/// Data that is printed as pairs of hexadecimal digits between braces is read as the bytes that
/// it is of.
pub proof fn braced_hex_is_read(bytes: Seq<u8>)
    ensures
        match_data(seq!['{'] + spaced_hex(bytes) + seq![' ', '}']) == bytes,
{
    let class = CharClass::Brace;
    let inner = spaced_hex(bytes).push(' ');
    let raw = seq!['{'] + spaced_hex(bytes) + seq![' ', '}'];
    lemma_spaced_hex_split(bytes);
    lemma_hex_words(bytes);
    hex::decode_undoes_encode(bytes);
    assert(raw =~= seq!['{'] + inner + seq!['}']);
    let rest = inner + seq!['}'];
    assert(raw.drop_first() =~= rest);
    assert(rest[0] == inner[0] && inner[0] == ' ');
    assert(text::trim_start(raw, class) == rest) by {
        reveal_with_fuel(text::trim_start, 3);
    }
    assert(rest.drop_last() =~= inner);
    assert(text::trim_end(rest, class) == inner) by {
        reveal_with_fuel(text::trim_end, 3);
    }
    assert(inner.drop_last() =~= spaced_hex(bytes));
    let pieces = seq![Seq::<char>::empty()] + hex_words(bytes);
    assert(text::split(inner, CharClass::WhiteSpace) == pieces.push(Seq::empty()));
    assert(pieces.push(Seq::<char>::empty()).drop_last() =~= pieces);
}

/// Every match that an output reports has the namespace of the rules that were run, and a rule.
pub proof fn matches_keep_namespace(lines: Seq<Seq<char>>, namespace: Seq<char>)
    ensures
        line_matches(lines, namespace).len() <= lines.len(),
        forall|i: int|
            0 <= i < line_matches(lines, namespace).len() ==> (#[trigger] line_matches(
                lines,
                namespace,
            )[i]).namespace == namespace,
    decreases lines.len(),
{
    if lines.len() > 0 {
        matches_keep_namespace(lines.drop_last(), namespace);
    }
}

/// A line that reports a string neither adds nor removes a match, nor changes any but the last.
pub proof fn strings_belong_to_last_match(
    lines: Seq<Seq<char>>,
    line: Seq<char>,
    namespace: Seq<char>,
    n: int,
)
    requires
        is_string_line(line),
        0 <= n < line_matches(lines, namespace).len(),
    ensures
        line_matches(lines.push(line), namespace).len() == line_matches(lines, namespace).len(),
        line_matches(lines.push(line), namespace)[n].rule_name == line_matches(
            lines,
            namespace,
        )[n].rule_name,
        line_matches(lines.push(line), namespace)[n].tags == line_matches(
            lines,
            namespace,
        )[n].tags,
        n < line_matches(lines, namespace).len() - 1 ==> line_matches(
            lines.push(line),
            namespace,
        )[n] == line_matches(lines, namespace)[n],
{
    assert(lines.push(line).drop_last() =~= lines);
}

/// Runs that all end well report the matches of each, in the order of the rule files.
pub proof fn runs_report_in_order(
    path: Seq<char>,
    first_files: Seq<RuleName>,
    first: Seq<YaraRun>,
    second_files: Seq<RuleName>,
    second: Seq<YaraRun>,
)
    requires
        first_files.len() == first.len(),
        runs_outcome(path, first_files, first) is Ok,
        runs_outcome(path, second_files, second) is Ok,
    ensures
        runs_outcome(path, first_files + second_files, first + second) == Ok::<
            Seq<MatchModel>,
            Seq<char>,
        >(
            runs_outcome(path, first_files, first)->Ok_0 + runs_outcome(
                path,
                second_files,
                second,
            )->Ok_0,
        ),
    decreases first.len(),
{
    let files = first_files + second_files;
    let runs = first + second;
    let tail = runs_outcome(path, second_files, second)->Ok_0;
    if first.len() == 0 {
        assert(files =~= second_files);
        assert(runs =~= second);
        assert(Seq::<MatchModel>::empty() + tail =~= tail);
    } else {
        runs_report_in_order(path, first_files.skip(1), first.skip(1), second_files, second);
        assert(files.skip(1) =~= first_files.skip(1) + second_files);
        assert(runs.skip(1) =~= first.skip(1) + second);
        assert(files[0] == first_files[0]);
        assert(runs[0] == first[0]);
        let head = run_outcome(path, first_files[0], first[0])->Ok_0;
        let rest = runs_outcome(path, first_files.skip(1), first.skip(1))->Ok_0;
        assert(head + (rest + tail) =~= head + rest + tail);
    }
}

/// Once the runs up to some rule file have ended in an error, it stays the answer whatever else is
/// run: the first error decides.
pub proof fn first_error_decides(
    path: Seq<char>,
    files: Seq<RuleName>,
    runs: Seq<YaraRun>,
    n: int,
)
    requires
        0 <= n <= runs.len() <= files.len(),
        runs_outcome(path, files, runs.take(n)) is Err,
    ensures
        runs_outcome(path, files, runs) == runs_outcome(path, files, runs.take(n)),
    decreases runs.len(),
{
    let begun = runs.take(n);
    assert(n > 0);
    assert(begun[0] == runs[0]);
    if run_outcome(path, files[0], runs[0]) is Ok {
        assert(begun.skip(1) =~= runs.skip(1).take(n - 1));
        first_error_decides(path, files.skip(1), runs.skip(1), n - 1);
    }
}

/// The lines on both sides of a line feed are read on their own.
proof fn lemma_output_lines_concat(before: Seq<char>, after: Seq<char>)
    ensures
        output_lines(before.push('\n') + after) == output_lines(before) + output_lines(after),
{
    let class = CharClass::LineFeed;
    let a = text::split(before, class);
    let b = text::split(after, class);
    text::splitting_parts_at_separators(before, '\n', after, class);
    assert(text::trimmed_all(a + b) =~= text::trimmed_all(a) + text::trimmed_all(b));
    text::lemma_non_empty_concat(text::trimmed_all(a), text::trimmed_all(b));
}

/// A line without a line feed is one line, or none where it is blank.
proof fn lemma_output_line(line: Seq<char>)
    requires
        !line.contains('\n'),
    ensures
        output_lines(line) == if text::trimmed(line).len() > 0 {
            seq![text::trimmed(line)]
        } else {
            Seq::empty()
        },
{
    let class = CharClass::LineFeed;
    assert forall|i: int| 0 <= i < line.len() implies !class.has(#[trigger] line[i]) by {
        assert(line.contains(line[i]));
    }
    text::splitting_keeps_a_piece(line, class);
    let t = text::trimmed(line);
    assert(text::trimmed_all(seq![line]) =~= seq![t]);
    let pieces = seq![t];
    assert(pieces.drop_last() =~= Seq::<Seq<char>>::empty());
    reveal_with_fuel(text::non_empty, 2);
    assert(Seq::<Seq<char>>::empty().push(t) =~= seq![t]);
    assert(output_lines(line) =~= if t.len() > 0 {
        seq![t]
    } else {
        Seq::empty()
    });
}

/// An output is read line by line, and each further line does one thing. A line that begins with
/// `0x` and reads as a string adds that string to the last match, after all strings that the match
/// has, whatever they are; without a match before it, or where it does not read as a string, it
/// changes nothing. Another line adds a match, after all matches that there are, where it reads as
/// a rule. A blank line changes nothing, and nothing printed reports nothing.
pub proof fn each_line_adds_what_it_reports(
    output: Seq<char>,
    line: Seq<char>,
    namespace: Seq<char>,
)
    requires
        !line.contains('\n'),
    ensures
        ({
            let before = output_matches(output, namespace);
            let after = output_matches(output.push('\n') + line, namespace);
            let content = text::trimmed(line);
            let is_string = content.len() >= 2 && content[0] == '0' && content[1] == 'x';
            &&& content.len() == 0 ==> after == before
            &&& is_string && before.len() == 0 ==> after == before
            &&& is_string && match_string(content) is None ==> after == before
            &&& is_string && before.len() > 0 ==> (match_string(content) matches Some(string) ==> {
                &&& after.len() == before.len()
                &&& forall|i: int| 0 <= i < before.len() - 1 ==> #[trigger] after[i] == before[i]
                &&& after.last().rule_name == before.last().rule_name
                &&& after.last().namespace == before.last().namespace
                &&& after.last().tags == before.last().tags
                &&& after.last().strings == before.last().strings.push(string)
            })
            &&& content.len() > 0 && !is_string ==> match rule_line(content, namespace) {
                Some(matched) => after == before.push(matched),
                None => after == before,
            }
        }),
        output_matches(Seq::empty(), namespace).len() == 0,
{
    let content = text::trimmed(line);
    lemma_output_lines_concat(output, line);
    lemma_output_line(line);
    let lines = output_lines(output);
    if content.len() > 0 {
        assert(lines + seq![content] =~= lines.push(content));
        assert(lines.push(content).drop_last() =~= lines);
        assert(lines.push(content).last() == content);
        let prefix = seq!['0', 'x'];
        if is_string_line(content) {
            assert(content[0] == prefix[0] && content[1] == prefix[1]);
        }
        if content.len() >= 2 && content[0] == '0' && content[1] == 'x' {
            assert(prefix.is_prefix_of(content));
        }
    } else {
        assert(lines + Seq::<Seq<char>>::empty() =~= lines);
    }
    lemma_output_line(Seq::empty());
    assert(text::trimmed(Seq::<char>::empty()).len() == 0);
}

/// The strings that a row of lines reports: one for each line that reads as a string, in their
/// order.
pub open spec fn reported_strings(lines: Seq<Seq<char>>) -> Seq<StringModel>
    decreases lines.len(),
{
    if lines.len() == 0 {
        Seq::empty()
    } else {
        match match_string(lines.last()) {
            Some(string) => reported_strings(lines.drop_last()).push(string),
            None => reported_strings(lines.drop_last()),
        }
    }
}

/// The strings of a match are those of the lines between the line of its rule and that of the next
/// rule, one for each such line that reads as a string and in their order.
pub proof fn match_has_the_strings_below_it(
    before: Seq<Seq<char>>,
    rule: Seq<char>,
    below: Seq<Seq<char>>,
    namespace: Seq<char>,
)
    requires
        rule.len() < 2 || rule[0] != '0' || rule[1] != 'x',
        rule_line(rule, namespace) is Some,
        forall|i: int|
            0 <= i < below.len() ==> (#[trigger] below[i]).len() >= 2 && below[i][0] == '0'
                && below[i][1] == 'x',
    ensures
        ({
            let all = line_matches(before.push(rule) + below, namespace);
            &&& all.len() == line_matches(before, namespace).len() + 1
            &&& all.drop_last() == line_matches(before, namespace)
            &&& all.last().rule_name == rule_line(rule, namespace)->0.rule_name
            &&& all.last().strings == reported_strings(below)
            &&& reported_strings(below).len() <= below.len()
        }),
    decreases below.len(),
{
    let lines = before.push(rule) + below;
    let prefix = seq!['0', 'x'];
    if below.len() == 0 {
        assert(lines =~= before.push(rule));
        assert(lines.drop_last() =~= before);
        assert(lines.last() == rule);
        if is_string_line(rule) {
            assert(rule[0] == prefix[0] && rule[1] == prefix[1]);
        }
        let old = line_matches(before, namespace);
        assert(old.push(rule_line(rule, namespace)->0).drop_last() =~= old);
    } else {
        let shorter = below.drop_last();
        assert forall|i: int| 0 <= i < shorter.len() implies (#[trigger] shorter[i]).len() >= 2
            && shorter[i][0] == '0' && shorter[i][1] == 'x' by {
            assert(shorter[i] == below[i]);
        }
        match_has_the_strings_below_it(before, rule, shorter, namespace);
        assert(lines.drop_last() =~= before.push(rule) + shorter);
        let line = lines.last();
        assert(line == below[below.len() - 1]);
        assert(prefix.is_prefix_of(line));
        let old = line_matches(lines.drop_last(), namespace);
        let new = line_matches(lines, namespace);
        assert(new.drop_last() =~= old.drop_last());
    }
}

/// A line with a word, and at least one more behind it, names a rule that matched: the first word.
/// A line with fewer words names none.
pub proof fn first_word_is_the_rule(
    name: Seq<char>,
    space: char,
    rest: Seq<char>,
    namespace: Seq<char>,
)
    requires
        name.len() > 0,
        forall|i: int| 0 <= i < name.len() ==> !text::is_white_space(#[trigger] name[i]),
        text::is_white_space(space),
    ensures
        rule_line(name.push(space) + rest, namespace) is Some <==> text::words(rest).len() > 0,
        rule_line(name, namespace) is None,
        rule_line(name.push(space) + rest, namespace) matches Some(matched) ==> {
            &&& matched.rule_name == name
            &&& matched.namespace == namespace
            &&& matched.strings.len() == 0
        },
{
    text::word_stays_whole(name);
    text::words_part_at_white_space(name, space, rest);
}

proof fn lemma_joined_tags(tags: Seq<Seq<char>>)
    requires
        tags.len() > 0,
        forall|i: int| 0 <= i < tags.len() ==> is_tag(#[trigger] tags[i]),
    ensures
        text::split(text::joined(tags, seq![',']), CharClass::Comma) == tags,
        text::joined(tags, seq![',']).len() > 0,
        forall|i: int|
            0 <= i < text::joined(tags, seq![',']).len() ==> !text::is_white_space(
                #[trigger] text::joined(tags, seq![','])[i],
            ) && text::joined(tags, seq![','])[i] != '[' && text::joined(tags, seq![','])[i] != ']',
    decreases tags.len(),
{
    let class = CharClass::Comma;
    let last = tags.last();
    assert(is_tag(tags[tags.len() - 1]));
    text::splitting_keeps_a_piece(last, class);
    if tags.len() == 1 {
        assert(tags =~= seq![last]);
        assert(text::joined(tags, seq![',']) == last);
    } else {
        let before = tags.drop_last();
        assert forall|i: int| 0 <= i < before.len() implies is_tag(#[trigger] before[i]) by {
            assert(before[i] == tags[i]);
        }
        lemma_joined_tags(before);
        let head = text::joined(before, seq![',']);
        let whole = text::joined(tags, seq![',']);
        assert(whole =~= head.push(',') + last);
        text::splitting_parts_at_separators(head, ',', last, class);
        assert(before + seq![last] =~= tags);
        assert forall|i: int| 0 <= i < whole.len() implies !text::is_white_space(
            #[trigger] whole[i],
        ) && whole[i] != '[' && whole[i] != ']' by {
            if i < head.len() {
                assert(whole[i] == head[i]);
            } else if i > head.len() {
                assert(whole[i] == last[i - head.len() - 1]);
            }
        }
    }
}

/// Whether a text can stand in a list of tags: it is not empty and has neither white space nor a
/// comma nor a bracket.
pub open spec fn is_tag(tag: Seq<char>) -> bool {
    tag.len() > 0 && forall|i: int|
        0 <= i < tag.len() ==> !text::is_white_space(#[trigger] tag[i]) && tag[i] != ',' && tag[i]
            != '[' && tag[i] != ']'
}

proof fn lemma_tags_stay(tags: Seq<Seq<char>>)
    requires
        forall|i: int| 0 <= i < tags.len() ==> is_tag(#[trigger] tags[i]),
    ensures
        text::non_empty(text::trimmed_all(tags)) == tags,
    decreases tags.len(),
{
    if tags.len() == 0 {
        assert(text::trimmed_all(tags) =~= tags);
    } else {
        let before = tags.drop_last();
        assert forall|i: int| 0 <= i < before.len() implies is_tag(#[trigger] before[i]) by {
            assert(before[i] == tags[i]);
        }
        lemma_tags_stay(before);
        let last = tags.last();
        assert(is_tag(tags[tags.len() - 1]));
        text::lemma_trim_fixed(last, CharClass::WhiteSpace);
        assert(text::trimmed_all(tags).drop_last() =~= text::trimmed_all(before));
        assert(text::trimmed_all(tags).last() == last);
        assert(before.push(last) =~= tags);
    }
}

/// Tags that stand between brackets, with commas between them, behind the name of a rule are all
/// the tags of its match, in their order.
pub proof fn bracketed_tags_are_read(
    name: Seq<char>,
    tags: Seq<Seq<char>>,
    rest: Seq<char>,
    namespace: Seq<char>,
)
    requires
        name.len() > 0,
        forall|i: int| 0 <= i < name.len() ==> !text::is_white_space(#[trigger] name[i]),
        tags.len() > 0,
        forall|i: int| 0 <= i < tags.len() ==> is_tag(#[trigger] tags[i]),
        text::words(rest).len() > 0,
    ensures
        ({
            let list = seq!['['] + text::joined(tags, seq![',']) + seq![']'];
            let line = name.push(' ') + (list.push(' ') + rest);
            rule_line(line, namespace) matches Some(matched) && matched.tags == tags
                && matched.rule_name == name
        }),
{
    let inner = text::joined(tags, seq![',']);
    let list = seq!['['] + inner + seq![']'];
    lemma_joined_tags(tags);
    lemma_tags_stay(tags);
    assert forall|i: int| 0 <= i < list.len() implies !text::is_white_space(#[trigger] list[i]) by {
        if 0 < i < list.len() - 1 {
            assert(list[i] == inner[i - 1]);
        }
    }
    text::word_stays_whole(name);
    text::word_stays_whole(list);
    text::words_part_at_white_space(list, ' ', rest);
    text::words_part_at_white_space(name, ' ', list.push(' ') + rest);
    let parts = text::words(name.push(' ') + (list.push(' ') + rest));
    assert(parts =~= seq![name] + (seq![list] + text::words(rest)));
    assert(parts[1] == list);
    assert(list[0] == '[' && list.last() == ']');
    text::trimming_leaves_the_core(seq!['['], inner, seq![']'], CharClass::Bracket);
}

/// A rule has no tags where the second word of its line is not between brackets, or is the last.
pub proof fn other_words_are_no_tags(line: Seq<char>, namespace: Seq<char>)
    requires
        text::words(line).len() >= 2,
        text::words(line).len() == 2 || text::words(line)[1][0] != '[' || text::words(
            line,
        )[1].last() != ']',
    ensures
        rule_line(line, namespace) matches Some(matched) && matched.tags.len() == 0
            && matched.rule_name == text::words(line)[0],
{
}

/// A line `0xOFFSET:NAME:DATA` reads as a string with this offset, this name and this data, each
/// without the white space around it; it reads as nothing where the offset is no hexadecimal
/// number, or a colon is missing.
pub proof fn string_line_is_read_by_column(
    offset: Seq<char>,
    name: Seq<char>,
    data: Seq<char>,
)
    requires
        !offset.contains(':'),
        !name.contains(':'),
    ensures
        match_string(seq!['0', 'x'] + (offset.push(':') + (name.push(':') + data))) == match (
        text::unsigned_value(offset, 16)) {
            Some(value) => Some(
                StringModel {
                    name: text::trimmed(name),
                    offset: value,
                    data: match_data(text::trimmed(data)),
                },
            ),
            None => None,
        },
        match_string(seq!['0', 'x'] + (offset.push(':') + name)) is None,
        match_string(seq!['0', 'x'] + offset) is None,
{
    let class = CharClass::Colon;
    let start = seq!['0', 'x'];
    assert forall|i: int| 0 <= i < offset.len() implies !class.has(#[trigger] offset[i]) by {
        assert(offset.contains(offset[i]));
    }
    assert forall|i: int| 0 <= i < name.len() implies !class.has(#[trigger] name[i]) by {
        assert(name.contains(name[i]));
    }
    let rest = name.push(':') + data;
    let body = offset.push(':') + rest;
    assert((start + body).skip(2) =~= body);
    assert((start + (offset.push(':') + name)).skip(2) =~= offset.push(':') + name);
    assert((start + offset).skip(2) =~= offset);
    assert(start.is_prefix_of(start + body));
    text::splitting_once_parts_at_first(offset, ':', rest, class);
    text::splitting_once_parts_at_first(name, ':', data, class);
    text::splitting_once_parts_at_first(offset, ':', name, class);
}

/// Data that is not between braces is kept byte for byte. Data between braces, however many of them,
/// is read as hexadecimal, the words of it one after another, and is kept byte for byte where it is
/// none.
pub proof fn data_is_read_or_kept(
    raw: Seq<char>,
    open: Seq<char>,
    inner: Seq<char>,
    close: Seq<char>,
)
    requires
        open.len() > 0 && open[0] == '{',
        close.len() > 0 && close.last() == '}',
        forall|i: int| 0 <= i < open.len() ==> #[trigger] open[i] == '{' || open[i] == '}',
        forall|i: int| 0 <= i < close.len() ==> #[trigger] close[i] == '{' || close[i] == '}',
        inner.len() > 0 ==> inner[0] != '{' && inner[0] != '}' && inner.last() != '{'
            && inner.last() != '}',
    ensures
        raw.len() == 0 || raw[0] != '{' || raw.last() != '}' ==> match_data(raw) == encode_utf8(
            raw,
        ),
        match_data(open + inner + close) == match hex::hex_decoded(
            text::concatenated(text::words(inner)),
        ) {
            Ok(bytes) => bytes,
            Err(_) => encode_utf8(open + inner + close),
        },
{
    let braced = open + inner + close;
    assert(braced[0] == '{' && braced.last() == '}');
    assert forall|i: int| 0 <= i < open.len() implies CharClass::Brace.has(#[trigger] open[i]) by {}
    assert forall|i: int| 0 <= i < close.len() implies CharClass::Brace.has(
        #[trigger] close[i],
    ) by {}
    text::trimming_leaves_the_core(open, inner, close, CharClass::Brace);
}

/// Texts are put one after another without anything between them.
pub proof fn concatenating_is_by_part(a: Seq<Seq<char>>, b: Seq<Seq<char>>, one: Seq<char>)
    ensures
        text::concatenated(a + b) == text::concatenated(a) + text::concatenated(b),
        text::concatenated(seq![one]) == one,
    decreases b.len(),
{
    reveal_with_fuel(text::concatenated, 2);
    assert(seq![one].drop_last() =~= Seq::<Seq<char>>::empty());
    assert(Seq::<char>::empty() + one =~= one);
    if b.len() == 0 {
        assert(a + b =~= a);
        assert(text::concatenated(a) + text::concatenated(b) =~= text::concatenated(a));
    } else {
        concatenating_is_by_part(a, b.drop_last(), one);
        assert((a + b).drop_last() =~= a + b.drop_last());
        assert((a + b).last() == b.last());
        assert(text::concatenated(a + b) =~= text::concatenated(a) + text::concatenated(b));
    }
}

proof fn lemma_trim_start_empty(s: Seq<char>, class: CharClass)
    requires
        text::trim_start(s, class).len() == 0,
    ensures
        forall|i: int| 0 <= i < s.len() ==> class.has(#[trigger] s[i]),
    decreases s.len(),
{
    if s.len() > 0 {
        let rest = s.drop_first();
        lemma_trim_start_empty(rest, class);
        assert forall|i: int| 0 <= i < s.len() implies class.has(#[trigger] s[i]) by {
            if i > 0 {
                assert(rest[i - 1] == s[i]);
            }
        }
    }
}

proof fn lemma_trim_end_empty(s: Seq<char>, class: CharClass)
    requires
        text::trim_end(s, class).len() == 0,
    ensures
        forall|i: int| 0 <= i < s.len() ==> class.has(#[trigger] s[i]),
    decreases s.len(),
{
    if s.len() > 0 {
        let rest = s.drop_last();
        lemma_trim_end_empty(rest, class);
        assert forall|i: int| 0 <= i < s.len() implies class.has(#[trigger] s[i]) by {
            if i < s.len() - 1 {
                assert(rest[i] == s[i]);
            }
        }
    }
}

proof fn lemma_blank(s: Seq<char>)
    requires
        text::trimmed(s).len() == 0,
    ensures
        forall|i: int| 0 <= i < s.len() ==> text::is_white_space(#[trigger] s[i]),
{
    let class = CharClass::WhiteSpace;
    let start = text::trim_start(s, class);
    lemma_trim_end_empty(start, class);
    if start.len() > 0 {
        lemma_trim_start_head(s, class);
        assert(class.has(start[0]));
    }
    lemma_trim_start_empty(s, class);
    assert forall|i: int| 0 <= i < s.len() implies text::is_white_space(#[trigger] s[i]) by {
        assert(class.has(s[i]));
    }
}

proof fn lemma_trim_start_head(s: Seq<char>, class: CharClass)
    ensures
        text::trim_start(s, class).len() > 0 ==> !class.has(text::trim_start(s, class)[0]),
    decreases s.len(),
{
    if s.len() > 0 && class.has(s[0]) {
        lemma_trim_start_head(s.drop_first(), class);
    }
}

/// A blank output reports nothing.
proof fn lemma_blank_output(output: Seq<char>)
    requires
        forall|i: int| 0 <= i < output.len() ==> text::is_white_space(#[trigger] output[i]),
    ensures
        output_lines(output) == Seq::<Seq<char>>::empty(),
    decreases output.len(),
{
    if output.contains('\n') {
        let i = choose|i: int| 0 <= i < output.len() && output[i] == '\n';
        let before = output.take(i);
        let after = output.skip(i + 1);
        assert(output =~= before.push('\n') + after);
        assert forall|j: int| 0 <= j < before.len() implies text::is_white_space(
            #[trigger] before[j],
        ) by {
            assert(before[j] == output[j]);
        }
        assert forall|j: int| 0 <= j < after.len() implies text::is_white_space(
            #[trigger] after[j],
        ) by {
            assert(after[j] == output[i + 1 + j]);
        }
        lemma_blank_output(before);
        lemma_blank_output(after);
        lemma_output_lines_concat(before, after);
        assert(Seq::<Seq<char>>::empty() + Seq::<Seq<char>>::empty() =~= Seq::<
            Seq<char>,
        >::empty());
    } else {
        let none = Seq::<char>::empty();
        assert forall|j: int| 0 <= j < output.len() implies CharClass::WhiteSpace.has(
            #[trigger] output[j],
        ) by {}
        text::trimming_leaves_the_core(output, none, none, CharClass::WhiteSpace);
        assert(output + none + none =~= output);
        lemma_output_line(output);
    }
}

/// A run of `yara` that finished is in error exactly where it failed, printed nothing but white
/// space and complained; every other run reports just what it printed, whether it failed or not.
pub proof fn finished_run_reports_what_it_printed(
    namespace: Seq<char>,
    success: bool,
    stdout: Seq<char>,
    stderr: Seq<char>,
)
    ensures
        finished_outcome(namespace, success, stdout, stderr) is Err <==> !success && text::trimmed(
            stdout,
        ).len() == 0 && text::trimmed(stderr).len() > 0,
        finished_outcome(namespace, success, stdout, stderr) matches Ok(matches) ==> matches
            == output_matches(stdout, namespace),
        finished_outcome(namespace, success, stdout, stderr) matches Err(message) ==> message
            == "yara error: "@ + text::trimmed(stderr),
{
    if text::trimmed(stdout).len() == 0 {
        lemma_blank(stdout);
        lemma_blank_output(stdout);
    }
}

/// A run with a rule file that ends well reports the matches that its output holds, under the
/// namespace of that rule file; a run that did not start is in error; and one run alone is judged
/// as it is among others.
pub proof fn run_reports_under_its_rule_file(path: Seq<char>, file: RuleName, run: YaraRun)
    ensures
        runs_outcome(path, seq![file], seq![run]) == run_outcome(path, file, run),
        run is NotStarted ==> run_outcome(path, file, run) is Err,
        run_outcome(path, file, run) matches Ok(matches) ==> {
            &&& run matches YaraRun::Finished { stdout, .. } && matches == output_matches(
                text::utf8_lossy(stdout@),
                rule_namespace(paths::parts(file.path@)),
            )
            &&& forall|i: int|
                0 <= i < matches.len() ==> (#[trigger] matches[i]).namespace == rule_namespace(
                    paths::parts(file.path@),
                )
        },
{
    let files = seq![file];
    let runs = seq![run];
    assert(files.skip(1) =~= Seq::<RuleName>::empty());
    assert(runs.skip(1) =~= Seq::<YaraRun>::empty());
    reveal_with_fuel(runs_outcome, 2);
    if let YaraRun::Finished { success, stdout, stderr } = run {
        let namespace = rule_namespace(paths::parts(file.path@));
        let printed = text::utf8_lossy(stdout@);
        finished_run_reports_what_it_printed(
            namespace,
            success,
            printed,
            text::utf8_lossy(stderr@),
        );
        matches_keep_namespace(output_lines(printed), namespace);
    }
    if let Ok(matches) = run_outcome(path, file, run) {
        assert(matches + Seq::<MatchModel>::empty() =~= matches);
    }
}

/// The namespace of a rule file is its name up to the last dot, where something stands before that
/// dot, and else its whole name; where that is no text, or there is no name, it is `default`.
pub proof fn namespace_is_the_stem(
    directory: Seq<paths::PartModel>,
    stem: Seq<u8>,
    ending: Seq<u8>,
)
    requires
        !ending.contains(0x2e),
    ensures
        ({
            let dotted = directory.push(paths::PartModel::Normal(stem + seq![0x2eu8] + ending));
            let plain = directory.push(paths::PartModel::Normal(ending));
            let hidden = directory.push(paths::PartModel::Normal(seq![0x2eu8] + ending));
            &&& stem.len() > 0 && valid_utf8(stem) ==> rule_namespace(dotted) == decode_utf8(stem)
            &&& stem.len() > 0 && !valid_utf8(stem) ==> rule_namespace(dotted) == "default"@
            &&& valid_utf8(ending) ==> rule_namespace(plain) == decode_utf8(ending)
            &&& valid_utf8(seq![0x2eu8] + ending) ==> rule_namespace(hidden) == decode_utf8(
                seq![0x2eu8] + ending,
            )
            &&& rule_namespace(directory.push(paths::PartModel::ParentDir)) == "default"@
        }),
{
    let name = stem + seq![0x2eu8] + ending;
    let hidden = seq![0x2eu8] + ending;
    paths::last_name_is_file_name(directory, paths::PartModel::Normal(name));
    paths::last_name_is_file_name(directory, paths::PartModel::Normal(ending));
    paths::last_name_is_file_name(directory, paths::PartModel::Normal(hidden));
    paths::last_name_is_file_name(directory, paths::PartModel::ParentDir);
    paths::lemma_last_dot_before(stem, ending);
    paths::lemma_last_dot_before(Seq::empty(), ending);
    assert(Seq::<u8>::empty() + seq![0x2eu8] + ending =~= hidden);
    assert(name.take(stem.len() as int) =~= stem);
}

/// The fault that is reported is that of the first rule file that has one, and there is none
/// exactly where no rule file has one.
pub proof fn first_fault_is_reported(files: Seq<String>, runs: Seq<YaraRun>, n: int)
    requires
        0 <= n < runs.len() <= files.len(),
        forall|i: int| 0 <= i < n ==> check_run_fault((#[trigger] files[i])@, runs[i]) is None,
    ensures
        check_run_fault(files[n]@, runs[n]) is Some ==> first_check_fault(files, runs)
            == check_run_fault(files[n]@, runs[n]),
        n == runs.len() - 1 && check_run_fault(files[n]@, runs[n]) is None ==> first_check_fault(
            files,
            runs,
        ) is None,
    decreases runs.len(),
{
    if n > 0 {
        let rest_files = files.skip(1);
        let rest = runs.skip(1);
        assert(check_run_fault(files[0]@, runs[0]) is None);
        assert forall|i: int| 0 <= i < n - 1 implies check_run_fault(
            (#[trigger] rest_files[i])@,
            rest[i],
        ) is None by {
            assert(rest_files[i] == files[i + 1]);
            assert(rest[i] == runs[i + 1]);
        }
        first_fault_is_reported(rest_files, rest, n - 1);
    } else {
        reveal_with_fuel(first_check_fault, 2);
        if runs.len() == 1 {
            assert(runs.skip(1) =~= Seq::<YaraRun>::empty());
        }
    }
}

/// A rule file has a fault exactly where `yara` failed on it and its complaint, wherever in it, says
/// nothing of a file that is missing.
pub proof fn fault_is_a_failure_of_its_own(
    file: Seq<char>,
    success: bool,
    before: Seq<char>,
    after: Seq<char>,
    stderr: Seq<char>,
)
    ensures
        check_fault(file, success, before + "could not open file"@ + after) is None,
        check_fault(file, success, before + "No such file"@ + after) is None,
        check_fault(file, true, stderr) is None,
        !text::occurs_in("could not open file"@, stderr) && !text::occurs_in("No such file"@, stderr)
            ==> check_fault(file, false, stderr) == Some(
            "YARA rule error in "@ + file + ": "@ + text::trimmed(stderr),
        ),
{
    text::part_occurs(before, "could not open file"@, after);
    text::part_occurs(before, "No such file"@, after);
}

/// The rule files of a directory are all files in it with the name of a rule file, and nothing
/// else, each once and in their order.
pub proof fn all_rule_files_are_collected(entries: Seq<RulesEntry>)
    requires
        entries.len() <= usize::MAX,
    ensures
        forall|i: usize|
            #[trigger] rule_positions(entries).contains(i) <==> i < entries.len()
                && entries[i as int].is_file && paths::is_rule_path(
                paths::parts(entries[i as int].path@),
            ),
        forall|a: int, b: int|
            0 <= a < b < rule_positions(entries).len() ==> #[trigger] rule_positions(entries)[a]
                < #[trigger] rule_positions(entries)[b],
    decreases entries.len(),
{
    if entries.len() > 0 {
        let shorter = entries.drop_last();
        let n = (entries.len() - 1) as usize;
        all_rule_files_are_collected(shorter);
        let before = rule_positions(shorter);
        let all = rule_positions(entries);
        let taken = entries.last().is_file && paths::is_rule_path(
            paths::parts(entries.last().path@),
        );
        assert forall|i: usize| #[trigger] all.contains(i) <==> i < entries.len()
            && entries[i as int].is_file && paths::is_rule_path(
            paths::parts(entries[i as int].path@),
        ) by {
            assert(before.contains(i) <==> i < shorter.len() && shorter[i as int].is_file
                && paths::is_rule_path(paths::parts(shorter[i as int].path@)));
            if i < n {
                assert(shorter[i as int] == entries[i as int]);
            }
            if taken {
                assert(all =~= before.push(n));
                assert(all[before.len() as int] == n);
                if before.contains(i) {
                    let k = before.index_of(i);
                    assert(all[k] == i);
                }
                if all.contains(i) && i != n {
                    let k = all.index_of(i);
                    assert(before[k] == i);
                }
            }
        }
        assert forall|a: int, b: int| 0 <= a < b < all.len() implies #[trigger] all[a]
            < #[trigger] all[b] by {
            assert(before.contains(before[a]));
            if b < before.len() {
                assert(before[a] < before[b]);
            }
        }
    }
}

/// The name of a program is its base name, with `.exe` behind it on Windows alone.
pub proof fn programs_end_in_exe_on_windows(base: Seq<char>, platform: Platform)
    ensures
        program_name(Platform::Windows, base) == base + ".exe"@,
        platform != Platform::Windows ==> program_name(platform, base) == base,
{
}

/// What is said of a match is said of all its fields, its tags and its strings one by one.
pub proof fn match_is_seen_whole(matched: YaraMatch, i: int)
    ensures
        matched@.rule_name == matched.rule_name@,
        matched@.namespace == matched.namespace@,
        matched@.tags.len() == matched.tags@.len(),
        0 <= i < matched.tags@.len() ==> matched@.tags[i] == matched.tags@[i]@,
        matched@.strings.len() == matched.strings@.len(),
        0 <= i < matched.strings@.len() ==> {
            &&& matched@.strings[i].name == matched.strings@[i].name@
            &&& matched@.strings[i].offset == matched.strings@[i].offset
            &&& matched@.strings[i].data == matched.strings@[i].data@
        },
        models(seq![matched]).len() == 1 && models(seq![matched])[0] == matched@,
{
}

/// The matches of a row are seen one by one, each of them.
pub proof fn matches_are_seen_one_by_one(a: Seq<YaraMatch>, b: Seq<YaraMatch>)
    ensures
        models(a + b) == models(a) + models(b),
        models(a).len() == a.len(),
{
    assert(models(a + b) =~= models(a) + models(b));
}

proof fn lemma_bracketed(inner: Seq<char>)
    requires
        forall|i: int| 0 <= i < inner.len() ==> #[trigger] inner[i] != '[' && inner[i] != ']',
    ensures
        text::trim_class(seq!['['] + inner + seq![']'], CharClass::Bracket) == inner,
{
    if inner.len() > 0 {
        assert(inner[0] != '[' && inner[inner.len() - 1] != '[');
    }
    text::trimming_leaves_the_core(seq!['['], inner, seq![']'], CharClass::Bracket);
}

/// A comma in a list of tags parts the tags before it from those after it, also where nothing
/// stands on one of its sides.
pub proof fn tag_lists_part_at_commas(
    name: Seq<char>,
    before: Seq<char>,
    after: Seq<char>,
    file: Seq<char>,
)
    requires
        forall|i: int| 0 <= i < before.len() ==> #[trigger] before[i] != '[' && before[i] != ']',
        forall|i: int| 0 <= i < after.len() ==> #[trigger] after[i] != '[' && after[i] != ']',
    ensures
        rule_tags(seq![name, seq!['['] + (before.push(',') + after) + seq![']'], file]) == rule_tags(
            seq![name, seq!['['] + before + seq![']'], file],
        ) + rule_tags(seq![name, seq!['['] + after + seq![']'], file]),
        rule_tags(seq![name, seq!['[', ']'], file]).len() == 0,
{
    let whole = before.push(',') + after;
    assert forall|i: int| 0 <= i < whole.len() implies #[trigger] whole[i] != '[' && whole[i]
        != ']' by {
        if i < before.len() {
            assert(whole[i] == before[i]);
        } else if i > before.len() {
            assert(whole[i] == after[i - before.len() - 1]);
        }
    }
    lemma_bracketed(whole);
    lemma_bracketed(before);
    lemma_bracketed(after);
    let class = CharClass::Comma;
    text::splitting_parts_at_separators(before, ',', after, class);
    let a = text::split(before, class);
    let b = text::split(after, class);
    assert(text::trimmed_all(a + b) =~= text::trimmed_all(a) + text::trimmed_all(b));
    text::lemma_non_empty_concat(text::trimmed_all(a), text::trimmed_all(b));
    let none = Seq::<char>::empty();
    lemma_bracketed(none);
    assert(seq!['['] + none + seq![']'] =~= seq!['[', ']']);
    assert(text::split(none, class) =~= seq![none]);
    assert(text::trimmed_all(seq![none]) =~= seq![none]);
    assert(seq![none].drop_last() =~= Seq::<Seq<char>>::empty());
    reveal_with_fuel(text::non_empty, 2);
}

/// The message about a missing program names every place that was looked at.
pub proof fn every_place_is_named(candidates: Seq<BinaryCandidate>, i: int)
    requires
        0 <= i < candidates.len(),
    ensures
        text::occurs_in(candidates[i].path@, binary_not_found(candidates)),
{
    let head = "yara binary not found. Checked PATH and common install locations: "@;
    let places = candidate_paths(candidates);
    let place = places[i];
    let before = places.take(i);
    let one = seq![place];
    let after = places.skip(i + 1);
    let comma = ", "@;
    let list = text::joined(places, comma);
    assert(places =~= before + one + after);
    text::joining_puts_separators_between(one, one, comma);
    if before.len() > 0 {
        text::joining_puts_separators_between(before, one, comma);
    } else {
        assert(before + one =~= one);
    }
    if after.len() > 0 {
        text::joining_puts_separators_between(before + one, after, comma);
    } else {
        assert(before + one + after =~= before + one);
    }
    let left = if before.len() > 0 {
        text::joined(before, comma) + comma
    } else {
        Seq::empty()
    };
    let right = if after.len() > 0 {
        comma + text::joined(after, comma)
    } else {
        Seq::empty()
    };
    assert(list =~= left + place + right);
    text::part_occurs(head + left, place, right);
    assert(head + list =~= head + left + place + right);
}

/// A run that did not start is an error that names the rule file, and the scanned file where there
/// is one; a check that finished is judged by its success and its complaint.
pub proof fn runs_that_did_not_start_are_named(path: Seq<char>, file: RuleName, run: YaraRun)
    ensures
        run_outcome(path, file, YaraRun::NotStarted) == Err::<Seq<MatchModel>, Seq<char>>(
            "failed to invoke yara for rule "@ + file.shown@ + " against "@ + path,
        ),
        check_run_fault(path, YaraRun::NotStarted) == Some("failed to invoke yara for "@ + path),
        run matches YaraRun::Finished { success, stderr, .. } ==> check_run_fault(path, run)
            == check_fault(path, success, text::utf8_lossy(stderr@)),
{
}

/// Each file is run or checked in turn: as long as nothing failed there is a next one until all of
/// them are through, and after a failure there is none.
pub proof fn all_rule_files_get_their_turn(
    path: Seq<char>,
    files: Seq<RuleName>,
    names: Seq<String>,
    runs: Seq<YaraRun>,
)
    ensures
        runs_outcome(path, files, runs) is Ok ==> (needs_run(path, files, runs) <==> runs.len()
            < files.len()),
        runs_outcome(path, files, runs) is Err ==> !needs_run(path, files, runs),
        first_check_fault(names, runs) is None ==> (needs_check(names, runs) <==> runs.len()
            < names.len()),
        first_check_fault(names, runs) is Some ==> !needs_check(names, runs),
        names.len() > 0 ==> needs_check(names, Seq::empty()),
        files.len() > 0 ==> needs_run(path, files, Seq::empty()),
{
}

} // verus!
