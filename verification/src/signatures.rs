//! The signature database: known-bad hashes and the threats they belong to.

use crate::text;
use crate::text::{
    from_chars, push_decimal, split_once_chars, to_chars, to_lower, to_upper, trim, trim_chars,
    utf8_text, CharClass,
};
use vstd::hash_map::StringHashMap;
use vstd::prelude::*;
use vstd::slice::slice_subrange;
use vstd::utf8::*;

verus! {

/// A hash algorithm that signatures are made with.
#[derive(Clone, Copy, Debug, PartialEq, Eq, Structural)]
pub enum HashAlgorithm {
    Md5,
    Sha1,
    Sha256,
}

impl HashAlgorithm {
    /// The name of the algorithm in the database.
    pub open spec fn name(self) -> Seq<char> {
        match self {
            HashAlgorithm::Md5 => "MD5"@,
            HashAlgorithm::Sha1 => "SHA1"@,
            HashAlgorithm::Sha256 => "SHA256"@,
        }
    }

    /// How many hexadecimal characters a hash of the algorithm has.
    pub open spec fn hex_len(self) -> nat {
        match self {
            HashAlgorithm::Md5 => 32,
            HashAlgorithm::Sha1 => 40,
            HashAlgorithm::Sha256 => 64,
        }
    }

    /// The algorithm of a name.
    pub open spec fn named(name: Seq<char>) -> Option<HashAlgorithm> {
        if name == "MD5"@ {
            Some(HashAlgorithm::Md5)
        } else if name == "SHA1"@ {
            Some(HashAlgorithm::Sha1)
        } else if name == "SHA256"@ {
            Some(HashAlgorithm::Sha256)
        } else {
            None
        }
    }

    /// All algorithms.
    pub fn variants() -> (all: [HashAlgorithm; 3])
        ensures
            all@ == seq![HashAlgorithm::Md5, HashAlgorithm::Sha1, HashAlgorithm::Sha256],
    {
        let all = [HashAlgorithm::Md5, HashAlgorithm::Sha1, HashAlgorithm::Sha256];
        assert(all@ =~= seq![HashAlgorithm::Md5, HashAlgorithm::Sha1, HashAlgorithm::Sha256]);
        all
    }

    /// The name of the algorithm in the database.
    pub fn as_str(self) -> (name: &'static str)
        ensures
            name@ == self.name(),
    {
        match self {
            HashAlgorithm::Md5 => "MD5",
            HashAlgorithm::Sha1 => "SHA1",
            HashAlgorithm::Sha256 => "SHA256",
        }
    }

    /// How many hexadecimal characters a hash of the algorithm has.
    pub fn expected_hex_len(self) -> (len: usize)
        ensures
            len == self.hex_len(),
    {
        match self {
            HashAlgorithm::Md5 => 32,
            HashAlgorithm::Sha1 => 40,
            HashAlgorithm::Sha256 => 64,
        }
    }

    /// The name of the algorithm, as it is shown.
    pub fn to_string(&self) -> (name: String)
        ensures
            name@ == self.name(),
    {
        self.as_str().to_owned()
    }

    /// Reads the name of an algorithm, in any case and with white space around it.
    pub fn try_from(value: &str) -> (algorithm: Result<HashAlgorithm, String>)
        ensures
            match algorithm {
                Ok(found) => HashAlgorithm::named(text::upper(text::trimmed(value@))) == Some(
                    found,
                ),
                Err(message) => {
                    &&& HashAlgorithm::named(text::upper(text::trimmed(value@))) is None
                    &&& message@ == "unsupported hash type: "@ + text::upper(text::trimmed(value@))
                },
            },
    {
        let name = from_chars(&to_upper(&trim(value)));
        if name == "MD5".to_owned() {
            Ok(HashAlgorithm::Md5)
        } else if name == "SHA1".to_owned() {
            Ok(HashAlgorithm::Sha1)
        } else if name == "SHA256".to_owned() {
            Ok(HashAlgorithm::Sha256)
        } else {
            Err("unsupported hash type: ".to_owned().concat(&name))
        }
    }
}

/// A known-bad hash.
#[derive(Clone, Debug)]
pub struct Signature {
    pub hash: String,
    pub threat_name: String,
}

/// The known-bad hashes by their text in lower case.
pub struct SignatureDb {
    entries: StringHashMap<Signature>,
}

impl View for SignatureDb {
    type V = Map<Seq<char>, Seq<char>>;

    /// The threat name of each hash.
    closed spec fn view(&self) -> Map<Seq<char>, Seq<char>> {
        self.entries@.map_values(|s: Signature| s.threat_name@)
    }
}

/// The hash and the threat name of a line `TYPE|HASH|NAME`; none for an empty line, a comment or
/// a line with fewer columns.
pub open spec fn line_signature(line: Seq<char>) -> Option<(Seq<char>, Seq<char>)> {
    let content = text::trimmed(line);
    if content.len() == 0 || content[0] == '#' {
        None
    } else {
        match text::split_once(content, CharClass::Pipe) {
            None => None,
            Some((_, rest)) => match text::split_once(rest, CharClass::Pipe) {
                None => None,
                Some((hash, name)) => Some((text::lower(text::trimmed(hash)), text::trimmed(name))),
            },
        }
    }
}

/// The pieces of a file between its line feeds; one more than there are line feeds.
pub open spec fn byte_lines(content: Seq<u8>) -> Seq<Seq<u8>>
    decreases content.len(),
{
    if content.len() == 0 {
        seq![Seq::<u8>::empty()]
    } else {
        let before = byte_lines(content.drop_last());
        if content.last() == 0x0a {
            before.push(Seq::<u8>::empty())
        } else {
            before.update(before.len() - 1, before.last().push(content.last()))
        }
    }
}

/// The signatures of a row of lines, or the number of the first line that is no UTF-8. Of two
/// lines with the same hash the later one counts.
pub open spec fn lines_signatures(lines: Seq<Seq<u8>>) -> Result<Map<Seq<char>, Seq<char>>, nat>
    decreases lines.len(),
{
    if lines.len() == 0 {
        Ok(Map::empty())
    } else {
        match lines_signatures(lines.drop_last()) {
            Err(number) => Err(number),
            Ok(before) => if !valid_utf8(lines.last()) {
                Err(lines.len())
            } else {
                match line_signature(decode_utf8(lines.last())) {
                    Some((hash, name)) => Ok(before.insert(hash, name)),
                    None => Ok(before),
                }
            },
        }
    }
}

/// The signatures of a database file, or the number of the line that could not be read. Where
/// reading stopped short, the line that it stopped in could not be read.
pub open spec fn file_signatures(content: Seq<u8>, complete: bool) -> Result<
    Map<Seq<char>, Seq<char>>,
    nat,
> {
    let lines = byte_lines(content);
    if complete {
        lines_signatures(lines)
    } else {
        match lines_signatures(lines.drop_last()) {
            Err(number) => Err(number),
            Ok(_) => Err(lines.len()),
        }
    }
}

/// The message about a line of a database that could not be read.
pub open spec fn unreadable_line(path: Seq<char>, number: nat) -> Seq<char> {
    "failed to read signature database line "@ + text::decimal(number) + " from "@ + path
}

fn unreadable_line_message(path: &str, number: u128) -> (message: String)
    ensures
        message@ == unreadable_line(path@, number as nat),
{
    let mut message = "failed to read signature database line ".to_owned();
    push_decimal(&mut message, number);
    message.append(" from ");
    message.append(path);
    message
}

/// Reads a line of the database.
fn parse_line(line: &str) -> (signature: Option<Signature>)
    ensures
        match signature {
            Some(s) => line_signature(line@) == Some((s.hash@, s.threat_name@)),
            None => line_signature(line@) is None,
        },
{
    let content = trim(line);
    if content.len() == 0 || content[0] == '#' {
        return None;
    }
    match split_once_chars(&content, CharClass::Pipe) {
        None => None,
        Some((_, rest)) => match split_once_chars(rest, CharClass::Pipe) {
            None => None,
            Some((hash, name)) => Some(
                Signature {
                    hash: from_chars(&to_lower(trim_chars(hash, CharClass::WhiteSpace))),
                    threat_name: from_chars(trim_chars(name, CharClass::WhiteSpace)),
                },
            ),
        },
    }
}

impl SignatureDb {
    /// Every signature is kept under its own hash.
    #[verifier::type_invariant]
    closed spec fn keyed_by_hash(self) -> bool {
        forall|key: Seq<char>| #[trigger]
            self.entries@.contains_key(key) ==> self.entries@[key].hash@ == key
    }

    /// A database without signatures.
    pub fn new() -> (db: SignatureDb)
        ensures
            db@ == Map::<Seq<char>, Seq<char>>::empty(),
    {
        let db = SignatureDb { entries: StringHashMap::new() };
        assert(db@ =~= Map::<Seq<char>, Seq<char>>::empty());
        db
    }

    /// Takes in one line of a database file, and says whether it is UTF-8.
    fn add_line(self, line: &[u8]) -> (grown: Option<SignatureDb>)
        ensures
            match grown {
                Some(db) => {
                    &&& valid_utf8(line@)
                    &&& db@ == match line_signature(decode_utf8(line@)) {
                        Some((hash, name)) => self@.insert(hash, name),
                        None => self@,
                    }
                },
                None => !valid_utf8(line@),
            },
    {
        proof {
            use_type_invariant(&self);
        }
        match utf8_text(line) {
            None => None,
            Some(content) => {
                proof {
                    encode_utf8_decode_utf8(content@);
                }
                let mut entries = self.entries;
                if let Some(signature) = parse_line(content) {
                    entries.insert(signature.hash.clone(), signature);
                }
                let db = SignatureDb { entries };
                proof {
                    match line_signature(decode_utf8(line@)) {
                        Some((hash, name)) => {
                            assert(db@ =~= self@.insert(hash, name));
                        },
                        None => {},
                    }
                }
                Some(db)
            },
        }
    }

    /// Reads a database file. `content` is what was read of the file, `complete` whether that is
    /// all of it.
    pub fn load(path: &str, content: &[u8], complete: bool) -> (db: Result<SignatureDb, String>)
        ensures
            match (db, file_signatures(content@, complete)) {
                (Ok(loaded), Ok(signatures)) => loaded@ == signatures,
                (Err(message), Err(number)) => message@ == unreadable_line(path@, number),
                _ => false,
            },
    {
        let mut db = SignatureDb::new();
        let ghost mut lines: Seq<Seq<u8>> = Seq::empty();
        let mut number: u128 = 1;
        let mut start: usize = 0;
        let total: usize = content.len();
        assert(content@.take(0) =~= Seq::<u8>::empty());
        assert(lines.push(content@.subrange(0, 0)) =~= byte_lines(content@.take(0)));
        let mut i: usize = 0;
        while i < total
            invariant
                total == content@.len(),
                0 <= start <= i <= total,
                number <= i + 1,
                number == lines.len() + 1,
                byte_lines(content@.take(i as int)) == lines.push(
                    content@.subrange(start as int, i as int),
                ),
                lines_signatures(lines) == Ok::<Map<Seq<char>, Seq<char>>, nat>(db@),
            decreases total - i,
        {
            assert(content@.take(i + 1).drop_last() =~= content@.take(i as int));
            let ghost before = byte_lines(content@.take(i as int));
            if content[i] == 0x0a {
                let line = slice_subrange(content, start, i);
                proof {
                    assert(lines.push(line@).drop_last() =~= lines);
                }
                match db.add_line(line) {
                    None => {
                        proof {
                            assert(content@.take(i + 1).last() == 0x0a);
                            let ended = lines.push(line@);
                            let all = byte_lines(content@);
                            lemma_lines_prefix(content@, i + 1, ended);
                            assert(all.drop_last().take(ended.len() as int) =~= ended);
                            lemma_error_stays(all, ended.len());
                            lemma_error_stays(all.drop_last(), ended.len());
                        }
                        return Err(unreadable_line_message(path, number));
                    },
                    Some(grown) => {
                        db = grown;
                        proof {
                            lines = lines.push(line@);
                            assert(content@.subrange(i + 1, i + 1) =~= Seq::<u8>::empty());
                        }
                        start = i + 1;
                        number += 1;
                    },
                }
            } else {
                assert(content@.subrange(start as int, i + 1) =~= content@.subrange(
                    start as int,
                    i as int,
                ).push(content@[i as int]));
                assert(byte_lines(content@.take(i + 1)) =~= lines.push(
                    content@.subrange(start as int, i + 1),
                ));
            }
            i += 1;
        }
        assert(content@.take(total as int) =~= content@);
        let line = slice_subrange(content, start, total);
        assert(lines.push(line@).drop_last() =~= lines);
        if !complete {
            return Err(unreadable_line_message(path, number));
        }
        match db.add_line(line) {
            None => Err(unreadable_line_message(path, number)),
            Some(grown) => Ok(grown),
        }
    }

    /// The signature of a hash, in any case.
    pub fn lookup(&self, hash: &str) -> (signature: Option<&Signature>)
        ensures
            match signature {
                Some(found) => {
                    &&& self@.contains_key(text::lower(hash@))
                    &&& found.hash@ == text::lower(hash@)
                    &&& found.threat_name@ == self@[text::lower(hash@)]
                },
                None => !self@.contains_key(text::lower(hash@)),
            },
    {
        proof {
            use_type_invariant(self);
        }
        let key = from_chars(&to_lower(&to_chars(hash)));
        self.entries.get(&key)
    }

    /// How many signatures there are.
    pub fn count(&self) -> (n: usize)
        ensures
            n == self@.len(),
    {
        assert(self@.dom() =~= self.entries@.dom());
        self.entries.len()
    }
}

impl Default for SignatureDb {
    fn default() -> (db: SignatureDb)
        ensures
            db@ == Map::<Seq<char>, Seq<char>>::empty(),
    {
        SignatureDb::new()
    }
}

proof fn lemma_byte_lines_len(content: Seq<u8>)
    ensures
        byte_lines(content).len() >= 1,
    decreases content.len(),
{
    if content.len() > 0 {
        lemma_byte_lines_len(content.drop_last());
    }
}

/// The lines that a line feed has ended are lines of the whole.
proof fn lemma_lines_prefix(content: Seq<u8>, i: int, ended: Seq<Seq<u8>>)
    requires
        0 <= i <= content.len(),
        byte_lines(content.take(i)) == ended.push(Seq::empty()),
    ensures
        byte_lines(content).len() > ended.len(),
        byte_lines(content).take(ended.len() as int) == ended,
    decreases content.len(),
{
    if i == content.len() {
        assert(content.take(i) =~= content);
        assert(ended.push(Seq::<u8>::empty()).take(ended.len() as int) =~= ended);
    } else {
        assert(content.drop_last().take(i) =~= content.take(i));
        lemma_lines_prefix(content.drop_last(), i, ended);
        let before = byte_lines(content.drop_last());
        assert(byte_lines(content).take(ended.len() as int) =~= before.take(ended.len() as int));
    }
}

/// A line that could not be read spoils every longer row of lines.
proof fn lemma_error_stays(lines: Seq<Seq<u8>>, n: nat)
    requires
        n <= lines.len(),
        lines_signatures(lines.take(n as int)) is Err,
    ensures
        lines_signatures(lines) == lines_signatures(lines.take(n as int)),
    decreases lines.len(),
{
    if n == lines.len() {
        assert(lines.take(n as int) =~= lines);
    } else {
        assert(lines.drop_last().take(n as int) =~= lines.take(n as int));
        lemma_error_stays(lines.drop_last(), n);
    }
}

/// Why a signature is not taken into the database.
#[derive(Clone, Copy, Debug, PartialEq, Eq, Structural)]
pub enum SignatureError {
    /// The threat name is empty or blank.
    MissingThreatName,
    /// The hash does not have the length that the algorithm gives.
    WrongLength(HashAlgorithm),
    /// The hash has a character that is no hexadecimal digit.
    NotHexadecimal,
}

impl SignatureError {
    /// What is shown of the error.
    pub open spec fn text(self) -> Seq<char> {
        match self {
            SignatureError::MissingThreatName => "threat name is required"@,
            SignatureError::WrongLength(algorithm) => algorithm.name() + " hashes must be "@
                + text::decimal(algorithm.hex_len()) + " hexadecimal characters"@,
            SignatureError::NotHexadecimal => "hash must contain only hexadecimal characters"@,
        }
    }

    /// What is shown of the error.
    pub fn message(self) -> (message: String)
        ensures
            message@ == self.text(),
    {
        match self {
            SignatureError::MissingThreatName => "threat name is required".to_owned(),
            SignatureError::WrongLength(algorithm) => {
                let mut message = algorithm.to_string();
                message.append(" hashes must be ");
                push_decimal(&mut message, algorithm.expected_hex_len() as u128);
                message.append(" hexadecimal characters");
                message
            },
            SignatureError::NotHexadecimal => {
                "hash must contain only hexadecimal characters".to_owned()
            },
        }
    }
}

/// Whether the character is a hexadecimal digit.
pub open spec fn is_hex_char(c: char) -> bool {
    '0' <= c <= '9' || 'a' <= c <= 'f' || 'A' <= c <= 'F'
}

/// Whether every character is a hexadecimal digit.
pub open spec fn is_hex_text(s: Seq<char>) -> bool {
    forall|i: int| 0 <= i < s.len() ==> is_hex_char(#[trigger] s[i])
}

/// A hash as the database keeps it.
pub open spec fn normalized_hash(hash: Seq<char>) -> Seq<char> {
    text::lower(text::trimmed(hash))
}

/// What is wrong with a signature, the first of these: its name, the length of its hash in bytes,
/// the characters of its hash.
pub open spec fn signature_fault(
    algorithm: HashAlgorithm,
    hash: Seq<char>,
    threat_name: Seq<char>,
) -> Option<SignatureError> {
    if text::trimmed(threat_name).len() == 0 {
        Some(SignatureError::MissingThreatName)
    } else if encode_utf8(normalized_hash(hash)).len() != algorithm.hex_len() {
        Some(SignatureError::WrongLength(algorithm))
    } else if !is_hex_text(normalized_hash(hash)) {
        Some(SignatureError::NotHexadecimal)
    } else {
        None
    }
}

/// The line of a signature in the database.
pub open spec fn signature_line(
    algorithm: HashAlgorithm,
    hash: Seq<char>,
    threat_name: Seq<char>,
) -> Seq<char> {
    algorithm.name() + seq!['|'] + normalized_hash(hash) + seq!['|'] + text::trimmed(threat_name)
}

fn all_hex(s: &[char]) -> (held: bool)
    ensures
        held == is_hex_text(s@),
{
    for i in 0..s.len()
        invariant
            forall|j: int| 0 <= j < i ==> is_hex_char(#[trigger] s@[j]),
    {
        let c = s[i];
        if !(('0' <= c && c <= '9') || ('a' <= c && c <= 'f') || ('A' <= c && c <= 'F')) {
            assert(!is_hex_char(s@[i as int]));
            return false;
        }
    }
    true
}

/// The record, with its line feed, that adds a signature to the database when it is appended to
/// the file.
pub fn add_signature(
    hash_type: HashAlgorithm,
    hash_value: &str,
    threat_name: &str,
) -> (record: Result<String, SignatureError>)
    ensures
        match record {
            Ok(line) => {
                &&& signature_fault(hash_type, hash_value@, threat_name@) is None
                &&& line@ == signature_line(hash_type, hash_value@, threat_name@).push('\n')
            },
            Err(e) => signature_fault(hash_type, hash_value@, threat_name@) == Some(e),
        },
{
    let hash_chars = to_lower(&trim(hash_value));
    let hash = from_chars(&hash_chars);
    let name = from_chars(&trim(threat_name));
    if name.as_str().is_empty() {
        return Err(SignatureError::MissingThreatName);
    }
    if hash.as_str().as_bytes().len() != hash_type.expected_hex_len() {
        return Err(SignatureError::WrongLength(hash_type));
    }
    if !all_hex(&hash_chars) {
        return Err(SignatureError::NotHexadecimal);
    }
    let mut line = hash_type.to_string();
    line.push('|');
    line.append(&hash);
    line.push('|');
    line.append(&name);
    line.push('\n');
    assert(line@ =~= signature_line(hash_type, hash_value@, threat_name@).push('\n'));
    Ok(line)
}

/// Bytes without a line feed lengthen the last line.
proof fn lemma_lines_extend(content: Seq<u8>, tail: Seq<u8>)
    requires
        !tail.contains(0x0a),
    ensures
        byte_lines(content + tail) == byte_lines(content).update(
            byte_lines(content).len() - 1,
            byte_lines(content).last() + tail,
        ),
    decreases tail.len(),
{
    lemma_byte_lines_len(content);
    let lines = byte_lines(content);
    if tail.len() == 0 {
        assert(content + tail =~= content);
        assert(lines.last() + tail =~= lines.last());
        assert(lines.update(lines.len() - 1, lines.last()) =~= lines);
    } else {
        let shorter = tail.drop_last();
        assert(!shorter.contains(0x0a)) by {
            if shorter.contains(0x0a) {
                let i = choose|i: int| 0 <= i < shorter.len() && shorter[i] == 0x0a;
                assert(tail[i] == 0x0a);
            }
        }
        lemma_lines_extend(content, shorter);
        assert((content + tail).drop_last() =~= content + shorter);
        assert(tail.last() != 0x0a);
        assert((lines.last() + shorter).push(tail.last()) =~= lines.last() + tail);
        assert(byte_lines(content + tail) =~= lines.update(
            lines.len() - 1,
            lines.last() + tail,
        ));
    }
}

/// Whether a record that is appended to this text is read on its own: the text opens no comment
/// and no column.
pub open spec fn leaves_record_whole(open_line: Seq<char>) -> bool {
    let start = text::trim_start(open_line, CharClass::WhiteSpace);
    !open_line.contains('|') && (start.len() > 0 ==> start[0] != '#')
}

/// A line of the database reads as the hash and the name that it was written from.
proof fn lemma_signature_line(
    open_line: Seq<char>,
    algorithm: HashAlgorithm,
    hash: Seq<char>,
    threat_name: Seq<char>,
)
    requires
        signature_fault(algorithm, hash, threat_name) is None,
        leaves_record_whole(open_line),
    ensures
        line_signature(open_line + signature_line(algorithm, hash, threat_name)) == Some(
            (normalized_hash(hash), text::trimmed(threat_name)),
        ),
{
    reveal_strlit("MD5");
    reveal_strlit("SHA1");
    reveal_strlit("SHA256");
    let kind = algorithm.name();
    let key = normalized_hash(hash);
    let name = text::trimmed(threat_name);
    let record = signature_line(algorithm, hash, threat_name);
    let start = text::trim_start(open_line, CharClass::WhiteSpace);
    let line = start + record;
    text::lemma_trimmed_ends(threat_name, CharClass::WhiteSpace);
    assert(record[0] == kind[0]);
    assert(record.last() == name.last());
    text::lemma_trim_start_concat(open_line, record, CharClass::WhiteSpace);
    assert(line.last() == name.last());
    assert(text::trimmed(open_line + record) == line);
    let column = start.len() + kind.len();
    let rest = key + seq!['|'] + name;
    assert forall|j: int| 0 <= j < column implies !CharClass::Pipe.has(#[trigger] line[j]) by {
        if j < start.len() {
            assert(line[j] == start[j]);
            assert(start[j] == open_line[open_line.len() - start.len() + j]);
        } else {
            assert(line[j] == kind[j - start.len()]);
        }
    }
    assert(line[column as int] == '|');
    text::lemma_first_at(line, CharClass::Pipe, column as int);
    assert(line.skip(column as int + 1) =~= rest);
    assert forall|j: int| 0 <= j < key.len() implies !CharClass::Pipe.has(#[trigger] rest[j]) by {
        assert(rest[j] == key[j]);
        assert(is_hex_char(key[j]));
    }
    assert(rest[key.len() as int] == '|');
    text::lemma_first_at(rest, CharClass::Pipe, key.len() as int);
    assert(rest.take(key.len() as int) =~= key);
    assert(rest.skip(key.len() as int + 1) =~= name);
    if key.len() > 0 {
        assert(is_hex_char(key[0]) && is_hex_char(key.last()));
    }
    text::lemma_trim_fixed(key, CharClass::WhiteSpace);
    text::lower_ignores_case(text::trimmed(hash));
    text::lemma_trim_fixed(name, CharClass::WhiteSpace);
}

/// A text without a column holds no signature.
proof fn lemma_no_column(line: Seq<char>)
    requires
        !line.contains('|'),
    ensures
        line_signature(line) is None,
{
    let content = text::trimmed(line);
    text::lemma_trim_is_part(line, CharClass::WhiteSpace);
    assert forall|j: int| 0 <= j < content.len() implies !CharClass::Pipe.has(
        #[trigger] content[j],
    ) by {
        assert(line.contains(content[j]));
    }
    text::lemma_first_at(content, CharClass::Pipe, content.len() as int);
}

/// What was added is found, and nothing else changes: where the record of an accepted signature
/// is appended to a readable database file, the file then holds that signature besides those that
/// it held. What the file has after its last line feed must not swallow the record, and the
/// threat name must keep to one line.
pub proof fn added_signature_is_found(
    content: Seq<u8>,
    algorithm: HashAlgorithm,
    hash: Seq<char>,
    threat_name: Seq<char>,
)
    requires
        signature_fault(algorithm, hash, threat_name) is None,
        file_signatures(content, true) is Ok,
        leaves_record_whole(decode_utf8(byte_lines(content).last())),
        !text::trimmed(threat_name).contains('\n'),
    ensures
        file_signatures(
            content + encode_utf8(signature_line(algorithm, hash, threat_name).push('\n')),
            true,
        ) == Ok::<Map<Seq<char>, Seq<char>>, nat>(
            file_signatures(content, true)->Ok_0.insert(
                normalized_hash(hash),
                text::trimmed(threat_name),
            ),
        ),
{
    let line = signature_line(algorithm, hash, threat_name);
    let bytes = encode_utf8(line);
    assert(!line.contains('\n')) by {
        reveal_strlit("MD5");
        reveal_strlit("SHA1");
        reveal_strlit("SHA256");
        let kind = algorithm.name();
        let key = normalized_hash(hash);
        let name = text::trimmed(threat_name);
        if line.contains('\n') {
            let i = choose|i: int| 0 <= i < line.len() && line[i] == '\n';
            let after = i - kind.len() - key.len() - 2;
            if i < kind.len() {
                assert(line[i] == kind[i]);
            } else if i == kind.len() {
            } else if i <= kind.len() + key.len() {
                assert(line[i] == key[i - kind.len() - 1]);
                assert(is_hex_char(key[i - kind.len() - 1]));
            } else if after >= 0 {
                assert(line[i] == name[after]);
            }
        }
    }
    text::lemma_encode_without(line, '\n', 0x0a);
    text::lemma_encode_concat(line, seq!['\n']);
    assert(line.push('\n') =~= line + seq!['\n']);
    assert(encode_utf8(seq!['\n']) =~= seq![0x0au8]) by {
        is_ascii_chars_encode_utf8(seq!['\n']);
    }
    let before = byte_lines(content);
    lemma_byte_lines_len(content);
    lemma_lines_extend(content, bytes);
    let longer = content + bytes;
    let whole = content + encode_utf8(line.push('\n'));
    assert(whole =~= longer.push(0x0a));
    assert(whole.drop_last() =~= longer);
    let lines = byte_lines(whole);
    assert(lines.drop_last() =~= byte_lines(longer));
    let upto = lines.drop_last();
    assert(upto.drop_last() =~= before.drop_last());
    let open_line = decode_utf8(before.last());
    decode_utf8_encode_utf8(before.last());
    text::lemma_encode_concat(open_line, line);
    assert(upto.last() == encode_utf8(open_line + line));
    encode_utf8_valid_utf8(open_line + line);
    encode_utf8_decode_utf8(open_line + line);
    lemma_signature_line(open_line, algorithm, hash, threat_name);
    lemma_no_column(open_line);
    assert(decode_utf8(Seq::<u8>::empty()) =~= Seq::<char>::empty());
    assert(line_signature(Seq::<char>::empty()) is None);
}

/// A line that is no record, such as a comment, changes nothing when it is appended to a file
/// whose lines have all ended.
pub proof fn ignored_line_changes_nothing(content: Seq<u8>, line: Seq<char>)
    requires
        byte_lines(content).last().len() == 0,
        !line.contains('\n'),
        line_signature(line) is None,
    ensures
        file_signatures(content + encode_utf8(line.push('\n')), true) == file_signatures(
            content,
            true,
        ),
{
    let bytes = encode_utf8(line);
    text::lemma_encode_without(line, '\n', 0x0a);
    text::lemma_encode_concat(line, seq!['\n']);
    assert(line.push('\n') =~= line + seq!['\n']);
    assert(encode_utf8(seq!['\n']) =~= seq![0x0au8]) by {
        is_ascii_chars_encode_utf8(seq!['\n']);
    }
    let before = byte_lines(content);
    lemma_byte_lines_len(content);
    lemma_lines_extend(content, bytes);
    let longer = content + bytes;
    let whole = content + encode_utf8(line.push('\n'));
    assert(whole =~= longer.push(0x0a));
    assert(whole.drop_last() =~= longer);
    let upto = byte_lines(whole).drop_last();
    assert(upto =~= byte_lines(longer));
    assert(upto.drop_last() =~= before.drop_last());
    assert(before.last() + bytes =~= bytes);
    encode_utf8_valid_utf8(line);
    encode_utf8_decode_utf8(line);
    assert(before.last() =~= Seq::<u8>::empty());
    assert(decode_utf8(Seq::<u8>::empty()) =~= Seq::<char>::empty());
    assert(line_signature(Seq::<char>::empty()) is None);
}

/// A hash is found in any case that it is written in.
pub proof fn lookup_ignores_case(signatures: Map<Seq<char>, Seq<char>>, hash: Seq<char>)
    ensures
        signatures.contains_key(text::lower(text::upper(hash))) == signatures.contains_key(
            text::lower(hash),
        ),
        signatures[text::lower(text::upper(hash))] == signatures[text::lower(hash)],
{
    text::lower_ignores_case(hash);
}

/// The number of characters in a hash of an algorithm.
pub open spec fn hash_length(algorithm: HashAlgorithm) -> nat {
    match algorithm {
        HashAlgorithm::Md5 => 32,
        HashAlgorithm::Sha1 => 40,
        HashAlgorithm::Sha256 => 64,
    }
}

/// Whatever is accepted is a hash of its algorithm: as it is kept, it has exactly as many
/// characters as hashes of the algorithm have, each of them a hexadecimal digit in lower case, and
/// its threat has a name. So no hash is accepted under two algorithms.
pub proof fn accepted_hash_is_one_of_its_algorithm(
    algorithm: HashAlgorithm,
    other: HashAlgorithm,
    hash: Seq<char>,
    threat_name: Seq<char>,
    other_name: Seq<char>,
)
    requires
        signature_fault(algorithm, hash, threat_name) is None,
    ensures
        normalized_hash(hash).len() == hash_length(algorithm),
        forall|i: int|
            0 <= i < normalized_hash(hash).len() ==> '0' <= #[trigger] normalized_hash(hash)[i]
                <= '9' || 'a' <= normalized_hash(hash)[i] <= 'f',
        text::trimmed(threat_name).len() > 0,
        signature_fault(other, hash, other_name) is None ==> other == algorithm,
{
    let kept = normalized_hash(hash);
    assert forall|i: int| 0 <= i < kept.len() implies '0' <= #[trigger] kept[i] <= '9' || 'a'
        <= kept[i] <= 'f' by {
        assert(is_hex_char(kept[i]));
        assert(kept[i] == text::lower_char(text::trimmed(hash)[i]));
    }
    is_ascii_chars_encode_utf8(kept);
}

/// Every hash of an algorithm is accepted, in either case and with white space around it, under
/// any name that is not blank, and is kept in lower case.
pub proof fn every_proper_hash_is_accepted(
    algorithm: HashAlgorithm,
    before: Seq<char>,
    hash: Seq<char>,
    after: Seq<char>,
    threat_name: Seq<char>,
)
    requires
        forall|i: int| 0 <= i < before.len() ==> text::is_white_space(#[trigger] before[i]),
        forall|i: int| 0 <= i < after.len() ==> text::is_white_space(#[trigger] after[i]),
        hash.len() == hash_length(algorithm),
        forall|i: int|
            0 <= i < hash.len() ==> '0' <= #[trigger] hash[i] <= '9' || 'a' <= hash[i] <= 'f' || 'A'
                <= hash[i] <= 'F',
        text::trimmed(threat_name).len() > 0,
    ensures
        signature_fault(algorithm, before + hash + after, threat_name) is None,
        normalized_hash(before + hash + after) == text::lower(hash),
{
    assert(!text::is_white_space(hash[0]));
    assert(!text::is_white_space(hash[hash.len() - 1]));
    assert forall|i: int| 0 <= i < before.len() implies CharClass::WhiteSpace.has(
        #[trigger] before[i],
    ) by {}
    assert forall|i: int| 0 <= i < after.len() implies CharClass::WhiteSpace.has(
        #[trigger] after[i],
    ) by {}
    text::trimming_leaves_the_core(before, hash, after, CharClass::WhiteSpace);
    let kept = text::lower(hash);
    assert forall|i: int| 0 <= i < kept.len() implies is_hex_char(#[trigger] kept[i]) by {
        assert(kept[i] == text::lower_char(hash[i]));
    }
    is_ascii_chars_encode_utf8(kept);
}

/// Of the things that can be wrong with a signature the first is reported: a blank name, then a
/// hash of another length, then a character that is no digit.
pub proof fn first_fault_of_a_signature_is_reported(
    algorithm: HashAlgorithm,
    hash: Seq<char>,
    threat_name: Seq<char>,
)
    ensures
        signature_fault(algorithm, hash, threat_name) == Some(SignatureError::MissingThreatName)
            <==> text::trimmed(threat_name).len() == 0,
        signature_fault(algorithm, hash, threat_name) == Some(
            SignatureError::WrongLength(algorithm),
        ) <==> text::trimmed(threat_name).len() > 0 && encode_utf8(
            text::lower(text::trimmed(hash)),
        ).len() != hash_length(algorithm),
        signature_fault(algorithm, hash, threat_name) == Some(SignatureError::NotHexadecimal)
            ==> exists|i: int|
            0 <= i < text::trimmed(hash).len() && !('0' <= #[trigger] text::trimmed(hash)[i] <= '9'
                || 'a' <= text::trimmed(hash)[i] <= 'f' || 'A' <= text::trimmed(hash)[i] <= 'F'),
{
    let kept = normalized_hash(hash);
    let given = text::trimmed(hash);
    if signature_fault(algorithm, hash, threat_name) == Some(SignatureError::NotHexadecimal) {
        let i = choose|i: int| 0 <= i < kept.len() && !is_hex_char(#[trigger] kept[i]);
        assert(kept[i] == text::lower_char(given[i]));
        assert(!('0' <= given[i] <= '9' || 'a' <= given[i] <= 'f' || 'A' <= given[i] <= 'F'));
    }
}

/// The record of a signature has three columns: the algorithm, by a name that reads as that
/// algorithm and no other, the hash and the name of the threat, as they are kept.
pub proof fn record_has_three_columns(
    algorithm: HashAlgorithm,
    hash: Seq<char>,
    threat_name: Seq<char>,
)
    requires
        signature_fault(algorithm, hash, threat_name) is None,
    ensures
        text::split_once(signature_line(algorithm, hash, threat_name), CharClass::Pipe) matches
            Some((kind, rest)) && HashAlgorithm::named(kind) == Some(algorithm) && text::split_once(
            rest,
            CharClass::Pipe,
        ) == Some((text::lower(text::trimmed(hash)), text::trimmed(threat_name))),
{
    reveal_strlit("MD5");
    reveal_strlit("SHA1");
    reveal_strlit("SHA256");
    let class = CharClass::Pipe;
    let kind = algorithm.name();
    let kept = normalized_hash(hash);
    let name = text::trimmed(threat_name);
    let rest = kept.push('|') + name;
    accepted_hash_is_one_of_its_algorithm(algorithm, algorithm, hash, threat_name, threat_name);
    assert(signature_line(algorithm, hash, threat_name) =~= kind.push('|') + rest);
    assert forall|i: int| 0 <= i < kept.len() implies !class.has(#[trigger] kept[i]) by {
        assert('0' <= normalized_hash(hash)[i] <= '9' || 'a' <= normalized_hash(hash)[i] <= 'f');
    }
    text::splitting_once_parts_at_first(kept, '|', name, class);
    text::splitting_once_parts_at_first(kind, '|', rest, class);
}

/// The name of an algorithm reads as that algorithm, and nothing else does.
pub proof fn algorithm_is_read_by_its_name(algorithm: HashAlgorithm, name: Seq<char>)
    ensures
        HashAlgorithm::named(algorithm.name()) == Some(algorithm),
        HashAlgorithm::named(name) == Some(algorithm) ==> name == algorithm.name(),
        algorithm.hex_len() == hash_length(algorithm),
{
    reveal_strlit("MD5");
    reveal_strlit("SHA1");
    reveal_strlit("SHA256");
    assert("MD5"@.len() == 3 && "SHA1"@.len() == 4 && "SHA256"@.len() == 6);
}

/// A line with at least three columns is a record of the hash in its second column, in lower case,
/// and the threat in what follows, each without white space around it, unless it begins with `#`.
/// What stands in the first column does not matter, nor does white space around the line.
pub proof fn record_is_read_by_column(
    before: Seq<char>,
    kind: Seq<char>,
    hash: Seq<char>,
    name: Seq<char>,
    after: Seq<char>,
)
    requires
        forall|i: int| 0 <= i < before.len() ==> text::is_white_space(#[trigger] before[i]),
        forall|i: int| 0 <= i < after.len() ==> text::is_white_space(#[trigger] after[i]),
        kind.len() > 0 ==> !text::is_white_space(kind[0]) && kind[0] != '#',
        name.len() > 0 ==> !text::is_white_space(name.last()),
        !kind.contains('|'),
        !hash.contains('|'),
    ensures
        line_signature(before + (kind.push('|') + (hash.push('|') + name)) + after) == Some(
            (text::lower(text::trimmed(hash)), text::trimmed(name)),
        ),
        line_signature(kind.push('|') + hash) is None,
{
    let class = CharClass::Pipe;
    let rest = hash.push('|') + name;
    let core = kind.push('|') + rest;
    assert forall|i: int| 0 <= i < before.len() implies CharClass::WhiteSpace.has(
        #[trigger] before[i],
    ) by {}
    assert forall|i: int| 0 <= i < after.len() implies CharClass::WhiteSpace.has(
        #[trigger] after[i],
    ) by {}
    assert(core[0] == if kind.len() > 0 {
        kind[0]
    } else {
        '|'
    });
    assert(core.last() == if name.len() > 0 {
        name.last()
    } else {
        '|'
    });
    text::trimming_leaves_the_core(before, core, after, CharClass::WhiteSpace);
    assert forall|i: int| 0 <= i < kind.len() implies !class.has(#[trigger] kind[i]) by {
        assert(kind.contains(kind[i]));
    }
    assert forall|i: int| 0 <= i < hash.len() implies !class.has(#[trigger] hash[i]) by {
        assert(hash.contains(hash[i]));
    }
    text::splitting_once_parts_at_first(kind, '|', rest, class);
    text::splitting_once_parts_at_first(hash, '|', name, class);
    lemma_two_columns(kind.push('|') + hash, kind.len() as int);
}

/// A line with one bar holds no signature.
proof fn lemma_two_columns(line: Seq<char>, at: int)
    requires
        0 <= at < line.len(),
        forall|i: int| 0 <= i < line.len() && i != at ==> #[trigger] line[i] != '|',
    ensures
        line_signature(line) is None,
{
    let class = CharClass::Pipe;
    let content = text::trimmed(line);
    match text::split_once(content, class) {
        Some((kind, rest)) => {
            text::lemma_trim_position(line, CharClass::WhiteSpace);
            let from = choose|from: int|
                0 <= from <= line.len() - content.len() && #[trigger] line.subrange(
                    from,
                    from + content.len(),
                ) == content;
            let first = text::first_at(content, class) as int;
            text::lemma_first_is_first(content, class);
            assert(content[first] == line[from + first]);
            assert(from + first == at);
            assert forall|j: int| 0 <= j < rest.len() implies !class.has(#[trigger] rest[j]) by {
                assert(rest[j] == content[first + 1 + j]);
                assert(content[first + 1 + j] == line[from + first + 1 + j]);
            }
            text::lemma_first_at(rest, class, rest.len() as int);
        },
        None => {},
    }
}

/// A comment and a blank line are no records, whatever white space is around them.
pub proof fn comments_are_no_records(before: Seq<char>, comment: Seq<char>)
    requires
        forall|i: int| 0 <= i < before.len() ==> text::is_white_space(#[trigger] before[i]),
    ensures
        line_signature(before) is None,
        comment.len() > 0 && !text::is_white_space(comment.last()) ==> line_signature(
            before + (seq!['#'] + comment),
        ) is None,
{
    let none = Seq::<char>::empty();
    assert forall|i: int| 0 <= i < before.len() implies CharClass::WhiteSpace.has(
        #[trigger] before[i],
    ) by {}
    text::trimming_leaves_the_core(before, none, none, CharClass::WhiteSpace);
    assert(before + none + none =~= before);
    let core = seq!['#'] + comment;
    assert(before + core + none =~= before + core);
    assert(core[0] == '#');
    if comment.len() > 0 && !text::is_white_space(comment.last()) {
        assert(core.last() == comment.last());
        text::trimming_leaves_the_core(before, core, none, CharClass::WhiteSpace);
    }
}

/// A file falls into lines at its line feeds, and at nothing else.
pub proof fn lines_part_at_line_feeds(before: Seq<u8>, after: Seq<u8>)
    ensures
        byte_lines(before.push(0x0a) + after) == byte_lines(before) + byte_lines(after),
        !after.contains(0x0a) ==> byte_lines(after) == seq![after],
    decreases after.len(),
{
    let whole = before.push(0x0a) + after;
    lemma_byte_lines_len(before);
    if after.len() == 0 {
        assert(whole =~= before.push(0x0a));
        assert(whole.drop_last() =~= before);
        assert(byte_lines(whole) =~= byte_lines(before) + byte_lines(after));
        assert(after =~= Seq::<u8>::empty());
    } else {
        let shorter = after.drop_last();
        lines_part_at_line_feeds(before, shorter);
        lemma_byte_lines_len(shorter);
        assert(whole.drop_last() =~= before.push(0x0a) + shorter);
        assert(whole.last() == after.last());
        assert(byte_lines(whole) =~= byte_lines(before) + byte_lines(after));
        if !after.contains(0x0a) {
            assert(!shorter.contains(0x0a)) by {
                if shorter.contains(0x0a) {
                    let i = choose|i: int| 0 <= i < shorter.len() && shorter[i] == 0x0a;
                    assert(after[i] == 0x0a);
                }
            }
            assert(after[after.len() - 1] != 0x0a);
            assert(shorter.push(after.last()) =~= after);
            assert(byte_lines(after) =~= seq![after]);
        }
    }
}

/// Each further line of a database file does one thing: a record puts its threat under its hash, in
/// place of one that was there, and leaves all other hashes as they are; a line that is no record
/// changes nothing; a line that is no text makes the file unreadable at that line, and so the file
/// stays whatever follows.
pub proof fn each_line_adds_its_record(content: Seq<u8>, line: Seq<u8>)
    requires
        !line.contains(0x0a),
    ensures
        file_signatures(content.push(0x0a) + line, true) == match file_signatures(content, true) {
            Err(number) => Err(number),
            Ok(before) => if !valid_utf8(line) {
                Err(byte_lines(content).len() + 1)
            } else {
                match line_signature(decode_utf8(line)) {
                    Some((hash, name)) => Ok::<Map<Seq<char>, Seq<char>>, nat>(
                        before.insert(hash, name),
                    ),
                    None => Ok(before),
                }
            },
        },
        file_signatures(Seq::empty(), true) == Ok::<Map<Seq<char>, Seq<char>>, nat>(Map::empty()),
{
    lines_part_at_line_feeds(content, line);
    let lines = byte_lines(content);
    assert(lines + seq![line] =~= lines.push(line));
    assert(lines.push(line).drop_last() =~= lines);
    let empty = Seq::<u8>::empty();
    let one = seq![empty];
    assert(byte_lines(empty) =~= one);
    assert(one.drop_last() =~= Seq::<Seq<u8>>::empty());
    reveal_with_fuel(lines_signatures, 2);
    assert(decode_utf8(empty) =~= Seq::<char>::empty());
    assert(line_signature(Seq::<char>::empty()) is None);
}

/// A file that could not be read to its end is unreadable: at the first line that is no text, or
/// else at the line where reading stopped.
pub proof fn cut_file_is_unreadable(content: Seq<u8>, line: Seq<u8>)
    requires
        !line.contains(0x0a),
    ensures
        file_signatures(content, false) is Err,
        file_signatures(content.push(0x0a) + line, false) == match file_signatures(content, true) {
            Err(number) => Err::<Map<Seq<char>, Seq<char>>, nat>(number),
            Ok(_) => Err(byte_lines(content).len() + 1),
        },
{
    lines_part_at_line_feeds(content, line);
    let lines = byte_lines(content);
    assert(lines + seq![line] =~= lines.push(line));
    assert(lines.push(line).drop_last() =~= lines);
}

/// A database has exactly the hashes that a line of its file names, and under each of them the
/// threat of the last line that names it.
pub proof fn last_record_of_a_hash_counts(lines: Seq<Seq<u8>>, hash: Seq<char>, n: int)
    requires
        lines_signatures(lines) is Ok,
        0 <= n <= lines.len(),
        forall|i: int|
            n < i < lines.len() ==> !(line_signature(decode_utf8(#[trigger] lines[i])) matches Some(
                (other, _),
            ) && other == hash),
        n < lines.len() ==> (line_signature(decode_utf8(lines[n])) matches Some((named, _)) && named
            == hash),
    ensures
        n < lines.len() ==> lines_signatures(lines)->Ok_0.contains_key(hash) && lines_signatures(
            lines,
        )->Ok_0[hash] == (line_signature(decode_utf8(lines[n]))->0).1,
    decreases lines.len(),
{
    if n < lines.len() - 1 {
        let before = lines.drop_last();
        assert forall|i: int| n < i < before.len() implies !(line_signature(
            decode_utf8(#[trigger] before[i]),
        ) matches Some((other, _)) && other == hash) by {
            assert(before[i] == lines[i]);
        }
        assert(before[n] == lines[n]);
        last_record_of_a_hash_counts(before, hash, n);
        assert(!(line_signature(decode_utf8(lines[lines.len() - 1])) matches Some((other, _))
            && other == hash));
    }
}

/// A hash that no line names is not in the database.
pub proof fn unnamed_hash_is_unknown(lines: Seq<Seq<u8>>, hash: Seq<char>)
    requires
        lines_signatures(lines) is Ok,
        forall|i: int|
            0 <= i < lines.len() ==> !(line_signature(decode_utf8(#[trigger] lines[i])) matches Some(
                (other, _),
            ) && other == hash),
    ensures
        !lines_signatures(lines)->Ok_0.contains_key(hash),
    decreases lines.len(),
{
    if lines.len() > 0 {
        let before = lines.drop_last();
        assert forall|i: int| 0 <= i < before.len() implies !(line_signature(
            decode_utf8(#[trigger] before[i]),
        ) matches Some((other, _)) && other == hash) by {
            assert(before[i] == lines[i]);
        }
        unnamed_hash_is_unknown(before, hash);
        assert(!(line_signature(decode_utf8(lines[lines.len() - 1])) matches Some((other, _))
            && other == hash));
    }
}

/// The message about an unreadable line gives its number and the file; and that about a hash of the
/// wrong length its algorithm and the length that it should have.
pub proof fn faults_are_told_with_their_numbers(
    path: Seq<char>,
    number: nat,
    algorithm: HashAlgorithm,
)
    ensures
        text::occurs_in(text::decimal(number), unreadable_line(path, number)),
        path.is_suffix_of(unreadable_line(path, number)),
        algorithm.name().is_prefix_of(SignatureError::WrongLength(algorithm).text()),
        text::occurs_in(
            text::decimal(hash_length(algorithm)),
            SignatureError::WrongLength(algorithm).text(),
        ),
{
    let head = "failed to read signature database line "@;
    let from = " from "@;
    text::part_occurs(head, text::decimal(number), from + path);
    assert(head + text::decimal(number) + (from + path) =~= unreadable_line(path, number));
    let name = algorithm.name() + " hashes must be "@;
    let tail = " hexadecimal characters"@;
    text::part_occurs(name, text::decimal(hash_length(algorithm)), tail);
}

} // verus!
