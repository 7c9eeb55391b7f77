//! Rule files out of a ZIP archive.

use crate::paths;
use crate::paths::{
    has_rule_extension, sanitize_relative_path, strip_archive_root, PathPart, Platform,
};
use crate::text;
use std::path::Component;
use vstd::prelude::*;
use vstd::utf8::*;

verus! {

/// A ZIP archive under way.
#[verifier::external_type_specification]
#[verifier::external_body]
#[verifier::reject_recursive_types(R)]
pub struct ExZipArchive<R>(zip::ZipArchive<R>);

/// A place in bytes that are read.
#[verifier::external_type_specification]
#[verifier::external_body]
#[verifier::reject_recursive_types(T)]
pub struct ExCursor<T>(std::io::Cursor<T>);

/// What is wrong with a ZIP archive.
#[verifier::external_type_specification]
#[verifier::external_body]
pub struct ExZipError(zip::result::ZipError);

/// What an archive holds at one place.
pub ghost struct StoredModel {
    /// The name of the entry, with its directories.
    pub name: Seq<char>,
    /// Whether the entry can be opened.
    pub opens: bool,
    /// Whether it is a file, and no directory or symbolic link.
    pub is_file: bool,
    /// What it holds, where all of it can be read.
    pub content: Option<Seq<u8>>,
}

/// An entry of an archive that was opened.
pub ghost struct EntryModel {
    pub stored: StoredModel,
    /// Its path, where that leads nowhere outside. How a name falls into parts is up to the
    /// platform.
    pub path: Option<Seq<paths::PartModel>>,
}

/// What is stored in entries.
pub open spec fn stored(entries: Seq<EntryModel>) -> Seq<StoredModel> {
    Seq::new(entries.len(), |i: int| entries[i].stored)
}

/// The entries of an archive that was opened.
pub uninterp spec fn archive_entries(
    archive: zip::ZipArchive<std::io::Cursor<Vec<u8>>>,
) -> Seq<EntryModel>;

/// What is stored in the archive that the bytes are, or nothing where they are none, on a machine
/// with words of so many bits.
pub uninterp spec fn zip_entries(bytes: Seq<u8>, word_bits: nat) -> Option<Seq<StoredModel>>;

/// How many directories the parts lead down, less those that they lead up.
pub open spec fn depth(path: Seq<paths::PartModel>) -> int
    decreases path.len(),
{
    if path.len() == 0 {
        0
    } else {
        depth(path.drop_last()) + match path.last() {
            paths::PartModel::Normal(_) => 1int,
            paths::PartModel::ParentDir => -1int,
            _ => 0int,
        }
    }
}

/// Whether a path begins at no root and never leads above where it begins.
pub open spec fn is_enclosed(path: Seq<paths::PartModel>) -> bool {
    &&& forall|i: int|
        0 <= i < path.len() ==> !((#[trigger] path[i]) is Prefix) && !(path[i] is RootDir)
    &&& forall|n: int| 0 <= n <= path.len() ==> depth(#[trigger] path.take(n)) >= 0
}

/// The parts of a path that are spelled by the pieces of a name between its slashes. A dot says
/// something only at the beginning.
pub open spec fn piece_parts(pieces: Seq<Seq<char>>) -> Seq<paths::PartModel>
    decreases pieces.len(),
{
    if pieces.len() == 0 {
        Seq::empty()
    } else {
        let before = piece_parts(pieces.drop_last());
        let piece = pieces.last();
        if piece.len() == 0 {
            before
        } else if piece == seq!['.'] {
            if pieces.len() == 1 {
                seq![paths::PartModel::CurDir]
            } else {
                before
            }
        } else if piece == seq!['.', '.'] {
            before.push(paths::PartModel::ParentDir)
        } else {
            before.push(paths::PartModel::Normal(encode_utf8(piece)))
        }
    }
}

/// Whether all platforms read the name as a path in the same way: it has neither a backslash nor
/// a colon.
pub open spec fn is_portable(name: Seq<char>) -> bool {
    !name.contains('\\') && !name.contains(':')
}

/// The path of an entry with a portable name, where that leads nowhere outside.
pub open spec fn enclosed_path(name: Seq<char>) -> Option<Seq<paths::PartModel>> {
    let path = piece_parts(text::split(name, text::CharClass::Slash));
    if name.contains('\0') || (name.len() > 0 && name[0] == '/') || !is_enclosed(path) {
        None
    } else {
        Some(path)
    }
}

/// Whether the path of an entry is one that its name can have: it leads nowhere outside, and it is
/// the one that a portable name spells.
pub open spec fn is_named(entry: EntryModel) -> bool {
    &&& entry.path matches Some(path) ==> is_enclosed(path)
    &&& is_portable(entry.stored.name) ==> entry.path == enclosed_path(entry.stored.name)
}

/// Whether the paths of all entries are ones that their names can have.
pub open spec fn are_named(entries: Seq<EntryModel>) -> bool {
    forall|i: int| 0 <= i < entries.len() ==> is_named(#[trigger] entries[i])
}

/// What the head of an entry says.
#[derive(Debug)]
pub struct EntryHeader {
    /// Whether it is a file, and no directory or symbolic link.
    pub is_file: bool,
    /// Its path, where that leads nowhere outside.
    pub path: Option<Vec<PathPart>>,
}

/// The path of an entry.
pub open spec fn header_path(header: EntryHeader) -> Option<Seq<paths::PartModel>> {
    match header.path {
        Some(path) => Some(paths::parts(path@)),
        None => None,
    }
}

/// `ZipArchive::new` reads the directory of the archive that the bytes are. It fails on bytes
/// that are none; its source shows that both depend on the bytes and the width of `usize` alone.
/// The path of an entry is what `ZipFile::enclosed_name` makes of its name, `ZipFile::name`: none
/// where the name has a NUL, begins at a root or leads above where it begins, and else the parts
/// into which `Path::components` divides the name. Both kinds of platform divide a name without
/// backslashes and colons at its slashes. Left unsaid is how other names are divided, which bytes
/// are an archive, and what happens where memory runs out.
#[verifier::external_body]
fn open_archive(bytes: Vec<u8>) -> (opened: Result<
    zip::ZipArchive<std::io::Cursor<Vec<u8>>>,
    zip::result::ZipError,
>)
    ensures
        match opened {
            Ok(archive) => {
                &&& zip_entries(bytes@, usize::BITS as nat) == Some(
                    stored(archive_entries(archive)),
                )
                &&& are_named(archive_entries(archive))
            },
            Err(_) => zip_entries(bytes@, usize::BITS as nat) is None,
        },
{
    zip::ZipArchive::new(std::io::Cursor::new(bytes))
}

/// `ZipArchive::len` is the number of the archive's entries.
#[verifier::external_body]
fn archive_len(archive: &zip::ZipArchive<std::io::Cursor<Vec<u8>>>) -> (len: usize)
    ensures
        len == archive_entries(*archive).len(),
{
    archive.len()
}

/// `ZipArchive::by_index` opens the entry at a place, where there is one that can be opened, and
/// leaves the archive as it is. `ZipFile::is_file` says whether it is a file, and
/// `ZipFile::enclosed_name` its path, where that is relative and does not lead outside.
#[verifier::external_body]
fn entry_header(
    archive: &mut zip::ZipArchive<std::io::Cursor<Vec<u8>>>,
    index: usize,
) -> (header: Result<EntryHeader, zip::result::ZipError>)
    ensures
        archive_entries(*final(archive)) == archive_entries(*old(archive)),
        match header {
            Ok(head) => {
                &&& index < archive_entries(*old(archive)).len()
                &&& archive_entries(*old(archive))[index as int].stored.opens
                &&& head.is_file == archive_entries(*old(archive))[index as int].stored.is_file
                &&& header_path(head) == archive_entries(*old(archive))[index as int].path
            },
            Err(_) => index >= archive_entries(*old(archive)).len() || !archive_entries(
                *old(archive),
            )[index as int].stored.opens,
        },
{
    let entry = archive.by_index(index)?;
    let path = entry.enclosed_name().map(
        |name|
            name.components().map(
                |part|
                    match part {
                        Component::Prefix(p) => PathPart::Prefix(p.as_os_str().as_encoded_bytes().into()),
                        Component::RootDir => PathPart::RootDir,
                        Component::CurDir => PathPart::CurDir,
                        Component::ParentDir => PathPart::ParentDir,
                        Component::Normal(n) => PathPart::Normal(n.as_encoded_bytes().into()),
                    },
            ).collect(),
    );
    Ok(EntryHeader { is_file: entry.is_file(), path })
}

/// `Read::read_to_end` on the entry that `ZipArchive::by_index` opens reads what the entry holds,
/// given the memory for it. It says whether it could read all of it; which bytes came before a
/// fault is left unsaid.
#[verifier::external_body]
fn entry_content(
    archive: &mut zip::ZipArchive<std::io::Cursor<Vec<u8>>>,
    index: usize,
) -> (content: Result<(Vec<u8>, bool), zip::result::ZipError>)
    ensures
        archive_entries(*final(archive)) == archive_entries(*old(archive)),
        match content {
            Ok((bytes, complete)) => {
                &&& index < archive_entries(*old(archive)).len()
                &&& archive_entries(*old(archive))[index as int].stored.opens
                &&& match archive_entries(*old(archive))[index as int].stored.content {
                    Some(all) => complete && bytes@ == all,
                    None => !complete,
                }
            },
            Err(_) => index >= archive_entries(*old(archive)).len() || !archive_entries(
                *old(archive),
            )[index as int].stored.opens,
        },
{
    let mut entry = archive.by_index(index)?;
    let mut bytes = Vec::new();
    let complete = std::io::Read::read_to_end(&mut entry, &mut bytes).is_ok();
    Ok((bytes, complete))
}

/// Where the rule file of an entry goes below the directory of its feed: its path without the
/// archive's own root directory. Nothing but rule files goes anywhere.
pub open spec fn destination(
    is_file: bool,
    path: Option<Seq<paths::PartModel>>,
    platform: Platform,
) -> Option<Seq<paths::PartModel>> {
    match path {
        Some(parts) => {
            let inside = paths::names_only(paths::below_root(parts, platform), platform);
            if is_file && paths::is_rule_path(parts) && inside.len() > 0 {
                Some(inside)
            } else {
                None
            }
        },
        None => None,
    }
}

/// Where the rule file of an entry goes below the directory of its feed.
pub fn rule_destination(header: &EntryHeader, platform: Platform) -> (place: Option<Vec<PathPart>>)
    ensures
        match place {
            Some(path) => destination(header.is_file, header_path(*header), platform) == Some(
                paths::parts(path@),
            ),
            None => destination(header.is_file, header_path(*header), platform) is None,
        },
{
    if !header.is_file {
        return None;
    }
    match &header.path {
        None => None,
        Some(path) => {
            if !has_rule_extension(path) {
                return None;
            }
            let inside = sanitize_relative_path(&strip_archive_root(path, platform), platform);
            if inside.len() == 0 {
                None
            } else {
                Some(inside)
            }
        },
    }
}

/// A rule file out of an archive.
#[derive(Debug)]
pub struct RuleFile {
    /// Where it goes below the directory of its feed.
    pub path: Vec<PathPart>,
    pub content: Vec<u8>,
}

/// What a `RuleFile` says.
pub ghost struct RuleModel {
    pub path: Seq<paths::PartModel>,
    pub content: Seq<u8>,
}

impl View for RuleFile {
    type V = RuleModel;

    open spec fn view(&self) -> RuleModel {
        RuleModel { path: paths::parts(self.path@), content: self.content@ }
    }
}

/// What keeps an archive from being read to its end.
#[derive(Debug)]
pub enum ArchiveFault {
    /// The bytes are no archive.
    NotAnArchive,
    /// An entry cannot be opened.
    UnreadableEntry,
    /// A rule file cannot be read to its end. Its beginning is what could be read.
    UnreadableContent { path: Vec<PathPart>, beginning: Vec<u8> },
}

/// The rule file that was read, where all of it was, or else the fault, with what was read.
pub fn read_rule(path: Vec<PathPart>, content: Vec<u8>, complete: bool) -> (rule: Result<
    RuleFile,
    ArchiveFault,
>)
    ensures
        match rule {
            Ok(file) => complete && file.path == path && file.content == content,
            Err(ArchiveFault::UnreadableContent { path: place, beginning }) => !complete && place
                == path && beginning == content,
            Err(_) => false,
        },
{
    if complete {
        Ok(RuleFile { path, content })
    } else {
        Err(ArchiveFault::UnreadableContent { path, beginning: content })
    }
}

/// What an `ArchiveFault` says. Of a rule file that cannot be read to its end, what could be read
/// is not in it.
pub ghost enum FaultModel {
    NotAnArchive,
    UnreadableEntry,
    UnreadableContent { path: Seq<paths::PartModel> },
}

impl View for ArchiveFault {
    type V = FaultModel;

    open spec fn view(&self) -> FaultModel {
        match self {
            ArchiveFault::NotAnArchive => FaultModel::NotAnArchive,
            ArchiveFault::UnreadableEntry => FaultModel::UnreadableEntry,
            ArchiveFault::UnreadableContent { path, .. } => FaultModel::UnreadableContent {
                path: paths::parts(path@),
            },
        }
    }
}

/// The rule files of an archive up to its first fault.
#[derive(Debug)]
pub struct Extraction {
    pub files: Vec<RuleFile>,
    pub fault: Option<ArchiveFault>,
}

/// What an `Extraction` says.
pub ghost struct ExtractionModel {
    pub files: Seq<RuleModel>,
    pub fault: Option<FaultModel>,
}

/// The rule files of a row of them.
pub open spec fn rule_models(files: Seq<RuleFile>) -> Seq<RuleModel> {
    Seq::new(files.len(), |i: int| files[i]@)
}

impl View for Extraction {
    type V = ExtractionModel;

    open spec fn view(&self) -> ExtractionModel {
        ExtractionModel {
            files: rule_models(self.files@),
            fault: match self.fault {
                Some(fault) => Some(fault@),
                None => None,
            },
        }
    }
}

/// Where the rule file of an entry goes, where it goes anywhere.
pub open spec fn entry_destination(entry: EntryModel, platform: Platform) -> Option<
    Seq<paths::PartModel>,
> {
    destination(entry.stored.is_file, entry.path, platform)
}

/// The rule files of entries, in the order of the entries, up to the first fault.
pub open spec fn extracted(entries: Seq<EntryModel>, platform: Platform) -> ExtractionModel
    decreases entries.len(),
{
    if entries.len() == 0 {
        ExtractionModel { files: Seq::empty(), fault: None }
    } else if !entries[0].stored.opens {
        ExtractionModel { files: Seq::empty(), fault: Some(FaultModel::UnreadableEntry) }
    } else {
        match entry_destination(entries[0], platform) {
            None => extracted(entries.skip(1), platform),
            Some(path) => match entries[0].stored.content {
                None => ExtractionModel {
                    files: Seq::empty(),
                    fault: Some(FaultModel::UnreadableContent { path }),
                },
                Some(content) => {
                    let rest = extracted(entries.skip(1), platform);
                    ExtractionModel {
                        files: seq![RuleModel { path, content }] + rest.files,
                        fault: rest.fault,
                    }
                },
            },
        }
    }
}

/// Takes the rule files out of an archive that was opened.
pub fn extract_archive(
    archive: &mut zip::ZipArchive<std::io::Cursor<Vec<u8>>>,
    platform: Platform,
) -> (out: Extraction)
    ensures
        out@ == extracted(archive_entries(*old(archive)), platform),
        archive_entries(*final(archive)) == archive_entries(*old(archive)),
{
    let mut files: Vec<RuleFile> = Vec::new();
    let total: usize = archive_len(archive);
    let ghost entries = archive_entries(*archive);
    let ghost all = extracted(entries, platform);
    let mut i: usize = 0;
    proof {
        assert(entries.skip(0) =~= entries);
        assert(rule_models(files@) + all.files =~= all.files);
    }
    while i < total
        invariant
            total == entries.len(),
            i <= total,
            entries == archive_entries(*archive),
            entries == archive_entries(*old(archive)),
            all == extracted(entries, platform),
            all.files == rule_models(files@) + extracted(entries.skip(i as int), platform).files,
            all.fault == extracted(entries.skip(i as int), platform).fault,
        decreases total - i,
    {
        let ghost rest = entries.skip(i as int);
        proof {
            assert(rest[0] == entries[i as int]);
            assert(rest.skip(1) =~= entries.skip(i + 1));
            assert(rule_models(files@) + Seq::<RuleModel>::empty() =~= rule_models(files@));
        }
        let header = match entry_header(archive, i) {
            Ok(header) => header,
            Err(_) => {
                return Extraction { files, fault: Some(ArchiveFault::UnreadableEntry) };
            },
        };
        if let Some(path) = rule_destination(&header, platform) {
            let (content, complete) = match entry_content(archive, i) {
                Ok(read) => read,
                Err(_) => {
                    return Extraction { files, fault: Some(ArchiveFault::UnreadableEntry) };
                },
            };
            let ghost before = rule_models(files@);
            let ghost tail = extracted(rest.skip(1), platform).files;
            match read_rule(path, content, complete) {
                Err(fault) => {
                    return Extraction { files, fault: Some(fault) };
                },
                Ok(file) => {
                    let ghost model = file@;
                    files.push(file);
                    proof {
                        assert(rule_models(files@) =~= before.push(model));
                        assert(before + (seq![model] + tail) =~= before.push(model) + tail);
                    }
                },
            }
        }
        i += 1;
    }
    assert(rule_models(files@) + Seq::<RuleModel>::empty() =~= rule_models(files@));
    Extraction { files, fault: None }
}

/// Whether the extraction is that of the archive that the bytes are.
pub open spec fn is_extraction(bytes: Seq<u8>, platform: Platform, out: ExtractionModel) -> bool {
    match zip_entries(bytes, usize::BITS as nat) {
        None => out == (ExtractionModel {
            files: Seq::empty(),
            fault: Some(FaultModel::NotAnArchive),
        }),
        Some(entries) => exists|archive: zip::ZipArchive<std::io::Cursor<Vec<u8>>>|
            stored(#[trigger] archive_entries(archive)) == entries && are_named(
                archive_entries(archive),
            ) && out == extracted(archive_entries(archive), platform),
    }
}

/// Takes the rule files out of the archive that the bytes are.
pub fn extract_rules(bytes: Vec<u8>, platform: Platform) -> (out: Extraction)
    ensures
        is_extraction(bytes@, platform, out@),
{
    match open_archive(bytes) {
        Err(_) => {
            let files: Vec<RuleFile> = Vec::new();
            assert(rule_models(files@) =~= Seq::<RuleModel>::empty());
            Extraction { files, fault: Some(ArchiveFault::NotAnArchive) }
        },
        Ok(mut archive) => {
            let ghost opened = archive;
            let out = extract_archive(&mut archive, platform);
            assert(archive_entries(opened) == archive_entries(archive));
            out
        },
    }
}

/// The entries of an archive whose names are portable.
pub open spec fn portable_entries(entries: Seq<StoredModel>) -> Seq<EntryModel> {
    Seq::new(
        entries.len(),
        |i: int| EntryModel { stored: entries[i], path: enclosed_path(entries[i].name) },
    )
}

/// What is taken out of an archive with portable names depends on its bytes alone: the bytes give
/// the names, and the names the paths of the rule files.
pub proof fn portable_extraction_is_determined(
    bytes: Seq<u8>,
    platform: Platform,
    out: ExtractionModel,
)
    requires
        is_extraction(bytes, platform, out),
        zip_entries(bytes, usize::BITS as nat) is Some,
        forall|i: int|
            0 <= i < zip_entries(bytes, usize::BITS as nat)->0.len() ==> is_portable(
                (#[trigger] zip_entries(bytes, usize::BITS as nat)->0[i]).name,
            ),
    ensures
        out == extracted(portable_entries(zip_entries(bytes, usize::BITS as nat)->0), platform),
{
    let entries = zip_entries(bytes, usize::BITS as nat)->0;
    let archive = choose|archive: zip::ZipArchive<std::io::Cursor<Vec<u8>>>|
        stored(#[trigger] archive_entries(archive)) == entries && are_named(
            archive_entries(archive),
        ) && out == extracted(archive_entries(archive), platform);
    let opened = archive_entries(archive);
    assert(stored(opened).len() == opened.len());
    assert forall|i: int| 0 <= i < opened.len() implies opened[i] == portable_entries(
        entries,
    )[i] by {
        assert(stored(opened)[i] == opened[i].stored);
        assert(is_portable(entries[i].name));
        assert(is_named(opened[i]));
    }
    assert(opened =~= portable_entries(entries));
}

/// Whether, in the path of an entry that has a destination, no name below the archive's root begins
/// with a drive.
pub open spec fn is_driveless_entry(entry: EntryModel, platform: Platform) -> bool {
    entry_destination(entry, platform) is Some ==> paths::is_driveless(
        paths::below_root(entry.path->0, platform),
        platform,
    )
}

/// Whatever an archive names its entries, the rule files of it lie inside the directory that they
/// are written to: their paths are made of names alone. Where the platform has drives, no name
/// below the archive's root may begin with one.
pub proof fn extracted_rules_stay_inside(entries: Seq<EntryModel>, platform: Platform, n: int)
    requires
        0 <= n < extracted(entries, platform).files.len(),
        forall|i: int|
            0 <= i < entries.len() ==> is_driveless_entry(#[trigger] entries[i], platform),
    ensures
        extracted(entries, platform).files[n].path.len() > 0,
        forall|i: int|
            0 <= i < extracted(entries, platform).files[n].path.len() ==> (#[trigger] extracted(
                entries,
                platform,
            ).files[n].path[i]) is Normal,
    decreases entries.len(),
{
    let rest = entries.skip(1);
    assert forall|i: int| 0 <= i < rest.len() implies is_driveless_entry(
        #[trigger] rest[i],
        platform,
    ) by {
        assert(rest[i] == entries[i + 1]);
    }
    if let Some(path) = entry_destination(entries[0], platform) {
        if n == 0 {
            assert(is_driveless_entry(entries[0], platform));
            let below = paths::below_root(entries[0].path->0, platform);
            paths::sanitized_path_stays_inside(below, platform);
        } else {
            extracted_rules_stay_inside(rest, platform, n - 1);
        }
    } else {
        extracted_rules_stay_inside(rest, platform, n);
    }
}

/// Whether the file name of an entry that has a destination has more than a drive before its
/// extension, as it stands and as it is read without the archive's root.
pub open spec fn keeps_file_name(entry: EntryModel, platform: Platform) -> bool {
    entry_destination(entry, platform) is Some ==> {
        let path = entry.path->0;
        let below = paths::below_root(path, platform);
        &&& !paths::is_bare_drive(paths::file_name(path)->0, platform)
        &&& paths::file_name(below) matches Some(name) ==> !paths::is_bare_drive(name, platform)
    }
}

/// What is taken out of an archive are rule files by their paths too, unless a drive is all that
/// a name has before its extension.
pub proof fn extracted_files_are_rules(entries: Seq<EntryModel>, platform: Platform, n: int)
    requires
        0 <= n < extracted(entries, platform).files.len(),
        forall|i: int| 0 <= i < entries.len() ==> keeps_file_name(#[trigger] entries[i], platform),
    ensures
        paths::is_rule_path(extracted(entries, platform).files[n].path),
    decreases entries.len(),
{
    let rest = entries.skip(1);
    assert forall|i: int| 0 <= i < rest.len() implies keeps_file_name(
        #[trigger] rest[i],
        platform,
    ) by {
        assert(rest[i] == entries[i + 1]);
    }
    if let Some(path) = entry_destination(entries[0], platform) {
        if n == 0 {
            assert(keeps_file_name(entries[0], platform));
            let whole = entries[0].path->0;
            let below = paths::below_root(whole, platform);
            if whole.len() >= 2 {
                paths::stripping_keeps_rule_files(whole, platform);
                paths::sanitizing_keeps_rule_files(below, platform);
            } else {
                assert(whole.skip(1) =~= Seq::<paths::PartModel>::empty());
            }
        } else {
            extracted_files_are_rules(rest, platform, n - 1);
        }
    } else {
        extracted_files_are_rules(rest, platform, n);
    }
}

/// The names that the pieces of a portable name spell begin with no drive.
proof fn lemma_pieces_have_no_drive(pieces: Seq<Seq<char>>)
    requires
        forall|i: int| 0 <= i < pieces.len() ==> !(#[trigger] pieces[i]).contains(':'),
    ensures
        forall|i: int|
            0 <= i < piece_parts(pieces).len() ==> ((#[trigger] piece_parts(
                pieces,
            )[i]) matches paths::PartModel::Normal(name) ==> !paths::has_drive(name)),
    decreases pieces.len(),
{
    if pieces.len() > 0 {
        let before = pieces.drop_last();
        assert forall|i: int| 0 <= i < before.len() implies !(#[trigger] before[i]).contains(
            ':',
        ) by {
            assert(before[i] == pieces[i]);
        }
        lemma_pieces_have_no_drive(before);
        let piece = pieces.last();
        assert(piece == pieces[pieces.len() - 1]);
        text::lemma_encode_without(piece, ':', 0x3a);
        let name = encode_utf8(piece);
        if paths::has_drive(name) {
            assert(name.contains(name[1]));
        }
    }
}

/// The pieces of a text have no character that the text has not.
proof fn lemma_split_without(s: Seq<char>, class: text::CharClass, c: char)
    requires
        !s.contains(c),
    ensures
        forall|i: int|
            0 <= i < text::split(s, class).len() ==> !(#[trigger] text::split(
                s,
                class,
            )[i]).contains(c),
    decreases s.len(),
{
    text::lemma_split_len(s, class);
    if s.len() > 0 {
        let shorter = s.drop_last();
        assert(!shorter.contains(c)) by {
            if shorter.contains(c) {
                let i = choose|i: int| 0 <= i < shorter.len() && shorter[i] == c;
                assert(s[i] == c);
            }
        }
        assert(s[s.len() - 1] == s.last());
        lemma_split_without(shorter, class, c);
        text::lemma_split_len(shorter, class);
        let before = text::split(shorter, class);
        let pieces = text::split(s, class);
        assert forall|i: int| 0 <= i < pieces.len() implies !(#[trigger] pieces[i]).contains(
            c,
        ) by {
            if i < before.len() - 1 {
                assert(pieces[i] == before[i]);
            } else if i == before.len() - 1 {
                let last = before[before.len() - 1];
                if pieces[i].contains(c) {
                    let j = choose|j: int| 0 <= j < pieces[i].len() && pieces[i][j] == c;
                    if j < last.len() {
                        assert(last[j] == c);
                    }
                }
            }
        }
    }
}

/// The rule files of an archive with portable names lie inside the directory that they are
/// written to, and are rule files by their paths, on every platform.
pub proof fn portable_rules_stay_inside(entries: Seq<EntryModel>, platform: Platform, n: int)
    requires
        are_named(entries),
        forall|i: int|
            0 <= i < entries.len() ==> is_portable((#[trigger] entries[i]).stored.name),
        0 <= n < extracted(entries, platform).files.len(),
    ensures
        extracted(entries, platform).files[n].path.len() > 0,
        forall|i: int|
            0 <= i < extracted(entries, platform).files[n].path.len() ==> (#[trigger] extracted(
                entries,
                platform,
            ).files[n].path[i]) is Normal,
        paths::is_rule_path(extracted(entries, platform).files[n].path),
{
    assert forall|i: int| 0 <= i < entries.len() implies is_driveless_entry(
        #[trigger] entries[i],
        platform,
    ) && keeps_file_name(entries[i], platform) by {
        assert(is_named(entries[i]));
        let name = entries[i].stored.name;
        assert(is_portable(name));
        if let Some(path) = entries[i].path {
            let pieces = text::split(name, text::CharClass::Slash);
            lemma_split_without(name, text::CharClass::Slash, ':');
            lemma_pieces_have_no_drive(pieces);
            assert(path == piece_parts(pieces));
            if path.len() > 0 {
                let below = path.skip(1);
                assert forall|j: int| 0 <= j < below.len() implies #[trigger] below[j] == path[j
                    + 1] by {}
                assert(paths::below_root(path, platform) == below);
                assert(path.last() == path[path.len() - 1]);
                if below.len() > 0 {
                    assert(below.last() == path[path.len() - 1]);
                }
            }
        }
    }
    extracted_rules_stay_inside(entries, platform, n);
    extracted_files_are_rules(entries, platform, n);
}

/// An archive without a fault gives, for each entry that has a destination, the rule file that
/// holds what the entry holds.
pub proof fn extraction_is_complete(entries: Seq<EntryModel>, platform: Platform, n: int)
    requires
        0 <= n < entries.len(),
        extracted(entries, platform).fault is None,
        entry_destination(entries[n], platform) is Some,
    ensures
        entries[n].stored.content is Some,
        extracted(entries, platform).files.contains(
            (RuleModel {
                path: entry_destination(entries[n], platform)->0,
                content: entries[n].stored.content->0,
            }),
        ),
    decreases entries.len(),
{
    let model = RuleModel {
        path: entry_destination(entries[n], platform)->0,
        content: entries[n].stored.content->0,
    };
    let files = extracted(entries, platform).files;
    if n == 0 {
        assert(files[0] == model);
    } else {
        assert(entries.skip(1)[n - 1] == entries[n]);
        extraction_is_complete(entries.skip(1), platform, n - 1);
        let rest = extracted(entries.skip(1), platform).files;
        let k = choose|k: int| 0 <= k < rest.len() && rest[k] == model;
        if entry_destination(entries[0], platform) is Some {
            assert(files[k + 1] == model);
        } else {
            assert(files[k] == model);
        }
    }
}

/// A rule file of an archive goes to its path without the first part, and keeps every other part;
/// what is no file, has no rule file's name, leads outside, or stands at the root of the archive
/// goes nowhere.
pub proof fn rule_file_goes_below_the_root(
    root: paths::PartModel,
    rest: Seq<paths::PartModel>,
    platform: Platform,
)
    requires
        rest.len() > 0,
        forall|i: int| 0 <= i < rest.len() ==> (#[trigger] rest[i]) is Normal,
        paths::is_driveless(rest, platform),
    ensures
        paths::is_rule_path(rest) ==> destination(true, Some(seq![root] + rest), platform) == Some(
            rest,
        ),
        !paths::is_rule_path(rest) ==> destination(
            true,
            Some(seq![root] + rest),
            platform,
        ) is None,
        destination(false, Some(seq![root] + rest), platform) is None,
        destination(true, None, platform) is None,
        destination(true, Some(seq![root]), platform) is None,
{
    let path = seq![root] + rest;
    assert(path.last() == rest.last());
    paths::stripping_takes_the_root_alone(root, rest, platform);
    paths::sanitizing_keeps_names(rest, platform);
    let nothing = Seq::<paths::PartModel>::empty();
    paths::stripping_takes_the_root_alone(root, nothing, platform);
    assert(seq![root] + nothing =~= seq![root]);
}

/// The rule files of an archive are those of each part of it, one part after the other, as long as
/// the first part has no fault; and a fault of the first part is all that counts.
pub proof fn extraction_is_by_entry(
    a: Seq<EntryModel>,
    b: Seq<EntryModel>,
    platform: Platform,
)
    ensures
        extracted(a, platform).fault is None ==> extracted(a + b, platform).files == extracted(
            a,
            platform,
        ).files + extracted(b, platform).files && extracted(a + b, platform).fault == extracted(
            b,
            platform,
        ).fault,
        extracted(a, platform).fault is Some ==> extracted(a + b, platform) == extracted(
            a,
            platform,
        ),
    decreases a.len(),
{
    if a.len() == 0 {
        assert(a + b =~= b);
        let files = extracted(b, platform).files;
        assert(Seq::<RuleModel>::empty() + files =~= files);
    } else {
        extraction_is_by_entry(a.skip(1), b, platform);
        assert((a + b).skip(1) =~= a.skip(1) + b);
        assert((a + b)[0] == a[0]);
        if let Some(path) = entry_destination(a[0], platform) {
            if let Some(content) = a[0].stored.content {
                let first = seq![RuleModel { path, content }];
                let rest = extracted(a.skip(1), platform).files;
                let tail = extracted(b, platform).files;
                assert(first + (rest + tail) =~= first + rest + tail);
            }
        }
    }
}

/// One entry gives its rule file, whole and at its destination, where it has one; an entry that
/// cannot be opened, and a rule file that cannot be read, are faults; and a file that is no rule
/// file gives nothing, whether or not it can be read.
pub proof fn entry_gives_its_rule_file(entry: EntryModel, platform: Platform)
    ensures
        ({
            let out = extracted(seq![entry], platform);
            &&& !entry.stored.opens ==> out.files.len() == 0 && out.fault is Some
            &&& entry.stored.opens && entry_destination(entry, platform) is None ==> out.files.len()
                == 0 && out.fault is None
            &&& entry.stored.opens ==> (entry_destination(entry, platform) matches Some(path) ==> {
                &&& entry.stored.content matches Some(content) ==> out.fault is None && out.files
                    == seq![RuleModel { path, content }]
                &&& entry.stored.content is None ==> out.files.len() == 0 && out.fault == Some(
                    FaultModel::UnreadableContent { path },
                )
            })
        }),
{
    let entries = seq![entry];
    assert(entries.skip(1) =~= Seq::<EntryModel>::empty());
    reveal_with_fuel(extracted, 2);
    if let Some(path) = entry_destination(entry, platform) {
        if let Some(content) = entry.stored.content {
            let one = seq![RuleModel { path, content }];
            assert(one + Seq::<RuleModel>::empty() =~= one);
        }
    }
}

/// What is said of an extraction is said of every file of it, its path part by part and its content
/// byte by byte.
pub proof fn extraction_is_seen_whole(out: Extraction, i: int, j: int)
    ensures
        out@.files.len() == out.files@.len(),
        0 <= i < out.files@.len() ==> {
            &&& out@.files[i].content == out.files@[i].content@
            &&& out@.files[i].path.len() == out.files@[i].path@.len()
            &&& 0 <= j < out.files@[i].path@.len() ==> out@.files[i].path[j]
                == out.files@[i].path@[j]@
        },
        out@.fault is Some <==> out.fault is Some,
{
}

} // verus!
