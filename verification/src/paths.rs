//! Paths as rows of parts, and what their names say.

use crate::text;
use crate::text::utf8_text;
use vstd::prelude::*;
use vstd::slice::{slice_subrange, slice_to_vec};
use vstd::utf8::*;

verus! {

/// A kind of platform.
#[derive(Clone, Copy, Debug, PartialEq, Eq, Structural)]
pub enum Platform {
    MacOs,
    Linux,
    Windows,
    Other,
}

/// A part of a path, in the order in which the parts stand. A name is kept as the bytes that
/// the platform encodes it with.
#[derive(Clone, Debug, PartialEq, Eq)]
pub enum PathPart {
    /// A drive or a share.
    Prefix(Vec<u8>),
    /// The root directory.
    RootDir,
    /// `.`
    CurDir,
    /// `..`
    ParentDir,
    /// The name of a file or a directory.
    Normal(Vec<u8>),
}

/// What a `PathPart` says.
pub ghost enum PartModel {
    Prefix(Seq<u8>),
    RootDir,
    CurDir,
    ParentDir,
    Normal(Seq<u8>),
}

impl View for PathPart {
    type V = PartModel;

    open spec fn view(&self) -> PartModel {
        match self {
            PathPart::Prefix(text) => PartModel::Prefix(text@),
            PathPart::RootDir => PartModel::RootDir,
            PathPart::CurDir => PartModel::CurDir,
            PathPart::ParentDir => PartModel::ParentDir,
            PathPart::Normal(name) => PartModel::Normal(name@),
        }
    }
}

/// What a row of parts says.
pub open spec fn parts(path: Seq<PathPart>) -> Seq<PartModel> {
    Seq::new(path.len(), |i: int| path[i]@)
}

/// The name of the file that a path leads to: its last part, where that is a name.
pub open spec fn file_name(path: Seq<PartModel>) -> Option<Seq<u8>> {
    if path.len() > 0 {
        match path.last() {
            PartModel::Normal(name) => Some(name),
            _ => None,
        }
    } else {
        None
    }
}

/// The position of the last dot of a name, or -1.
pub open spec fn last_dot(name: Seq<u8>) -> int
    decreases name.len(),
{
    if name.len() == 0 {
        -1
    } else if name.last() == 0x2e {
        name.len() - 1
    } else {
        last_dot(name.drop_last())
    }
}

/// What follows the last dot of a name, where something stands before that dot.
pub open spec fn extension(name: Seq<u8>) -> Option<Seq<u8>> {
    if last_dot(name) > 0 {
        Some(name.skip(last_dot(name) + 1))
    } else {
        None
    }
}

/// The ASCII lower case of a byte.
pub open spec fn lower_byte(b: u8) -> u8 {
    if 0x41 <= b <= 0x5a {
        (b + 0x20) as u8
    } else {
        b
    }
}

/// Whether the bytes are a text in ASCII lower case, whatever case they have.
pub open spec fn spells(bytes: Seq<u8>, lower: Seq<u8>) -> bool {
    bytes.len() == lower.len() && forall|i: int|
        0 <= i < bytes.len() ==> lower_byte(#[trigger] bytes[i]) == lower[i]
}

/// Whether the path is one of a YARA rule file: its extension is `yar` or `yara`, in any case.
pub open spec fn is_rule_path(path: Seq<PartModel>) -> bool {
    match file_name(path) {
        Some(name) => match extension(name) {
            Some(ending) => spells(ending, seq![0x79u8, 0x61, 0x72]) || spells(
                ending,
                seq![0x79u8, 0x61, 0x72, 0x61],
            ),
            None => false,
        },
        None => false,
    }
}

/// Whether a name is that of a hidden file: it is UTF-8, starts with a dot, and is neither `.`
/// nor `..`.
pub open spec fn is_hidden(name: Seq<u8>) -> bool {
    &&& valid_utf8(name)
    &&& name.len() > 0
    &&& name[0] == 0x2e
    &&& name != seq![0x2eu8]
    &&& name != seq![0x2eu8, 0x2e]
}

/// Whether a name begins with a drive: a letter and a colon.
pub open spec fn has_drive(name: Seq<u8>) -> bool {
    name.len() >= 2 && (0x41 <= name[0] <= 0x5a || 0x61 <= name[0] <= 0x7a) && name[1] == 0x3a
}

/// What stands behind a drive at the beginning of a path, up to the first separator. Where there
/// is nothing before that separator, the path goes on from the root of the drive.
pub open spec fn behind_drive(tail: Seq<u8>, more: bool) -> Seq<PartModel> {
    if tail.len() == 0 {
        if more {
            seq![PartModel::RootDir]
        } else {
            Seq::empty()
        }
    } else if tail == seq![0x2eu8] {
        seq![PartModel::CurDir]
    } else if tail == seq![0x2eu8, 0x2e] {
        seq![PartModel::ParentDir]
    } else {
        seq![PartModel::Normal(tail)]
    }
}

/// The parts of the path that these parts spell. On a platform with drives, a name that begins
/// with one is a drive when it stands at the beginning of the path.
pub open spec fn read_anew(path: Seq<PartModel>, platform: Platform) -> Seq<PartModel> {
    if path.len() == 0 {
        path
    } else {
        match path[0] {
            PartModel::Normal(name) => if platform is Windows && has_drive(name) {
                seq![PartModel::Prefix(name.take(2))] + behind_drive(name.skip(2), path.len() > 1)
                    + path.skip(1)
            } else {
                path
            },
            _ => path,
        }
    }
}

/// A path with a name pushed onto it. On a platform with drives, a name that begins with one
/// takes the place of the path.
pub open spec fn with_name(
    path: Seq<PartModel>,
    name: Seq<u8>,
    platform: Platform,
) -> Seq<PartModel> {
    if platform is Windows && has_drive(name) {
        read_anew(seq![PartModel::Normal(name)], platform)
    } else {
        path.push(PartModel::Normal(name))
    }
}

/// The path that the names of a path make when they are pushed one after the other.
pub open spec fn names_only(path: Seq<PartModel>, platform: Platform) -> Seq<PartModel>
    decreases path.len(),
{
    if path.len() == 0 {
        path
    } else {
        match path.last() {
            PartModel::Normal(name) => with_name(
                names_only(path.drop_last(), platform),
                name,
                platform,
            ),
            _ => names_only(path.drop_last(), platform),
        }
    }
}

/// Whether no name in the path begins with a drive that the platform has.
pub open spec fn is_driveless(path: Seq<PartModel>, platform: Platform) -> bool {
    platform is Windows ==> forall|i: int|
        0 <= i < path.len() ==> ((#[trigger] path[i]) matches PartModel::Normal(name)
            ==> !has_drive(name))
}

/// The path without its first part, read anew.
pub open spec fn below_root(path: Seq<PartModel>, platform: Platform) -> Seq<PartModel> {
    if path.len() == 0 {
        path
    } else {
        read_anew(path.skip(1), platform)
    }
}

/// An owned copy of a part.
fn copy_part(part: &PathPart) -> (copy: PathPart)
    ensures
        copy@ == part@,
{
    match part {
        PathPart::Prefix(text) => PathPart::Prefix(slice_to_vec(text)),
        PathPart::RootDir => PathPart::RootDir,
        PathPart::CurDir => PathPart::CurDir,
        PathPart::ParentDir => PathPart::ParentDir,
        PathPart::Normal(name) => PathPart::Normal(slice_to_vec(name)),
    }
}

/// The name of the file that a path leads to.
pub fn path_file_name(path: &[PathPart]) -> (name: Option<&[u8]>)
    ensures
        match name {
            Some(bytes) => file_name(parts(path@)) == Some(bytes@),
            None => file_name(parts(path@)) is None,
        },
{
    if path.len() == 0 {
        return None;
    }
    assert(parts(path@).last() == path@.last()@);
    match &path[path.len() - 1] {
        PathPart::Normal(name) => Some(name),
        _ => None,
    }
}

proof fn lemma_last_dot(name: Seq<u8>, i: int)
    requires
        0 <= i < name.len(),
        name[i] == 0x2e,
        forall|j: int| i < j < name.len() ==> #[trigger] name[j] != 0x2e,
    ensures
        last_dot(name) == i,
    decreases name.len(),
{
    if i < name.len() - 1 {
        lemma_last_dot(name.drop_last(), i);
    }
}

proof fn lemma_no_dot(name: Seq<u8>)
    requires
        forall|j: int| 0 <= j < name.len() ==> #[trigger] name[j] != 0x2e,
    ensures
        last_dot(name) == -1,
    decreases name.len(),
{
    if name.len() > 0 {
        lemma_no_dot(name.drop_last());
    }
}

/// The position of the last dot of a name, where there is one.
fn find_last_dot(name: &[u8]) -> (found: Option<usize>)
    ensures
        match found {
            Some(i) => last_dot(name@) == i && i < name@.len(),
            None => last_dot(name@) == -1,
        },
{
    let total: usize = name.len();
    let mut i: usize = total;
    while i > 0
        invariant
            total == name@.len(),
            i <= total,
            forall|j: int| i <= j < total ==> #[trigger] name@[j] != 0x2e,
        decreases i,
    {
        i -= 1;
        if name[i] == 0x2e {
            proof {
                lemma_last_dot(name@, i as int);
            }
            return Some(i);
        }
    }
    proof {
        lemma_no_dot(name@);
    }
    None
}

fn name_extension(name: &[u8]) -> (ending: Option<&[u8]>)
    ensures
        match ending {
            Some(bytes) => extension(name@) == Some(bytes@),
            None => extension(name@) is None,
        },
{
    match find_last_dot(name) {
        None => None,
        Some(i) => {
            if i == 0 {
                return None;
            }
            let total: usize = name.len();
            let ending = slice_subrange(name, i + 1, total);
            assert(ending@ =~= name@.skip(i + 1));
            Some(ending)
        },
    }
}

/// A name without its extension.
pub fn name_stem(name: &[u8]) -> (stem: &[u8])
    ensures
        stem@ == if last_dot(name@) > 0 {
            name@.take(last_dot(name@))
        } else {
            name@
        },
{
    match find_last_dot(name) {
        None => name,
        Some(i) => {
            if i == 0 {
                return name;
            }
            let stem = slice_subrange(name, 0, i);
            assert(stem@ =~= name@.take(i as int));
            stem
        },
    }
}

fn bytes_spell(bytes: &[u8], lower: &[u8]) -> (held: bool)
    ensures
        held == spells(bytes@, lower@),
{
    if bytes.len() != lower.len() {
        return false;
    }
    for i in 0..bytes.len()
        invariant
            bytes@.len() == lower@.len(),
            forall|j: int| 0 <= j < i ==> lower_byte(#[trigger] bytes@[j]) == lower@[j],
    {
        let b = bytes[i];
        let l = if 0x41 <= b && b <= 0x5a {
            b + 0x20
        } else {
            b
        };
        if l != lower[i] {
            assert(lower_byte(bytes@[i as int]) != lower@[i as int]);
            return false;
        }
    }
    true
}

/// Whether a path is one of a YARA rule file.
pub fn has_rule_extension(path: &[PathPart]) -> (held: bool)
    ensures
        held == is_rule_path(parts(path@)),
{
    match path_file_name(path) {
        None => false,
        Some(name) => match name_extension(name) {
            None => false,
            Some(ending) => {
                let yar: [u8; 3] = [0x79, 0x61, 0x72];
                let yara: [u8; 4] = [0x79, 0x61, 0x72, 0x61];
                assert(yar@ =~= seq![0x79u8, 0x61, 0x72]);
                assert(yara@ =~= seq![0x79u8, 0x61, 0x72, 0x61]);
                bytes_spell(ending, &yar) || bytes_spell(ending, &yara)
            },
        },
    }
}

/// Whether a name, where there is one, is that of a hidden file.
pub fn is_hidden_name(name: Option<&[u8]>) -> (hidden: bool)
    ensures
        hidden == match name {
            Some(bytes) => is_hidden(bytes@),
            None => false,
        },
{
    match name {
        None => false,
        Some(bytes) => {
            if utf8_text(bytes).is_none() || bytes.len() == 0 || bytes[0] != 0x2e {
                return false;
            }
            if bytes.len() == 1 {
                assert(bytes@ =~= seq![0x2eu8]);
                return false;
            }
            if bytes.len() == 2 && bytes[1] == 0x2e {
                assert(bytes@ =~= seq![0x2eu8, 0x2e]);
                return false;
            }
            proof {
                if bytes@ == seq![0x2eu8, 0x2e] {
                    assert(bytes@[1] == 0x2e);
                }
            }
            true
        },
    }
}

/// Whether a name begins with a drive that the platform has.
fn starts_with_drive(name: &[u8], platform: Platform) -> (starts: bool)
    ensures
        starts == (platform is Windows && has_drive(name@)),
{
    match platform {
        Platform::Windows => name.len() >= 2 && ((0x41 <= name[0] && name[0] <= 0x5a) || (0x61
            <= name[0] && name[0] <= 0x7a)) && name[1] == 0x3a,
        _ => false,
    }
}

/// The parts at the beginning of a path that a name with a drive spells there.
fn drive_parts(name: &[u8], more: bool) -> (head: Vec<PathPart>)
    requires
        has_drive(name@),
    ensures
        parts(head@) == seq![PartModel::Prefix(name@.take(2))] + behind_drive(name@.skip(2), more),
{
    let total: usize = name.len();
    let drive = slice_subrange(name, 0, 2);
    let tail = slice_subrange(name, 2, total);
    assert(drive@ =~= name@.take(2));
    assert(tail@ =~= name@.skip(2));
    let mut head: Vec<PathPart> = Vec::new();
    head.push(PathPart::Prefix(slice_to_vec(drive)));
    if tail.len() == 0 {
        if more {
            head.push(PathPart::RootDir);
        }
    } else if tail.len() == 1 && tail[0] == 0x2e {
        assert(tail@ =~= seq![0x2eu8]);
        head.push(PathPart::CurDir);
    } else if tail.len() == 2 && tail[0] == 0x2e && tail[1] == 0x2e {
        assert(tail@ =~= seq![0x2eu8, 0x2e]);
        head.push(PathPart::ParentDir);
    } else {
        proof {
            if tail@ == seq![0x2eu8] {
                assert(tail@[0] == 0x2e);
            }
            if tail@ == seq![0x2eu8, 0x2e] {
                assert(tail@[0] == 0x2e && tail@[1] == 0x2e);
            }
        }
        head.push(PathPart::Normal(slice_to_vec(tail)));
    }
    assert(parts(head@) =~= seq![PartModel::Prefix(name@.take(2))] + behind_drive(
        name@.skip(2),
        more,
    ));
    head
}

/// The path of an archive entry without the directory that archives wrap their content in.
pub fn strip_archive_root(path: &Vec<PathPart>, platform: Platform) -> (rest: Vec<PathPart>)
    ensures
        parts(rest@) == below_root(parts(path@), platform),
        rest@.len() == below_root(parts(path@), platform).len(),
{
    let mut rest: Vec<PathPart> = Vec::new();
    if path.len() < 2 {
        assert(parts(rest@) =~= below_root(parts(path@), platform));
        return rest;
    }
    let ghost all = parts(path@);
    let ghost left = all.skip(1);
    assert(left[0] == path@[1]@);
    let total: usize = path.len();
    let mut i: usize = 1;
    let ghost mut head = Seq::<PartModel>::empty();
    if let PathPart::Normal(name) = &path[1] {
        if starts_with_drive(name, platform) {
            rest = drive_parts(name, total > 2);
            i = 2;
            proof {
                head = parts(rest@);
            }
        }
    }
    let ghost from = i as int;
    assert(parts(rest@) =~= head + all.subrange(from, i as int));
    while i < total
        invariant
            total == path@.len(),
            all == parts(path@),
            1 <= from <= i <= total,
            parts(rest@) == head + all.subrange(from, i as int),
        decreases total - i,
    {
        let ghost before = rest@;
        rest.push(copy_part(&path[i]));
        assert(parts(rest@) =~= parts(before).push(all[i as int]));
        assert(head + all.subrange(from, i + 1) =~= (head + all.subrange(from, i as int)).push(
            all[i as int],
        ));
        i += 1;
    }
    assert(all.subrange(from, total as int) =~= left.skip(from - 1));
    assert(head + left.skip(from - 1) =~= below_root(all, platform));
    assert(parts(rest@).len() == rest@.len());
    rest
}

/// The path that the names of a path make when they are pushed one after the other. Unless one of
/// them begins with a drive, neither a root nor a parent directory is in it.
pub fn sanitize_relative_path(path: &Vec<PathPart>, platform: Platform) -> (sanitized: Vec<
    PathPart,
>)
    ensures
        parts(sanitized@) == names_only(parts(path@), platform),
        sanitized@.len() == names_only(parts(path@), platform).len(),
{
    let mut sanitized: Vec<PathPart> = Vec::new();
    let ghost all = parts(path@);
    assert(all.take(0) =~= Seq::<PartModel>::empty());
    assert(parts(sanitized@) =~= names_only(all.take(0), platform));
    for i in 0..path.len()
        invariant
            all == parts(path@),
            parts(sanitized@) == names_only(all.take(i as int), platform),
    {
        assert(all.take(i + 1).drop_last() =~= all.take(i as int));
        assert(all.take(i + 1).last() == path@[i as int]@);
        let ghost before = sanitized@;
        if let PathPart::Normal(name) = &path[i] {
            if starts_with_drive(name, platform) {
                sanitized = drive_parts(name, false);
                let ghost single = seq![PartModel::Normal(name@)];
                assert(parts(sanitized@) =~= read_anew(single, platform));
            } else {
                sanitized.push(PathPart::Normal(slice_to_vec(name)));
                assert(parts(sanitized@) =~= parts(before).push(path@[i as int]@));
            }
        }
    }
    assert(all.take(all.len() as int) =~= all);
    assert(parts(sanitized@).len() == sanitized@.len());
    sanitized
}

/// A sanitized path is made of names alone, so that it is relative and leads to no parent
/// directory, unless one of the names begins with a drive.
pub proof fn sanitized_path_stays_inside(path: Seq<PartModel>, platform: Platform)
    requires
        is_driveless(path, platform),
    ensures
        forall|i: int|
            0 <= i < names_only(path, platform).len() ==> (#[trigger] names_only(
                path,
                platform,
            )[i]) is Normal,
        names_only(path, platform).len() <= path.len(),
    decreases path.len(),
{
    if path.len() > 0 {
        let before = path.drop_last();
        assert forall|i: int| 0 <= i < before.len() implies #[trigger] before[i] == path[i] by {}
        sanitized_path_stays_inside(before, platform);
        assert(path.last() == path[path.len() - 1]);
    }
}

/// A path of names alone is sanitized already, unless one of them begins with a drive.
pub proof fn sanitizing_keeps_names(path: Seq<PartModel>, platform: Platform)
    requires
        forall|i: int| 0 <= i < path.len() ==> (#[trigger] path[i]) is Normal,
        is_driveless(path, platform),
    ensures
        names_only(path, platform) == path,
    decreases path.len(),
{
    if path.len() > 0 {
        let before = path.drop_last();
        assert forall|i: int| 0 <= i < before.len() implies #[trigger] before[i] == path[i] by {}
        sanitizing_keeps_names(before, platform);
        assert(path.last() == path[path.len() - 1]);
        assert(path.drop_last().push(path.last()) =~= path);
    }
}

/// Whether a drive at its beginning is all that a name has before its extension.
pub open spec fn is_bare_drive(name: Seq<u8>, platform: Platform) -> bool {
    platform is Windows && has_drive(name) && last_dot(name) <= 2
}

/// A name keeps its extension when a drive at its beginning is taken off, unless the drive is all
/// that it has before its extension or the extension is empty.
proof fn lemma_extension_behind_drive(name: Seq<u8>)
    requires
        name.len() >= 2,
        2 < last_dot(name) < name.len() - 1,
    ensures
        extension(name.skip(2)) == extension(name),
        behind_drive(name.skip(2), false) == seq![PartModel::Normal(name.skip(2))],
{
    lemma_last_dot_is_dot(name);
    let i = last_dot(name);
    let tail = name.skip(2);
    assert forall|j: int| i - 2 < j < tail.len() implies #[trigger] tail[j] != 0x2e by {
        assert(name[j + 2] != 0x2e);
    }
    lemma_last_dot(tail, i - 2);
    assert(tail.skip(i - 2 + 1) =~= name.skip(i + 1));
    assert(tail[i - 2] == 0x2e);
}

proof fn lemma_last_dot_is_dot(name: Seq<u8>)
    ensures
        -1 <= last_dot(name) < name.len(),
        last_dot(name) >= 0 ==> name[last_dot(name)] == 0x2e,
        forall|j: int| last_dot(name) < j < name.len() ==> #[trigger] name[j] != 0x2e,
    decreases name.len(),
{
    if name.len() > 0 && name.last() != 0x2e {
        lemma_last_dot_is_dot(name.drop_last());
        assert forall|j: int| last_dot(name) < j < name.len() implies #[trigger] name[j]
            != 0x2e by {
            if j < name.len() - 1 {
                assert(name.drop_last()[j] != 0x2e);
            }
        }
    }
}

/// Sanitizing a path that ends in a name keeps that name at its end, unless it begins with a drive,
/// and with it whether the path is one of a rule file.
pub proof fn sanitizing_keeps_file_name(path: Seq<PartModel>, platform: Platform)
    requires
        file_name(path) is Some,
        !(platform is Windows && has_drive(file_name(path)->0)),
    ensures
        file_name(names_only(path, platform)) == file_name(path),
        is_rule_path(names_only(path, platform)) == is_rule_path(path),
{
}

/// Sanitizing a path of a rule file leaves a path of a rule file, unless a drive is all that its
/// name has before the extension.
pub proof fn sanitizing_keeps_rule_files(path: Seq<PartModel>, platform: Platform)
    requires
        is_rule_path(path),
        !is_bare_drive(file_name(path)->0, platform),
    ensures
        is_rule_path(names_only(path, platform)),
{
    let name = file_name(path)->0;
    if platform is Windows && has_drive(name) {
        lemma_last_dot_is_dot(name);
        assert(extension(name)->0.len() >= 3);
        lemma_extension_behind_drive(name);
        let single = seq![PartModel::Normal(name)];
        assert(single.skip(1) =~= Seq::<PartModel>::empty());
        assert(read_anew(single, platform).last() == PartModel::Normal(name.skip(2)));
    } else {
        sanitizing_keeps_file_name(path, platform);
    }
}

/// Taking off the archive's root keeps a path that leads to a rule file one that does, where
/// something is left and a drive is not all that its name has before the extension.
pub proof fn stripping_keeps_rule_files(path: Seq<PartModel>, platform: Platform)
    requires
        path.len() >= 2,
        is_rule_path(path),
        !is_bare_drive(file_name(path)->0, platform),
    ensures
        is_rule_path(below_root(path, platform)),
{
    let name = file_name(path)->0;
    let rest = path.skip(1);
    assert(rest.last() == path.last());
    if path.len() == 2 {
        assert(rest[0] == path.last());
        if platform is Windows && has_drive(name) {
            lemma_last_dot_is_dot(name);
            assert(extension(name)->0.len() >= 3);
            lemma_extension_behind_drive(name);
            assert(rest.skip(1) =~= Seq::<PartModel>::empty());
            assert(below_root(path, platform).last() == PartModel::Normal(name.skip(2)));
        }
    } else {
        assert(rest.skip(1).last() == path.last());
        assert(below_root(path, platform).last() == path.last());
    }
}

/// A dot before any text makes a hidden name of it, whatever the text holds, unless it is empty or
/// a dot itself; a name that begins otherwise is not hidden, and neither is one that is no text.
pub proof fn dotted_names_are_hidden(t: Seq<char>, name: Seq<u8>)
    ensures
        t.len() > 0 && t != seq!['.'] ==> is_hidden(encode_utf8(seq!['.'] + t)),
        t.len() > 0 && t[0] != '.' ==> !is_hidden(encode_utf8(t)),
        name.len() > 0 && name[0] != 0x2e ==> !is_hidden(name),
        !valid_utf8(name) ==> !is_hidden(name),
        !is_hidden(Seq::empty()),
        !is_hidden(seq![0x2eu8]),
        !is_hidden(seq![0x2eu8, 0x2e]),
{
    let dot = seq!['.'];
    is_ascii_chars_encode_utf8(dot);
    assert(encode_utf8(dot) =~= seq![0x2eu8]);
    text::lemma_encode_concat(dot, t);
    encode_utf8_valid_utf8(dot + t);
    let hidden = encode_utf8(dot + t);
    let rest = encode_utf8(t);
    assert(hidden[0] == 0x2e);
    if t.len() > 0 {
        lemma_encoded_is_not_empty(t);
        assert(hidden.len() == 1 + rest.len());
        if hidden == seq![0x2eu8, 0x2e] {
            assert(hidden[1] == rest[0]);
            assert(rest =~= seq![0x2eu8]);
            encode_utf8_decode_utf8(t);
            encode_utf8_decode_utf8(dot);
            assert(t == dot);
        }
        if t[0] != '.' {
            let head = seq![t[0]];
            let tail = t.drop_first();
            assert(t =~= head + tail);
            text::lemma_encode_concat(head, tail);
            lemma_encoded_is_not_empty(head);
            assert(!head.contains('.'));
            text::lemma_encode_without(head, '.', 0x2e);
            assert(encode_utf8(head).contains(encode_utf8(head)[0]));
            assert(rest[0] == encode_utf8(head)[0]);
        }
    }
    assert(seq![0x2eu8, 0x2e].len() == 2);
}

/// A text that is not empty has bytes.
proof fn lemma_encoded_is_not_empty(t: Seq<char>)
    requires
        t.len() > 0,
    ensures
        encode_utf8(t).len() > 0,
{
    encode_utf8_decode_utf8(t);
    encode_utf8_decode_utf8(Seq::<char>::empty());
    if encode_utf8(t).len() == 0 {
        assert(encode_utf8(t) =~= encode_utf8(Seq::<char>::empty()));
    }
}

/// Whether bytes are the letters `yar` or `yara`, each of them small or capital.
pub open spec fn is_rule_ending(ending: Seq<u8>) -> bool {
    &&& ending.len() == 3 || ending.len() == 4
    &&& ending[0] == 0x79 || ending[0] == 0x59
    &&& ending[1] == 0x61 || ending[1] == 0x41
    &&& ending[2] == 0x72 || ending[2] == 0x52
    &&& ending.len() == 4 ==> ending[3] == 0x61 || ending[3] == 0x41
}

/// What stands behind the last dot of a file's name says whether the file is a rule file, where
/// something stands before that dot; in which directory it is does not matter.
pub proof fn rule_files_are_told_by_their_endings(
    directory: Seq<PartModel>,
    stem: Seq<u8>,
    ending: Seq<u8>,
)
    requires
        !ending.contains(0x2e),
    ensures
        is_rule_path(directory.push(PartModel::Normal(stem + seq![0x2eu8] + ending))) == (stem.len()
            > 0 && is_rule_ending(ending)),
        !is_rule_path(directory.push(PartModel::Normal(ending))),
{
    let name = stem + seq![0x2eu8] + ending;
    let path = directory.push(PartModel::Normal(name));
    assert(path.last() == PartModel::Normal(name));
    lemma_last_dot_before(stem, ending);
    assert(name.skip(stem.len() as int + 1) =~= ending);
    let three = seq![0x79u8, 0x61, 0x72];
    let four = seq![0x79u8, 0x61, 0x72, 0x61];
    if spells(ending, three) {
        assert(lower_byte(ending[0]) == three[0]);
        assert(lower_byte(ending[1]) == three[1]);
        assert(lower_byte(ending[2]) == three[2]);
    }
    if spells(ending, four) {
        assert(lower_byte(ending[0]) == four[0]);
        assert(lower_byte(ending[1]) == four[1]);
        assert(lower_byte(ending[2]) == four[2]);
        assert(lower_byte(ending[3]) == four[3]);
    }
    if is_rule_ending(ending) {
        assert(ending.len() == 3 ==> spells(ending, three));
        assert(ending.len() == 4 ==> spells(ending, four));
    }
    assert(directory.push(PartModel::Normal(ending)).last() == PartModel::Normal(ending));
}

/// A path leads to a file with a name exactly where its last part is that name.
pub proof fn last_name_is_file_name(directory: Seq<PartModel>, part: PartModel)
    ensures
        file_name(directory.push(part)) == match part {
            PartModel::Normal(name) => Some(name),
            _ => None,
        },
        file_name(Seq::empty()) is None,
        !(part is Normal) ==> !is_rule_path(directory.push(part)),
{
    assert(directory.push(part).last() == part);
}

/// Sanitizing keeps every name of a path and drops everything else, each part on its own, unless a
/// name begins with a drive.
pub proof fn sanitizing_is_by_part(a: Seq<PartModel>, b: Seq<PartModel>, platform: Platform)
    requires
        is_driveless(b, platform),
    ensures
        names_only(a + b, platform) == names_only(a, platform) + names_only(b, platform),
        b.len() == 1 && b[0] is Normal ==> names_only(b, platform) == b,
        b.len() == 1 && !(b[0] is Normal) ==> names_only(b, platform).len() == 0,
    decreases b.len(),
{
    if b.len() == 0 {
        assert(a + b =~= a);
        assert(names_only(a, platform) + names_only(b, platform) =~= names_only(a, platform));
    } else {
        let shorter = b.drop_last();
        assert forall|i: int| 0 <= i < shorter.len() implies #[trigger] shorter[i] == b[i] by {}
        sanitizing_is_by_part(a, shorter, platform);
        assert((a + b).drop_last() =~= a + shorter);
        assert((a + b).last() == b.last());
        assert(b.last() == b[b.len() - 1]);
        assert(names_only(a + b, platform) =~= names_only(a, platform) + names_only(b, platform));
        if b.len() == 1 {
            assert(shorter =~= Seq::<PartModel>::empty());
            assert(names_only(shorter, platform) =~= Seq::<PartModel>::empty());
            if b[0] is Normal {
                assert(names_only(b, platform) =~= b);
            }
        }
    }
}

/// Taking off the archive's root takes off the first part and leaves the rest as it is, unless
/// the rest begins with a drive.
pub proof fn stripping_takes_the_root_alone(
    root: PartModel,
    rest: Seq<PartModel>,
    platform: Platform,
)
    requires
        is_driveless(rest, platform),
    ensures
        below_root(seq![root] + rest, platform) == rest,
{
    let path = seq![root] + rest;
    assert(path.skip(1) =~= rest);
    if rest.len() > 0 {
        assert(rest[0] == path[1]);
    }
}

/// The last dot of a name stands where no dot is behind it.
pub proof fn lemma_last_dot_before(stem: Seq<u8>, ending: Seq<u8>)
    requires
        !ending.contains(0x2e),
    ensures
        last_dot(stem + seq![0x2eu8] + ending) == stem.len(),
        last_dot(ending) == -1,
{
    let name = stem + seq![0x2eu8] + ending;
    let i = stem.len() as int;
    assert(name[i] == 0x2e);
    assert forall|j: int| i < j < name.len() implies #[trigger] name[j] != 0x2e by {
        assert(name[j] == ending[j - i - 1]);
        assert(ending.contains(ending[j - i - 1]));
    }
    lemma_last_dot(name, i);
    assert forall|j: int| 0 <= j < ending.len() implies #[trigger] ending[j] != 0x2e by {
        assert(ending.contains(ending[j]));
    }
    lemma_no_dot(ending);
}

/// On Windows a name with a drive is a drive and what follows it where a path begins with it: below
/// the archive's root, and when it is pushed onto a path, which it then takes the place of.
pub proof fn drives_begin_paths_on_windows(
    root: PartModel,
    letter: u8,
    tail: Seq<u8>,
    rest: Seq<PartModel>,
    path: Seq<PartModel>,
)
    requires
        0x41 <= letter <= 0x5a || 0x61 <= letter <= 0x7a,
    ensures
        ({
            let drive = seq![letter, 0x3au8];
            let name = PartModel::Normal(drive + tail);
            let whole = seq![root] + (seq![name] + rest);
            &&& tail.len() > 0 && tail != seq![0x2eu8] && tail != seq![0x2eu8, 0x2e] ==> {
                &&& below_root(whole, Platform::Windows) == seq![
                    PartModel::Prefix(drive),
                    PartModel::Normal(tail),
                ] + rest
                &&& names_only(path.push(name), Platform::Windows) == seq![
                    PartModel::Prefix(drive),
                    PartModel::Normal(tail),
                ]
            }
            &&& tail.len() == 0 && rest.len() > 0 ==> below_root(whole, Platform::Windows) == seq![
                PartModel::Prefix(drive),
                PartModel::RootDir,
            ] + rest
            &&& tail == seq![0x2eu8, 0x2e] ==> below_root(whole, Platform::Windows) == seq![
                PartModel::Prefix(drive),
                PartModel::ParentDir,
            ] + rest
            &&& tail == seq![0x2eu8] ==> below_root(whole, Platform::Windows) == seq![
                PartModel::Prefix(drive),
                PartModel::CurDir,
            ] + rest
        }),
{
    let drive = seq![letter, 0x3au8];
    let bytes = drive + tail;
    let name = PartModel::Normal(bytes);
    let below = seq![name] + rest;
    let whole = seq![root] + below;
    assert(whole.skip(1) =~= below);
    assert(below[0] == name);
    assert(bytes[0] == letter && bytes[1] == 0x3a);
    assert(bytes.take(2) =~= drive);
    assert(bytes.skip(2) =~= tail);
    assert(below.skip(1) =~= rest);
    assert(path.push(name).last() == name);
    let single = seq![name];
    assert(single.skip(1) =~= Seq::<PartModel>::empty());
    let head = seq![PartModel::Prefix(drive)];
    if tail.len() > 0 && tail != seq![0x2eu8] && tail != seq![0x2eu8, 0x2e] {
        assert(head + seq![PartModel::Normal(tail)] + rest =~= seq![
            PartModel::Prefix(drive),
            PartModel::Normal(tail),
        ] + rest);
        assert(head + seq![PartModel::Normal(tail)] + Seq::<PartModel>::empty() =~= seq![
            PartModel::Prefix(drive),
            PartModel::Normal(tail),
        ]);
    }
    assert(head + seq![PartModel::RootDir] + rest =~= seq![
        PartModel::Prefix(drive),
        PartModel::RootDir,
    ] + rest);
    assert(head + seq![PartModel::ParentDir] + rest =~= seq![
        PartModel::Prefix(drive),
        PartModel::ParentDir,
    ] + rest);
    assert(head + seq![PartModel::CurDir] + rest =~= seq![
        PartModel::Prefix(drive),
        PartModel::CurDir,
    ] + rest);
    assert(seq![0x2eu8].len() == 1);
    assert(seq![0x2eu8, 0x2e].len() == 2);
}

/// A row of parts is seen part by part, each with its name.
pub proof fn parts_are_seen_one_by_one(path: Seq<PathPart>, i: int)
    requires
        0 <= i < path.len(),
    ensures
        parts(path).len() == path.len(),
        path[i] matches PathPart::Normal(name) ==> parts(path)[i] == PartModel::Normal(name@),
        path[i] matches PathPart::Prefix(text) ==> parts(path)[i] == PartModel::Prefix(text@),
        path[i] is RootDir ==> parts(path)[i] is RootDir,
        path[i] is CurDir ==> parts(path)[i] is CurDir,
        path[i] is ParentDir ==> parts(path)[i] is ParentDir,
{
}

} // verus!
