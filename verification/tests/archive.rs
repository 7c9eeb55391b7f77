use astra_sentinel::archive::{
    extract_rules, read_rule, rule_destination, ArchiveFault, EntryHeader, Extraction,
};
use astra_sentinel::paths::{PathPart, Platform};
use std::io::{Cursor, Write};
use zip::write::SimpleFileOptions;
use zip::{CompressionMethod, ZipWriter};

fn name(text: &str) -> PathPart {
    PathPart::Normal(text.as_bytes().to_vec())
}

fn archive(entries: &[(&str, &str)], method: CompressionMethod) -> Vec<u8> {
    let mut writer = ZipWriter::new(Cursor::new(Vec::new()));
    let options = SimpleFileOptions::default().compression_method(method);
    for (path, content) in entries {
        if path.ends_with('/') {
            writer.add_directory(*path, options).unwrap();
        } else {
            writer.start_file(*path, options).unwrap();
            writer.write_all(content.as_bytes()).unwrap();
        }
    }
    writer.finish().unwrap().into_inner()
}

fn shown(out: &Extraction) -> Vec<(String, String)> {
    out.files
        .iter()
        .map(|file| {
            let names: Vec<String> = file
                .path
                .iter()
                .map(|part| match part {
                    PathPart::Normal(bytes) => String::from_utf8(bytes.clone()).unwrap(),
                    other => format!("{other:?}"),
                })
                .collect();
            (names.join("/"), String::from_utf8(file.content.clone()).unwrap())
        })
        .collect()
}

fn pair(path: &str, content: &str) -> (String, String) {
    (path.to_string(), content.to_string())
}

#[test]
fn rules_are_taken_out_of_an_archive() {
    let entries = [
        ("rules-master/", ""),
        ("rules-master/README.md", "read me"),
        ("rules-master/apt/one.yar", "rule one { condition: true }"),
        ("rules-master/TWO.YARA", "rule two"),
        ("top.yar", "has no root"),
        ("rules-master/apt/empty.yar", ""),
    ];
    for method in [CompressionMethod::Stored, CompressionMethod::Deflated] {
        let out = extract_rules(archive(&entries, method), Platform::Linux);
        assert!(out.fault.is_none());
        assert_eq!(
            shown(&out),
            vec![
                pair("apt/one.yar", "rule one { condition: true }"),
                pair("TWO.YARA", "rule two"),
                pair("apt/empty.yar", ""),
            ]
        );
    }
}

#[test]
fn paths_that_lead_outside_are_left_out() {
    let entries = [
        ("../../etc/evil.yar", "up"),
        ("/abs/evil.yar", "root"),
        ("root/a/../b.yar", "inside"),
    ];
    let out = extract_rules(archive(&entries, CompressionMethod::Stored), Platform::Linux);
    assert!(out.fault.is_none());
    for (path, _) in shown(&out) {
        assert!(!path.contains(".."), "{path}");
        assert!(!path.starts_with('/'), "{path}");
    }
    assert!(shown(&out).contains(&pair("a/b.yar", "inside")));
}

#[test]
fn an_archive_without_entries_has_no_rules() {
    let out = extract_rules(archive(&[], CompressionMethod::Stored), Platform::Linux);
    assert!(out.files.is_empty());
    assert!(out.fault.is_none());
}

#[test]
fn bytes_that_are_no_archive_are_refused() {
    let out = extract_rules(b"not a zip file".to_vec(), Platform::Linux);
    assert!(out.files.is_empty());
    assert!(matches!(out.fault, Some(ArchiveFault::NotAnArchive)));
    let nothing = extract_rules(Vec::new(), Platform::Linux);
    assert!(matches!(nothing.fault, Some(ArchiveFault::NotAnArchive)));
}

#[test]
fn a_broken_rule_file_ends_the_extraction() {
    let entries = [("r/a.yar", "first"), ("r/b.yar", "BROKEN-CONTENT"), ("r/c.yar", "third")];
    let mut bytes = archive(&entries, CompressionMethod::Stored);
    let at = bytes.windows(6).position(|part| part == b"BROKEN").unwrap();
    bytes[at] = b'X';
    let out = extract_rules(bytes, Platform::Linux);
    assert_eq!(shown(&out), vec![pair("a.yar", "first")]);
    match out.fault {
        Some(ArchiveFault::UnreadableContent { path, .. }) => {
            assert_eq!(path, vec![name("b.yar")]);
        }
        other => panic!("{other:?}"),
    }
}

#[test]
fn a_broken_file_that_is_no_rule_does_no_harm() {
    let entries = [("r/a.txt", "BROKEN-CONTENT"), ("r/b.yar", "second")];
    let mut bytes = archive(&entries, CompressionMethod::Stored);
    let at = bytes.windows(6).position(|part| part == b"BROKEN").unwrap();
    bytes[at] = b'X';
    let out = extract_rules(bytes, Platform::Linux);
    assert!(out.fault.is_none());
    assert_eq!(shown(&out), vec![pair("b.yar", "second")]);
}

#[test]
fn an_entry_that_cannot_be_opened_ends_the_extraction() {
    let entries = [("r/a.yar", "first"), ("r/b.yar", "second")];
    let mut bytes = archive(&entries, CompressionMethod::Stored);
    let second = (1..bytes.len()).find(|&i| bytes[i..].starts_with(b"PK\x03\x04")).unwrap();
    bytes[second] = b'X';
    let out = extract_rules(bytes, Platform::Linux);
    assert_eq!(shown(&out), vec![pair("a.yar", "first")]);
    assert!(matches!(out.fault, Some(ArchiveFault::UnreadableEntry)));
}

#[test]
fn only_rule_files_have_a_destination() {
    let place = |is_file: bool, path: Option<Vec<PathPart>>| {
        rule_destination(&EntryHeader { is_file, path }, Platform::Linux)
    };
    let path = vec![name("root"), PathPart::ParentDir, name("a"), name("b.yar")];
    assert_eq!(place(true, Some(path.clone())), Some(vec![name("a"), name("b.yar")]));
    assert_eq!(place(false, Some(path)), None);
    assert_eq!(place(true, None), None);
    assert_eq!(place(true, Some(vec![name("root"), name("b.txt")])), None);
    assert_eq!(place(true, Some(vec![name("b.yar")])), None);
}

#[test]
fn a_drive_below_the_root_is_no_name() {
    let place = |path: Vec<PathPart>, platform: Platform| {
        rule_destination(&EntryHeader { is_file: true, path: Some(path) }, platform)
    };
    let path = vec![name("root"), name("C:x.yar")];
    assert_eq!(place(path.clone(), Platform::Windows), Some(vec![name("x.yar")]));
    assert_eq!(place(path, Platform::Linux), Some(vec![name("C:x.yar")]));
    let path = vec![name("root"), name("C:"), name("x.yar")];
    assert_eq!(place(path, Platform::Windows), Some(vec![name("x.yar")]));
    let path = vec![name("root"), name("a"), name("C:x.yar")];
    assert_eq!(
        place(path, Platform::Windows),
        Some(vec![PathPart::Prefix(b"C:".to_vec()), name("x.yar")])
    );
}

#[test]
fn entry_names_are_divided_at_slashes() {
    let entries = [
        ("./root/a.yar", "dot"),
        ("root//b//c.yar", "double"),
        ("root/./d/./e.yar", "dots"),
        ("root/f/../g.yar", "up"),
        ("root/\u{e9}/h.yar", "accent"),
    ];
    let bytes = archive(&entries, CompressionMethod::Stored);
    for platform in [Platform::Linux, Platform::Windows] {
        assert_eq!(
            shown(&extract_rules(bytes.clone(), platform)),
            vec![
                pair("root/a.yar", "dot"),
                pair("b/c.yar", "double"),
                pair("d/e.yar", "dots"),
                pair("f/g.yar", "up"),
                pair("\u{e9}/h.yar", "accent"),
            ]
        );
    }
}

#[test]
fn what_was_read_is_kept() {
    let path = vec![name("a.yar")];
    let file = read_rule(path.clone(), b"all".to_vec(), true).unwrap();
    assert_eq!(file.path, path);
    assert_eq!(file.content, b"all");
    match read_rule(path.clone(), b"beg".to_vec(), false) {
        Err(ArchiveFault::UnreadableContent { path: place, beginning }) => {
            assert_eq!(place, path);
            assert_eq!(beginning, b"beg");
        }
        other => panic!("{other:?}"),
    }
}
