use astra_sentinel::paths::{
    has_rule_extension, name_stem, path_file_name, sanitize_relative_path, strip_archive_root,
    PathPart, Platform,
};

fn name(text: &str) -> PathPart {
    PathPart::Normal(text.as_bytes().to_vec())
}

#[test]
fn rule_extensions_are_recognised() {
    assert!(has_rule_extension(&[name("a"), name("b.yar")]));
    assert!(has_rule_extension(&[name("b.x.YaRa")]));
    assert!(!has_rule_extension(&[name("b.yara.txt")]));
    assert!(!has_rule_extension(&[name(".yar")]));
    assert!(!has_rule_extension(&[name("yar")]));
    assert!(!has_rule_extension(&[name("a.yar"), PathPart::ParentDir]));
    assert!(!has_rule_extension(&[]));
}

#[test]
fn the_last_name_is_the_file_name() {
    assert_eq!(path_file_name(&[PathPart::RootDir, name("x")]), Some("x".as_bytes()));
    assert_eq!(path_file_name(&[name("x"), PathPart::ParentDir]), None);
    assert_eq!(name_stem(b"a.b.c"), b"a.b");
    assert_eq!(name_stem(b".bashrc"), b".bashrc");
    assert_eq!(name_stem(b"plain"), b"plain");
}

fn prefix(text: &str) -> PathPart {
    PathPart::Prefix(text.as_bytes().to_vec())
}

#[test]
fn sanitized_paths_hold_names_only() {
    let path = vec![
        prefix("C:"),
        PathPart::RootDir,
        PathPart::CurDir,
        name("a"),
        PathPart::ParentDir,
        name("b.yar"),
    ];
    for platform in [Platform::Linux, Platform::MacOs, Platform::Windows, Platform::Other] {
        let sanitize = |path: &Vec<PathPart>| sanitize_relative_path(path, platform);
        assert_eq!(sanitize(&path), vec![name("a"), name("b.yar")]);
        assert_eq!(sanitize(&vec![name("a")]), vec![name("a")]);
        assert!(sanitize(&vec![PathPart::ParentDir]).is_empty());
    }
}

#[test]
fn a_pushed_drive_starts_anew() {
    let path = vec![name("a"), name("C:x.yar"), name("y.yar")];
    assert_eq!(sanitize_relative_path(&path, Platform::Linux), path);
    assert_eq!(
        sanitize_relative_path(&path, Platform::Windows),
        vec![prefix("C:"), name("x.yar"), name("y.yar")]
    );
}

#[test]
fn the_archive_root_is_left_out() {
    for platform in [Platform::Linux, Platform::Windows] {
        assert_eq!(
            strip_archive_root(&vec![name("rules-master"), name("a"), name("b.yar")], platform),
            vec![name("a"), name("b.yar")]
        );
        assert!(strip_archive_root(&vec![name("b.yar")], platform).is_empty());
        assert!(strip_archive_root(&Vec::new(), platform).is_empty());
    }
}

#[test]
fn what_is_below_the_root_is_read_anew() {
    let strip = |below: Vec<PathPart>, platform: Platform| {
        let mut path = vec![name("root")];
        path.extend(below);
        strip_archive_root(&path, platform)
    };
    let windows = Platform::Windows;
    assert_eq!(strip(vec![name("C:x.yar")], Platform::Linux), vec![name("C:x.yar")]);
    assert_eq!(strip(vec![name("C:x.yar")], windows), vec![prefix("C:"), name("x.yar")]);
    assert_eq!(
        strip(vec![name("c:"), name("x.yar")], windows),
        vec![prefix("c:"), PathPart::RootDir, name("x.yar")]
    );
    assert_eq!(strip(vec![name("z:")], windows), vec![prefix("z:")]);
    assert_eq!(
        strip(vec![name("C:."), name("x")], windows),
        vec![prefix("C:"), PathPart::CurDir, name("x")]
    );
    assert_eq!(
        strip(vec![name("C:.."), name("x")], windows),
        vec![prefix("C:"), PathPart::ParentDir, name("x")]
    );
    assert_eq!(strip(vec![name("1:x")], windows), vec![name("1:x")]);
    assert_eq!(strip(vec![name("a"), name("C:x")], windows), vec![name("a"), name("C:x")]);
}
