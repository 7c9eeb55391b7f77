use astra_sentinel::paths::{PathPart, Platform};
use astra_sentinel::yara::{
    binary_name, collect_rule_files, fallback_yara_locations, find_yara_binary, judge_check,
    judge_check_run, judge_output, judge_run, namespace_of, next_check, next_run, null_device,
    parse_match_data, parse_match_string, parse_yara_output, BinaryCandidate, RuleName, RulesEntry,
    RulesSource, YaraMatch, YaraRun, YaraScanner,
};

fn names(parts: &[&str]) -> Vec<PathPart> {
    parts.iter().map(|part| PathPart::Normal(part.as_bytes().to_vec())).collect()
}

fn finished(success: bool, stdout: &[u8], stderr: &[u8]) -> YaraRun {
    YaraRun::Finished { success, stdout: stdout.to_vec(), stderr: stderr.to_vec() }
}

#[test]
fn parses_yara_rule_output() {
    let matches = parse_yara_output("wannacry sample.bin\n0x10:$a: WNcry@2017\n", "rule_list");
    assert_eq!(matches.len(), 1);
    assert_eq!(matches[0].rule_name, "wannacry");
    assert_eq!(matches[0].strings.len(), 1);
    assert_eq!(matches[0].strings[0].offset, 0x10);
}

#[test]
fn decodes_hex_encoded_match_data() {
    assert_eq!(parse_match_data("{ 57 4e 63 72 79 }"), b"WNcry");
}

#[test]
fn exposes_platform_fallback_locations() {
    let locations = fallback_yara_locations(Platform::MacOs);
    assert!(locations.iter().any(|path| path == "/opt/homebrew/bin/yara"));
    assert!(locations.iter().any(|path| path == "/usr/local/bin/yara"));
}

#[test]
fn other_platforms_have_their_locations() {
    assert_eq!(
        fallback_yara_locations(Platform::Linux),
        vec!["/usr/bin/yara".to_string(), "/usr/local/bin/yara".to_string()]
    );
    assert_eq!(
        fallback_yara_locations(Platform::Windows),
        vec![
            "C:\\Program Files\\YARA\\yara.exe".to_string(),
            "C:\\Program Files (x86)\\YARA\\yara.exe".to_string()
        ]
    );
    assert!(fallback_yara_locations(Platform::Other).is_empty());
    assert_eq!(binary_name(Platform::Windows, "yara"), "yara.exe");
    assert_eq!(binary_name(Platform::Linux, "yara"), "yara");
    assert_eq!(null_device(Platform::Windows), "NUL");
    assert_eq!(null_device(Platform::Other), "/dev/null");
}

#[test]
fn rule_lines_carry_tags() {
    let matches = parse_yara_output("evil [apt, ,loader] /tmp/x\r\nplain /tmp/x\n", "ns");
    assert_eq!(matches.len(), 2);
    assert_eq!(matches[0].rule_name, "evil");
    assert_eq!(matches[0].namespace, "ns");
    assert!(matches[0].tags.is_empty());
    assert_eq!(matches[1].rule_name, "plain");

    let tagged = parse_yara_output("evil [apt,,loader] /tmp/x", "ns");
    assert_eq!(tagged[0].tags, vec!["apt".to_string(), "loader".to_string()]);

    let bare = parse_yara_output("evil [apt]", "ns");
    assert_eq!(bare.len(), 1);
    assert!(bare[0].tags.is_empty());
}

#[test]
fn lines_that_say_nothing_are_passed_over() {
    let matches = parse_yara_output("0x0:$a: lost\n\n   \nalone\nrule file\n0xzz:$b: bad\n", "ns");
    assert_eq!(matches.len(), 1);
    assert_eq!(matches[0].rule_name, "rule");
    assert!(matches[0].strings.is_empty());
}

#[test]
fn strings_go_to_the_rule_before_them() {
    let matches = parse_yara_output("a f\n0x1:$x: one\nb f\n0x2:$y: two\n0x3:$z: { 00 ff }\n", "n");
    assert_eq!(matches.len(), 2);
    assert_eq!(matches[0].strings.len(), 1);
    assert_eq!(matches[1].strings.len(), 2);
    assert_eq!(matches[1].strings[1].name, "$z");
    assert_eq!(matches[1].strings[1].data, vec![0u8, 255]);
}

#[test]
fn string_lines_need_offset_name_and_data() {
    let string = parse_match_string("0x1F: $a : text: more ").unwrap();
    assert_eq!(string.offset, 31);
    assert_eq!(string.name, "$a");
    assert_eq!(string.data, b"text: more");
    assert!(parse_match_string("1F:$a: x").is_none());
    assert!(parse_match_string("0x1F").is_none());
    assert!(parse_match_string("0x1F:$a").is_none());
    assert!(parse_match_string("0x:$a: x").is_none());
    assert_eq!(parse_match_string("0xffffffffffffffff:$a: x").unwrap().offset, u64::MAX);
    assert!(parse_match_string("0x10000000000000000:$a: x").is_none());
}

#[test]
fn data_that_is_not_hexadecimal_stays_as_it_is() {
    assert_eq!(parse_match_data("{ 5 }"), b"{ 5 }");
    assert_eq!(parse_match_data("{ zz }"), b"{ zz }");
    assert_eq!(parse_match_data("WNcry"), b"WNcry");
    assert_eq!(parse_match_data("{}"), b"");
    assert_eq!(parse_match_data("{ 00 FF 0a }"), vec![0u8, 255, 10]);
}

#[test]
fn the_first_file_is_the_binary() {
    let mut candidates = vec![
        BinaryCandidate { path: "/a/yara".to_string(), is_file: false },
        BinaryCandidate { path: "/b/yara".to_string(), is_file: true },
        BinaryCandidate { path: "/c/yara".to_string(), is_file: true },
    ];
    assert_eq!(find_yara_binary(&candidates), Ok(1));
    candidates.truncate(1);
    candidates.push(BinaryCandidate { path: "/d/yara".to_string(), is_file: false });
    assert_eq!(
        find_yara_binary(&candidates),
        Err(
            "yara binary not found. Checked PATH and common install locations: /a/yara, /d/yara"
                .to_string()
        )
    );
    assert_eq!(
        find_yara_binary(&Vec::new()),
        Err("yara binary not found. Checked PATH and common install locations: ".to_string())
    );
}

#[test]
fn rule_files_are_collected() {
    assert_eq!(collect_rule_files(&RulesSource::File(names(&["r", "a.YAR"]))), Ok(vec![0]));
    assert_eq!(
        collect_rule_files(&RulesSource::File(names(&["r", "a.txt"]))),
        Err("rules file must end with .yar or .yara".to_string())
    );
    let entries = vec![
        RulesEntry { is_file: false, path: names(&["r"]) },
        RulesEntry { is_file: true, path: names(&["r", "a.yar"]) },
        RulesEntry { is_file: true, path: names(&["r", "readme.md"]) },
        RulesEntry { is_file: false, path: names(&["r", "d.yara"]) },
        RulesEntry { is_file: true, path: names(&["r", "d.yara", "b.Yara"]) },
    ];
    assert_eq!(collect_rule_files(&RulesSource::Directory(entries)), Ok(vec![1, 4]));
}

#[test]
fn rules_are_checked_in_order() {
    let files = vec!["a.yar".to_string(), "b.yar".to_string()];
    let good = finished(true, b"", b"");
    let absent = finished(false, b"", b"error: could not open file /dev/null");
    let broken = finished(false, b"", b"  a.yar(3): syntax error \n");
    let load = |files: &Vec<String>, runs: Vec<YaraRun>| {
        YaraScanner::load("rules", "/bin/yara", files, &runs)
    };

    assert!(load(&files, Vec::new()).is_none());
    assert!(load(&files, vec![good.clone()]).is_none());
    let (scanner, count) = load(&files, vec![good.clone(), absent]).unwrap().unwrap();
    assert_eq!(count, 2);
    assert_eq!(scanner.rules_path, "rules");
    assert_eq!(scanner.binary_path, "/bin/yara");

    assert_eq!(
        load(&files, vec![good, broken]).unwrap().unwrap_err(),
        "YARA rule error in b.yar: a.yar(3): syntax error"
    );
    assert_eq!(
        load(&files, vec![YaraRun::NotStarted]).unwrap().unwrap_err(),
        "failed to invoke yara for a.yar"
    );
    assert_eq!(
        load(&Vec::new(), Vec::new()).unwrap().unwrap_err(),
        "no .yar or .yara files found at rules"
    );
}

#[test]
fn checks_stop_at_the_first_fault() {
    let files = vec!["a.yar".to_string(), "b.yar".to_string()];
    let good = finished(true, b"", b"");
    assert_eq!(next_check(&files, &Vec::new()), Some(0));
    assert_eq!(next_check(&files, &vec![good.clone()]), Some(1));
    assert_eq!(next_check(&files, &vec![good.clone(), good]), None);
    assert_eq!(next_check(&files, &vec![YaraRun::NotStarted]), None);
    assert_eq!(next_check(&files, &vec![finished(false, b"", b"bad rule")]), None);
    assert_eq!(next_check(&Vec::new(), &Vec::new()), None);
}

#[test]
fn a_rule_check_is_judged_by_its_error_output() {
    assert!(judge_check("a.yar", true, "warning").is_none());
    assert!(judge_check("a.yar", false, "cannot: No such file or directory").is_none());
    assert_eq!(judge_check("a.yar", false, "").unwrap(), "YARA rule error in a.yar: ");
    let lossy = finished(false, b"", b"bad \xff rule\n");
    assert_eq!(judge_check_run("a.yar", &lossy).unwrap(), "YARA rule error in a.yar: bad \u{fffd} rule");
}

fn rule(file: &str) -> RuleName {
    RuleName { shown: format!("r/{file}"), path: names(&["r", file]) }
}

fn scan(files: &[&str], runs: Vec<YaraRun>) -> Option<Result<Vec<YaraMatch>, String>> {
    let scanner = YaraScanner { rules_path: "r".to_string(), binary_path: "y".to_string() };
    let files = files.iter().map(|file| rule(file)).collect();
    scanner.scan_file("f", &files, &runs)
}

#[test]
fn runs_are_judged_together() {
    let matches = scan(
        &["one.yar", "two.yar", "three.x.yar"],
        vec![
            finished(true, b"a f\n", b""),
            finished(false, b" \n", b""),
            finished(false, b"b f\n", b"warning\n"),
        ],
    )
    .unwrap()
    .unwrap();
    assert_eq!(matches.len(), 2);
    assert_eq!(matches[0].namespace, "one");
    assert_eq!(matches[1].namespace, "three.x");

    let failing = vec![finished(true, b"a f\n", b""), finished(false, b"", b" scan failed \n")];
    assert_eq!(
        scan(&["one.yar", "two.yar"], failing.clone()).unwrap().unwrap_err(),
        "yara error: scan failed"
    );
    assert_eq!(
        scan(&["one.yar", "two.yar", "three.yar"], failing).unwrap().unwrap_err(),
        "yara error: scan failed"
    );
    assert_eq!(
        judge_run("f", &rule("one.yar"), &YaraRun::NotStarted).unwrap_err(),
        "failed to invoke yara for rule r/one.yar against f"
    );
    assert!(scan(&[], Vec::new()).unwrap().unwrap().is_empty());
    assert!(scan(&["one.yar"], Vec::new()).is_none());
}

#[test]
fn runs_stop_at_the_first_error() {
    let files = vec![rule("one.yar"), rule("two.yar")];
    let good = finished(true, b"a f\n", b"");
    assert_eq!(next_run("f", &files, &Vec::new()), Some(0));
    assert_eq!(next_run("f", &files, &vec![good.clone()]), Some(1));
    assert_eq!(next_run("f", &files, &vec![good.clone(), good]), None);
    assert_eq!(next_run("f", &files, &vec![YaraRun::NotStarted]), None);
    assert_eq!(next_run("f", &files, &vec![finished(false, b"", b"broken")]), None);
    assert_eq!(next_run("f", &Vec::new(), &Vec::new()), None);
}

#[test]
fn output_that_is_not_text_is_read_as_far_as_it_goes() {
    let run = finished(true, b"rule \xfe\n0x0:$a: caf\xc3\xa9\n", b"");
    let matches = judge_run("f", &rule("r.yar"), &run).unwrap();
    assert_eq!(matches.len(), 1);
    assert_eq!(matches[0].strings[0].data, "caf\u{e9}".as_bytes());
    assert_eq!(judge_output("n", true, "a f", "").unwrap()[0].namespace, "n");
}

#[test]
fn namespaces_come_from_file_names() {
    assert_eq!(namespace_of(&names(&["rules", "apt.yar"])), "apt");
    assert_eq!(namespace_of(&names(&["rules", ".yar"])), ".yar");
    assert_eq!(namespace_of(&names(&["rules", "plain"])), "plain");
    assert_eq!(namespace_of(&[PathPart::RootDir]), "default");
    assert_eq!(namespace_of(&[PathPart::Normal(vec![0xff, 0x2e, 0x79])]), "default");
}
