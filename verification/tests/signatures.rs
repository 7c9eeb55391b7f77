use astra_sentinel::signatures::{add_signature, HashAlgorithm, SignatureDb, SignatureError};

#[test]
fn algorithms_have_names_and_lengths() {
    assert_eq!(
        HashAlgorithm::variants(),
        [HashAlgorithm::Md5, HashAlgorithm::Sha1, HashAlgorithm::Sha256]
    );
    assert_eq!(HashAlgorithm::Md5.as_str(), "MD5");
    assert_eq!(HashAlgorithm::Sha1.to_string(), "SHA1");
    assert_eq!(HashAlgorithm::Sha256.as_str(), "SHA256");
    assert_eq!(HashAlgorithm::Md5.expected_hex_len(), 32);
    assert_eq!(HashAlgorithm::Sha1.expected_hex_len(), 40);
    assert_eq!(HashAlgorithm::Sha256.expected_hex_len(), 64);
}

#[test]
fn algorithms_are_read_in_any_case() {
    assert_eq!(HashAlgorithm::try_from(" md5 "), Ok(HashAlgorithm::Md5));
    assert_eq!(HashAlgorithm::try_from("Sha1"), Ok(HashAlgorithm::Sha1));
    assert_eq!(HashAlgorithm::try_from("SHA256\n"), Ok(HashAlgorithm::Sha256));
    assert_eq!(
        HashAlgorithm::try_from("sha512"),
        Err("unsupported hash type: SHA512".to_string())
    );
}

#[test]
fn databases_are_read_line_by_line() {
    let content = "# comment\n\n  MD5 | ABCD | Threat | with bar \r\nSHA1|ef\nplain\nX|ABcd|later\nlast|01|end";
    let db = SignatureDb::load("db", content.as_bytes(), true).unwrap();
    assert_eq!(db.count(), 2);
    assert_eq!(db.lookup("abcd").unwrap().threat_name, "later");
    assert_eq!(db.lookup("ABCD").unwrap().hash, "abcd");
    assert_eq!(db.lookup("01").unwrap().threat_name, "end");
    assert!(db.lookup("ef").is_none());
    assert!(db.lookup("").is_none());

    let bars = SignatureDb::load("db", b"MD5|aa|one | two", true).unwrap();
    assert_eq!(bars.lookup("AA").unwrap().threat_name, "one | two");
}

#[test]
fn unreadable_lines_are_named() {
    let fault = |content: &[u8], complete: bool| match SignatureDb::load("sig.txt", content, complete) {
        Ok(_) => String::new(),
        Err(message) => message,
    };
    assert_eq!(
        fault(b"ok\n\xff\xfe\n", true),
        "failed to read signature database line 2 from sig.txt"
    );
    assert_eq!(
        fault(b"one\ntwo\nthr", false),
        "failed to read signature database line 3 from sig.txt"
    );
    assert_eq!(fault(b"one\ntwo\nthr", true), "");
}

#[test]
fn empty_databases_know_nothing() {
    assert_eq!(SignatureDb::default().count(), 0);
    assert!(SignatureDb::new().lookup("aa").is_none());
}

#[test]
fn signatures_are_checked_before_they_are_added() {
    let md5 = "900150983CD24FB0D6963F7D28E17F72";
    assert_eq!(
        add_signature(HashAlgorithm::Md5, &format!(" {md5}\t"), "  Beacon v1 ").unwrap(),
        "MD5|900150983cd24fb0d6963f7d28e17f72|Beacon v1\n"
    );
    let fault = add_signature(HashAlgorithm::Md5, md5, " \t").unwrap_err();
    assert!(matches!(fault, SignatureError::MissingThreatName));
    assert_eq!(fault.message(), "threat name is required");
    let fault = add_signature(HashAlgorithm::Sha256, md5, "x").unwrap_err();
    assert!(matches!(fault, SignatureError::WrongLength(HashAlgorithm::Sha256)));
    assert_eq!(fault.message(), "SHA256 hashes must be 64 hexadecimal characters");
    let fault = add_signature(HashAlgorithm::Md5, "g00150983cd24fb0d6963f7d28e17f72", "x").unwrap_err();
    assert!(matches!(fault, SignatureError::NotHexadecimal));
    assert_eq!(fault.message(), "hash must contain only hexadecimal characters");
}

#[test]
fn what_was_added_is_found() {
    let before = "# head\nMD5|aa|old\nloose end ";
    let record = add_signature(HashAlgorithm::Sha1, &"Ab".repeat(20), "New").unwrap();
    let db = SignatureDb::load("db", format!("{before}{record}").as_bytes(), true).unwrap();
    assert_eq!(db.count(), 2);
    assert_eq!(db.lookup(&"aB".repeat(20)).unwrap().threat_name, "New");
    assert_eq!(db.lookup("aa").unwrap().threat_name, "old");
}

#[test]
fn comments_change_nothing() {
    let content = "MD5|aa|one\n";
    let plain = SignatureDb::load("db", content.as_bytes(), true).unwrap();
    for line in ["# MD5|bb|two", "   ", "no record", "only|two"] {
        let longer = format!("{content}{line}\n");
        let db = SignatureDb::load("db", longer.as_bytes(), true).unwrap();
        assert_eq!(db.count(), plain.count());
        assert_eq!(db.lookup("aa").unwrap().threat_name, "one");
        assert!(db.lookup("bb").is_none());
    }
}
