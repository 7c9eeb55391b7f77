use astra_sentinel::digest::FileHasher;
use astra_sentinel::hex::{decode_hex, encode_hex, push_hex_number, HexError};
use astra_sentinel::signatures::{add_signature, HashAlgorithm};

#[test]
fn known_digests_are_computed() {
    let empty = FileHasher::new().finish();
    assert_eq!(empty.md5, "d41d8cd98f00b204e9800998ecf8427e");
    assert_eq!(empty.sha1, "da39a3ee5e6b4b0d3255bfef95601890afd80709");
    assert_eq!(empty.sha256, "e3b0c44298fc1c149afbf4c8996fb92427ae41e4649b934ca495991b7852b855");

    let abc = FileHasher::new().update(b"abc").finish();
    assert_eq!(abc.md5, "900150983cd24fb0d6963f7d28e17f72");
    assert_eq!(abc.sha1, "a9993e364706816aba3e25717850c26c9cd0d89d");
    assert_eq!(abc.sha256, "ba7816bf8f01cfea414140de5dae2223b00361a396177a9cb410ff61f20015ad");
}

#[test]
fn chunks_do_not_change_digests() {
    let data: Vec<u8> = (0..20_000u32).map(|i| (i * 7 % 251) as u8).collect();
    let whole = FileHasher::new().update(&data).finish();
    let mut hasher = FileHasher::new();
    for chunk in data.chunks(8192) {
        hasher = hasher.update(chunk);
    }
    assert_eq!(hasher.len(), 20_000);
    let chunked = hasher.finish();
    assert_eq!(whole.md5, chunked.md5);
    assert_eq!(whole.sha1, chunked.sha1);
    assert_eq!(whole.sha256, chunked.sha256);
}

#[test]
fn computed_hashes_can_be_added() {
    let hashes = FileHasher::new().update(b"payload").finish();
    assert_eq!(
        add_signature(HashAlgorithm::Md5, &hashes.md5, "p").unwrap(),
        format!("MD5|{}|p\n", hashes.md5)
    );
    assert!(add_signature(HashAlgorithm::Sha1, &hashes.sha1, "p").is_ok());
    assert!(add_signature(HashAlgorithm::Sha256, &hashes.sha256, "p").is_ok());
}

#[test]
fn hexadecimal_is_read_back() {
    let bytes: Vec<u8> = (0..=255u8).collect();
    assert_eq!(decode_hex(&encode_hex(&bytes)).unwrap(), bytes);
    assert_eq!(encode_hex(&[0, 10, 255]), "000aff");
    assert_eq!(decode_hex("0AfF").unwrap(), vec![10, 255]);
    assert_eq!(decode_hex("").unwrap(), Vec::<u8>::new());
    assert_eq!(decode_hex("+f").unwrap(), vec![15]);
}

#[test]
fn bad_hexadecimal_is_refused() {
    assert!(matches!(decode_hex("abc"), Err(HexError::OddLength)));
    assert!(matches!(decode_hex("0g"), Err(HexError::NotHexadecimal)));
    assert!(matches!(decode_hex("-1"), Err(HexError::NotHexadecimal)));
    assert!(matches!(decode_hex("a\u{e9}b"), Err(HexError::NotUtf8)));
}

#[test]
fn numbers_are_written_in_hexadecimal() {
    let write = |n: u64| {
        let mut out = String::from("0x");
        push_hex_number(&mut out, n);
        out
    };
    assert_eq!(write(0), "0x0");
    assert_eq!(write(255), "0xff");
    assert_eq!(write(4096), "0x1000");
    assert_eq!(write(u64::MAX), format!("0x{:x}", u64::MAX));
}
