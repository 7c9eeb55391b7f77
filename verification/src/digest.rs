//! The MD5, SHA-1 and SHA-256 hashes of a file, taken in one pass.

use crate::hex;
use crate::hex::encode_hex;
use crate::signatures;
use crate::signatures::HashAlgorithm;
use crate::text;
use crate::text::CharClass;
use md5::Digest;
use vstd::prelude::*;
use vstd::utf8::*;

verus! {

/// The MD5 state of the `md-5` crate, `md5::Md5`: the bytes that it was fed with.
#[verifier::external_body]
pub struct Md5State {
    inner: md5::Md5,
}

/// The SHA-1 state of the `sha1` crate, `sha1::Sha1`: the bytes that it was fed with.
#[verifier::external_body]
pub struct Sha1State {
    inner: sha1::Sha1,
}

/// The SHA-256 state of the `sha2` crate, `sha2::Sha256`: the bytes that it was fed with.
#[verifier::external_body]
pub struct Sha256State {
    inner: sha2::Sha256,
}

/// The bytes that an MD5 state holds.
pub uninterp spec fn md5_fed(state: Md5State) -> Seq<u8>;

/// The bytes that a SHA-1 state holds.
pub uninterp spec fn sha1_fed(state: Sha1State) -> Seq<u8>;

/// The bytes that a SHA-256 state holds.
pub uninterp spec fn sha256_fed(state: Sha256State) -> Seq<u8>;

/// The MD5 hash of bytes, as `md5::Md5` computes it.
pub uninterp spec fn md5_digest(data: Seq<u8>) -> Seq<u8>;

/// The SHA-1 hash of bytes, as `sha1::Sha1` computes it.
pub uninterp spec fn sha1_digest(data: Seq<u8>) -> Seq<u8>;

/// The SHA-256 hash of bytes, as `sha2::Sha256` computes it.
pub uninterp spec fn sha256_digest(data: Seq<u8>) -> Seq<u8>;

/// How many bytes are too many for the 64 bit counter of the bits that were hashed.
pub const MAX_HASHED_BYTES: u64 = 0x2000_0000_0000_0000;

/// `md5::Md5::new` makes a state that was fed with nothing.
#[verifier::external_body]
fn md5_new() -> (state: Md5State)
    ensures
        md5_fed(state) == Seq::<u8>::empty(),
{
    Md5State { inner: md5::Md5::new() }
}

/// `md5::Md5::update` feeds a state with more bytes.
#[verifier::external_body]
fn md5_update(state: &mut Md5State, chunk: &[u8])
    ensures
        md5_fed(*final(state)) == md5_fed(*old(state)) + chunk@,
{
    state.inner.update(chunk);
}

/// `md5::Md5::finalize` gives the 16 bytes of the MD5 hash of what the state was fed with.
#[verifier::external_body]
fn md5_finalize(state: Md5State) -> (hash: Vec<u8>)
    ensures
        hash@ == md5_digest(md5_fed(state)),
        hash@.len() == 16,
{
    state.inner.finalize().to_vec()
}

/// `sha1::Sha1::new` makes a state that was fed with nothing.
#[verifier::external_body]
fn sha1_new() -> (state: Sha1State)
    ensures
        sha1_fed(state) == Seq::<u8>::empty(),
{
    Sha1State { inner: sha1::Sha1::new() }
}

/// `sha1::Sha1::update` feeds a state with more bytes. It counts them in blocks.
#[verifier::external_body]
fn sha1_update(state: &mut Sha1State, chunk: &[u8])
    requires
        sha1_fed(*old(state)).len() + chunk@.len() < MAX_HASHED_BYTES,
    ensures
        sha1_fed(*final(state)) == sha1_fed(*old(state)) + chunk@,
{
    state.inner.update(chunk);
}

/// `sha1::Sha1::finalize` gives the 20 bytes of the SHA-1 hash of what the state was fed with. It
/// counts the bits of it in 64 bits.
#[verifier::external_body]
fn sha1_finalize(state: Sha1State) -> (hash: Vec<u8>)
    requires
        sha1_fed(state).len() < MAX_HASHED_BYTES,
    ensures
        hash@ == sha1_digest(sha1_fed(state)),
        hash@.len() == 20,
{
    state.inner.finalize().to_vec()
}

/// `sha2::Sha256::new` makes a state that was fed with nothing.
#[verifier::external_body]
fn sha256_new() -> (state: Sha256State)
    ensures
        sha256_fed(state) == Seq::<u8>::empty(),
{
    Sha256State { inner: sha2::Sha256::new() }
}

/// `sha2::Sha256::update` feeds a state with more bytes. It counts them in blocks.
#[verifier::external_body]
fn sha256_update(state: &mut Sha256State, chunk: &[u8])
    requires
        sha256_fed(*old(state)).len() + chunk@.len() < MAX_HASHED_BYTES,
    ensures
        sha256_fed(*final(state)) == sha256_fed(*old(state)) + chunk@,
{
    state.inner.update(chunk);
}

/// `sha2::Sha256::finalize` gives the 32 bytes of the SHA-256 hash of what the state was fed with.
/// It counts the bits of it in 64 bits.
#[verifier::external_body]
fn sha256_finalize(state: Sha256State) -> (hash: Vec<u8>)
    requires
        sha256_fed(state).len() < MAX_HASHED_BYTES,
    ensures
        hash@ == sha256_digest(sha256_fed(state)),
        hash@.len() == 32,
{
    state.inner.finalize().to_vec()
}

/// The three hashes of a file as lower case hexadecimal text.
#[derive(Clone, Debug)]
pub struct FileHashes {
    pub md5: String,
    pub sha1: String,
    pub sha256: String,
}

impl FileHashes {
    /// Whether these are the hashes of the bytes.
    pub open spec fn are_of(self, data: Seq<u8>) -> bool {
        &&& self.md5@ == hex::hex_encoded(md5_digest(data))
        &&& self.sha1@ == hex::hex_encoded(sha1_digest(data))
        &&& self.sha256@ == hex::hex_encoded(sha256_digest(data))
    }

    /// The hash of an algorithm.
    pub open spec fn of(self, algorithm: HashAlgorithm) -> Seq<char> {
        match algorithm {
            HashAlgorithm::Md5 => self.md5@,
            HashAlgorithm::Sha1 => self.sha1@,
            HashAlgorithm::Sha256 => self.sha256@,
        }
    }
}

/// Hashes a file that is read in chunks.
pub struct FileHasher {
    md5: Md5State,
    sha1: Sha1State,
    sha256: Sha256State,
    length: u64,
}

impl View for FileHasher {
    type V = Seq<u8>;

    /// The bytes that were read so far.
    closed spec fn view(&self) -> Seq<u8> {
        md5_fed(self.md5)
    }
}

impl FileHasher {
    /// The three states were fed with the same bytes, and not with too many.
    #[verifier::type_invariant]
    closed spec fn in_step(self) -> bool {
        &&& sha1_fed(self.sha1) == md5_fed(self.md5)
        &&& sha256_fed(self.sha256) == md5_fed(self.md5)
        &&& self.length == md5_fed(self.md5).len()
        &&& self.length < MAX_HASHED_BYTES
    }

    /// Starts on an empty file.
    pub fn new() -> (hasher: FileHasher)
        ensures
            hasher@ == Seq::<u8>::empty(),
    {
        FileHasher { md5: md5_new(), sha1: sha1_new(), sha256: sha256_new(), length: 0 }
    }

    /// How many bytes were read so far.
    pub fn len(&self) -> (length: u64)
        ensures
            length == self@.len(),
            length < MAX_HASHED_BYTES,
    {
        proof {
            use_type_invariant(self);
        }
        self.length
    }

    /// Takes in the next chunk.
    pub fn update(self, chunk: &[u8]) -> (fed: FileHasher)
        requires
            self@.len() + chunk@.len() < MAX_HASHED_BYTES,
        ensures
            fed@ == self@ + chunk@,
    {
        proof {
            use_type_invariant(&self);
        }
        let FileHasher { mut md5, mut sha1, mut sha256, length } = self;
        md5_update(&mut md5, chunk);
        sha1_update(&mut sha1, chunk);
        sha256_update(&mut sha256, chunk);
        FileHasher { md5, sha1, sha256, length: length + chunk.len() as u64 }
    }

    /// The hashes of what was read.
    pub fn finish(self) -> (hashes: FileHashes)
        ensures
            hashes.are_of(self@),
            forall|algorithm: HashAlgorithm|
                (#[trigger] hashes.of(algorithm)).len() == algorithm.hex_len(),
    {
        proof {
            use_type_invariant(&self);
        }
        let FileHasher { md5, sha1, sha256, length: _ } = self;
        let md5 = encode_hex(&md5_finalize(md5));
        let sha1 = encode_hex(&sha1_finalize(sha1));
        let sha256 = encode_hex(&sha256_finalize(sha256));
        FileHashes { md5, sha1, sha256 }
    }
}

/// How a file falls into chunks does not change its hashes: they depend on its bytes alone.
pub proof fn same_bytes_have_same_hashes(
    data: Seq<u8>,
    one: FileHashes,
    other: FileHashes,
    algorithm: HashAlgorithm,
)
    requires
        one.are_of(data),
        other.are_of(data),
    ensures
        one.of(algorithm) == other.of(algorithm),
{
}

/// A hash that was computed can be added to the database as it stands: hexadecimal text of the
/// length that the algorithm gives has no fault, and is kept unchanged, under any threat name
/// that is not blank.
pub proof fn computed_hash_is_accepted(
    algorithm: HashAlgorithm,
    digest: Seq<u8>,
    threat_name: Seq<char>,
)
    requires
        2 * digest.len() == algorithm.hex_len(),
        text::trimmed(threat_name).len() > 0,
    ensures
        signatures::signature_fault(algorithm, hex::hex_encoded(digest), threat_name) is None,
        signatures::normalized_hash(hex::hex_encoded(digest)) == hex::hex_encoded(digest),
{
    let hash = hex::hex_encoded(digest);
    assert forall|i: int| 0 <= i < hash.len() implies signatures::is_hex_char(#[trigger] hash[i])
        && text::lower_char(hash[i]) == hash[i] && !text::is_white_space(hash[i]) by {
        let byte = digest[i / 2];
        assert(byte / 16 < 16 && byte % 16 < 16);
    }
    text::lemma_trim_fixed(hash, CharClass::WhiteSpace);
    assert(text::lower(hash) =~= hash);
    is_ascii_chars_encode_utf8(hash);
}

/// The hashes of a file are those of all its bytes, each by its own algorithm, in lower case
/// hexadecimal.
pub proof fn hashes_are_of_all_bytes(hashes: FileHashes, data: Seq<u8>)
    requires
        hashes.are_of(data),
    ensures
        hashes.of(HashAlgorithm::Md5) == hex::hex_encoded(md5_digest(data)),
        hashes.of(HashAlgorithm::Sha1) == hex::hex_encoded(sha1_digest(data)),
        hashes.of(HashAlgorithm::Sha256) == hex::hex_encoded(sha256_digest(data)),
        hashes.of(HashAlgorithm::Md5) == hashes.md5@,
        hashes.of(HashAlgorithm::Sha1) == hashes.sha1@,
        hashes.of(HashAlgorithm::Sha256) == hashes.sha256@,
{
}

} // verus!
