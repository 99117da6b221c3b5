//! The hashes that stand for files in a hash package.
//!
//! Two schemes: a SHA-256 digest of the relative path followed by the first
//! `HEAD_LEN` bytes read from the file, and a BLAKE3 digest, written in
//! lowercase hexadecimal, of samples of the file's content, its size in
//! decimal and its relative path.
use vstd::prelude::*;
use vstd::utf8::encode_utf8;

use sha2::Digest;

use crate::packages::HashPackage;
use crate::text::append_bytes;
use crate::transfer::FILE_READ_CHUNK_SIZE;

verus! {

/// The number of bytes at the start of a file that the SHA-256 scheme reads.
pub const HEAD_LEN: usize = 1024;

/// The SHA-256 digest of some bytes.
pub uninterp spec fn spec_sha256(data: Seq<u8>) -> Seq<u8>;

/// The BLAKE3 hash of some bytes.
pub uninterp spec fn spec_blake3(data: Seq<u8>) -> Seq<u8>;

/// `<sha2::Sha256 as sha2::Digest>::digest`: the 32-byte SHA-256 digest of
/// `data`. Feeding the hasher several pieces gives the digest of their
/// concatenation, so one call on the concatenation stands for them.
#[verifier::external_body]
fn sha256_digest(data: &[u8]) -> (r: Vec<u8>)
    ensures
        r@ == spec_sha256(data@),
        r@.len() == 32,
{
    sha2::Sha256::digest(data).to_vec()
}

/// `blake3::hash`: the 32-byte BLAKE3 hash of `data`. Feeding a
/// `blake3::Hasher` several pieces gives the hash of their concatenation.
#[verifier::external_body]
fn blake3_digest(data: &[u8]) -> (r: Vec<u8>)
    ensures
        r@ == spec_blake3(data@),
        r@.len() == 32,
{
    blake3::hash(data).as_bytes().to_vec()
}

/// The ASCII code of a digit below 16, in lowercase.
pub open spec fn hex_digit(n: u8) -> u8 {
    if n < 10 {
        (48 + n) as u8
    } else {
        (87 + n) as u8
    }
}

/// The lowercase hexadecimal text of some bytes, two digits a byte, the high
/// digit first, as ASCII codes.
pub open spec fn spec_hex_lower(data: Seq<u8>) -> Seq<u8>
    decreases data.len(),
{
    if data.len() == 0 {
        Seq::empty()
    } else {
        spec_hex_lower(data.drop_last()) + seq![
            hex_digit(data.last() / 16),
            hex_digit(data.last() % 16),
        ]
    }
}

fn hex_digit_exec(n: u8) -> (r: u8)
    requires
        n < 16,
    ensures
        r == hex_digit(n),
{
    if n < 10 {
        48 + n
    } else {
        87 + n
    }
}

/// The lowercase hexadecimal text of `data`, as ASCII codes.
pub fn hex_lower(data: &[u8]) -> (r: Vec<u8>)
    ensures
        r@ == spec_hex_lower(data@),
        r@.len() == 2 * data@.len(),
{
    let mut r: Vec<u8> = Vec::new();
    let mut i: usize = 0;
    while i < data.len()
        invariant
            0 <= i <= data@.len(),
            r@ == spec_hex_lower(data@.take(i as int)),
            r@.len() == 2 * i,
        decreases data@.len() - i,
    {
        let b = data[i];
        r.push(hex_digit_exec(b / 16));
        r.push(hex_digit_exec(b % 16));
        assert(data@.take(i + 1).drop_last() =~= data@.take(i as int));
        assert(r@ =~= spec_hex_lower(data@.take(i + 1)));
        i += 1;
    }
    assert(data@.take(i as int) =~= data@);
    r
}

/// The decimal digits of a number, without leading zeros, as ASCII codes.
pub open spec fn spec_decimal(n: nat) -> Seq<u8>
    decreases n,
{
    if n < 10 {
        seq![(48 + n) as u8]
    } else {
        spec_decimal(n / 10).push((48 + n % 10) as u8)
    }
}

/// The decimal text of `n`, as ASCII codes.
pub fn decimal_bytes(n: u64) -> (r: Vec<u8>)
    ensures
        r@ == spec_decimal(n as nat),
    decreases n,
{
    if n < 10 {
        let mut v: Vec<u8> = Vec::new();
        v.push(48 + n as u8);
        v
    } else {
        let mut v = decimal_bytes(n / 10);
        v.push(48 + (n % 10) as u8);
        v
    }
}

/// The offsets at which the BLAKE3 scheme reads `FILE_READ_CHUNK_SIZE`
/// bytes: for a file of more than three chunks, its start, its middle and
/// its end; for a smaller file, none.
pub open spec fn spec_sample_offsets(file_size: u64) -> Seq<u64> {
    let c = FILE_READ_CHUNK_SIZE as int;
    if file_size > 3 * c {
        seq![0u64, (file_size / 2 - c / 2) as u64, (file_size - c) as u64]
    } else {
        Seq::empty()
    }
}

/// The offsets at which a file of `file_size` bytes is sampled.
pub fn sample_offsets(file_size: u64) -> (r: Vec<u64>)
    ensures
        r@ == spec_sample_offsets(file_size),
        forall|i: int|
            0 <= i < r@.len() ==> #[trigger] r@[i] + FILE_READ_CHUNK_SIZE <= file_size,
{
    let c = FILE_READ_CHUNK_SIZE as u64;
    let mut r: Vec<u64> = Vec::new();
    if file_size > 3 * c {
        r.push(0);
        r.push(file_size / 2 - c / 2);
        r.push(file_size - c);
    }
    assert(r@ =~= spec_sample_offsets(file_size));
    r
}

/// The bytes that the BLAKE3 scheme hashes: the samples read, the file's
/// size in decimal, then its relative path.
pub open spec fn blake3_input(rel_path: Seq<char>, file_size: u64, sampled: Seq<u8>) -> Seq<u8> {
    sampled + spec_decimal(file_size as nat) + encode_utf8(rel_path)
}

/// The BLAKE3 hash that stands for a file: `sampled` holds the bytes read at
/// `sample_offsets(file_size)`, in order.
pub fn blake3_entry_digest(rel_path: &str, file_size: u64, sampled: &[u8]) -> (r: Vec<u8>)
    ensures
        r@ == spec_hex_lower(spec_blake3(blake3_input(rel_path@, file_size, sampled@))),
        r@.len() == 64,
{
    let mut data: Vec<u8> = Vec::new();
    append_bytes(&mut data, sampled);
    let size_text = decimal_bytes(file_size);
    append_bytes(&mut data, size_text.as_slice());
    append_bytes(&mut data, rel_path.as_bytes());
    let digest = blake3_digest(data.as_slice());
    hex_lower(digest.as_slice())
}

/// The bytes that the SHA-256 scheme hashes: the relative path, then the
/// bytes read at the start of the file.
pub open spec fn sha256_input(rel_path: Seq<char>, head: Seq<u8>) -> Seq<u8> {
    encode_utf8(rel_path) + head
}

/// The SHA-256 digest that stands for a file: `head` holds the buffer of
/// `HEAD_LEN` bytes read from its start.
pub fn sha256_entry_digest(rel_path: &str, head: &[u8]) -> (r: Vec<u8>)
    ensures
        r@ == spec_sha256(sha256_input(rel_path@, head@)),
        r@.len() == 32,
{
    let mut data: Vec<u8> = Vec::new();
    append_bytes(&mut data, rel_path.as_bytes());
    append_bytes(&mut data, head);
    sha256_digest(data.as_slice())
}

/// A file as the SHA-256 scheme reads it.
#[derive(Debug)]
pub struct FileHead {
    pub rel_path: String,
    pub head: Vec<u8>,
}

/// A file as the BLAKE3 scheme reads it.
#[derive(Debug)]
pub struct FileSample {
    pub rel_path: String,
    pub file_size: u64,
    pub sampled: Vec<u8>,
}

/// The hash package of files read by the SHA-256 scheme, one record per
/// file, in order.
pub fn build_hash_package(files: &Vec<FileHead>) -> (r: HashPackage)
    ensures
        r.paths() == files@.map_values(|f: FileHead| f.rel_path@),
        r.hashes() == files@.map_values(|f: FileHead| spec_sha256(sha256_input(f.rel_path@, f.head@))),
        forall|i: int| 0 <= i < r.hashes().len() ==> #[trigger] r.hashes()[i].len() == 32,
{
    let mut package = HashPackage::new(Vec::new(), Vec::new());
    let mut i: usize = 0;
    while i < files.len()
        invariant
            0 <= i <= files@.len(),
            package.paths() == files@.take(i as int).map_values(|f: FileHead| f.rel_path@),
            package.hashes() == files@.take(i as int).map_values(
                |f: FileHead| spec_sha256(sha256_input(f.rel_path@, f.head@)),
            ),
            forall|j: int| 0 <= j < package.hashes().len() ==> #[trigger] package.hashes()[j].len() == 32,
        decreases files@.len() - i,
    {
        let f = &files[i];
        let digest = sha256_entry_digest(f.rel_path.as_str(), f.head.as_slice());
        let ghost before = package;
        let ghost d = digest@;
        package.add_record(f.rel_path.clone(), digest);
        assert(package.hashes() =~= before.hashes().push(d));
        assert(package.paths() =~= files@.take(i + 1).map_values(|f: FileHead| f.rel_path@)) by {
            assert(package.paths() =~= before.paths().push(f.rel_path@));
        }
        assert(package.hashes() =~= files@.take(i + 1).map_values(
            |f: FileHead| spec_sha256(sha256_input(f.rel_path@, f.head@)),
        )) by {
            assert(package.hashes() =~= before.hashes().push(
                spec_sha256(sha256_input(f.rel_path@, f.head@)),
            ));
        }
        i += 1;
    }
    assert(files@.take(i as int) =~= files@);
    package
}

/// The hash package of files read by the BLAKE3 scheme, one record per
/// file, in order.
pub fn build_sampled_hash_package(files: &Vec<FileSample>) -> (r: HashPackage)
    ensures
        r.paths() == files@.map_values(|f: FileSample| f.rel_path@),
        r.hashes() == files@.map_values(
            |f: FileSample|
                spec_hex_lower(spec_blake3(blake3_input(f.rel_path@, f.file_size, f.sampled@))),
        ),
        forall|i: int| 0 <= i < r.hashes().len() ==> #[trigger] r.hashes()[i].len() == 64,
{
    let mut package = HashPackage::new(Vec::new(), Vec::new());
    let mut i: usize = 0;
    while i < files.len()
        invariant
            0 <= i <= files@.len(),
            package.paths() == files@.take(i as int).map_values(|f: FileSample| f.rel_path@),
            package.hashes() == files@.take(i as int).map_values(
                |f: FileSample|
                    spec_hex_lower(
                        spec_blake3(blake3_input(f.rel_path@, f.file_size, f.sampled@)),
                    ),
            ),
            forall|j: int| 0 <= j < package.hashes().len() ==> #[trigger] package.hashes()[j].len() == 64,
        decreases files@.len() - i,
    {
        let f = &files[i];
        let digest = blake3_entry_digest(f.rel_path.as_str(), f.file_size, f.sampled.as_slice());
        let ghost before = package;
        let ghost d = digest@;
        package.add_record(f.rel_path.clone(), digest);
        assert(package.hashes() =~= before.hashes().push(d));
        assert(package.paths() =~= files@.take(i + 1).map_values(|f: FileSample| f.rel_path@))
            by {
            assert(package.paths() =~= before.paths().push(f.rel_path@));
        }
        assert(package.hashes() =~= files@.take(i + 1).map_values(
            |f: FileSample|
                spec_hex_lower(spec_blake3(blake3_input(f.rel_path@, f.file_size, f.sampled@))),
        )) by {
            assert(package.hashes() =~= before.hashes().push(
                spec_hex_lower(spec_blake3(blake3_input(f.rel_path@, f.file_size, f.sampled@))),
            ));
        }
        i += 1;
    }
    assert(files@.take(i as int) =~= files@);
    package
}

} // verus!
