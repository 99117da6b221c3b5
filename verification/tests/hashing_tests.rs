use webcrane::hashing::{
    blake3_entry_digest, build_hash_package, build_sampled_hash_package, decimal_bytes,
    hex_lower, sample_offsets, sha256_entry_digest, FileHead, FileSample,
};

fn hex(s: &str) -> Vec<u8> {
    (0..s.len() / 2).map(|i| u8::from_str_radix(&s[2 * i..2 * i + 2], 16).unwrap()).collect()
}

#[test]
fn hex_lower_writes_two_digits_per_byte() {
    assert_eq!(hex_lower(&[0x00, 0x0f, 0xa5, 0xff]), b"000fa5ff".to_vec());
    assert_eq!(hex_lower(&[]), Vec::<u8>::new());
}

#[test]
fn decimal_bytes_matches_to_string() {
    for n in [0u64, 7, 10, 99, 4096, 1234567890, u64::MAX] {
        assert_eq!(decimal_bytes(n), n.to_string().into_bytes());
    }
}

#[test]
fn sample_offsets_start_middle_end() {
    assert_eq!(sample_offsets(0), Vec::<u64>::new());
    assert_eq!(sample_offsets(3 * 4096), Vec::<u64>::new());
    assert_eq!(sample_offsets(3 * 4096 + 1), vec![0, 6144 - 2048, 3 * 4096 + 1 - 4096]);
    assert_eq!(sample_offsets(100_000), vec![0, 50_000 - 2048, 100_000 - 4096]);
}

#[test]
fn sha256_digest_of_path_and_head() {
    let digest = sha256_entry_digest("src/a.txt", &[0u8; 1024]);
    assert_eq!(digest, hex("bc6e7ffa6a1eb319d6d6b7f58b3fdc51003fce9697d52902f4d19ca006597480"));
    let mut head = [0u8; 1024];
    head[..5].copy_from_slice(b"hello");
    let digest = sha256_entry_digest("dir/x", &head);
    assert_eq!(digest, hex("7ca02ac6bf9951c63650dd5a3619812955c8f14e41b815eade3519ed4b0055b9"));
}

#[test]
fn blake3_digest_of_samples_size_and_path() {
    let sampled = vec![7u8; 3 * 4096];
    let digest = blake3_entry_digest("dir/f.bin", 20000, &sampled);
    let mut hasher = blake3::Hasher::new();
    hasher.update(&sampled);
    hasher.update(b"20000");
    hasher.update(b"dir/f.bin");
    assert_eq!(digest, hasher.finalize().to_hex().to_string().into_bytes());
    assert_eq!(digest.len(), 64);
    // A small file hashes its size and path only.
    let small = blake3_entry_digest("a", 3, &[]);
    assert_eq!(small, blake3::hash(b"3a").to_hex().to_string().into_bytes());
}

#[test]
fn build_packages_one_record_per_file() {
    let files = vec![
        FileHead { rel_path: "src/a.txt".to_string(), head: vec![0u8; 1024] },
        FileHead { rel_path: "b".to_string(), head: vec![1u8; 1024] },
    ];
    let pkg = build_hash_package(&files);
    assert_eq!(pkg.file_paths, vec!["src/a.txt".to_string(), "b".to_string()]);
    assert_eq!(pkg.file_hashes[0], sha256_entry_digest("src/a.txt", &[0u8; 1024]));
    assert_eq!(pkg.file_hashes[1], sha256_entry_digest("b", &[1u8; 1024]));

    let samples = vec![FileSample { rel_path: "a".to_string(), file_size: 3, sampled: vec![] }];
    let pkg = build_sampled_hash_package(&samples);
    assert_eq!(pkg.file_paths, vec!["a".to_string()]);
    assert_eq!(pkg.file_hashes, vec![blake3_entry_digest("a", 3, &[])]);
}
