use fero::error::FeroError;
use fero::hsm::{
    create_digestinfo, create_rsa_digestinfo, logs_since, modulus_bit_length,
    rsa_algorithm_for_bits, select_free_object_id, select_hash_algorithm, HashAlgorithm,
    LogEntry, RsaAlgorithm,
};

fn entry(index: u16) -> LogEntry {
    LogEntry {
        index,
        command: 0x6a,
        data_length: 0,
        session_key: 1,
        target_key: 2,
        second_key: 0,
        result_code: 0,
        systick: 10,
    }
}

#[test]
fn digestinfo_sha256_exact_bytes() {
    let digest: Vec<u8> = (0u8..32).collect();
    let out = create_digestinfo(&digest, HashAlgorithm::Sha256);
    let mut expected: Vec<u8> = vec![
        0x30, 0x31, 0x30, 0x0d, 0x06, 0x09, 0x60, 0x86, 0x48, 0x01, 0x65, 0x03, 0x04,
        0x02, 0x01, 0x05, 0x00, 0x04, 0x20,
    ];
    expected.extend_from_slice(&digest);
    assert_eq!(out, expected);
}

#[test]
fn digestinfo_sha512_uses_its_own_oid() {
    let digest: Vec<u8> = vec![0xab; 64];
    let out = create_digestinfo(&digest, HashAlgorithm::Sha512);
    assert_eq!(out[0], 0x30);
    assert_eq!(out[1], 0x51);
    assert_eq!(out[14], 0x03);
    assert_eq!(out[18], 0x40);
    assert_eq!(&out[19..], &digest[..]);
}

#[test]
fn digestinfo_sha1_exact_bytes() {
    let digest: Vec<u8> = vec![0x9c; 20];
    let out = create_digestinfo(&digest, HashAlgorithm::Sha1);
    let mut expected: Vec<u8> = vec![
        0x30, 0x21, 0x30, 0x09, 0x06, 0x05, 0x2b, 0x0e, 0x03, 0x02, 0x1a, 0x05, 0x00,
        0x04, 0x14,
    ];
    expected.extend_from_slice(&digest);
    assert_eq!(out, expected);
}

#[test]
fn digestinfo_md5_exact_bytes() {
    let digest: Vec<u8> = vec![0x2f; 16];
    let out = create_digestinfo(&digest, HashAlgorithm::Md5);
    let mut expected: Vec<u8> = vec![
        0x30, 0x20, 0x30, 0x0c, 0x06, 0x08, 0x2a, 0x86, 0x48, 0x86, 0xf7, 0x0d, 0x02,
        0x05, 0x05, 0x00, 0x04, 0x10,
    ];
    expected.extend_from_slice(&digest);
    assert_eq!(out, expected);
}

#[test]
fn digestinfo_long_content_uses_long_form_length() {
    let digest: Vec<u8> = vec![0x55; 200];
    let out = create_digestinfo(&digest, HashAlgorithm::Sha256);
    // content: 15 (algorithm id) + 1 (tag) + 2 (81 c8) + 200 = 218
    assert_eq!(&out[..3], &[0x30, 0x81, 0xda]);
    assert_eq!(&out[18..21], &[0x04, 0x81, 0xc8]);
    assert_eq!(&out[21..], &digest[..]);
    assert_eq!(out.len(), 221);
}

#[test]
fn digest_length_selects_the_hash() {
    assert_eq!(select_hash_algorithm(32).unwrap(), HashAlgorithm::Sha256);
    assert_eq!(select_hash_algorithm(48).unwrap(), HashAlgorithm::Sha384);
    assert_eq!(select_hash_algorithm(64).unwrap(), HashAlgorithm::Sha512);
    assert_eq!(select_hash_algorithm(20).unwrap_err(), FeroError::UnsupportedInput);
    assert_eq!(select_hash_algorithm(0).unwrap_err(), FeroError::UnsupportedInput);
}

#[test]
fn raw_digestinfo_matches_direct_construction() {
    let digest: Vec<u8> = vec![0x11; 48];
    let out = create_rsa_digestinfo(&digest).unwrap();
    assert_eq!(out, create_digestinfo(&digest, HashAlgorithm::Sha384));
    let bad: Vec<u8> = vec![0x11; 33];
    assert_eq!(create_rsa_digestinfo(&bad).unwrap_err(), FeroError::UnsupportedInput);
}

#[test]
fn key_sizes_1024_and_3072_fail_distinctly() {
    let weak = rsa_algorithm_for_bits(1024).unwrap_err();
    let odd = rsa_algorithm_for_bits(3072).unwrap_err();
    assert_eq!(weak, FeroError::InsecureKeySize);
    assert_eq!(odd, FeroError::UnsupportedKeySize(3072));
    assert_ne!(weak, odd);
}

#[test]
fn key_sizes_2048_and_4096_are_accepted() {
    assert_eq!(rsa_algorithm_for_bits(2048).unwrap(), RsaAlgorithm::Rsa2048);
    assert_eq!(rsa_algorithm_for_bits(4096).unwrap(), RsaAlgorithm::Rsa4096);
}

#[test]
fn modulus_bit_length_ignores_leading_zeros() {
    assert_eq!(modulus_bit_length(&vec![]), 0);
    assert_eq!(modulus_bit_length(&vec![0x00, 0x00]), 0);
    assert_eq!(modulus_bit_length(&vec![0x01]), 1);
    assert_eq!(modulus_bit_length(&vec![0x00, 0x01]), 1);
    assert_eq!(modulus_bit_length(&vec![0xff; 128]), 1024);
    let mut m: Vec<u8> = vec![0x80];
    m.extend_from_slice(&vec![0u8; 255]);
    assert_eq!(modulus_bit_length(&m), 2048);
}

#[test]
fn free_object_id_starts_at_one() {
    assert_eq!(select_free_object_id(&vec![]).unwrap(), 1);
    assert_eq!(select_free_object_id(&vec![2, 3]).unwrap(), 1);
}

#[test]
fn free_object_id_takes_the_lowest_gap() {
    assert_eq!(select_free_object_id(&vec![1, 2, 4, 5]).unwrap(), 3);
    assert_eq!(select_free_object_id(&vec![4, 1, 2, 2]).unwrap(), 3);
}

#[test]
fn free_object_id_exhausts_at_full_table() {
    let mut used: Vec<u16> = Vec::new();
    for id in 1..=65535u16 {
        used.push(id);
    }
    assert_eq!(select_free_object_id(&used).unwrap_err(), FeroError::CapacityExhausted);
    used.pop();
    assert_eq!(select_free_object_id(&used).unwrap(), 65535);
}

#[test]
fn logs_since_filters_strictly_greater_indexes() {
    let entries = vec![entry(1), entry(2), entry(5), entry(9)];
    let out = logs_since(&entries, 2);
    assert_eq!(out.len(), 2);
    assert_eq!(out[0].index, 5);
    assert_eq!(out[1].index, 9);
}

#[test]
fn logs_since_zero_returns_everything_in_order() {
    let entries = vec![entry(1), entry(2), entry(3)];
    let out = logs_since(&entries, 0);
    assert_eq!(out, entries);
}

#[test]
fn logs_since_at_or_beyond_the_maximum_is_empty() {
    let entries = vec![entry(1), entry(2), entry(9)];
    assert!(logs_since(&entries, 9).is_empty());
    assert!(logs_since(&entries, 100).is_empty());
}
