use fero::error::FeroError;
use fero::hsm::{create_digestinfo, HashAlgorithm};
use fero::pgp::{complete_pgp_signature, create_pgp_signature_request, digestinfo_for_signable};

use num::BigUint;

#[test]
fn request_digest_is_a_real_hash_of_the_framed_content() {
    let payload = b"hello".to_vec();
    let req = create_pgp_signature_request(&payload, HashAlgorithm::Sha256).unwrap();
    assert_eq!(req.digest.len(), 32);
    assert_ne!(req.digest, payload);
    assert_eq!(req.digestinfo, create_digestinfo(&req.digest, HashAlgorithm::Sha256));
}

#[test]
fn request_honours_the_requested_hash_algorithm() {
    let payload = b"hello".to_vec();
    let req384 = create_pgp_signature_request(&payload, HashAlgorithm::Sha384).unwrap();
    assert_eq!(req384.digest.len(), 48);
    assert_eq!(req384.packet.hash_algo, pretty_good::HashAlgorithm::Sha384);
    let req512 = create_pgp_signature_request(&payload, HashAlgorithm::Sha512).unwrap();
    assert_eq!(req512.digest.len(), 64);
    assert_eq!(req512.packet.hash_algo, pretty_good::HashAlgorithm::Sha512);
}

#[test]
fn request_binds_payload_into_the_digest() {
    let one = create_pgp_signature_request(&b"payload one".to_vec(), HashAlgorithm::Sha256)
        .unwrap();
    let two = create_pgp_signature_request(&b"payload two".to_vec(), HashAlgorithm::Sha256)
        .unwrap();
    assert_ne!(one.digest, two.digest);
}

#[test]
fn completed_signature_carries_the_raw_value_as_an_mpi() {
    let payload = b"sign me".to_vec();
    let req = create_pgp_signature_request(&payload, HashAlgorithm::Sha256).unwrap();
    let raw: Vec<u8> = vec![0x01, 0x23, 0x45];
    let packet = complete_pgp_signature(req, &raw).unwrap();
    let contents = packet.contents().unwrap();
    assert_eq!(contents, pretty_good::Signature::Rsa(BigUint::from_bytes_be(&raw)));
}

#[test]
fn request_supports_the_legacy_hashes() {
    let payload = b"old style".to_vec();
    let md5 = create_pgp_signature_request(&payload, HashAlgorithm::Md5).unwrap();
    assert_eq!(md5.digest.len(), 16);
    assert_eq!(md5.packet.hash_algo, pretty_good::HashAlgorithm::Md5);
    let sha1 = create_pgp_signature_request(&payload, HashAlgorithm::Sha1).unwrap();
    assert_eq!(sha1.digest.len(), 20);
    let ripemd = create_pgp_signature_request(&payload, HashAlgorithm::Ripemd160).unwrap();
    assert_eq!(ripemd.digest.len(), 20);
    let sha224 = create_pgp_signature_request(&payload, HashAlgorithm::Sha224).unwrap();
    assert_eq!(sha224.digest.len(), 28);
}

#[test]
fn digest_gate_accepts_exactly_the_owed_length() {
    let digest: Vec<u8> = vec![0x7e; 20];
    let out = digestinfo_for_signable(&digest, HashAlgorithm::Sha1).unwrap();
    assert_eq!(out, create_digestinfo(&digest, HashAlgorithm::Sha1));
    assert_eq!(
        digestinfo_for_signable(&digest, HashAlgorithm::Sha256).unwrap_err(),
        FeroError::EncodingFailure
    );
    let wrong: Vec<u8> = vec![0x7e; 21];
    assert_eq!(
        digestinfo_for_signable(&wrong, HashAlgorithm::Sha1).unwrap_err(),
        FeroError::EncodingFailure
    );
}
