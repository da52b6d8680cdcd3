//! OpenPGP-style signing support: building the signature-packet skeleton,
//! deriving the digest of the framed signable content, wrapping it in the
//! DigestInfo the hardware signer expects, and embedding the raw
//! signature the hardware returns back into the packet.
//!
//! The packet work is done by the `pretty_good` OpenPGP library behind
//! the trusted wrappers below; the hardware raw-signing round-trip
//! between the two halves is driven by the surrounding application.

use vstd::prelude::*;

use crate::error::FeroError;
use crate::hsm::HashAlgorithm;
use crate::hsm::create_digestinfo;
use crate::hsm::digest_info;
use crate::hsm::hash_digest_len;
use crate::hsm::hash_digest_len_exec;

verus! {

#[verifier::external_type_specification]
#[verifier::external_body]
pub struct ExSignaturePacket(pretty_good::SignaturePacket);

#[verifier::external_type_specification]
#[verifier::external_body]
pub struct ExPgpSignature(pretty_good::Signature);

/// Relies on pretty_good::SignaturePacket::new: builds an empty v4
/// binary-document RSA signature packet whose creation time is the
/// current system time (so nothing further is promised of it).
#[verifier::external_body]
fn new_signature_packet(hash_algo: HashAlgorithm) -> (r: Result<
    pretty_good::SignaturePacket,
    FeroError,
>)
    ensures
        match r {
            Ok(_) => true,
            Err(e) => e == FeroError::EncodingFailure,
        },
{
    let h = match hash_algo {
        HashAlgorithm::Md5 => pretty_good::HashAlgorithm::Md5,
        HashAlgorithm::Sha1 => pretty_good::HashAlgorithm::Sha1,
        HashAlgorithm::Ripemd160 => pretty_good::HashAlgorithm::Ripemd160,
        HashAlgorithm::Sha224 => pretty_good::HashAlgorithm::Sha224,
        HashAlgorithm::Sha256 => pretty_good::HashAlgorithm::Sha256,
        HashAlgorithm::Sha384 => pretty_good::HashAlgorithm::Sha384,
        HashAlgorithm::Sha512 => pretty_good::HashAlgorithm::Sha512,
    };
    let t = pretty_good::SignatureType::BinaryDocument;
    match pretty_good::SignaturePacket::new(t, pretty_good::PublicKeyAlgorithm::Rsa, h) {
        Ok(p) => Ok(p),
        Err(_) => Err(FeroError::EncodingFailure),
    }
}

/// Relies on pretty_good::SignaturePacket::signable_payload: frames the
/// payload with the packet's hashed header and trailer per RFC 4880 and
/// returns the packet's hash of that framed content. The result depends
/// on the packet (its creation time included), so nothing is promised of
/// its value; callers check its length.
#[verifier::external_body]
fn signable_digest(packet: &pretty_good::SignaturePacket, payload: &Vec<u8>) -> (r: Result<
    Vec<u8>,
    FeroError,
>)
    ensures
        match r {
            Ok(_) => true,
            Err(e) => e == FeroError::EncodingFailure,
        },
{
    match packet.signable_payload(payload.as_slice()) {
        Ok(d) => Ok(d),
        Err(_) => Err(FeroError::EncodingFailure),
    }
}

/// Relies on num::BigUint::from_bytes_be: interprets the hardware's raw
/// signature as a big-endian unsigned integer, carried as an RSA
/// multiprecision-integer signature value.
#[verifier::external_body]
fn rsa_signature_value(raw: &Vec<u8>) -> (r: pretty_good::Signature) {
    pretty_good::Signature::Rsa(num::BigUint::from_bytes_be(raw.as_slice()))
}

/// Relies on pretty_good::SignaturePacket::set_contents: stores the
/// signature value inside the packet as its MPI contents. Every arm of
/// it returns success (its writes go to a growable buffer), so success
/// is promised here.
#[verifier::external_body]
fn set_signature_contents(
    packet: &mut pretty_good::SignaturePacket,
    sig: pretty_good::Signature,
) -> (r: Result<(), FeroError>)
    ensures
        r is Ok,
{
    match packet.set_contents(sig) {
        Ok(()) => Ok(()),
        Err(_) => Err(FeroError::EncodingFailure),
    }
}

/// Everything the hardware signer needs for one OpenPGP-style signature:
/// the packet skeleton, the digest of its framed signable content, and
/// that digest wrapped in the DigestInfo handed to the raw signing
/// primitive.
pub struct PgpSignatureRequest {
    pub packet: pretty_good::SignaturePacket,
    pub digest: Vec<u8>,
    pub digestinfo: Vec<u8>,
}

/// Accept a digest claimed to come from the given hash algorithm and fix
/// the DigestInfo the raw signer must receive for it: succeeds exactly
/// when the digest's length is the one the algorithm owes.
pub fn digestinfo_for_signable(digest: &Vec<u8>, hash_algorithm: HashAlgorithm) -> (r: Result<
    Vec<u8>,
    FeroError,
>)
    ensures
        match r {
            Ok(v) => digest@.len() == hash_digest_len(hash_algorithm) && v@ == digest_info(
                hash_algorithm,
                digest@,
            ),
            Err(e) => e == FeroError::EncodingFailure && digest@.len() != hash_digest_len(
                hash_algorithm,
            ),
        },
{
    if digest.len() != hash_digest_len_exec(hash_algorithm) {
        return Err(FeroError::EncodingFailure);
    }
    Ok(create_digestinfo(digest, hash_algorithm))
}

/// Build the signature-packet skeleton and the exact DigestInfo bytes to
/// hand to the hardware's raw PKCS#1 v1.5 signing primitive: the digest
/// of the framed signable content — not the raw payload — checked
/// against the requested hash algorithm's digest length and wrapped
/// under that algorithm.
pub fn create_pgp_signature_request(payload: &Vec<u8>, hash_algorithm: HashAlgorithm) -> (r:
    Result<PgpSignatureRequest, FeroError>)
    ensures
        match r {
            Ok(req) => req.digest@.len() == hash_digest_len(hash_algorithm) && req.digestinfo@
                == digest_info(hash_algorithm, req.digest@),
            Err(e) => e == FeroError::EncodingFailure,
        },
{
    let packet = match new_signature_packet(hash_algorithm) {
        Ok(p) => p,
        Err(e) => {
            return Err(e);
        },
    };
    let digest = match signable_digest(&packet, payload) {
        Ok(d) => d,
        Err(e) => {
            return Err(e);
        },
    };
    let digestinfo = match digestinfo_for_signable(&digest, hash_algorithm) {
        Ok(v) => v,
        Err(e) => {
            return Err(e);
        },
    };
    Ok(PgpSignatureRequest { packet, digest, digestinfo })
}

/// Embed the hardware's raw signature — a big-endian unsigned integer —
/// into the packet the request was built around, completing the
/// OpenPGP-style signature. Embedding always succeeds.
pub fn complete_pgp_signature(req: PgpSignatureRequest, raw_signature: &Vec<u8>) -> (r: Result<
    pretty_good::SignaturePacket,
    FeroError,
>)
    ensures
        r is Ok,
{
    let PgpSignatureRequest { packet, digest: _, digestinfo: _ } = req;
    let mut packet = packet;
    let sig = rsa_signature_value(raw_signature);
    match set_signature_contents(&mut packet, sig) {
        Ok(()) => Ok(packet),
        Err(e) => Err(e),
    }
}

} // verus!
