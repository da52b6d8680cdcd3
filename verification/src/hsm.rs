//! Key-custodian logic: PKCS#1 DigestInfo construction, hash-algorithm
//! selection for raw digests, RSA key-size validation, free object-id
//! selection, and audit-log windowing.
//!
//! Everything here is offline computation on plain values; the blocking
//! round-trips to the hardware module itself (raw signing, key import,
//! log retrieval) are driven by the surrounding application, which hands
//! the results back to these functions.

use vstd::arithmetic::div_mod::lemma_multiply_divide_lt;
use vstd::pervasive::VecAdditionalExecFns;
use vstd::prelude::*;

use crate::copy_vec;
use crate::error::FeroError;

verus! {

/// The hash algorithms with a known ASN.1 object identifier, usable on
/// the PKCS#1 v1.5 signing path. Raw-digest signing recognises only the
/// SHA-2 family by digest length; the OpenPGP path accepts them all.
#[derive(Clone, Copy, Debug, PartialEq, Eq, Structural)]
pub enum HashAlgorithm {
    Md5,
    Sha1,
    Ripemd160,
    Sha224,
    Sha256,
    Sha384,
    Sha512,
}

/// RSA key sizes the hardware module accepts for import.
#[derive(Clone, Copy, Debug, PartialEq, Eq, Structural)]
pub enum RsaAlgorithm {
    Rsa2048,
    Rsa4096,
}

/// One entry of the hardware module's append-only audit log, with its
/// monotonically increasing index.
#[derive(Clone, Copy, Debug, PartialEq, Eq, Structural)]
pub struct LogEntry {
    pub index: u16,
    pub command: u8,
    pub data_length: u16,
    pub session_key: u16,
    pub target_key: u16,
    pub second_key: u16,
    pub result_code: u8,
    pub systick: u32,
}

/// The DER encoding of the hash algorithm's object identifier,
/// tag and length octets included.
pub open spec fn hash_oid_der(h: HashAlgorithm) -> Seq<u8> {
    match h {
        HashAlgorithm::Md5 => seq![
            0x06u8, 0x08, 0x2a, 0x86, 0x48, 0x86, 0xf7, 0x0d, 0x02, 0x05,
        ],
        HashAlgorithm::Sha1 => seq![0x06u8, 0x05, 0x2b, 0x0e, 0x03, 0x02, 0x1a],
        HashAlgorithm::Ripemd160 => seq![0x06u8, 0x05, 0x2b, 0x24, 0x03, 0x02, 0x01],
        HashAlgorithm::Sha224 => seq![
            0x06u8, 0x09, 0x60, 0x86, 0x48, 0x01, 0x65, 0x03, 0x04, 0x02, 0x04,
        ],
        HashAlgorithm::Sha256 => seq![
            0x06u8, 0x09, 0x60, 0x86, 0x48, 0x01, 0x65, 0x03, 0x04, 0x02, 0x01,
        ],
        HashAlgorithm::Sha384 => seq![
            0x06u8, 0x09, 0x60, 0x86, 0x48, 0x01, 0x65, 0x03, 0x04, 0x02, 0x02,
        ],
        HashAlgorithm::Sha512 => seq![
            0x06u8, 0x09, 0x60, 0x86, 0x48, 0x01, 0x65, 0x03, 0x04, 0x02, 0x03,
        ],
    }
}

/// The digest length, in bytes, a hash algorithm produces.
pub open spec fn hash_digest_len(h: HashAlgorithm) -> nat {
    match h {
        HashAlgorithm::Md5 => 16,
        HashAlgorithm::Sha1 => 20,
        HashAlgorithm::Ripemd160 => 20,
        HashAlgorithm::Sha224 => 28,
        HashAlgorithm::Sha256 => 32,
        HashAlgorithm::Sha384 => 48,
        HashAlgorithm::Sha512 => 64,
    }
}

/// The digest length, as an executable value.
pub fn hash_digest_len_exec(h: HashAlgorithm) -> (r: usize)
    ensures
        r as nat == hash_digest_len(h),
{
    match h {
        HashAlgorithm::Md5 => 16,
        HashAlgorithm::Sha1 => 20,
        HashAlgorithm::Ripemd160 => 20,
        HashAlgorithm::Sha224 => 28,
        HashAlgorithm::Sha256 => 32,
        HashAlgorithm::Sha384 => 48,
        HashAlgorithm::Sha512 => 64,
    }
}

/// The DER AlgorithmIdentifier sequence: the hash OID followed by an
/// explicit NULL parameter.
pub open spec fn algorithm_identifier_der(h: HashAlgorithm) -> Seq<u8> {
    seq![0x30u8, (hash_oid_der(h).len() + 2) as u8] + hash_oid_der(h) + seq![0x05u8, 0x00]
}

/// The minimal big-endian base-256 digits of `n` (empty for zero).
pub open spec fn be_bytes(n: nat) -> Seq<u8>
    decreases n,
{
    if n == 0 {
        Seq::empty()
    } else {
        be_bytes(n / 256) + seq![(n % 256) as u8]
    }
}

/// The DER length octets for a content of `n` bytes: one octet below 128,
/// otherwise a count octet followed by the big-endian length.
pub open spec fn der_length(n: nat) -> Seq<u8> {
    if n < 128 {
        seq![n as u8]
    } else {
        seq![(128 + be_bytes(n).len()) as u8] + be_bytes(n)
    }
}

/// The PKCS#1 DigestInfo structure: a DER sequence wrapping the hash
/// AlgorithmIdentifier and the raw digest octets.
pub open spec fn digest_info(h: HashAlgorithm, digest: Seq<u8>) -> Seq<u8> {
    let content = algorithm_identifier_der(h) + seq![0x04u8] + der_length(digest.len())
        + digest;
    seq![0x30u8] + der_length(content.len()) + content
}

/// The hash algorithm a raw digest of `n` bytes must have been produced
/// by, if any: digests are recognised by their length alone.
pub open spec fn algo_for_digest_len(n: nat) -> Option<HashAlgorithm> {
    if n == 32 {
        Some(HashAlgorithm::Sha256)
    } else if n == 48 {
        Some(HashAlgorithm::Sha384)
    } else if n == 64 {
        Some(HashAlgorithm::Sha512)
    } else {
        None
    }
}

/// 256 to the `k`th power.
pub open spec fn pow256(k: nat) -> nat
    decreases k,
{
    if k == 0 {
        1
    } else {
        256 * pow256((k - 1) as nat)
    }
}

proof fn lemma_be_bytes_len(n: nat, k: nat)
    requires
        n < pow256(k),
    ensures
        be_bytes(n).len() <= k,
    decreases k,
{
    if n == 0 {
    } else {
        if k == 0 {
            assert(pow256(0) == 1);
        }
        assert(n / 256 < pow256((k - 1) as nat)) by {
            lemma_multiply_divide_lt(n as int, 256, pow256((k - 1) as nat) as int);
        }
        lemma_be_bytes_len(n / 256, (k - 1) as nat);
    }
}

proof fn lemma_be_bytes_len_usize(n: usize)
    ensures
        be_bytes(n as nat).len() <= 8,
{
    assert(pow256(1) == 256 * pow256(0));
    assert(pow256(2) == 256 * pow256(1));
    assert(pow256(3) == 256 * pow256(2));
    assert(pow256(4) == 256 * pow256(3));
    assert(pow256(5) == 256 * pow256(4));
    assert(pow256(6) == 256 * pow256(5));
    assert(pow256(7) == 256 * pow256(6));
    assert(pow256(8) == 256 * pow256(7));
    assert(pow256(8) == 0x1_0000_0000_0000_0000);
    lemma_be_bytes_len(n as nat, 8);
}

fn be_bytes_exec(n: usize) -> (r: Vec<u8>)
    ensures
        r@ == be_bytes(n as nat),
    decreases n,
{
    if n == 0 {
        Vec::new()
    } else {
        let mut r = be_bytes_exec(n / 256);
        r.push((n % 256) as u8);
        proof {
            assert(r@ =~= be_bytes((n / 256) as nat) + seq![(n % 256) as u8]);
        }
        r
    }
}

fn der_length_bytes(n: usize) -> (r: Vec<u8>)
    ensures
        r@ == der_length(n as nat),
{
    if n < 128 {
        let mut r: Vec<u8> = Vec::new();
        r.push(n as u8);
        r
    } else {
        let mut b = be_bytes_exec(n);
        proof {
            lemma_be_bytes_len_usize(n);
        }
        let mut r: Vec<u8> = Vec::new();
        r.push(128 + b.len() as u8);
        r.append(&mut b);
        proof {
            assert(r@ =~= der_length(n as nat));
        }
        r
    }
}

fn push_sha2_oid_prefix(out: &mut Vec<u8>)
    ensures
        final(out)@ == old(out)@ + seq![
            0x06u8, 0x09, 0x60, 0x86, 0x48, 0x01, 0x65, 0x03, 0x04, 0x02,
        ],
{
    out.push(0x06);
    out.push(0x09);
    out.push(0x60);
    out.push(0x86);
    out.push(0x48);
    out.push(0x01);
    out.push(0x65);
    out.push(0x03);
    out.push(0x04);
    out.push(0x02);
    proof {
        assert(final(out)@ =~= old(out)@ + seq![
            0x06u8, 0x09, 0x60, 0x86, 0x48, 0x01, 0x65, 0x03, 0x04, 0x02,
        ]);
    }
}

fn push_oid_der(out: &mut Vec<u8>, h: HashAlgorithm)
    ensures
        final(out)@ == old(out)@ + hash_oid_der(h),
{
    match h {
        HashAlgorithm::Md5 => {
            out.push(0x06);
            out.push(0x08);
            out.push(0x2a);
            out.push(0x86);
            out.push(0x48);
            out.push(0x86);
            out.push(0xf7);
            out.push(0x0d);
            out.push(0x02);
            out.push(0x05);
        },
        HashAlgorithm::Sha1 => {
            out.push(0x06);
            out.push(0x05);
            out.push(0x2b);
            out.push(0x0e);
            out.push(0x03);
            out.push(0x02);
            out.push(0x1a);
        },
        HashAlgorithm::Ripemd160 => {
            out.push(0x06);
            out.push(0x05);
            out.push(0x2b);
            out.push(0x24);
            out.push(0x03);
            out.push(0x02);
            out.push(0x01);
        },
        HashAlgorithm::Sha224 => {
            push_sha2_oid_prefix(out);
            out.push(0x04);
        },
        HashAlgorithm::Sha256 => {
            push_sha2_oid_prefix(out);
            out.push(0x01);
        },
        HashAlgorithm::Sha384 => {
            push_sha2_oid_prefix(out);
            out.push(0x02);
        },
        HashAlgorithm::Sha512 => {
            push_sha2_oid_prefix(out);
            out.push(0x03);
        },
    }
    proof {
        assert(final(out)@ =~= old(out)@ + hash_oid_der(h));
    }
}

/// Build the DER DigestInfo wrapping `digest` under the given hash
/// algorithm. Pure, deterministic, offline encoding; the result is what
/// the hardware module's raw PKCS#1 v1.5 signing primitive expects.
pub fn create_digestinfo(digest: &Vec<u8>, hash_algo: HashAlgorithm) -> (r: Vec<u8>)
    ensures
        r@ == digest_info(hash_algo, digest@),
{
    let mut oid: Vec<u8> = Vec::new();
    push_oid_der(&mut oid, hash_algo);
    proof {
        assert(hash_oid_der(hash_algo).len() <= 11);
    }
    let mut content: Vec<u8> = Vec::new();
    content.push(0x30);
    content.push((oid.len() + 2) as u8);
    content.append(&mut oid);
    content.push(0x05);
    content.push(0x00);
    content.push(0x04);
    let mut dl = der_length_bytes(digest.len());
    content.append(&mut dl);
    let mut d = copy_vec(digest);
    content.append(&mut d);
    proof {
        assert(content@ =~= algorithm_identifier_der(hash_algo) + seq![0x04u8]
            + der_length(digest@.len()) + digest@);
    }
    let mut out: Vec<u8> = Vec::new();
    out.push(0x30);
    let mut ol = der_length_bytes(content.len());
    out.append(&mut ol);
    let ghost content_view = content@;
    out.append(&mut content);
    proof {
        assert(out@ =~= seq![0x30u8] + der_length(content_view.len()) + content_view);
    }
    out
}

/// Select the hash algorithm a raw digest must carry, from its length
/// alone: 32 bytes names SHA-256, 48 SHA-384, 64 SHA-512; any other
/// length is rejected before any hardware contact.
pub fn select_hash_algorithm(digest_len: usize) -> (r: Result<HashAlgorithm, FeroError>)
    ensures
        match r {
            Ok(h) => algo_for_digest_len(digest_len as nat) == Some(h),
            Err(e) => e == FeroError::UnsupportedInput && algo_for_digest_len(
                digest_len as nat,
            ) is None,
        },
{
    if digest_len == 32 {
        Ok(HashAlgorithm::Sha256)
    } else if digest_len == 48 {
        Ok(HashAlgorithm::Sha384)
    } else if digest_len == 64 {
        Ok(HashAlgorithm::Sha512)
    } else {
        Err(FeroError::UnsupportedInput)
    }
}

/// Build the DigestInfo for a caller-supplied raw digest, inferring the
/// hash algorithm purely from the digest's length. This never hashes:
/// the caller is expected to have hashed the content already.
pub fn create_rsa_digestinfo(digest: &Vec<u8>) -> (r: Result<Vec<u8>, FeroError>)
    ensures
        match r {
            Ok(v) => algo_for_digest_len(digest@.len()) is Some && v@ == digest_info(
                algo_for_digest_len(digest@.len()).unwrap(),
                digest@,
            ),
            Err(e) => e == FeroError::UnsupportedInput && algo_for_digest_len(
                digest@.len(),
            ) is None,
        },
{
    match select_hash_algorithm(digest.len()) {
        Ok(h) => Ok(create_digestinfo(digest, h)),
        Err(e) => Err(e),
    }
}

/// The bit length of `b`: the position of its highest set bit.
pub open spec fn bit_len_u8(b: u8) -> nat {
    if b >= 128 {
        8
    } else if b >= 64 {
        7
    } else if b >= 32 {
        6
    } else if b >= 16 {
        5
    } else if b >= 8 {
        4
    } else if b >= 4 {
        3
    } else if b >= 2 {
        2
    } else if b >= 1 {
        1
    } else {
        0
    }
}

/// The bit length of the big-endian unsigned integer `m`: leading zero
/// octets carry no bits.
pub open spec fn modulus_bits(m: Seq<u8>) -> nat
    decreases m.len(),
{
    if m.len() == 0 {
        0
    } else if m[0] == 0 {
        modulus_bits(m.drop_first())
    } else {
        (m.len() - 1) as nat * 8 + bit_len_u8(m[0])
    }
}

fn bit_len_u8_exec(b: u8) -> (r: u8)
    ensures
        r as nat == bit_len_u8(b),
{
    if b >= 128 {
        8
    } else if b >= 64 {
        7
    } else if b >= 32 {
        6
    } else if b >= 16 {
        5
    } else if b >= 8 {
        4
    } else if b >= 4 {
        3
    } else if b >= 2 {
        2
    } else if b >= 1 {
        1
    } else {
        0
    }
}

/// The bit length of an RSA modulus given as big-endian octets, as the
/// multiprecision-integer library reports it.
pub fn modulus_bit_length(modulus: &Vec<u8>) -> (r: u64)
    requires
        modulus@.len() * 8 <= u64::MAX,
    ensures
        r as nat == modulus_bits(modulus@),
{
    let mut i: usize = 0;
    proof {
        assert(modulus@.skip(0) =~= modulus@);
    }
    while i < modulus.len()
        invariant
            i <= modulus@.len(),
            modulus_bits(modulus@) == modulus_bits(modulus@.skip(i as int)),
            modulus@.len() * 8 <= u64::MAX,
        decreases modulus@.len() - i,
    {
        if modulus[i] != 0 {
            let bl = bit_len_u8_exec(modulus[i]);
            proof {
                assert(modulus@.skip(i as int)[0] == modulus@[i as int]);
            }
            let r = (modulus.len() - i - 1) as u64 * 8 + bl as u64;
            return r;
        }
        proof {
            assert(modulus@.skip(i as int)[0] == modulus@[i as int]);
            assert(modulus@.skip(i as int).drop_first() =~= modulus@.skip(i as int + 1));
        }
        i = i + 1;
    }
    proof {
        assert(modulus@.skip(i as int).len() == 0);
    }
    0
}

/// Decide which import algorithm a modulus bit length names: exactly
/// 2048 and 4096 are accepted; 1024 is rejected as insecure, distinctly
/// from every other unsupported size.
pub fn rsa_algorithm_for_bits(bits: u64) -> (r: Result<RsaAlgorithm, FeroError>)
    ensures
        match r {
            Ok(a) => (bits == 2048 && a == RsaAlgorithm::Rsa2048) || (bits == 4096 && a
                == RsaAlgorithm::Rsa4096),
            Err(e) => if bits == 1024 {
                e == FeroError::InsecureKeySize
            } else {
                bits != 2048 && bits != 4096 && e == FeroError::UnsupportedKeySize(bits)
            },
        },
{
    if bits == 1024 {
        Err(FeroError::InsecureKeySize)
    } else if bits == 2048 {
        Ok(RsaAlgorithm::Rsa2048)
    } else if bits == 4096 {
        Ok(RsaAlgorithm::Rsa4096)
    } else {
        Err(FeroError::UnsupportedKeySize(bits))
    }
}

/// Choose the lowest hardware object id not currently assigned, scanning
/// upward from 1. The chosen id is guaranteed free, so it can never
/// collide with an id still assigned to a resident object.
pub fn select_free_object_id(used: &Vec<u16>) -> (r: Result<u16, FeroError>)
    ensures
        match r {
            Ok(id) => 1 <= id && !used@.contains(id) && forall|j: u16|
                1 <= j < id ==> used@.contains(j),
            Err(e) => e == FeroError::CapacityExhausted && forall|j: u16|
                1 <= j ==> used@.contains(j),
        },
{
    let mut present: Vec<bool> = Vec::new();
    let mut k: usize = 0;
    while k < 65536
        invariant
            k <= 65536,
            present@.len() == k,
            forall|b: int| 0 <= b < k ==> !present@[b],
        decreases 65536 - k,
    {
        present.push(false);
        k = k + 1;
    }
    let mut i: usize = 0;
    while i < used.len()
        invariant
            i <= used@.len(),
            present@.len() == 65536,
            forall|b: u16| present@[b as int] == used@.take(i as int).contains(b),
        decreases used@.len() - i,
    {
        let u = used[i];
        present.set(u as usize, true);
        proof {
            assert(used@.take(i as int + 1) =~= used@.take(i as int).push(used@[i as int]));
            assert forall|b: u16| present@[b as int] == used@.take(i as int + 1).contains(
                b,
            ) by {
                lemma_contains_push(used@.take(i as int), used@[i as int], b);
            }
        }
        i = i + 1;
    }
    proof {
        assert(used@.take(used@.len() as int) =~= used@);
    }
    let mut id: usize = 1;
    while id <= 65535
        invariant
            1 <= id <= 65536,
            present@.len() == 65536,
            forall|b: u16| present@[b as int] == used@.contains(b),
            forall|j: u16| 1 <= j < id ==> used@.contains(j),
        decreases 65536 - id,
    {
        if !present[id] {
            return Ok(id as u16);
        }
        id = id + 1;
    }
    Err(FeroError::CapacityExhausted)
}

/// Membership in a sequence grows by exactly the pushed element.
pub proof fn lemma_contains_push<T>(s: Seq<T>, x: T, y: T)
    ensures
        s.push(x).contains(y) <==> (s.contains(y) || x == y),
{
    if s.contains(y) {
        let i = choose|i: int| 0 <= i < s.len() && s[i] == y;
        assert(s.push(x)[i] == y);
    }
    if x == y {
        assert(s.push(x)[s.len() as int] == y);
    }
    if s.push(x).contains(y) {
        let i = choose|i: int| 0 <= i < s.push(x).len() && s.push(x)[i] == y;
        if i < s.len() {
            assert(s[i] == y);
        }
    }
}

/// The audit-log entries with index strictly greater than `k`, in their
/// original order.
pub open spec fn entries_after(entries: Seq<LogEntry>, k: u16) -> Seq<LogEntry>
    decreases entries.len(),
{
    if entries.len() == 0 {
        Seq::empty()
    } else {
        entries_after(entries.drop_last(), k) + if entries.last().index > k {
            seq![entries.last()]
        } else {
            Seq::empty()
        }
    }
}

/// The incremental audit-log read: exactly the entries with index
/// strictly greater than `last_log_index`, in their original order.
pub fn logs_since(entries: &Vec<LogEntry>, last_log_index: u16) -> (r: Vec<LogEntry>)
    ensures
        r@ == entries_after(entries@, last_log_index),
{
    let mut out: Vec<LogEntry> = Vec::new();
    let mut i: usize = 0;
    while i < entries.len()
        invariant
            i <= entries@.len(),
            out@ == entries_after(entries@.take(i as int), last_log_index),
        decreases entries@.len() - i,
    {
        proof {
            assert(entries@.take(i as int + 1).drop_last() =~= entries@.take(i as int));
            assert(entries@.take(i as int + 1).last() == entries@[i as int]);
        }
        if entries[i].index > last_log_index {
            out.push(entries[i]);
            proof {
                assert(out@ =~= entries_after(entries@.take(i as int + 1), last_log_index));
            }
        } else {
            proof {
                assert(out@ =~= entries_after(entries@.take(i as int + 1), last_log_index));
            }
        }
        i = i + 1;
    }
    proof {
        assert(entries@.take(entries@.len() as int) =~= entries@);
    }
    out
}

/// An entry appears in the incremental read exactly when it appears in
/// the log with an index above the watermark.
pub proof fn lemma_entries_after_members(entries: Seq<LogEntry>, k: u16, e: LogEntry)
    ensures
        entries_after(entries, k).contains(e) <==> (entries.contains(e) && e.index > k),
    decreases entries.len(),
{
    if entries.len() == 0 {
    } else {
        lemma_entries_after_members(entries.drop_last(), k, e);
        lemma_contains_push(entries.drop_last(), entries.last(), e);
        assert(entries.drop_last().push(entries.last()) =~= entries);
        if entries.last().index > k {
            assert(entries_after(entries, k) =~= entries_after(entries.drop_last(), k).push(
                entries.last(),
            ));
            lemma_contains_push(entries_after(entries.drop_last(), k), entries.last(), e);
        } else {
            assert(entries_after(entries, k) =~= entries_after(entries.drop_last(), k));
        }
    }
}

/// A log with strictly increasing indexes yields an incremental read
/// whose indexes are strictly increasing as well.
pub proof fn lemma_entries_after_sorted(entries: Seq<LogEntry>, k: u16)
    requires
        forall|i: int, j: int|
            0 <= i < j < entries.len() ==> entries[i].index < entries[j].index,
    ensures
        forall|i: int, j: int|
            0 <= i < j < entries_after(entries, k).len() ==> entries_after(entries, k)[i].index
                < entries_after(entries, k)[j].index,
    decreases entries.len(),
{
    if entries.len() == 0 {
    } else {
        let prefix = entries.drop_last();
        let last = entries.last();
        assert(forall|i: int, j: int|
            0 <= i < j < prefix.len() ==> prefix[i].index < prefix[j].index);
        lemma_entries_after_sorted(prefix, k);
        if last.index > k {
            let r = entries_after(entries, k);
            let rp = entries_after(prefix, k);
            assert(r =~= rp.push(last));
            assert forall|i: int, j: int| 0 <= i < j < r.len() implies r[i].index
                < r[j].index by {
                if j < rp.len() {
                } else {
                    assert(rp.contains(rp[i]));
                    lemma_entries_after_members(prefix, k, rp[i]);
                    let w = choose|w: int| 0 <= w < prefix.len() && prefix[w] == rp[i];
                    assert(entries[w] == rp[i]);
                    assert(entries[w].index < last.index);
                }
            }
        } else {
            assert(entries_after(entries, k) =~= entries_after(prefix, k));
        }
    }
}

/// A watermark at or beyond every index yields the empty read.
pub proof fn lemma_entries_after_empty(entries: Seq<LogEntry>, k: u16)
    requires
        forall|i: int| 0 <= i < entries.len() ==> entries[i].index <= k,
    ensures
        entries_after(entries, k).len() == 0,
    decreases entries.len(),
{
    if entries.len() == 0 {
    } else {
        lemma_entries_after_empty(entries.drop_last(), k);
    }
}

} // verus!
