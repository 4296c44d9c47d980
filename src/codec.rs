//! The instruction codec: the wire form of the store operation.
//!
//! Layout: `discriminator(8) || name_len(4, little-endian) || name || digest(32)`.
use crate::digest::{compute_digest, sha256_of};
use vstd::prelude::*;
use vstd::string::StringSliceAdditionalSpecFns;

verus! {

/// The text that names the store operation; its discriminator is derived from it.
pub const STORE_OPERATION: &'static str = "global:store_hash";

/// Length of an operation discriminator, in bytes.
pub const DISCRIMINATOR_LEN: usize = 8;

/// Length of a digest, in bytes.
pub const DIGEST_LEN: usize = 32;

/// Bytes of a store instruction around the file name.
pub const STORE_OVERHEAD: usize = 44;

/// The discriminator of an operation: the first 8 bytes of the digest of its name.
pub open spec fn discriminator_of(op: Seq<u8>) -> Seq<u8> {
    Seq::new(DISCRIMINATOR_LEN as nat, |i: int| sha256_of(op)[i])
}

/// The discriminator of the store operation.
pub open spec fn store_discriminator() -> Seq<u8> {
    discriminator_of(STORE_OPERATION.spec_bytes())
}

/// `n` as four little-endian bytes.
pub open spec fn le32(n: u32) -> Seq<u8> {
    seq![(n & 0xff) as u8, ((n >> 8u32) & 0xff) as u8, ((n >> 16u32) & 0xff) as u8, ((n >> 24u32) & 0xff) as u8]
}

/// The number that four little-endian bytes stand for.
pub open spec fn le32_value(b0: u8, b1: u8, b2: u8, b3: u8) -> u32 {
    (b0 as u32) | ((b1 as u32) << 8u32) | ((b2 as u32) << 16u32) | ((b3 as u32) << 24u32)
}

/// The encoded store instruction for a file name and a digest.
pub open spec fn store_instruction(name: Seq<u8>, digest: Seq<u8>) -> Seq<u8> {
    store_discriminator() + le32(name.len() as u32) + name + digest
}

proof fn lemma_le32_value(n: u32)
    ensures
        le32_value(le32(n)[0], le32(n)[1], le32(n)[2], le32(n)[3]) == n,
{
    assert(((((n & 0xff) as u8) as u32) | (((((n >> 8u32) & 0xff) as u8) as u32) << 8u32) | (((((n
        >> 16u32) & 0xff) as u8) as u32) << 16u32) | (((((n >> 24u32) & 0xff) as u8) as u32) << 24u32))
        == n) by (bit_vector);
}

/// The discriminator of the operation named `op`.
pub fn operation_discriminator(op: &str) -> (r: [u8; 8])
    ensures
        r@ == discriminator_of(op.spec_bytes()),
{
    let d = compute_digest(op.as_bytes());
    let mut r: [u8; 8] = [0u8; 8];
    let mut i: usize = 0;
    while i < DISCRIMINATOR_LEN
        invariant
            i <= DISCRIMINATOR_LEN,
            d@.len() == DIGEST_LEN,
            forall|j: int| 0 <= j < i ==> r@[j] == d@[j],
        decreases DISCRIMINATOR_LEN - i,
    {
        r[i] = d[i];
        i = i + 1;
    }
    assert(r@ =~= d@.subrange(0, DISCRIMINATOR_LEN as int));
    r
}

/// The discriminator of the store operation.
pub fn store_hash_discriminator() -> (r: [u8; 8])
    ensures
        r@ == store_discriminator(),
{
    operation_discriminator(STORE_OPERATION)
}

/// Encodes the store operation for `file_name` and `digest`.
pub fn encode_store(file_name: &str, digest: &[u8; 32]) -> (r: Vec<u8>)
    requires
        file_name.spec_bytes().len() <= u32::MAX,
    ensures
        r@ == store_instruction(file_name.spec_bytes(), digest@),
        r@.len() == STORE_OVERHEAD + file_name.spec_bytes().len(),
{
    let name = file_name.as_bytes();
    let disc = store_hash_discriminator();
    let n: u32 = name.len() as u32;
    let mut out: Vec<u8> = Vec::new();
    out.extend_from_slice(&disc);
    out.push((n & 0xff) as u8);
    out.push(((n >> 8u32) & 0xff) as u8);
    out.push(((n >> 16u32) & 0xff) as u8);
    out.push(((n >> 24u32) & 0xff) as u8);
    out.extend_from_slice(name);
    out.extend_from_slice(digest);
    assert(out@ =~= store_instruction(name@, digest@));
    out
}

/// A decoded store operation.
pub struct StoreArgs {
    pub file_name: Vec<u8>,
    pub hash: [u8; 32],
}

/// Decodes a store instruction; `None` where `data` is not one.
pub fn decode_store(data: &[u8]) -> (r: Option<StoreArgs>)
    ensures
        r is Some ==> data@ == store_instruction(r->Some_0.file_name@, r->Some_0.hash@),
        r is Some ==> r->Some_0.file_name@.len() <= u32::MAX,
        r is None ==> forall|name: Seq<u8>, digest: Seq<u8>|
            name.len() <= u32::MAX && digest.len() == DIGEST_LEN ==> data@ != #[trigger] store_instruction(name, digest),
{
    let disc = store_hash_discriminator();
    if data.len() < STORE_OVERHEAD {
        return None;
    }
    let mut i: usize = 0;
    while i < DISCRIMINATOR_LEN
        invariant
            i <= DISCRIMINATOR_LEN,
            data@.len() >= STORE_OVERHEAD,
            disc@.len() == DISCRIMINATOR_LEN,
            disc@ == store_discriminator(),
            forall|j: int| 0 <= j < i ==> data@[j] == disc@[j],
        decreases DISCRIMINATOR_LEN - i,
    {
        if data[i] != disc[i] {
            proof {
                assert forall|name: Seq<u8>, digest: Seq<u8>| name.len() <= u32::MAX && digest.len() == DIGEST_LEN
                    implies data@ != #[trigger] store_instruction(name, digest) by {
                    if data@ == store_instruction(name, digest) {
                        assert(store_instruction(name, digest)[i as int] == store_discriminator()[i as int]);
                    }
                };
            }
            return None;
        }
        i = i + 1;
    }
    let len: u32 = (data[8] as u32) | ((data[9] as u32) << 8u32) | ((data[10] as u32) << 16u32) | ((data[11] as u32) << 24u32);
    if data.len() - STORE_OVERHEAD != len as usize {
        proof {
            assert forall|name: Seq<u8>, digest: Seq<u8>| name.len() <= u32::MAX && digest.len() == DIGEST_LEN
                implies data@ != #[trigger] store_instruction(name, digest) by {
                if data@ == store_instruction(name, digest) {
                    lemma_le32_value(name.len() as u32);
                    assert(data@[8] == le32(name.len() as u32)[0]);
                    assert(data@[9] == le32(name.len() as u32)[1]);
                    assert(data@[10] == le32(name.len() as u32)[2]);
                    assert(data@[11] == le32(name.len() as u32)[3]);
                }
            };
        }
        return None;
    }
    let name_end: usize = 12 + len as usize;
    let mut file_name: Vec<u8> = Vec::new();
    file_name.extend_from_slice(&data[12..name_end]);
    let mut hash: [u8; 32] = [0u8; 32];
    let mut k: usize = 0;
    while k < DIGEST_LEN
        invariant
            k <= DIGEST_LEN,
            data@.len() == name_end + DIGEST_LEN,
            name_end + DIGEST_LEN <= usize::MAX,
            forall|j: int| 0 <= j < k ==> hash@[j] == data@[name_end + j],
        decreases DIGEST_LEN - k,
    {
        hash[k] = data[name_end + k];
        k = k + 1;
    }
    proof {
        lemma_le32_value(len);
        assert(le32(len) =~= data@.subrange(8, 12)) by {
            assert(le32_value(data@[8], data@[9], data@[10], data@[11]) == len);
            lemma_le32_bytes(data@[8], data@[9], data@[10], data@[11]);
        };
        assert(data@ =~= store_instruction(file_name@, hash@));
    }
    Some(StoreArgs { file_name, hash })
}

proof fn lemma_le32_bytes(b0: u8, b1: u8, b2: u8, b3: u8)
    ensures
        le32(le32_value(b0, b1, b2, b3)) == seq![b0, b1, b2, b3],
{
    let v = le32_value(b0, b1, b2, b3);
    assert((v & 0xff) as u8 == b0 && ((v >> 8u32) & 0xff) as u8 == b1 && ((v >> 16u32) & 0xff) as u8 == b2
        && ((v >> 24u32) & 0xff) as u8 == b3) by (bit_vector)
        requires
            v == (b0 as u32) | ((b1 as u32) << 8u32) | ((b2 as u32) << 16u32) | ((b3 as u32) << 24u32),
    ;
    assert(le32(v) =~= seq![b0, b1, b2, b3]);
}

/// Distinct (file name, digest) pairs encode to distinct instructions.
pub proof fn lemma_store_instruction_injective(name_a: Seq<u8>, digest_a: Seq<u8>, name_b: Seq<u8>, digest_b: Seq<u8>)
    requires
        digest_a.len() == DIGEST_LEN,
        digest_b.len() == DIGEST_LEN,
        store_instruction(name_a, digest_a) == store_instruction(name_b, digest_b),
    ensures
        name_a == name_b,
        digest_a == digest_b,
{
    let s = store_instruction(name_a, digest_a);
    let t = store_instruction(name_b, digest_b);
    assert(s.len() == 44 + name_a.len());
    assert(t.len() == 44 + name_b.len());
    let n = name_a.len() as int;
    assert(s.subrange(12, 12 + n) =~= name_a);
    assert(t.subrange(12, 12 + n) =~= name_b);
    assert(s.subrange(12 + n, 44 + n) =~= digest_a);
    assert(t.subrange(12 + n, 44 + n) =~= digest_b);
}

} // verus!
