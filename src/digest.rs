//! The digest engine: SHA-256 over a byte stream fed in blocks.
use vstd::prelude::*;

verus! {

/// The SHA-256 digest of a byte sequence.
pub uninterp spec fn sha256_of(data: Seq<u8>) -> Seq<u8>;

/// The bytes absorbed so far by a running SHA-256 computation.
pub uninterp spec fn absorbed(h: Sha256State) -> Seq<u8>;

/// A running SHA-256 computation, held in a `sha2::Sha256`.
#[verifier::external_body]
pub struct Sha256State {
    inner: sha2::Sha256,
}

/// Relies on `sha2::Sha256::new`: a fresh hasher has absorbed nothing.
#[verifier::external_body]
fn sha256_new() -> (h: Sha256State)
    ensures
        absorbed(h) == Seq::<u8>::empty(),
{
    Sha256State { inner: <sha2::Sha256 as sha2::Digest>::new() }
}

/// Relies on `sha2::Digest::update`: the block is appended to what was absorbed.
#[verifier::external_body]
fn sha256_update(h: &mut Sha256State, block: &[u8])
    ensures
        absorbed(*final(h)) == absorbed(*old(h)) + block@,
{
    sha2::Digest::update(&mut h.inner, block)
}

/// Relies on `sha2::Digest::finalize`: the digest of everything absorbed.
#[verifier::external_body]
fn sha256_finalize(h: Sha256State) -> (r: [u8; 32])
    ensures
        r@ == sha256_of(absorbed(h)),
{
    sha2::Digest::finalize(h.inner).into()
}

/// Block size used when a whole buffer is digested at once.
pub const BLOCK_SIZE: usize = 1024;

/// An incremental digest computation: feed blocks, then finish.
pub struct Digester {
    state: Sha256State,
}

impl Digester {
    /// The bytes fed so far.
    pub closed spec fn fed(&self) -> Seq<u8> {
        absorbed(self.state)
    }

    pub fn new() -> (d: Digester)
        ensures
            d.fed() == Seq::<u8>::empty(),
    {
        Digester { state: sha256_new() }
    }

    pub fn update(&mut self, block: &[u8])
        ensures
            final(self).fed() == old(self).fed() + block@,
    {
        sha256_update(&mut self.state, block);
    }

    pub fn finish(self) -> (r: [u8; 32])
        ensures
            r@ == sha256_of(self.fed()),
    {
        sha256_finalize(self.state)
    }
}

/// Digests `data`, feeding it to the hasher in blocks of `block_size` bytes.
/// The result does not depend on the block size.
pub fn compute_digest_in_blocks(data: &[u8], block_size: usize) -> (r: [u8; 32])
    requires
        block_size > 0,
    ensures
        r@ == sha256_of(data@),
{
    let mut d = Digester::new();
    let mut pos: usize = 0;
    while pos < data.len()
        invariant
            block_size > 0,
            pos <= data@.len(),
            d.fed() == data@.subrange(0, pos as int),
        decreases data@.len() - pos,
    {
        let end: usize = if data.len() - pos < block_size { data.len() } else { pos + block_size };
        let block = &data[pos..end];
        d.update(block);
        proof {
            assert(data@.subrange(0, pos as int) + data@.subrange(pos as int, end as int)
                =~= data@.subrange(0, end as int));
        }
        pos = end;
    }
    proof {
        assert(data@.subrange(0, data@.len() as int) =~= data@);
    }
    d.finish()
}

/// Digests `data` in blocks of `BLOCK_SIZE` bytes.
pub fn compute_digest(data: &[u8]) -> (r: [u8; 32])
    ensures
        r@ == sha256_of(data@),
{
    compute_digest_in_blocks(data, BLOCK_SIZE)
}

} // verus!
