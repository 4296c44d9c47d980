//! The address deriver: a key-less ledger address determined by an owner
//! identity, a file name and the program's identity.
use solana_sdk::pubkey::{Pubkey, PubkeyError};
use vstd::prelude::*;

verus! {

/// The longest seed the ledger accepts, in bytes.
pub const MAX_SEED_LEN: usize = 32;

/// Length of a ledger identity (public key, program id, address), in bytes.
pub const KEY_LEN: usize = 32;

/// The address that the ledger derives from `seeds` under `program_id`, or
/// `None` where the hash of the seeds lies on the curve (it would have a key).
pub uninterp spec fn program_address(seeds: Seq<Seq<u8>>, program_id: Seq<u8>) -> Option<Seq<u8>>;

/// The bytes that a base58 text stands for, or `None` where it is no base58.
pub uninterp spec fn base58_bytes(text: Seq<char>) -> Option<Seq<u8>>;

/// Why the ledger refused a set of seeds.
#[derive(Clone, Copy, Debug, PartialEq, Eq, Structural)]
pub enum SeedError {
    /// A seed is longer than `MAX_SEED_LEN`.
    TooLong,
    /// The hash of the seeds is a point on the curve.
    OnCurve,
}

/// Why no address could be derived.
#[derive(Clone, Copy, Debug, PartialEq, Eq, Structural)]
pub enum DeriveError {
    /// The file name is longer than `MAX_SEED_LEN` bytes.
    NameTooLong,
    /// No bump from 255 down to 1 gives an address off the curve.
    NoViableBump,
}

/// The seeds of an address: owner identity, file name, bump.
pub open spec fn seeds_of(owner: Seq<u8>, file_name: Seq<u8>, bump: u8) -> Seq<Seq<u8>> {
    seq![owner, file_name, seq![bump]]
}

/// The first bump, counting down from `b` to 1, whose seeds give an address.
pub open spec fn bump_from(owner: Seq<u8>, file_name: Seq<u8>, program_id: Seq<u8>, b: int) -> Option<u8>
    decreases b,
{
    if b <= 0 || b > 255 {
        None
    } else if program_address(seeds_of(owner, file_name, b as u8), program_id) is Some {
        Some(b as u8)
    } else {
        bump_from(owner, file_name, program_id, b - 1)
    }
}

/// The derived address and its bump: the first bump from 255 down to 1 whose
/// seeds give an address off the curve.
pub open spec fn derived_address(owner: Seq<u8>, file_name: Seq<u8>, program_id: Seq<u8>) -> Option<(Seq<u8>, u8)> {
    if file_name.len() > MAX_SEED_LEN {
        None
    } else {
        match bump_from(owner, file_name, program_id, 255) {
            Some(b) => Some((program_address(seeds_of(owner, file_name, b), program_id).unwrap(), b)),
            None => None,
        }
    }
}

/// Relies on `Pubkey::create_program_address` of solana-sdk: it refuses a
/// seed longer than 32 bytes, refuses seeds whose hash is on the curve, and
/// otherwise returns that hash as the address.
#[verifier::external_body]
fn create_program_address(owner: &[u8; 32], file_name: &[u8], bump: u8, program_id: &[u8; 32]) -> (r: Result<[u8; 32], SeedError>)
    ensures
        file_name@.len() > MAX_SEED_LEN ==> r is Err && r->Err_0 == SeedError::TooLong,
        file_name@.len() <= MAX_SEED_LEN && r is Ok ==> program_address(seeds_of(owner@, file_name@, bump), program_id@) == Some(r->Ok_0@),
        file_name@.len() <= MAX_SEED_LEN && r is Err ==> r->Err_0 == SeedError::OnCurve,
        file_name@.len() <= MAX_SEED_LEN && r is Err ==> program_address(seeds_of(owner@, file_name@, bump), program_id@) is None,
{
    let program = Pubkey::new_from_array(*program_id);
    match Pubkey::create_program_address(&[owner, file_name, &[bump]], &program) {
        Ok(a) => Ok(a.to_bytes()),
        Err(PubkeyError::InvalidSeeds) => Err(SeedError::OnCurve),
        Err(_) => Err(SeedError::TooLong),
    }
}

/// Relies on `bs58::decode(..).into_vec()`: the bytes of a base58 text.
#[verifier::external_body]
fn base58_decode(text: &str) -> (r: Option<Vec<u8>>)
    ensures
        match r {
            Some(v) => base58_bytes(text@) == Some(v@),
            None => base58_bytes(text@) is None,
        },
{
    bs58::decode(text).into_vec().ok()
}

/// Why a program identity could not be read from its text.
#[derive(Clone, Copy, Debug, PartialEq, Eq, Structural)]
pub enum KeyTextError {
    /// The text is no base58.
    NotBase58,
    /// The text decodes to other than 32 bytes.
    WrongLength,
}

/// Reads a 32-byte identity from its base58 text.
pub fn key_from_base58(text: &str) -> (r: Result<[u8; 32], KeyTextError>)
    ensures
        match base58_bytes(text@) {
            None => r is Err && r->Err_0 == KeyTextError::NotBase58,
            Some(b) => if b.len() == KEY_LEN {
                r is Ok && r->Ok_0@ == b
            } else {
                r is Err && r->Err_0 == KeyTextError::WrongLength
            },
        },
{
    match base58_decode(text) {
        None => Err(KeyTextError::NotBase58),
        Some(v) => {
            if v.len() != KEY_LEN {
                return Err(KeyTextError::WrongLength);
            }
            let mut k: [u8; 32] = [0u8; 32];
            let mut i: usize = 0;
            while i < KEY_LEN
                invariant
                    v@.len() == KEY_LEN,
                    i <= KEY_LEN,
                    forall|j: int| 0 <= j < i ==> k@[j] == v@[j],
                decreases KEY_LEN - i,
            {
                k[i] = v[i];
                i = i + 1;
            }
            assert(k@ =~= v@);
            Ok(k)
        },
    }
}

/// Derives the address of the record that `owner` anchors under `file_name`,
/// with its bump: the bumps are tried from 255 down to 1, and the first whose
/// seeds give an address off the curve is taken.
pub fn derive_address(owner: &[u8; 32], file_name: &[u8], program_id: &[u8; 32]) -> (r: Result<([u8; 32], u8), DeriveError>)
    ensures
        match r {
            Ok((a, b)) => derived_address(owner@, file_name@, program_id@) == Some((a@, b)),
            Err(DeriveError::NameTooLong) => file_name@.len() > MAX_SEED_LEN,
            Err(DeriveError::NoViableBump) => file_name@.len() <= MAX_SEED_LEN
                && derived_address(owner@, file_name@, program_id@) is None,
        },
{
    if file_name.len() > MAX_SEED_LEN {
        return Err(DeriveError::NameTooLong);
    }
    let mut bump: u8 = 255;
    while bump > 0
        invariant
            file_name@.len() <= MAX_SEED_LEN,
            bump_from(owner@, file_name@, program_id@, 255)
                == bump_from(owner@, file_name@, program_id@, bump as int),
        decreases bump,
    {
        match create_program_address(owner, file_name, bump, program_id) {
            Ok(a) => {
                return Ok((a, bump));
            },
            Err(_) => {},
        }
        bump = bump - 1;
    }
    Err(DeriveError::NoViableBump)
}

/// Derivation is a function of its inputs: equal owner, file name and
/// program give the same address and bump.
pub proof fn lemma_derivation_deterministic(
    owner_a: Seq<u8>,
    name_a: Seq<u8>,
    program_a: Seq<u8>,
    owner_b: Seq<u8>,
    name_b: Seq<u8>,
    program_b: Seq<u8>,
)
    requires
        owner_a == owner_b,
        name_a == name_b,
        program_a == program_b,
    ensures
        derived_address(owner_a, name_a, program_a) == derived_address(owner_b, name_b, program_b),
{
}

/// Two different (owner, file name) pairs never hand the ledger the same
/// seeds, whatever the bumps: the file name takes part as raw bytes.
pub proof fn lemma_distinct_inputs_distinct_seeds(
    owner_a: Seq<u8>,
    name_a: Seq<u8>,
    bump_a: u8,
    owner_b: Seq<u8>,
    name_b: Seq<u8>,
    bump_b: u8,
)
    requires
        owner_a != owner_b || name_a != name_b,
    ensures
        seeds_of(owner_a, name_a, bump_a) != seeds_of(owner_b, name_b, bump_b),
{
    if seeds_of(owner_a, name_a, bump_a) == seeds_of(owner_b, name_b, bump_b) {
        assert(seeds_of(owner_a, name_a, bump_a)[0] == owner_b);
        assert(seeds_of(owner_a, name_a, bump_a)[1] == name_b);
    }
}

} // verus!
