//! The client side: building the store request, and checking a file's digest
//! against the record found at its derived address.
use crate::address::{derive_address, derived_address, DeriveError};
use crate::codec::{encode_store, store_instruction, DIGEST_LEN};
use crate::digest::{compute_digest, sha256_of};
use crate::program::{
    data_at, has_key, keys_unique, lemma_stored_accounts, record_data, store_hash, store_refusal, stored_accounts, system_program_id, system_program_key,
    AccountMeta, AccountView, Instruction, Ledger, ProgramError, StoreHash, RECORD_SPACE,
};
use vstd::prelude::*;
use vstd::string::StringSliceAdditionalSpecFns;

verus! {

/// Bytes of ledger metadata in front of the digest in a record.
pub const RECORD_META_LEN: usize = 8;

/// What checking a file against the ledger found.
#[derive(Clone, Copy, Debug, PartialEq, Eq, Structural)]
pub enum VerifyOutcome {
    /// The stored digest equals the file's.
    Match,
    /// A record is there, and its digest differs from the file's.
    Mismatch,
    /// No record is at the derived address.
    NotFound,
    /// An account is there, too short to hold a record.
    MalformedRecord,
}

/// Why anchoring a file failed.
#[derive(Clone, Copy, Debug, PartialEq, Eq, Structural)]
pub enum AnchorError {
    /// The file could not be read.
    IoError,
    /// A record already exists for this owner and file name.
    AddressCollision,
    /// The ledger could not be reached.
    TransportError,
    /// The ledger refused the request for another reason.
    RejectionError,
    /// No address can be derived from the owner and the file name.
    Derivation(DeriveError),
}

/// What checking `current` against the account data `stored` finds.
pub open spec fn verify_outcome(stored: Option<Seq<u8>>, current: Seq<u8>) -> VerifyOutcome {
    match stored {
        None => VerifyOutcome::NotFound,
        Some(d) => if d.len() < RECORD_SPACE {
            VerifyOutcome::MalformedRecord
        } else if d.subrange(RECORD_META_LEN as int, RECORD_SPACE as int) == current {
            VerifyOutcome::Match
        } else {
            VerifyOutcome::Mismatch
        },
    }
}

/// Whether the record data `d` holds the digest `current`.
fn holds_digest(d: &Vec<u8>, current: &[u8; 32]) -> (r: bool)
    requires
        d@.len() >= RECORD_SPACE,
    ensures
        r == (d@.subrange(RECORD_META_LEN as int, RECORD_SPACE as int) == current@),
{
    let mut i: usize = 0;
    while i < 32
        invariant
            i <= 32,
            d@.len() >= RECORD_SPACE,
            forall|j: int| 0 <= j < i ==> d@[RECORD_META_LEN + j] == current@[j],
        decreases 32 - i,
    {
        if d[RECORD_META_LEN + i] != current[i] {
            assert(d@.subrange(RECORD_META_LEN as int, RECORD_SPACE as int)[i as int] != current@[i as int]);
            return false;
        }
        i = i + 1;
    }
    assert(d@.subrange(RECORD_META_LEN as int, RECORD_SPACE as int) =~= current@);
    true
}

/// Compares `current` with the digest held in the account data `stored`.
pub fn verify_record(stored: &Option<Vec<u8>>, current: &[u8; 32]) -> (r: VerifyOutcome)
    ensures
        r == verify_outcome(
            match stored {
                Some(v) => Some(v@),
                None => None,
            },
            current@,
        ),
{
    match stored {
        None => VerifyOutcome::NotFound,
        Some(d) => {
            if d.len() < RECORD_SPACE {
                VerifyOutcome::MalformedRecord
            } else if holds_digest(d, current) {
                VerifyOutcome::Match
            } else {
                VerifyOutcome::Mismatch
            }
        },
    }
}

/// The account metas of a store request, as (key, signer, writable).
pub open spec fn store_metas(address: Seq<u8>, owner: Seq<u8>) -> Seq<(Seq<u8>, bool, bool)> {
    seq![(address, false, true), (owner, true, true), (system_program_id(), false, false)]
}

/// The account metas of an instruction, as (key, signer, writable).
pub open spec fn metas_view(metas: Seq<AccountMeta>) -> Seq<(Seq<u8>, bool, bool)> {
    metas.map_values(|m: AccountMeta| (m.pubkey@, m.is_signer, m.is_writable))
}

/// Builds the request that anchors `digest` for `owner` under `file_name`:
/// it names the derived address (writable), the owner (signer and payer) and
/// the system program, and carries the encoded store operation.
pub fn build_store_instruction(owner: &[u8; 32], file_name: &str, digest: &[u8; 32], program_id: &[u8; 32]) -> (r: Result<Instruction, DeriveError>)
    ensures
        r is Ok <==> derived_address(owner@, file_name.spec_bytes(), program_id@) is Some,
        r is Err ==> (r->Err_0 == DeriveError::NameTooLong <==> file_name.spec_bytes().len() > 32),
        r is Ok ==> r->Ok_0.program_id == program_id,
        r is Ok ==> metas_view(r->Ok_0.accounts@) == store_metas(derived_address(owner@, file_name.spec_bytes(), program_id@)->Some_0.0, owner@),
        r is Ok ==> r->Ok_0.data@ == store_instruction(file_name.spec_bytes(), digest@),
{
    let (address, _bump) = derive_address(owner, file_name.as_bytes(), program_id)?;
    let data = encode_store(file_name, digest);
    let mut accounts: Vec<AccountMeta> = Vec::new();
    accounts.push(AccountMeta { pubkey: address, is_signer: false, is_writable: true });
    accounts.push(AccountMeta { pubkey: *owner, is_signer: true, is_writable: true });
    accounts.push(AccountMeta { pubkey: system_program_key(), is_signer: false, is_writable: false });
    proof {
        assert(metas_view(accounts@) =~= store_metas(address@, owner@));
    }
    Ok(Instruction { program_id: *program_id, accounts, data })
}

/// The error that a refusal of the store operation surfaces as.
pub open spec fn anchor_error_of(e: ProgramError) -> AnchorError {
    match e {
        ProgramError::AccountExists => AnchorError::AddressCollision,
        _ => AnchorError::RejectionError,
    }
}

/// Maps a refusal of the store operation to the client's error.
pub fn anchor_error(e: ProgramError) -> (r: AnchorError)
    ensures
        r == anchor_error_of(e),
{
    match e {
        ProgramError::AccountExists => AnchorError::AddressCollision,
        _ => AnchorError::RejectionError,
    }
}

/// Anchors the digest of `contents` for `owner` under `file_name` on `ledger`.
pub fn anchor_file(ledger: &mut Ledger, owner: &[u8; 32], file_name: &str, contents: &[u8]) -> (r: Result<[u8; 32], AnchorError>)
    requires
        old(ledger).wf(),
    ensures
        final(ledger).wf(),
        final(ledger).program_id() == old(ledger).program_id(),
        final(ledger).record_rent() == old(ledger).record_rent(),
        ({
            let name = file_name.spec_bytes();
            let derived = derived_address(owner@, name, old(ledger).program_id()@);
            let accts = old(ledger).accounts();
            &&& derived is None ==> r is Err && r->Err_0 == AnchorError::Derivation(
                if name.len() > 32 { DeriveError::NameTooLong } else { DeriveError::NoViableBump },
            )
            &&& derived is Some ==> {
                let address = derived->Some_0.0;
                &&& r is Ok <==> !has_key(accts, address) && has_key(accts, owner@) && crate::program::balance_of(accts, owner@) >= old(ledger).record_rent()
                &&& r is Ok ==> r->Ok_0@ == address
                &&& r is Ok ==> final(ledger).accounts() == stored_accounts(accts, old(ledger).record_rent(), owner@, address, sha256_of(contents@))
                &&& r is Ok ==> data_at(final(ledger).accounts(), address) == Some(record_data(sha256_of(contents@)))
                &&& r is Err ==> final(ledger).accounts() == accts
                &&& r is Err ==> (r->Err_0 == AnchorError::AddressCollision <==> has_key(accts, address))
            }
        }),
{
    let digest = compute_digest(contents);
    let address = match derive_address(owner, file_name.as_bytes(), &ledger.program_key()) {
        Ok((a, _bump)) => a,
        Err(e) => {
            return Err(AnchorError::Derivation(e));
        },
    };
    let ctx = StoreHash { file_hash: address, user: *owner, system_program: system_program_key() };
    match store_hash(ledger, &ctx, file_name.as_bytes(), &digest) {
        Ok(()) => {
            proof {
                lemma_stored_accounts(old(ledger).accounts(), old(ledger).record_rent(), owner@, address@, digest@);
            }
            Ok(address)
        },
        Err(e) => Err(anchor_error(e)),
    }
}

/// Checks `contents` against the record that `owner` anchored under
/// `file_name` on `ledger`.
pub fn verify_file(ledger: &Ledger, owner: &[u8; 32], file_name: &str, contents: &[u8]) -> (r: Result<VerifyOutcome, DeriveError>)
    requires
        ledger.wf(),
    ensures
        r is Ok <==> derived_address(owner@, file_name.spec_bytes(), ledger.program_id()@) is Some,
        r is Ok ==> r->Ok_0 == verify_outcome(
            data_at(ledger.accounts(), derived_address(owner@, file_name.spec_bytes(), ledger.program_id()@)->Some_0.0),
            sha256_of(contents@),
        ),
{
    let digest = compute_digest(contents);
    let (address, _bump) = derive_address(owner, file_name.as_bytes(), &ledger.program_key())?;
    let stored = ledger.get_account(&address);
    Ok(verify_record(&stored, &digest))
}

/// Round trip: after a store of `hash` succeeded, checking the same digest
/// at the derived address finds a match, and checking any other digest finds
/// a mismatch.
pub proof fn lemma_store_then_verify(
    accts: Seq<AccountView>,
    program_id: Seq<u8>,
    rent: u64,
    ctx: StoreHash,
    file_name: Seq<u8>,
    hash: Seq<u8>,
    other: Seq<u8>,
)
    requires
        keys_unique(accts),
        store_refusal(accts, program_id, rent, ctx, file_name) is None,
        hash.len() == DIGEST_LEN,
    ensures
        ({
            let after = stored_accounts(accts, rent, ctx.user@, ctx.file_hash@, hash);
            let address = derived_address(ctx.user@, file_name, program_id)->Some_0.0;
            &&& verify_outcome(data_at(after, address), hash) == VerifyOutcome::Match
            &&& other != hash ==> verify_outcome(data_at(after, address), other) == VerifyOutcome::Mismatch
        }),
{
    lemma_stored_accounts(accts, rent, ctx.user@, ctx.file_hash@, hash);
    assert(record_data(hash).subrange(RECORD_META_LEN as int, RECORD_SPACE as int) =~= hash);
}

/// Checking at an address where nothing was stored finds no record; a store
/// under any other address leaves it so.
pub proof fn lemma_unstored_not_found(
    accts: Seq<AccountView>,
    address: Seq<u8>,
    current: Seq<u8>,
    rent: u64,
    user: Seq<u8>,
    other_address: Seq<u8>,
    hash: Seq<u8>,
)
    requires
        keys_unique(accts),
        !has_key(accts, address),
        has_key(accts, user),
        !has_key(accts, other_address),
        other_address != address,
    ensures
        verify_outcome(data_at(accts, address), current) == VerifyOutcome::NotFound,
        verify_outcome(data_at(stored_accounts(accts, rent, user, other_address, hash), address), current)
            == VerifyOutcome::NotFound,
{
    lemma_stored_accounts(accts, rent, user, other_address, hash);
}

} // verus!
