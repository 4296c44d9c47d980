//! The ledger program: a guarded, one-shot transition that writes a digest
//! into a new record at the derived address, over a model of ledger accounts.
use crate::address::{derive_address, derived_address};
use crate::codec::{
    decode_store, discriminator_of, lemma_store_instruction_injective, operation_discriminator,
    store_instruction, DIGEST_LEN,
};
use vstd::prelude::*;
use vstd::string::StringSliceAdditionalSpecFns;

verus! {

/// The text that names the record account type; its discriminator prefixes a record.
pub const RECORD_ACCOUNT: &'static str = "account:FileHash";

/// Size of a record account: 8 bytes of metadata, then the digest.
pub const RECORD_SPACE: usize = 40;

/// The identity of the ledger's system program: 32 zero bytes.
pub open spec fn system_program_id() -> Seq<u8> {
    Seq::new(32, |i: int| 0u8)
}

/// The identity of the ledger's system program.
pub fn system_program_key() -> (r: [u8; 32])
    ensures
        r@ == system_program_id(),
{
    let mut k: [u8; 32] = [0u8; 32];
    let mut i: usize = 0;
    while i < 32
        invariant
            i <= 32,
            forall|j: int| 0 <= j < i ==> k@[j] == 0u8,
        decreases 32 - i,
    {
        k[i] = 0;
        i = i + 1;
    }
    assert(k@ =~= system_program_id());
    k
}

/// Whether `key` is the identity of the ledger's system program.
pub fn is_system_program(key: &[u8; 32]) -> (r: bool)
    ensures
        r == (key@ == system_program_id()),
{
    let mut i: usize = 0;
    while i < 32
        invariant
            i <= 32,
            forall|j: int| 0 <= j < i ==> key@[j] == 0u8,
        decreases 32 - i,
    {
        if key[i] != 0 {
            return false;
        }
        i = i + 1;
    }
    assert(key@ =~= system_program_id());
    true
}

/// The stored content of a record.
pub struct FileHash {
    pub hash: [u8; 32],
}

/// The accounts that a store operation names.
pub struct StoreHash {
    /// Where the record is to be created.
    pub file_hash: [u8; 32],
    /// The owner, who pays for the record.
    pub user: [u8; 32],
    /// The ledger's system program.
    pub system_program: [u8; 32],
}

/// One account of the ledger.
pub struct LedgerAccount {
    pub key: [u8; 32],
    pub lamports: u64,
    pub data: Vec<u8>,
}

/// Why the program refused a store operation.
#[derive(Clone, Copy, Debug, PartialEq, Eq, Structural)]
pub enum ProgramError {
    /// The named system program is not the ledger's.
    WrongSystemProgram,
    /// No address can be derived from the owner and the file name.
    InvalidSeeds,
    /// The named record address is not the one derived from owner and file name.
    AddressMismatch,
    /// A record already exists at the address.
    AccountExists,
    /// The owner has no account, or too few lamports to pay for the record.
    InsufficientFunds,
    /// The instruction is not addressed to this program.
    WrongProgram,
    /// The instruction data is not a store operation.
    InvalidInstructionData,
    /// The instruction does not name its three accounts as required.
    InvalidAccounts,
}

/// What an account holds, as plain values.
pub struct AccountView {
    pub key: Seq<u8>,
    pub lamports: u64,
    pub data: Seq<u8>,
}

impl View for LedgerAccount {
    type V = AccountView;

    open spec fn view(&self) -> AccountView {
        AccountView { key: self.key@, lamports: self.lamports, data: self.data@ }
    }
}

/// The bytes of a record that holds `hash`.
pub open spec fn record_data(hash: Seq<u8>) -> Seq<u8> {
    discriminator_of(RECORD_ACCOUNT.spec_bytes()) + hash
}

/// Whether an account with `key` is among `accts`.
pub open spec fn has_key(accts: Seq<AccountView>, key: Seq<u8>) -> bool {
    exists|i: int| 0 <= i < accts.len() && (#[trigger] accts[i]).key == key
}

/// The position of the account with `key` in `accts`, or -1.
pub open spec fn index_of(accts: Seq<AccountView>, key: Seq<u8>) -> int {
    if has_key(accts, key) {
        choose|i: int| 0 <= i < accts.len() && (#[trigger] accts[i]).key == key
    } else {
        -1
    }
}

/// The lamports of the account with `key`; 0 where there is none.
pub open spec fn balance_of(accts: Seq<AccountView>, key: Seq<u8>) -> u64 {
    if has_key(accts, key) {
        accts[index_of(accts, key)].lamports
    } else {
        0
    }
}

/// The data of the account with `key`, or `None` where there is none.
pub open spec fn data_at(accts: Seq<AccountView>, key: Seq<u8>) -> Option<Seq<u8>> {
    if has_key(accts, key) {
        Some(accts[index_of(accts, key)].data)
    } else {
        None
    }
}

/// No two accounts share a key.
pub open spec fn keys_unique(accts: Seq<AccountView>) -> bool {
    forall|i: int, j: int|
        0 <= i < accts.len() && 0 <= j < accts.len() && i != j ==> (#[trigger] accts[i]).key != (#[trigger] accts[j]).key
}

/// A ledger: the accounts that exist, the program that owns records, and the
/// rent that one record costs its payer.
pub struct Ledger {
    program_id: [u8; 32],
    record_rent: u64,
    accounts: Vec<LedgerAccount>,
}

/// Whether two keys are equal.
pub fn same_key(a: &[u8; 32], b: &[u8; 32]) -> (r: bool)
    ensures
        r == (a@ == b@),
{
    let mut i: usize = 0;
    while i < 32
        invariant
            i <= 32,
            forall|j: int| 0 <= j < i ==> a@[j] == b@[j],
        decreases 32 - i,
    {
        if a[i] != b[i] {
            return false;
        }
        i = i + 1;
    }
    assert(a@ =~= b@);
    true
}

/// The first guard that a store operation fails on `accts`, or `None` where
/// all hold.
pub open spec fn store_refusal(
    accts: Seq<AccountView>,
    program_id: Seq<u8>,
    rent: u64,
    ctx: StoreHash,
    file_name: Seq<u8>,
) -> Option<ProgramError> {
    let derived = derived_address(ctx.user@, file_name, program_id);
    if ctx.system_program@ != system_program_id() {
        Some(ProgramError::WrongSystemProgram)
    } else if derived is None {
        Some(ProgramError::InvalidSeeds)
    } else if derived->Some_0.0 != ctx.file_hash@ {
        Some(ProgramError::AddressMismatch)
    } else if has_key(accts, ctx.file_hash@) {
        Some(ProgramError::AccountExists)
    } else if !has_key(accts, ctx.user@) || balance_of(accts, ctx.user@) < rent {
        Some(ProgramError::InsufficientFunds)
    } else {
        None
    }
}

/// The accounts after a store that passed its guards: the payer is charged
/// the rent, and a record holding `hash` is created at `address`.
pub open spec fn stored_accounts(accts: Seq<AccountView>, rent: u64, user: Seq<u8>, address: Seq<u8>, hash: Seq<u8>) -> Seq<AccountView> {
    let p = index_of(accts, user);
    accts.update(p, AccountView { lamports: (accts[p].lamports - rent) as u64, ..accts[p] }).push(
        AccountView { key: address, lamports: rent, data: record_data(hash) },
    )
}

/// After a store that passed its guards, keys stay unique, the new record
/// holds the record data of `hash`, and every other account keeps its data.
pub proof fn lemma_stored_accounts(accts: Seq<AccountView>, rent: u64, user: Seq<u8>, address: Seq<u8>, hash: Seq<u8>)
    requires
        keys_unique(accts),
        has_key(accts, user),
        !has_key(accts, address),
    ensures
        keys_unique(stored_accounts(accts, rent, user, address, hash)),
        data_at(stored_accounts(accts, rent, user, address, hash), address) == Some(record_data(hash)),
        forall|k: Seq<u8>| k != address ==> #[trigger] data_at(stored_accounts(accts, rent, user, address, hash), k) == data_at(accts, k),
{
    let s = stored_accounts(accts, rent, user, address, hash);
    let p = index_of(accts, user);
    let n = accts.len() as int;
    assert(0 <= p < n);
    assert forall|i: int| 0 <= i < n implies (#[trigger] s[i]).key == accts[i].key && s[i].data == accts[i].data by {};
    assert(s[n].key == address);
    assert forall|i: int, j: int| 0 <= i < s.len() && 0 <= j < s.len() && i != j implies (#[trigger] s[i]).key != (#[trigger] s[j]).key by {
        if i < n && j < n {
            assert(accts[i].key != accts[j].key);
        } else if i == n {
            assert(accts[j].key != address);
        } else {
            assert(accts[i].key != address);
        }
    };
    assert(has_key(s, address));
    let q = index_of(s, address);
    assert(q == n) by {
        if q != n {
            assert(s[q].key != s[n].key);
        }
    };
    assert forall|k: Seq<u8>| k != address implies #[trigger] data_at(s, k) == data_at(accts, k) by {
        if has_key(accts, k) {
            let i = index_of(accts, k);
            assert(s[i].key == k);
            assert(has_key(s, k));
            let j = index_of(s, k);
            assert(j == i) by {
                if j != i {
                    assert(s[i].key != s[j].key);
                }
            };
        } else {
            if has_key(s, k) {
                let j = index_of(s, k);
                assert(j != n);
                assert(accts[j].key == k);
            }
        }
    };
}

impl Ledger {
    /// The accounts, in the order they were created.
    pub closed spec fn accounts(&self) -> Seq<AccountView> {
        self.accounts@.map_values(|a: LedgerAccount| a@)
    }

    pub closed spec fn program_id(&self) -> [u8; 32] {
        self.program_id
    }

    pub closed spec fn record_rent(&self) -> u64 {
        self.record_rent
    }

    /// The identity of the program that owns the records.
    pub fn program_key(&self) -> (r: [u8; 32])
        ensures
            r == self.program_id(),
    {
        self.program_id
    }

    /// The rent that one record costs its payer.
    pub fn rent(&self) -> (r: u64)
        ensures
            r == self.record_rent(),
    {
        self.record_rent
    }

    /// The ledger's accounts have distinct keys.
    pub open spec fn wf(&self) -> bool {
        keys_unique(self.accounts())
    }

    /// An empty ledger on which `program_id` owns the records, each costing `record_rent`.
    pub fn new(program_id: [u8; 32], record_rent: u64) -> (l: Ledger)
        ensures
            l.wf(),
            l.accounts() == Seq::<AccountView>::empty(),
            l.program_id() == program_id,
            l.record_rent() == record_rent,
    {
        Ledger { program_id, record_rent, accounts: Vec::new() }
    }

    /// The position of the account with `key`, if any.
    fn find(&self, key: &[u8; 32]) -> (r: Option<usize>)
        requires
            self.wf(),
        ensures
            r is None <==> !has_key(self.accounts(), key@),
            r is Some ==> r->Some_0 == index_of(self.accounts(), key@),
            r is Some ==> r->Some_0 < self.accounts().len(),
    {
        let mut i: usize = 0;
        while i < self.accounts.len()
            invariant
                i <= self.accounts@.len(),
                forall|j: int| 0 <= j < i ==> (#[trigger] self.accounts()[j]).key != key@,
                self.accounts().len() == self.accounts@.len(),
                self.wf(),
            decreases self.accounts@.len() - i,
        {
            if same_key(&self.accounts[i].key, key) {
                proof {
                    let k = index_of(self.accounts(), key@);
                    assert(self.accounts()[i as int].key == key@);
                    assert(has_key(self.accounts(), key@));
                    assert(self.accounts()[k].key == key@);
                    if k != i as int {
                        assert(self.accounts()[k].key != self.accounts()[i as int].key);
                    }
                }
                return Some(i);
            }
            i = i + 1;
        }
        None
    }

    /// The data of the account at `key`, or `None` where no account is there.
    pub fn get_account(&self, key: &[u8; 32]) -> (r: Option<Vec<u8>>)
        requires
            self.wf(),
        ensures
            r is None <==> !has_key(self.accounts(), key@),
            r is Some ==> data_at(self.accounts(), key@) == Some(r->Some_0@),
    {
        match self.find(key) {
            None => None,
            Some(i) => {
                let mut d: Vec<u8> = Vec::new();
                d.extend_from_slice(self.accounts[i].data.as_slice());
                Some(d)
            },
        }
    }

    /// The lamports of the account at `key`; 0 where there is none.
    pub fn balance(&self, key: &[u8; 32]) -> (r: u64)
        requires
            self.wf(),
        ensures
            r == balance_of(self.accounts(), key@),
    {
        match self.find(key) {
            None => 0,
            Some(i) => self.accounts[i].lamports,
        }
    }
    /// Credits `lamports` to the account at `key`, creating an empty account
    /// there if there is none; `false`, with nothing changed, where the
    /// balance would overflow.
    pub fn credit(&mut self, key: &[u8; 32], lamports: u64) -> (r: bool)
        requires
            old(self).wf(),
        ensures
            final(self).wf(),
            final(self).program_id() == old(self).program_id(),
            final(self).record_rent() == old(self).record_rent(),
            r == (balance_of(old(self).accounts(), key@) + lamports <= u64::MAX),
            !r ==> final(self).accounts() == old(self).accounts(),
            r ==> balance_of(final(self).accounts(), key@) == balance_of(old(self).accounts(), key@) + lamports,
            r ==> forall|k: Seq<u8>| #[trigger] data_at(final(self).accounts(), k) == if k == key@ && !has_key(old(self).accounts(), k) { Some(Seq::<u8>::empty()) } else { data_at(old(self).accounts(), k) },
    {
        match self.find(key) {
            Some(p) => {
                if self.accounts[p].lamports > u64::MAX - lamports {
                    return false;
                }
                let ghost before = self.accounts();
                self.accounts[p].lamports = self.accounts[p].lamports + lamports;
                proof {
                    let after = self.accounts();
                    assert forall|i: int| 0 <= i < after.len() implies (#[trigger] after[i]).key == before[i].key && after[i].data == before[i].data by {};
                    assert(keys_unique(after)) by {
                        assert forall|i: int, j: int| 0 <= i < after.len() && 0 <= j < after.len() && i != j implies (#[trigger] after[i]).key != (#[trigger] after[j]).key by {
                            assert(before[i].key != before[j].key);
                        };
                    };
                    assert(has_key(after, key@)) by { assert(after[p as int].key == key@); };
                    assert(index_of(after, key@) == p) by {
                        let q = index_of(after, key@);
                        if q != p { assert(after[q].key != after[p as int].key); }
                    };
                    assert forall|k: Seq<u8>| #[trigger] data_at(after, k) == data_at(before, k) by {
                        if has_key(before, k) {
                            let i = index_of(before, k);
                            assert(after[i].key == k);
                            let j = index_of(after, k);
                            if j != i { assert(after[i].key != after[j].key); }
                        } else if has_key(after, k) {
                            let j = index_of(after, k);
                            assert(before[j].key == k);
                        }
                    };
                }
                true
            },
            None => {
                let ghost before = self.accounts();
                self.accounts.push(LedgerAccount { key: *key, lamports, data: Vec::new() });
                proof {
                    let after = self.accounts();
                    let n = before.len() as int;
                    assert(after =~= before.push(AccountView { key: key@, lamports, data: Seq::<u8>::empty() }));
                    assert(keys_unique(after)) by {
                        assert forall|i: int, j: int| 0 <= i < after.len() && 0 <= j < after.len() && i != j implies (#[trigger] after[i]).key != (#[trigger] after[j]).key by {
                            if i < n && j < n {
                                assert(before[i].key != before[j].key);
                            } else if i == n {
                                assert(before[j].key != key@);
                            } else {
                                assert(before[i].key != key@);
                            }
                        };
                    };
                    assert(has_key(after, key@)) by { assert(after[n].key == key@); };
                    assert(index_of(after, key@) == n) by {
                        let q = index_of(after, key@);
                        if q != n { assert(after[q].key != after[n].key); }
                    };
                    assert forall|k: Seq<u8>| k != key@ implies #[trigger] data_at(after, k) == data_at(before, k) by {
                        if has_key(before, k) {
                            let i = index_of(before, k);
                            assert(after[i].key == k);
                            let j = index_of(after, k);
                            if j != i { assert(after[i].key != after[j].key); }
                        } else if has_key(after, k) {
                            let j = index_of(after, k);
                            assert(j != n);
                            assert(before[j].key == k);
                        }
                    };
                }
                true
            },
        }
    }
    fn store(&mut self, ctx: &StoreHash, file_name: &[u8], hash: &[u8; 32]) -> (r: Result<(), ProgramError>)
        requires
            old(self).wf(),
        ensures
            final(self).wf(),
            final(self).program_id() == old(self).program_id(),
            final(self).record_rent() == old(self).record_rent(),
            r is Err <==> store_refusal(old(self).accounts(), old(self).program_id()@, old(self).record_rent(), *ctx, file_name@) is Some,
            r is Err ==> Some(r->Err_0) == store_refusal(old(self).accounts(), old(self).program_id()@, old(self).record_rent(), *ctx, file_name@),
            r is Err ==> final(self).accounts() == old(self).accounts(),
            r is Ok ==> final(self).accounts() == stored_accounts(old(self).accounts(), old(self).record_rent(), ctx.user@, ctx.file_hash@, hash@),
    {
        if !is_system_program(&ctx.system_program) {
            return Err(ProgramError::WrongSystemProgram);
        }
        let derived = derive_address(&ctx.user, file_name, &self.program_id);
        let address = match derived {
            Ok((a, _bump)) => a,
            Err(_) => {
                return Err(ProgramError::InvalidSeeds);
            },
        };
        if !same_key(&address, &ctx.file_hash) {
            return Err(ProgramError::AddressMismatch);
        }
        if self.find(&ctx.file_hash).is_some() {
            return Err(ProgramError::AccountExists);
        }
        let p = match self.find(&ctx.user) {
            None => {
                return Err(ProgramError::InsufficientFunds);
            },
            Some(p) => p,
        };
        if self.accounts[p].lamports < self.record_rent {
            return Err(ProgramError::InsufficientFunds);
        }
        let data = record_bytes(hash);
        let ghost before = self.accounts();
        self.accounts[p].lamports = self.accounts[p].lamports - self.record_rent;
        self.accounts.push(LedgerAccount { key: ctx.file_hash, lamports: self.record_rent, data });
        proof {
            assert(self.accounts() =~= stored_accounts(before, self.record_rent, ctx.user@, ctx.file_hash@, hash@));
            lemma_stored_accounts(before, self.record_rent, ctx.user@, ctx.file_hash@, hash@);
        }
        Ok(())
    }
}

impl FileHash {
    /// Reads a record from account data: the record discriminator, then the
    /// digest; `None` where the data is too short or has another discriminator.
    pub fn try_deserialize(data: &[u8]) -> (r: Option<FileHash>)
        ensures
            r is Some <==> data@.len() >= RECORD_SPACE && data@.subrange(0, 8) == discriminator_of(RECORD_ACCOUNT.spec_bytes()),
            r is Some ==> r->Some_0.hash@ == data@.subrange(8, RECORD_SPACE as int),
    {
        if data.len() < RECORD_SPACE {
            return None;
        }
        let disc = operation_discriminator(RECORD_ACCOUNT);
        let mut i: usize = 0;
        while i < 8
            invariant
                i <= 8,
                data@.len() >= RECORD_SPACE,
                disc@ == discriminator_of(RECORD_ACCOUNT.spec_bytes()),
                forall|j: int| 0 <= j < i ==> data@[j] == disc@[j],
            decreases 8 - i,
        {
            if data[i] != disc[i] {
                assert(data@.subrange(0, 8)[i as int] != disc@[i as int]);
                return None;
            }
            i = i + 1;
        }
        assert(data@.subrange(0, 8) =~= disc@);
        let mut hash: [u8; 32] = [0u8; 32];
        let mut k: usize = 0;
        while k < 32
            invariant
                k <= 32,
                data@.len() >= RECORD_SPACE,
                forall|j: int| 0 <= j < k ==> hash@[j] == data@[8 + j],
            decreases 32 - k,
        {
            hash[k] = data[8 + k];
            k = k + 1;
        }
        assert(hash@ =~= data@.subrange(8, RECORD_SPACE as int));
        Some(FileHash { hash })
    }
}

/// Builds the bytes of a record that holds `hash`.
pub fn record_bytes(hash: &[u8; 32]) -> (r: Vec<u8>)
    ensures
        r@ == record_data(hash@),
        r@.len() == RECORD_SPACE,
{
    let disc = operation_discriminator(RECORD_ACCOUNT);
    let mut r: Vec<u8> = Vec::new();
    r.extend_from_slice(&disc);
    r.extend_from_slice(hash);
    r
}

/// The store operation: creates, at the address derived from the payer and
/// `file_name`, a record that holds `hash`. The record is written once: where
/// an account already stands at that address, or any other guard fails, the
/// ledger is left as it was.
pub fn store_hash(ledger: &mut Ledger, ctx: &StoreHash, file_name: &[u8], hash: &[u8; 32]) -> (r: Result<(), ProgramError>)
    requires
        old(ledger).wf(),
    ensures
        final(ledger).wf(),
        final(ledger).program_id() == old(ledger).program_id(),
        final(ledger).record_rent() == old(ledger).record_rent(),
        r is Err <==> store_refusal(old(ledger).accounts(), old(ledger).program_id()@, old(ledger).record_rent(), *ctx, file_name@) is Some,
        r is Err ==> Some(r->Err_0) == store_refusal(old(ledger).accounts(), old(ledger).program_id()@, old(ledger).record_rent(), *ctx, file_name@),
        r is Err ==> final(ledger).accounts() == old(ledger).accounts(),
        r is Ok ==> final(ledger).accounts() == stored_accounts(old(ledger).accounts(), old(ledger).record_rent(), ctx.user@, ctx.file_hash@, hash@),
{
    ledger.store(ctx, file_name, hash)
}


/// A record is created once: after a store that succeeded, the same store
/// (any digest) is refused because the account exists, and the record keeps
/// the digest first written.
pub proof fn lemma_second_store_refused(
    accts: Seq<AccountView>,
    program_id: Seq<u8>,
    rent: u64,
    ctx: StoreHash,
    file_name: Seq<u8>,
    hash: Seq<u8>,
)
    requires
        keys_unique(accts),
        store_refusal(accts, program_id, rent, ctx, file_name) is None,
    ensures
        store_refusal(stored_accounts(accts, rent, ctx.user@, ctx.file_hash@, hash), program_id, rent, ctx, file_name)
            == Some(ProgramError::AccountExists),
        data_at(stored_accounts(accts, rent, ctx.user@, ctx.file_hash@, hash), ctx.file_hash@) == Some(record_data(hash)),
{
    lemma_stored_accounts(accts, rent, ctx.user@, ctx.file_hash@, hash);
}

/// An account named by an instruction.
pub struct AccountMeta {
    pub pubkey: [u8; 32],
    pub is_signer: bool,
    pub is_writable: bool,
}

/// A request to a program: its identity, the accounts it names, its data.
pub struct Instruction {
    pub program_id: [u8; 32],
    pub accounts: Vec<AccountMeta>,
    pub data: Vec<u8>,
}

/// The accounts of a store request are the record (writable), the owner
/// (signer, writable) and the system program.
pub open spec fn store_accounts_valid(metas: Seq<AccountMeta>) -> bool {
    &&& metas.len() == 3
    &&& metas[0].is_writable
    &&& metas[1].is_signer
    &&& metas[1].is_writable
}

/// The store context that valid account metas name.
pub open spec fn store_context(metas: Seq<AccountMeta>) -> StoreHash {
    StoreHash { file_hash: metas[0].pubkey, user: metas[1].pubkey, system_program: metas[2].pubkey }
}

/// Whether `data` is the encoding of some store operation.
pub open spec fn is_store_instruction(data: Seq<u8>) -> bool {
    exists|name: Seq<u8>, digest: Seq<u8>|
        name.len() <= u32::MAX && digest.len() == DIGEST_LEN && data == #[trigger] store_instruction(name, digest)
}

/// Runs an instruction addressed to the program: checks that it is meant for
/// this program and names its accounts as a store requires, decodes the store
/// operation, and performs it.
pub fn process_instruction(ledger: &mut Ledger, ix: &Instruction) -> (r: Result<(), ProgramError>)
    requires
        old(ledger).wf(),
    ensures
        final(ledger).wf(),
        final(ledger).program_id() == old(ledger).program_id(),
        final(ledger).record_rent() == old(ledger).record_rent(),
        r is Err ==> final(ledger).accounts() == old(ledger).accounts(),
        ix.program_id@ != old(ledger).program_id()@ ==> (r is Err && r->Err_0 == ProgramError::WrongProgram),
        ix.program_id@ == old(ledger).program_id()@ && !store_accounts_valid(ix.accounts@) ==> (r is Err && r->Err_0 == ProgramError::InvalidAccounts),
        ix.program_id@ == old(ledger).program_id()@ && store_accounts_valid(ix.accounts@) && !is_store_instruction(ix.data@) ==> (r is Err && r->Err_0 == ProgramError::InvalidInstructionData),
        forall|name: Seq<u8>, digest: Seq<u8>|
            ix.program_id@ == old(ledger).program_id()@ && store_accounts_valid(ix.accounts@) && name.len() <= u32::MAX && digest.len() == DIGEST_LEN && ix.data@ == #[trigger] store_instruction(name, digest) ==> ({
                let ctx = store_context(ix.accounts@);
                let refusal = store_refusal(old(ledger).accounts(), old(ledger).program_id()@, old(ledger).record_rent(), ctx, name);
                &&& refusal is Some ==> (r is Err && r->Err_0 == refusal->Some_0)
                &&& refusal is None ==> r is Ok && final(ledger).accounts() == stored_accounts(old(ledger).accounts(), old(ledger).record_rent(), ctx.user@, ctx.file_hash@, digest)
            }),
{
    if !same_key(&ix.program_id, &ledger.program_id) {
        return Err(ProgramError::WrongProgram);
    }
    if ix.accounts.len() != 3 || !ix.accounts[0].is_writable || !ix.accounts[1].is_signer || !ix.accounts[1].is_writable {
        return Err(ProgramError::InvalidAccounts);
    }
    let args = match decode_store(ix.data.as_slice()) {
        Some(a) => a,
        None => {
            return Err(ProgramError::InvalidInstructionData);
        },
    };
    let ctx = StoreHash {
        file_hash: ix.accounts[0].pubkey,
        user: ix.accounts[1].pubkey,
        system_program: ix.accounts[2].pubkey,
    };
    let r = store_hash(ledger, &ctx, args.file_name.as_slice(), &args.hash);
    proof {
        assert(is_store_instruction(ix.data@)) by {
            assert(ix.data@ == store_instruction(args.file_name@, args.hash@));
        };
        assert forall|name: Seq<u8>, digest: Seq<u8>|
            name.len() <= u32::MAX && digest.len() == DIGEST_LEN && ix.data@ == #[trigger] store_instruction(name, digest)
            implies name == args.file_name@ && digest == args.hash@ by {
            lemma_store_instruction_injective(name, digest, args.file_name@, args.hash@);
        };
        assert(ctx == store_context(ix.accounts@));
    }
    r
}

} // verus!
