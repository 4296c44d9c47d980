use sha2::{Digest, Sha256};
use verifx::address::{derive_address, key_from_base58, DeriveError, KeyTextError};
use verifx::client::{
    anchor_error, anchor_file, build_store_instruction, verify_file, verify_record, AnchorError,
    VerifyOutcome,
};
use verifx::codec::{decode_store, encode_store, operation_discriminator, store_hash_discriminator};
use verifx::digest::{compute_digest, compute_digest_in_blocks, Digester};
use verifx::program::{
    is_system_program, process_instruction, record_bytes, same_key, store_hash,
    system_program_key, FileHash, Ledger, ProgramError, StoreHash,
};

const RENT: u64 = 1_000;

fn program_id() -> [u8; 32] {
    let mut k = [0u8; 32];
    for (i, b) in k.iter_mut().enumerate() {
        *b = 200 - i as u8;
    }
    k
}

fn owner(seed: u8) -> [u8; 32] {
    let mut k = [seed; 32];
    k[0] = 7;
    k
}

fn funded_ledger(payer: &[u8; 32]) -> Ledger {
    let mut ledger = Ledger::new(program_id(), RENT);
    assert!(ledger.credit(payer, 10 * RENT));
    ledger
}

fn sha(data: &[u8]) -> [u8; 32] {
    Sha256::digest(data).into()
}

fn hex(b: &[u8]) -> String {
    b.iter().map(|x| format!("{:02x}", x)).collect()
}

fn store_ctx(user: &[u8; 32], name: &str) -> StoreHash {
    let (pda, _bump) = derive_address(user, name.as_bytes(), &program_id()).unwrap();
    StoreHash { file_hash: pda, user: *user, system_program: system_program_key() }
}

#[test]
fn test_store_hash() {
    let payer = owner(1);
    let mut ledger = funded_ledger(&payer);
    let file_name = "test.txt".to_string();
    let hash = [1u8; 32];
    let (pda, _bump) = derive_address(&payer, file_name.as_bytes(), &program_id()).unwrap();
    let ctx = StoreHash { file_hash: pda, user: payer, system_program: system_program_key() };
    assert_eq!(store_hash(&mut ledger, &ctx, file_name.as_bytes(), &hash), Ok(()));
    let account = ledger.get_account(&pda).unwrap();
    let file_hash = FileHash::try_deserialize(&account[..]).unwrap();
    assert_eq!(file_hash.hash, hash);
}

#[test]
fn verifix_program_test_store_hash() {
    let payer = owner(2);
    let mut ledger = funded_ledger(&payer);
    let file_name = "test.txt".to_string();
    let hash = [1u8, 32];
    let mut full = [0u8; 32];
    full[..2].copy_from_slice(&hash);
    let ctx = store_ctx(&payer, &file_name);
    assert_eq!(store_hash(&mut ledger, &ctx, file_name.as_bytes(), &full), Ok(()));
    let account = ledger.get_account(&ctx.file_hash).unwrap();
    let file_hash = FileHash::try_deserialize(&account[8..]);
    assert!(file_hash.is_none());
    assert_eq!(FileHash::try_deserialize(&account).unwrap().hash, full);
    assert_eq!(&account[8..40], &full[..]);
    assert_eq!(&account[8..10], &hash[..]);
}

#[test]
fn digest_known_values() {
    assert_eq!(
        hex(&compute_digest(b"abc")),
        "ba7816bf8f01cfea414140de5dae2223b00361a396177a9cb410ff61f20015ad"
    );
    assert_eq!(
        hex(&compute_digest(b"")),
        "e3b0c44298fc1c149afbf4c8996fb92427ae41e4649b934ca495991b7852b855"
    );
}

#[test]
fn digest_independent_of_block_size() {
    let data: Vec<u8> = (0..5000u32).map(|i| (i * 31 % 251) as u8).collect();
    let whole = compute_digest(&data);
    assert_eq!(whole, sha(&data));
    for block in [1usize, 7, 64, 1024, 4999, 5000, 9000] {
        assert_eq!(compute_digest_in_blocks(&data, block), whole);
    }
}

#[test]
fn digester_feeds_in_pieces() {
    let mut d = Digester::new();
    d.update(b"ab");
    d.update(b"");
    d.update(b"c");
    assert_eq!(d.finish(), compute_digest(b"abc"));
}

#[test]
fn derivation_is_deterministic() {
    let u = owner(3);
    let a = derive_address(&u, b"test.txt", &program_id()).unwrap();
    let b = derive_address(&u, b"test.txt", &program_id()).unwrap();
    assert_eq!(a, b);
    assert!(a.1 >= 1);
    assert_ne!(a.0, u);
}

#[test]
fn derivation_distinct_inputs() {
    let a = derive_address(&owner(3), b"test.txt", &program_id()).unwrap();
    let b = derive_address(&owner(4), b"test.txt", &program_id()).unwrap();
    let c = derive_address(&owner(3), b"other.txt", &program_id()).unwrap();
    assert_ne!(a.0, b.0);
    assert_ne!(a.0, c.0);
    assert_ne!(b.0, c.0);
}

#[test]
fn derivation_does_not_normalise_names() {
    let composed = "caf\u{e9}";
    let decomposed = "cafe\u{301}";
    let a = derive_address(&owner(3), composed.as_bytes(), &program_id()).unwrap();
    let b = derive_address(&owner(3), decomposed.as_bytes(), &program_id()).unwrap();
    assert_ne!(a.0, b.0);
    let upper = derive_address(&owner(3), b"TEST.txt", &program_id()).unwrap();
    let lower = derive_address(&owner(3), b"test.txt", &program_id()).unwrap();
    assert_ne!(upper.0, lower.0);
}

#[test]
fn derivation_refuses_long_names() {
    let name = [b'a'; 33];
    assert_eq!(derive_address(&owner(3), &name, &program_id()), Err(DeriveError::NameTooLong));
    let name = [b'a'; 32];
    assert!(derive_address(&owner(3), &name, &program_id()).is_ok());
}

#[test]
fn key_from_base58_cases() {
    assert_eq!(key_from_base58("11111111111111111111111111111111"), Ok([0u8; 32]));
    assert_eq!(key_from_base58("0OIl"), Err(KeyTextError::NotBase58));
    assert_eq!(key_from_base58("2"), Err(KeyTextError::WrongLength));
    let k = key_from_base58("3G7fYQpdrsuRSHPqSGoTBZunmxqLTXYZdrd9VwkUiUUs").unwrap();
    assert_ne!(k, [0u8; 32]);
}

#[test]
fn encode_store_layout() {
    let d = compute_digest(b"hello world");
    let data = encode_store("test.txt", &d);
    assert_eq!(data.len(), 52);
    assert_eq!(&data[0..8], &sha(b"global:store_hash")[..8]);
    assert_eq!(&data[8..12], &[8u8, 0, 0, 0]);
    assert_eq!(&data[12..20], b"test.txt");
    assert_eq!(&data[20..52], &d[..]);
}

#[test]
fn encode_store_empty_and_long_names() {
    let d = [9u8; 32];
    let data = encode_store("", &d);
    assert_eq!(data.len(), 44);
    assert_eq!(&data[8..12], &[0u8, 0, 0, 0]);
    let long = "x".repeat(300);
    let data = encode_store(&long, &d);
    assert_eq!(&data[8..12], &[44u8, 1, 0, 0]);
    assert_eq!(data.len(), 344);
}

#[test]
fn discriminators() {
    assert_eq!(store_hash_discriminator(), sha(b"global:store_hash")[..8]);
    assert_eq!(operation_discriminator("account:FileHash"), sha(b"account:FileHash")[..8]);
    let rec = record_bytes(&[5u8; 32]);
    assert_eq!(rec.len(), 40);
    assert_eq!(&rec[..8], &sha(b"account:FileHash")[..8]);
    assert_eq!(&rec[8..], &[5u8; 32]);
}

#[test]
fn decode_store_round_trip() {
    let d = [3u8; 32];
    let data = encode_store("notes.md", &d);
    let args = decode_store(&data).unwrap();
    assert_eq!(args.file_name, b"notes.md".to_vec());
    assert_eq!(args.hash, d);
}

#[test]
fn decode_store_rejects() {
    let d = [3u8; 32];
    let data = encode_store("notes.md", &d);
    assert!(decode_store(&data[..data.len() - 1]).is_none());
    let mut bad = data.clone();
    bad[0] ^= 1;
    assert!(decode_store(&bad).is_none());
    let mut bad = data.clone();
    bad[8] = 9;
    assert!(decode_store(&bad).is_none());
    assert!(decode_store(&[]).is_none());
}

#[test]
fn second_store_is_refused() {
    let u = owner(5);
    let mut ledger = funded_ledger(&u);
    let ctx = store_ctx(&u, "test.txt");
    assert_eq!(store_hash(&mut ledger, &ctx, b"test.txt", &[1u8; 32]), Ok(()));
    let before = ledger.get_account(&ctx.file_hash).unwrap();
    let balance = ledger.balance(&u);
    assert_eq!(
        store_hash(&mut ledger, &ctx, b"test.txt", &[2u8; 32]),
        Err(ProgramError::AccountExists)
    );
    assert_eq!(ledger.get_account(&ctx.file_hash).unwrap(), before);
    assert_eq!(ledger.balance(&u), balance);
}

#[test]
fn anchor_twice_is_a_collision() {
    let u = owner(6);
    let mut ledger = funded_ledger(&u);
    assert!(anchor_file(&mut ledger, &u, "a.bin", b"one").is_ok());
    assert_eq!(anchor_file(&mut ledger, &u, "a.bin", b"two"), Err(AnchorError::AddressCollision));
    assert_eq!(verify_file(&ledger, &u, "a.bin", b"one"), Ok(VerifyOutcome::Match));
}

#[test]
fn store_charges_rent() {
    let u = owner(7);
    let mut ledger = funded_ledger(&u);
    let address = anchor_file(&mut ledger, &u, "f", b"x").unwrap();
    assert_eq!(ledger.balance(&u), 9 * RENT);
    assert_eq!(ledger.balance(&address), RENT);
}

#[test]
fn store_guards() {
    let u = owner(8);
    let mut ledger = funded_ledger(&u);
    let good = store_ctx(&u, "g.txt");
    let wrong_sys = StoreHash { system_program: [1u8; 32], ..store_ctx(&u, "g.txt") };
    assert_eq!(
        store_hash(&mut ledger, &wrong_sys, b"g.txt", &[0u8; 32]),
        Err(ProgramError::WrongSystemProgram)
    );
    assert_eq!(
        store_hash(&mut ledger, &good, b"h.txt", &[0u8; 32]),
        Err(ProgramError::AddressMismatch)
    );
    let long = [b'z'; 40];
    assert_eq!(store_hash(&mut ledger, &good, &long, &[0u8; 32]), Err(ProgramError::InvalidSeeds));
    let stranger = owner(9);
    let ctx = store_ctx(&stranger, "g.txt");
    assert_eq!(
        store_hash(&mut ledger, &ctx, b"g.txt", &[0u8; 32]),
        Err(ProgramError::InsufficientFunds)
    );
    let mut poor = Ledger::new(program_id(), RENT);
    assert!(poor.credit(&u, RENT - 1));
    assert_eq!(
        store_hash(&mut poor, &good, b"g.txt", &[0u8; 32]),
        Err(ProgramError::InsufficientFunds)
    );
    assert!(poor.get_account(&good.file_hash).is_none());
    assert_eq!(store_hash(&mut ledger, &good, b"g.txt", &[0u8; 32]), Ok(()));
}

#[test]
fn credit_overflow_is_refused() {
    let u = owner(10);
    let mut ledger = Ledger::new(program_id(), RENT);
    assert!(ledger.credit(&u, u64::MAX));
    assert!(!ledger.credit(&u, 1));
    assert_eq!(ledger.balance(&u), u64::MAX);
    assert_eq!(ledger.get_account(&u), Some(Vec::new()));
    assert_eq!(ledger.balance(&owner(11)), 0);
}

#[test]
fn literal_scenario() {
    let u = owner(12);
    let mut ledger = funded_ledger(&u);
    let content = b"first version".to_vec();
    assert!(anchor_file(&mut ledger, &u, "test.txt", &content).is_ok());
    assert_eq!(verify_file(&ledger, &u, "test.txt", &content), Ok(VerifyOutcome::Match));
    assert_eq!(verify_file(&ledger, &u, "test.txt", b"overwritten"), Ok(VerifyOutcome::Mismatch));
    assert_eq!(verify_file(&ledger, &u, "other.txt", &content), Ok(VerifyOutcome::NotFound));
}

#[test]
fn one_byte_change_is_a_mismatch() {
    let u = owner(13);
    let mut ledger = funded_ledger(&u);
    let mut content: Vec<u8> = (0..3000u32).map(|i| i as u8).collect();
    anchor_file(&mut ledger, &u, "big.bin", &content).unwrap();
    assert_eq!(verify_file(&ledger, &u, "big.bin", &content), Ok(VerifyOutcome::Match));
    content[1500] ^= 0x01;
    assert_eq!(verify_file(&ledger, &u, "big.bin", &content), Ok(VerifyOutcome::Mismatch));
}

#[test]
fn other_owner_not_found() {
    let u = owner(14);
    let mut ledger = funded_ledger(&u);
    anchor_file(&mut ledger, &u, "test.txt", b"x").unwrap();
    assert_eq!(verify_file(&ledger, &owner(15), "test.txt", b"x"), Ok(VerifyOutcome::NotFound));
    assert_eq!(
        verify_file(&ledger, &u, &"n".repeat(33), b"x"),
        Err(DeriveError::NameTooLong)
    );
}

#[test]
fn verify_record_cases() {
    let d = [4u8; 32];
    assert_eq!(verify_record(&None, &d), VerifyOutcome::NotFound);
    assert_eq!(verify_record(&Some(vec![0u8; 39]), &d), VerifyOutcome::MalformedRecord);
    let mut rec = vec![0u8; 8];
    rec.extend_from_slice(&d);
    assert_eq!(verify_record(&Some(rec.clone()), &d), VerifyOutcome::Match);
    rec.push(1);
    assert_eq!(verify_record(&Some(rec.clone()), &d), VerifyOutcome::Match);
    rec[39] = 0;
    assert_eq!(verify_record(&Some(rec), &d), VerifyOutcome::Mismatch);
}

#[test]
fn build_store_instruction_layout() {
    let u = owner(16);
    let d = [6u8; 32];
    let ix = build_store_instruction(&u, "test.txt", &d, &program_id()).unwrap();
    let (pda, _) = derive_address(&u, b"test.txt", &program_id()).unwrap();
    assert_eq!(ix.program_id, program_id());
    assert_eq!(ix.accounts.len(), 3);
    assert_eq!(ix.accounts[0].pubkey, pda);
    assert!(!ix.accounts[0].is_signer && ix.accounts[0].is_writable);
    assert_eq!(ix.accounts[1].pubkey, u);
    assert!(ix.accounts[1].is_signer && ix.accounts[1].is_writable);
    assert_eq!(ix.accounts[2].pubkey, [0u8; 32]);
    assert!(!ix.accounts[2].is_signer && !ix.accounts[2].is_writable);
    assert_eq!(ix.data, encode_store("test.txt", &d));
    assert!(matches!(
        build_store_instruction(&u, &"q".repeat(33), &d, &program_id()),
        Err(DeriveError::NameTooLong)
    ));
}

#[test]
fn anchor_error_mapping() {
    assert_eq!(anchor_error(ProgramError::AccountExists), AnchorError::AddressCollision);
    assert_eq!(anchor_error(ProgramError::InsufficientFunds), AnchorError::RejectionError);
    assert_eq!(anchor_error(ProgramError::AddressMismatch), AnchorError::RejectionError);
}

#[test]
fn key_helpers() {
    assert!(same_key(&[1u8; 32], &[1u8; 32]));
    assert!(!same_key(&[1u8; 32], &[2u8; 32]));
    assert!(is_system_program(&system_program_key()));
    assert!(!is_system_program(&[1u8; 32]));
}

#[test]
fn instruction_round_trip() {
    let u = owner(17);
    let mut ledger = funded_ledger(&u);
    let contents = b"ledger entry";
    let digest = compute_digest(contents);
    let ix = build_store_instruction(&u, "test.txt", &digest, &program_id()).unwrap();
    assert_eq!(process_instruction(&mut ledger, &ix), Ok(()));
    assert_eq!(verify_file(&ledger, &u, "test.txt", contents), Ok(VerifyOutcome::Match));
    assert_eq!(verify_file(&ledger, &u, "test.txt", b"ledger entrY"), Ok(VerifyOutcome::Mismatch));
    assert_eq!(process_instruction(&mut ledger, &ix), Err(ProgramError::AccountExists));
    assert_eq!(verify_file(&ledger, &u, "test.txt", contents), Ok(VerifyOutcome::Match));
}

#[test]
fn instruction_refusals() {
    let u = owner(18);
    let mut ledger = funded_ledger(&u);
    let digest = [8u8; 32];
    let mut ix = build_store_instruction(&u, "r.txt", &digest, &program_id()).unwrap();
    ix.program_id = [1u8; 32];
    assert_eq!(process_instruction(&mut ledger, &ix), Err(ProgramError::WrongProgram));

    let mut ix = build_store_instruction(&u, "r.txt", &digest, &program_id()).unwrap();
    ix.accounts[1].is_signer = false;
    assert_eq!(process_instruction(&mut ledger, &ix), Err(ProgramError::InvalidAccounts));

    let mut ix = build_store_instruction(&u, "r.txt", &digest, &program_id()).unwrap();
    ix.accounts.pop();
    assert_eq!(process_instruction(&mut ledger, &ix), Err(ProgramError::InvalidAccounts));

    let mut ix = build_store_instruction(&u, "r.txt", &digest, &program_id()).unwrap();
    ix.data.push(0);
    assert_eq!(process_instruction(&mut ledger, &ix), Err(ProgramError::InvalidInstructionData));

    let mut ix = build_store_instruction(&u, "r.txt", &digest, &program_id()).unwrap();
    ix.data = encode_store("s.txt", &digest);
    assert_eq!(process_instruction(&mut ledger, &ix), Err(ProgramError::AddressMismatch));

    let (pda, _) = derive_address(&u, b"r.txt", &program_id()).unwrap();
    assert!(ledger.get_account(&pda).is_none());
    assert_eq!(ledger.balance(&u), 10 * RENT);
}

#[test]
fn file_hash_deserialize() {
    let rec = record_bytes(&[7u8; 32]);
    assert_eq!(FileHash::try_deserialize(&rec).unwrap().hash, [7u8; 32]);
    assert!(FileHash::try_deserialize(&rec[..39]).is_none());
    let mut other = rec.clone();
    other[3] ^= 0xff;
    assert!(FileHash::try_deserialize(&other).is_none());
    let mut longer = rec.clone();
    longer.extend_from_slice(&[1, 2, 3]);
    assert_eq!(FileHash::try_deserialize(&longer).unwrap().hash, [7u8; 32]);
}
