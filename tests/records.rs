use sha2::Digest;
use trollup::account::AccountState;
use trollup::block::Block;
use trollup::package::StateCommitmentPackage;
use trollup::record::StateRecord;
use trollup::transaction::{TrollupCompileInstruction, TrollupMessage, TrollupTransaction};

fn account(seed: u8, lamports: u64) -> AccountState {
    AccountState {
        address: [seed; 32],
        lamports,
        data: vec![seed, 1, 2],
        owner: [7u8; 32],
        executable: false,
        rent_epoch: 3,
    }
}

fn transfer(sig: u8) -> TrollupTransaction {
    TrollupTransaction {
        optimistic: false,
        signatures: vec![[sig; 64]],
        message: TrollupMessage {
            header: [1, 0, 1],
            account_keys: vec![[1u8; 32], [2u8; 32], [0u8; 32]],
            recent_blockhash: [9u8; 32],
            instructions: vec![TrollupCompileInstruction {
                program_id_index: 2,
                accounts: vec![0, 1],
                data: vec![2, 0, 0, 0, 64, 66, 15, 0, 0, 0, 0, 0],
            }],
        },
    }
}

#[test]
fn account_bytes_match_borsh_layout() {
    let a = account(5, 1_000_000);
    let expected = borsh::to_vec(&(a.address, a.lamports, a.data.clone(), a.owner, a.executable, a.rent_epoch)).unwrap();
    assert_eq!(a.to_bytes(), expected);
}

#[test]
fn account_round_trip() {
    let a = account(4, 42);
    let back = AccountState::from_bytes(&a.to_bytes()).unwrap();
    assert_eq!(back.address, a.address);
    assert_eq!(back.lamports, 42);
    assert_eq!(back.data, a.data);
    assert_eq!(back.owner, a.owner);
    assert_eq!(back.executable, a.executable);
    assert_eq!(back.rent_epoch, a.rent_epoch);
}

#[test]
fn account_rejects_trailing_and_bad_flag() {
    let a = account(4, 42);
    let mut bytes = a.to_bytes();
    bytes.push(0);
    assert!(AccountState::from_bytes(&bytes).is_none());
    let mut bad = a.to_bytes();
    let flag = 32 + 8 + 4 + 3 + 32;
    bad[flag] = 2;
    assert!(AccountState::from_bytes(&bad).is_none());
    assert!(AccountState::from_bytes(&[]).is_none());
}

#[test]
fn block_id_is_digest_of_decimal_number() {
    let want: [u8; 32] = sha2::Sha256::digest(b"block_1").into();
    assert_eq!(Block::get_id(1), want);
    let want: [u8; 32] = sha2::Sha256::digest(b"block_1234567890").into();
    assert_eq!(Block::get_id(1234567890), want);
    let want: [u8; 32] = sha2::Sha256::digest(b"block_0").into();
    assert_eq!(Block::get_id(0), want);
}

#[test]
fn block_round_trip_and_layout() {
    let b = Block::new(2, [3u8; 32], [4u8; 32], vec![1, 2, 3], vec![[5u8; 32], [6u8; 32]], vec![[7u8; 32]]);
    let bytes = b.to_bytes();
    let expected = borsh::to_vec(&(
        Block::get_id(2),
        2u64,
        Block::get_id(1),
        [3u8; 32],
        [4u8; 32],
        vec![1u8, 2, 3],
        vec![[5u8; 32], [6u8; 32]],
        vec![[7u8; 32]],
    ))
    .unwrap();
    assert_eq!(bytes, expected);
    let back = Block::from_bytes(&bytes).unwrap();
    assert_eq!(back.id(), b.id());
    assert_eq!(back.block_number, 2);
    assert_eq!(back.previous_block_id, Block::get_id(1));
    assert_eq!(back.transactions, vec![[5u8; 32], [6u8; 32]]);
    assert_eq!(back.accounts, vec![[7u8; 32]]);
    assert_eq!(back.get_key(), Block::get_id(2));
}

#[test]
fn transaction_round_trip_and_layout() {
    let t = transfer(8);
    let bytes = t.to_bytes();
    let ix = &t.message.instructions[0];
    let expected = borsh::to_vec(&(
        false,
        vec![[8u8; 64]],
        [1u8, 0, 1],
        t.message.account_keys.clone(),
        [9u8; 32],
        vec![(ix.program_id_index, ix.accounts.clone(), ix.data.clone())],
    ))
    .unwrap();
    assert_eq!(bytes, expected);
    let back = TrollupTransaction::from_bytes(&bytes).unwrap();
    assert_eq!(back.signatures, t.signatures);
    assert_eq!(back.message.header, t.message.header);
    assert_eq!(back.message.account_keys, t.message.account_keys);
    assert_eq!(back.message.recent_blockhash, t.message.recent_blockhash);
    assert_eq!(back.message.instructions.len(), 1);
    assert_eq!(back.message.instructions[0].data, ix.data);
    assert_eq!(back.message.instructions[0].accounts, ix.accounts);
    assert!(TrollupTransaction::from_bytes(&bytes[..bytes.len() - 1]).is_none());
}

#[test]
fn transaction_key_is_digest_of_first_signature() {
    let t = transfer(8);
    let want: [u8; 32] = sha2::Sha256::digest([8u8; 64]).into();
    assert_eq!(t.get_key(), want);
}

#[test]
fn package_round_trip() {
    let p = StateCommitmentPackage {
        optimistic: true,
        proof: vec![1, 2],
        public_inputs: vec![3],
        verifying_key: vec![],
        state_root: Some([6u8; 32]),
        state_records: vec![account(1, 10), account(2, 20)],
        transactions: vec![transfer(3), transfer(4)],
        transaction_ids: vec![transfer(3).get_key(), transfer(4).get_key()],
    };
    let bytes = p.to_bytes();
    let back = StateCommitmentPackage::from_bytes(&bytes).unwrap();
    assert_eq!(back.to_bytes(), bytes);
    assert_eq!(back.get_key(), [6u8; 32]);
    assert_eq!(back.state_records[1].lamports, 20);
    assert_eq!(back.transactions[1].signatures, vec![[4u8; 64]]);
    let mut none = p.clone();
    none.state_root = None;
    let nb = none.to_bytes();
    assert_eq!(nb.len(), bytes.len() - 32);
    assert!(StateCommitmentPackage::from_bytes(&nb).unwrap().state_root.is_none());
    assert!(StateCommitmentPackage::from_bytes(&bytes[..bytes.len() - 1]).is_none());
}
