use sha2::Digest;
use trollup::account_loader::{TrollupAccountLoader, DEFAULT_LAMPORTS};
use trollup::store::{MemoryStore, StateManager};
use trollup::account::AccountState;
use trollup::canonical::{
    convert_to_solana_transaction, convert_to_trollup_transaction, deserialize_transaction,
    message_header_from_bytes, message_header_to_bytes, serialize_transaction, CompiledInstruction,
    ConversionError, Message, MessageHeader, Transaction,
};
use trollup::config::{lookup, TrollupConfig};
use trollup::endian::{
    change_endianness, convert_endianness_128, convert_endianness_32, convert_endianness_64,
    convert_endianness_64_to_vec, reverse_endianness,
};
use trollup::engine::{build_package, next_batch};
use trollup::merkle::{build_level, compute_root, MerkleTree};
use trollup::pool::{StateCommitmentPool, StatePool, TransactionPool};
use trollup::record::StateRecord;
use trollup::sanitize::batch_sanitize_transactions;
use trollup::transaction::{TrollupCompileInstruction, TrollupMessage, TrollupTransaction};
use trollup::validator::{state_root_from_segment, state_root_segment};
use trollup::watcher::{next_retry_interval, pong_overdue, state_root_from_account_data, state_root_from_notification};

fn transfer(sig: u8, optimistic: bool) -> TrollupTransaction {
    TrollupTransaction {
        optimistic,
        signatures: vec![[sig; 64]],
        message: TrollupMessage {
            header: [1, 0, 1],
            account_keys: vec![[1u8; 32], [2u8; 32], [0u8; 32]],
            recent_blockhash: [9u8; 32],
            instructions: vec![TrollupCompileInstruction { program_id_index: 2, accounts: vec![0, 1], data: vec![1] }],
        },
    }
}

fn h(a: &[u8], b: &[u8]) -> [u8; 32] {
    let mut x = sha2::Sha256::new();
    x.update(a);
    x.update(b);
    x.finalize().into()
}

#[test]
fn merkle_root_duplicates_odd_node() {
    let a = [1u8; 32];
    let b = [2u8; 32];
    let c = [3u8; 32];
    assert_eq!(compute_root(&vec![]), None);
    assert_eq!(compute_root(&vec![a]), Some(a));
    assert_eq!(compute_root(&vec![a, b]), Some(h(&a, &b)));
    let ab = h(&a, &b);
    let cc = h(&c, &c);
    assert_eq!(compute_root(&vec![a, b, c]), Some(h(&ab, &cc)));
    assert_eq!(build_level(&vec![a, b, c]), vec![ab, cc]);
}

#[test]
fn merkle_tree_proofs_verify() {
    let accounts: Vec<AccountState> = (0..5u8)
        .map(|i| AccountState { address: [i; 32], lamports: i as u64, data: vec![i], owner: [0; 32], executable: false, rent_epoch: 0 })
        .collect();
    let mut tree = MerkleTree::new(accounts.clone());
    let root = tree.root_hash().unwrap();
    for a in &accounts {
        let p = tree.generate_proof(a).unwrap();
        assert!(p.verify(&root));
        assert!(!p.verify(&[0u8; 32]));
    }
    let extra = AccountState { address: [9; 32], lamports: 9, data: vec![], owner: [0; 32], executable: true, rent_epoch: 1 };
    assert!(tree.generate_proof(&extra).is_none());
    tree.add_leaf(&extra);
    let root2 = tree.root_hash().unwrap();
    assert_ne!(root, root2);
    assert!(tree.generate_proof(&extra).unwrap().verify(&root2));
}

#[test]
fn transaction_pool_is_fifo() {
    let mut pool = TransactionPool::new();
    assert_eq!(pool.pool_size(), 0);
    assert!(pool.get_next_transaction().is_none());
    for i in 1..=3 {
        pool.add_transaction(transfer(i, false));
    }
    assert_eq!(pool.get_next_transaction().unwrap().signatures[0], [1u8; 64]);
    let rest = pool.get_next_transactions(4);
    assert_eq!(rest.len(), 2);
    assert_eq!(rest[0].signatures[0], [2u8; 64]);
    assert_eq!(rest[1].signatures[0], [3u8; 64]);
    assert_eq!(pool.pool_size(), 0);
    assert!(pool.get_next_transactions(4).is_empty());
}

#[test]
fn commitment_pool_is_fifo() {
    let mut pool = StateCommitmentPool::new();
    let p1 = build_package(vec![transfer(1, false)], vec![None]).unwrap();
    let p2 = build_package(vec![transfer(2, true)], vec![Some(vec![])]).unwrap();
    pool.add(p1);
    pool.add(p2);
    assert_eq!(pool.pool_size(), 2);
    let first = pool.get_next().unwrap();
    assert!(!first.optimistic);
    let chunk = pool.get_next_chunk(5);
    assert_eq!(chunk.len(), 1);
    assert!(chunk[0].optimistic);
    assert!(pool.get_next().is_none());
}

#[test]
fn small_batch_still_processed() {
    let mut pool = TransactionPool::new();
    pool.add_transaction(transfer(1, false));
    pool.add_transaction(transfer(2, false));
    let batch = next_batch(&mut pool, 4);
    assert_eq!(batch.len(), 2);
    assert_eq!(pool.pool_size(), 0);
}

#[test]
fn empty_pool_gives_no_package() {
    let mut pool = TransactionPool::new();
    let batch = next_batch(&mut pool, 4);
    assert!(batch.is_empty());
    assert!(build_package(batch, vec![]).is_none());
}

#[test]
fn duplicate_signature_dropped() {
    let kept = batch_sanitize_transactions(vec![transfer(5, false), transfer(5, true), transfer(6, false)]);
    assert_eq!(kept.len(), 2);
    assert!(!kept[0].optimistic);
    assert_eq!(kept[1].signatures[0], [6u8; 64]);
}

#[test]
fn malformed_transactions_dropped() {
    let mut no_sig = transfer(1, false);
    no_sig.signatures.clear();
    let mut bad_program = transfer(2, false);
    bad_program.message.instructions[0].program_id_index = 3;
    let mut payer_program = transfer(3, false);
    payer_program.message.instructions[0].program_id_index = 0;
    let mut bad_account = transfer(4, false);
    bad_account.message.instructions[0].accounts = vec![0, 7];
    let mut dup_key = transfer(5, false);
    dup_key.message.account_keys[1] = [1u8; 32];
    let mut bad_header = transfer(6, false);
    bad_header.message.header = [1, 1, 1];
    let good = transfer(7, false);
    assert!(good.sanitize());
    let kept = batch_sanitize_transactions(vec![no_sig, bad_program, payer_program, bad_account, dup_key, bad_header, good]);
    assert_eq!(kept.len(), 1);
    assert_eq!(kept[0].signatures[0], [7u8; 64]);
}

#[test]
fn package_is_optimistic_when_any_executed_is() {
    let acct = AccountState { address: [1; 32], lamports: 1, data: vec![], owner: [0; 32], executable: false, rent_epoch: 0 };
    let p = build_package(
        vec![transfer(1, false), transfer(2, true), transfer(3, false)],
        vec![Some(vec![acct.clone()]), Some(vec![acct.clone(), acct.clone()]), None],
    )
    .unwrap();
    assert!(p.optimistic);
    assert_eq!(p.transactions.len(), 2);
    assert_eq!(p.state_records.len(), 3);
    assert_eq!(p.transaction_ids, vec![transfer(1, false).get_key(), transfer(2, true).get_key()]);
    assert!(p.state_root.is_none());
    let q = build_package(vec![transfer(1, false), transfer(2, true)], vec![Some(vec![]), None]).unwrap();
    assert!(!q.optimistic);
}

#[test]
fn watcher_reads_root_from_notification() {
    let mut data = vec![0u8; 40];
    for (i, b) in data.iter_mut().enumerate() {
        *b = i as u8;
    }
    let encoded = base64::Engine::encode(&base64::engine::general_purpose::STANDARD, &data);
    let root = state_root_from_notification(&encoded).unwrap();
    let want: [u8; 32] = core::array::from_fn(|i| i as u8);
    assert_eq!(root, want);
    assert_eq!(state_root_from_account_data(&data[..31]), None);
    assert_eq!(state_root_from_notification("not base64!"), None);
}

#[test]
fn reconnect_backoff_doubles_to_cap() {
    let mut t = 1;
    let mut seen = vec![];
    for _ in 0..8 {
        t = next_retry_interval(t);
        seen.push(t);
    }
    assert_eq!(seen, vec![2, 4, 8, 16, 32, 60, 60, 60]);
    assert!(pong_overdue(91));
    assert!(!pong_overdue(90));
}

#[test]
fn state_root_segment_round_trip() {
    let root = [0xfbu8; 32];
    let seg = state_root_segment(&root);
    assert_eq!(seg.len(), 44);
    assert!(!seg.contains('+') && !seg.contains('/'));
    assert_eq!(seg, base64::Engine::encode(&base64::engine::general_purpose::URL_SAFE, root));
    assert_eq!(state_root_from_segment(&seg), Some(root));
    assert_eq!(state_root_segment(&[0u8; 32]), "AAAAAAAAAAAAAAAAAAAAAAAAAAAAAAAAAAAAAAAAAAA=");
    assert_eq!(state_root_from_segment("AAAA"), None);
}

#[test]
fn endianness_conversions() {
    let v: Vec<u8> = (0..40u8).collect();
    let r = convert_endianness_64_to_vec(&v);
    let mut want: Vec<u8> = (0..32u8).rev().collect();
    want.extend((32..40u8).rev());
    assert_eq!(r, want);
    assert_eq!(change_endianness(&v), want);
    let mut w = v.clone();
    reverse_endianness(&mut w);
    assert_eq!(w, want);
    let r128 = convert_endianness_128(&v);
    assert_eq!(r128, (0..40u8).rev().collect::<Vec<u8>>());
    let a64 = convert_endianness_64(&v);
    assert_eq!(&a64[..40], &v[..]);
    assert_eq!(a64[40..], [0u8; 24]);
    let a32 = convert_endianness_32(&v);
    assert_eq!(&a32[..], &v[..32]);
}

#[test]
fn config_lookup_picks_network() {
    let cfg = TrollupConfig {
        rpc_urls: vec![("Dev".to_string(), "https://dev".to_string()), ("Local".to_string(), "http://localhost:8899".to_string())],
        rpc_ws: vec![("Local".to_string(), "ws://localhost:8900".to_string())],
        trollup_validator_url: String::new(),
        solana_environment: "Local".to_string(),
        account_state_manager_db_path: String::new(),
        block_state_manager_db_path: String::new(),
        transaction_state_manager_db_path: String::new(),
        optimistic_commitment_state_manager_db_path: String::new(),
        proof_verifier_program_id: String::new(),
        signature_verifier_program_id: String::new(),
        program_ids_to_load: vec![],
        commitment_fee_payer_keypair: String::new(),
        optimistic_timeout: 60,
        transaction_batch_amount: 4,
        trollup_api_keypair_path: String::new(),
        trollup_validator_keypair_path: String::new(),
        trollup_api_keypair: vec![],
        trollup_validator_keypair: vec![],
    };
    assert_eq!(cfg.rpc_url_current_env().unwrap(), "http://localhost:8899");
    assert_eq!(cfg.rpc_ws_current_env().unwrap(), "ws://localhost:8900");
    assert_eq!(cfg.rpc_url("Dev").unwrap(), "https://dev");
    assert_eq!(cfg.rpc_url("Mars").unwrap(), "http://localhost:8899");
    assert!(cfg.rpc_url("Main").is_none());
    assert!(lookup(&cfg.rpc_urls, &"Test".to_string()).is_none());
}

fn canonical(sig_len: usize) -> Transaction {
    Transaction {
        signatures: vec![vec![3u8; sig_len]],
        message: Message {
            header: MessageHeader { num_required_signatures: 1, num_readonly_signed_accounts: 0, num_readonly_unsigned_accounts: 1 },
            account_keys: vec![[1u8; 32], [2u8; 32], [0u8; 32]],
            recent_blockhash: [4u8; 32],
            instructions: vec![CompiledInstruction { program_id_index: 2, accounts: vec![0, 1], data: vec![5, 6] }],
        },
    }
}

#[test]
fn canonical_round_trip() {
    let tx = canonical(64);
    let t = convert_to_trollup_transaction(tx.clone()).unwrap();
    assert!(!t.optimistic);
    assert_eq!(t.message.header, [1, 0, 1]);
    let back = convert_to_solana_transaction(t);
    assert_eq!(back.signatures, tx.signatures);
    assert_eq!(back.message.header, tx.message.header);
    assert_eq!(back.message.account_keys, tx.message.account_keys);
    assert_eq!(back.message.instructions[0].data, vec![5, 6]);
    assert_eq!(convert_to_trollup_transaction(canonical(63)).unwrap_err(), ConversionError::SignatureLength);
    let h = message_header_from_bytes([3, 1, 2]);
    assert_eq!(message_header_to_bytes(&h), [3, 1, 2]);
    let bytes = serialize_transaction(canonical(64)).unwrap();
    let again = deserialize_transaction(&bytes).unwrap();
    assert_eq!(again.signatures, canonical(64).signatures);
    assert!(serialize_transaction(canonical(65)).is_none());
}

#[test]
fn submission_sets_optimistic_flag() {
    let mut pool = TransactionPool::new();
    assert!(trollup::handlers::send_transaction(&mut pool, canonical(64), true).is_ok());
    assert!(trollup::handlers::send_transaction(&mut pool, canonical(64), false).is_ok());
    assert_eq!(trollup::handlers::send_transaction(&mut pool, canonical(10), false), Err(ConversionError::SignatureLength));
    assert_eq!(pool.pool_size(), 2);
    assert!(pool.get_next_transaction().unwrap().optimistic);
    assert!(!pool.get_next_transaction().unwrap().optimistic);
}

#[test]
fn account_loader_resolution_order() {
    let mut store: StateManager<MemoryStore<AccountState>> = StateManager::new();
    let stored = AccountState { address: [1; 32], lamports: 5, data: vec![1], owner: [3; 32], executable: false, rent_epoch: 0 };
    store.set_state_record(stored);
    let program = [7u8; 32];
    let mut loader = TrollupAccountLoader::new(vec![program]);

    assert!(!loader.needs_fetch(&store, &[1; 32]));
    assert_eq!(loader.get_account_shared_data(&store, &[1; 32], None).lamports, 5);

    assert!(loader.needs_fetch(&store, &program));
    let fetched = AccountState { address: program, lamports: 1, data: vec![9, 9], owner: [2; 32], executable: true, rent_epoch: 0 };
    let got = loader.get_account_shared_data(&store, &program, Some(fetched));
    assert!(got.executable);
    assert!(!loader.needs_fetch(&store, &program));

    let fresh = loader.get_account_shared_data(&store, &[8; 32], None);
    assert_eq!(fresh.lamports, DEFAULT_LAMPORTS);
    assert_eq!(fresh.owner, [0u8; 32]);
    assert_eq!(fresh.address, [8; 32]);
    let mut changed = fresh.clone();
    changed.lamports = 1;
    store.set_state_record(changed);
    assert_eq!(loader.get_account_shared_data(&store, &[8; 32], None).lamports, DEFAULT_LAMPORTS);
}

#[test]
fn engine_queues_only_nonempty_batches() {
    let mut engine = trollup::engine::ExecutionEngine::new(4);
    let mut commitments = StateCommitmentPool::new();
    let mut pool = TransactionPool::new();
    assert!(engine.start());
    let batch = engine.take_batch(&mut pool);
    assert!(!engine.execute_block(batch, vec![], &mut commitments));
    assert_eq!(commitments.pool_size(), 0);
    for i in 1..=5 {
        pool.add_transaction(transfer(i, false));
    }
    let batch = engine.take_batch(&mut pool);
    assert_eq!(batch.len(), 4);
    let outcomes = vec![Some(vec![]), None, Some(vec![]), None];
    assert!(engine.execute_block(batch, outcomes, &mut commitments));
    assert_eq!(commitments.get_next().unwrap().transactions.len(), 2);
    engine.stop();
    assert!(engine.take_batch(&mut pool).is_empty());
    assert_eq!(pool.pool_size(), 1);
    assert!(!engine.start());
}
