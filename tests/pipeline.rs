use sha2::Digest;
use trollup::account::AccountState;
use trollup::aggregator::TreeComposite;
use trollup::artifacts::ProofPackagePrepared;
use trollup::block::Block;
use trollup::commitment::{
    attach_proof, route_package, stage_package, PackageRoute, CommitmentError, CommitmentProcessorMessage, CommitmentResultType,
    PendingAction, StateCommitment,
};
use trollup::engine::build_package;
use trollup::handlers::BlockHandler;
use trollup::merkle::compute_root;
use trollup::package::StateCommitmentPackage;
use trollup::record::StateRecord;
use trollup::store::{MemoryStore, StateManager};
use trollup::transaction::{TrollupCompileInstruction, TrollupMessage, TrollupTransaction};

type Committer = StateCommitment<
    MemoryStore<AccountState>,
    MemoryStore<Block>,
    MemoryStore<TrollupTransaction>,
    MemoryStore<StateCommitmentPackage>,
>;

fn committer() -> Committer {
    StateCommitment::new(
        StateManager::new(),
        StateManager::new(),
        StateManager::new(),
        StateManager::new(),
    )
}

const PAYER: [u8; 32] = [1u8; 32];
const RECIPIENT: [u8; 32] = [2u8; 32];
const SYSTEM: [u8; 32] = [0u8; 32];

fn transfer(sig: u8, optimistic: bool) -> TrollupTransaction {
    TrollupTransaction {
        optimistic,
        signatures: vec![[sig; 64]],
        message: TrollupMessage {
            header: [1, 0, 1],
            account_keys: vec![PAYER, RECIPIENT, SYSTEM],
            recent_blockhash: [9u8; 32],
            instructions: vec![TrollupCompileInstruction {
                program_id_index: 2,
                accounts: vec![0, 1],
                data: vec![2, 0, 0, 0, 64, 66, 15, 0, 0, 0, 0, 0],
            }],
        },
    }
}

fn account(address: [u8; 32], lamports: u64) -> AccountState {
    AccountState { address, lamports, data: vec![], owner: SYSTEM, executable: false, rent_epoch: 0 }
}

fn leaf<R: StateRecord>(r: &R) -> [u8; 32] {
    sha2::Sha256::digest(r.to_bytes()).into()
}

fn executed(txs: &[TrollupTransaction], payer_after: u64, recipient_after: u64) -> StateCommitmentPackage {
    let outcomes = txs
        .iter()
        .map(|_| Some(vec![account(PAYER, payer_after), account(RECIPIENT, recipient_after)]))
        .collect();
    build_package(txs.to_vec(), outcomes).unwrap()
}

fn finalize_direct(c: &mut Committer, package: StateCommitmentPackage) -> Result<u64, CommitmentError> {
    let (mut tree, _root) = stage_package(&package);
    c.conclude_direct(&mut tree, package, vec![1, 2, 3], true, true)
}

#[test]
fn single_transfer_non_optimistic() {
    let mut c = committer();
    let tx = transfer(11, false);
    let package = executed(&[tx.clone()], 9_000_000, 1_000_000);
    let accounts = package.state_records.clone();
    assert_eq!(finalize_direct(&mut c, package), Ok(1));

    let handler = BlockHandler::new(&c.block_state_management);
    let block = handler.get_latest_block().unwrap();
    assert_eq!(block.block_number, 1);
    assert_eq!(block.transactions, vec![tx.get_key()]);
    let leaves: Vec<[u8; 32]> = accounts.iter().map(leaf).collect();
    assert_eq!(Some(block.accounts_merkle_root), compute_root(&leaves));
    assert_eq!(handler.get_block(1).unwrap().id(), Block::get_id(1));
    assert_eq!(block.accounts, vec![PAYER, RECIPIENT]);
    let recomputed: Vec<[u8; 32]> = block
        .accounts
        .iter()
        .map(|a| leaf(c.account_state_management.get_state_record(a).unwrap()))
        .collect();
    assert_eq!(Some(block.accounts_merkle_root), compute_root(&recomputed));

    let payer = c.account_state_management.get_state_record(&PAYER).unwrap();
    let recipient = c.account_state_management.get_state_record(&RECIPIENT).unwrap();
    assert!(10_000_000 - payer.lamports >= 1_000_000);
    assert!(recipient.lamports >= 1_000_000);
    assert!(c.transaction_state_management.get_state_record(&tx.get_key()).is_some());
}

#[test]
fn batch_of_four_keeps_order() {
    let mut c = committer();
    let txs: Vec<TrollupTransaction> = (1..=4).map(|i| transfer(i, false)).collect();
    let package = executed(&txs, 5, 6);
    assert_eq!(finalize_direct(&mut c, package), Ok(1));
    let block = BlockHandler::new(&c.block_state_management).get_block(1).unwrap();
    let ids: Vec<[u8; 32]> = txs.iter().map(|t| t.get_key()).collect();
    assert_eq!(block.transactions, ids);
    let leaves: Vec<[u8; 32]> = txs.iter().map(leaf).collect();
    assert_eq!(Some(block.transactions_merkle_root), compute_root(&leaves));
}

#[test]
fn validator_rejects_writes_nothing() {
    let mut c = committer();
    let package = executed(&[transfer(3, false)], 1, 2);
    let (mut tree, _root) = stage_package(&package);
    let r = c.conclude_direct(&mut tree, package, vec![], false, true);
    assert_eq!(r, Err(CommitmentError::ValidatorRejected));
    assert!(BlockHandler::new(&c.block_state_management).get_latest_block().is_none());
    assert!(c.account_state_management.get_state_record(&PAYER).is_none());
    assert_eq!(tree.get_uncommitted_root(), None);
}

#[test]
fn second_block_links_to_first() {
    let mut c = committer();
    assert_eq!(finalize_direct(&mut c, executed(&[transfer(1, false)], 1, 2)), Ok(1));
    assert_eq!(finalize_direct(&mut c, executed(&[transfer(2, false)], 3, 4)), Ok(2));
    let handler = BlockHandler::new(&c.block_state_management);
    let b2 = handler.get_latest_block().unwrap();
    assert_eq!(b2.block_number, 2);
    assert_eq!(b2.previous_block_id, Block::get_id(1));
    assert_eq!(handler.get_block(1).unwrap().block_number, 1);
    let payer = c.account_state_management.get_state_record(&PAYER).unwrap();
    assert_eq!(payer.lamports, 3);
}

#[test]
fn empty_package_is_refused() {
    let mut c = committer();
    let package = build_package(vec![transfer(1, false)], vec![None]).unwrap();
    assert!(package.transactions.is_empty());
    let (mut tree, root) = stage_package(&package);
    assert_eq!(root, None);
    assert_eq!(c.finalize(&mut tree, package, vec![]), Err(CommitmentError::EmptyPackage));
}

fn optimistic_parked(c: &mut Committer, sig: u8, now: u64) -> [u8; 32] {
    let package = executed(&[transfer(sig, true)], 7, 8);
    assert!(package.optimistic);
    let (_tree, root) = stage_package(&package);
    let root = root.unwrap();
    let prepared = ProofPackagePrepared { proof: vec![4, 5], public_inputs: vec![6], verifying_key: vec![7] };
    let ids = package.transaction_ids.clone();
    assert_eq!(c.park_optimistic(package, prepared, now), Ok(root));
    let parked = c.pending_package(&root).unwrap();
    assert_eq!(parked.state_root, Some(root));
    assert_eq!(parked.transaction_ids, ids);
    assert_eq!(parked.public_inputs, vec![6]);
    root
}

#[test]
fn optimistic_happy_path() {
    let mut c = committer();
    let root = optimistic_parked(&mut c, 21, 100);
    assert_eq!(c.commitments.len(), 1);
    assert_eq!(c.commitments.get(&root).unwrap().state_root, root);
    assert!(BlockHandler::new(&c.block_state_management).get_latest_block().is_none());
    assert!(c.account_state_management.get_state_record(&PAYER).is_none());

    let msg = CommitmentProcessorMessage { state_root: root, processor_type: CommitmentResultType::OnChain };
    assert_eq!(c.decide(&msg), PendingAction::FinalizeAnchored);
    assert_eq!(c.process_message(&msg, false, false, 3), Ok(1));
    assert_eq!(c.commitments.len(), 0);
    assert!(c.pending_package(&root).is_none());
    let block = BlockHandler::new(&c.block_state_management).get_latest_block().unwrap();
    assert_eq!(block.accounts_merkle_root, root);
    assert_eq!(c.account_state_management.get_state_record(&RECIPIENT).unwrap().lamports, 8);
}

#[test]
fn optimistic_timeout_fallback() {
    let mut c = committer();
    let root = optimistic_parked(&mut c, 22, 100);
    assert!(c.commitments.expired_roots(101, 2).is_empty());
    assert_eq!(c.commitments.expired_roots(102, 2), vec![root]);
    let msg = CommitmentProcessorMessage { state_root: root, processor_type: CommitmentResultType::TimeOut };
    assert_eq!(c.decide(&msg), PendingAction::RetryDirect);

    // validator unreachable: the entry stays and no block is written
    assert_eq!(c.process_message(&msg, false, true, 3), Err(CommitmentError::ValidatorRejected));
    assert_eq!(c.commitments.get(&root).unwrap().retries, 1);
    assert!(c.pending_package(&root).is_some());
    assert!(BlockHandler::new(&c.block_state_management).get_latest_block().is_none());

    // validator reachable: finalized and forgotten
    assert_eq!(c.process_message(&msg, true, true, 3), Ok(1));
    assert_eq!(c.commitments.len(), 0);
    assert!(BlockHandler::new(&c.block_state_management).get_block(1).is_some());
}

#[test]
fn retries_are_bounded() {
    let mut c = committer();
    let root = optimistic_parked(&mut c, 23, 0);
    assert!(!c.record_retry_failure(&root, 3));
    assert!(!c.record_retry_failure(&root, 3));
    assert!(c.record_retry_failure(&root, 3));
    assert!(c.commitments.get(&root).is_none());
    assert!(c.pending_package(&root).is_none());
    assert_eq!(c.resolve_pending(&root), Err(CommitmentError::NotPending));
}

#[test]
fn unknown_root_is_ignored() {
    let c = committer();
    let msg = CommitmentProcessorMessage { state_root: [5u8; 32], processor_type: CommitmentResultType::OnChain };
    assert_eq!(c.decide(&msg), PendingAction::Ignore);
}

#[test]
fn restart_keeps_latest_block() {
    let mut c = committer();
    assert_eq!(finalize_direct(&mut c, executed(&[transfer(31, false)], 9, 1)), Ok(1));
    let before = BlockHandler::new(&c.block_state_management).get_latest_block().unwrap().clone();
    let Committer {
        account_state_management,
        block_state_management,
        transaction_state_management,
        optimistic_commitment_state_management,
        ..
    } = c;
    let restarted: Committer = StateCommitment::new(
        account_state_management,
        block_state_management,
        transaction_state_management,
        optimistic_commitment_state_management,
    );
    let after = BlockHandler::new(&restarted.block_state_management).get_latest_block().unwrap();
    assert_eq!(after.block_number, 1);
    assert_eq!(after.to_bytes(), before.to_bytes());
    assert_eq!(restarted.account_state_management.get_state_record(&PAYER).unwrap().lamports, 9);
}

#[test]
fn aggregator_commit_and_abort() {
    let mut tree = TreeComposite::new();
    let a = vec![account(PAYER, 1), account(RECIPIENT, 2)];
    tree.add_states(&a);
    assert_eq!(tree.get_root(), None);
    let staged = tree.get_uncommitted_root();
    assert!(staged.is_some());
    tree.commit();
    assert_eq!(tree.get_root(), staged);
    assert_eq!(tree.get_leaf_index(&RECIPIENT), Some(1));
    tree.add_states(&vec![account([3u8; 32], 3)]);
    assert_ne!(tree.get_uncommitted_root(), staged);
    tree.abort_uncommitted();
    assert_eq!(tree.get_root(), staged);
    assert_eq!(tree.get_uncommitted_root(), staged);
    assert_eq!(tree.get_leaf_index(&[3u8; 32]), None);
}

#[test]
fn attach_proof_sets_root_and_artifacts() {
    let package = executed(&[transfer(41, true)], 1, 2);
    let prepared = ProofPackagePrepared { proof: vec![1], public_inputs: vec![2], verifying_key: vec![3] };
    let p = attach_proof(package, [9u8; 32], prepared);
    assert_eq!(p.state_root, Some([9u8; 32]));
    assert_eq!(p.proof, vec![1]);
    assert_eq!(p.verifying_key, vec![3]);
    assert!(p.optimistic);
}

#[test]
fn committer_start_and_stop() {
    let mut c = committer();
    assert!(c.start());
    c.stop();
    assert!(!c.start());
}

#[test]
fn park_refuses_package_without_accounts() {
    let mut c = committer();
    let package = build_package(vec![transfer(51, true)], vec![None]).unwrap();
    let prepared = ProofPackagePrepared { proof: vec![], public_inputs: vec![], verifying_key: vec![] };
    assert_eq!(c.park_optimistic(package, prepared, 0), Err(CommitmentError::MalformedPackage));
    assert_eq!(c.commitments.len(), 0);
}

#[test]
fn retry_still_counted_after_direct_retry() {
    let mut c = committer();
    let root = optimistic_parked(&mut c, 52, 0);
    assert_eq!(c.conclude_retry(&root, true, false, 3), Err(CommitmentError::ValidatorRejected));
    assert_eq!(c.commitments.get(&root).unwrap().retries, 1);
    assert_eq!(c.conclude_retry(&root, true, true, 3), Ok(1));
}

#[test]
fn block_store_chain_check() {
    let mut c = committer();
    assert!(c.block_state_management.manage_state.check_chain());
    assert_eq!(finalize_direct(&mut c, executed(&[transfer(61, false)], 1, 2)), Ok(1));
    assert_eq!(finalize_direct(&mut c, executed(&[transfer(62, false)], 3, 4)), Ok(2));
    assert!(c.block_state_management.manage_state.check_chain());
    let mut broken: StateManager<MemoryStore<Block>> = StateManager::new();
    broken.set_state_record(Block::new(2, [0; 32], [0; 32], vec![], vec![], vec![]));
    broken.set_latest_block_id(&Block::get_id(2));
    assert!(!broken.manage_state.check_chain());
}

#[test]
fn packages_are_routed_by_flag() {
    let optimistic = executed(&[transfer(71, true)], 1, 2);
    let direct = executed(&[transfer(72, false)], 1, 2);
    assert_eq!(route_package(&optimistic), PackageRoute::Optimistic);
    assert_eq!(route_package(&direct), PackageRoute::Direct);
}
