//! The state commitment pipeline's own decisions: the Merkle view of a
//! package, finalization into the stores and a new block, and the registry
//! of optimistic commitments waiting for an anchor or a timeout.

use vstd::prelude::*;
use vstd::slice::slice_to_vec;
use crate::account::AccountState;
use crate::artifacts::ProofPackagePrepared;
use crate::aggregator::{
    TreeComposite, TreeModel, account_keys_of, all_wf, model_commit, record_leaves,
};
use crate::block::{Block, block_id_of};
use crate::chain::{chain_wf, lemma_extend_chain, tip};
use crate::codec::MAX_LEN;
use crate::merkle::{digests, merkle_root, opt_digest};
use crate::package::StateCommitmentPackage;
use crate::record::StateRecord;
use crate::registry::{CommitmentEntry, PendingRegistry, last_entry, registered_by, roots_distinct, without};
use crate::store::{ManageState, StateManager, put_all};
use crate::transaction::TrollupTransaction;

verus! {

/// Why a package could not be finalized. Nothing was written in any case.
#[derive(Debug, Clone, Copy, PartialEq, Eq)]
pub enum CommitmentError {
    /// The package holds no account or no transaction: there is no root.
    EmptyPackage,
    /// The latest-block slot names a block the store does not hold.
    LatestBlockMissing,
    /// The next block number does not fit in 64 bits.
    BlockNumberExhausted,
    /// A block is already stored under the next block's identifier.
    BlockSlotTaken,
    /// No optimistic commitment is pending under the given root.
    NotPending,
    /// The validator refused the proof, or its anchoring transaction was
    /// not confirmed.
    ValidatorRejected,
    /// The pending package cannot be written as it stands.
    MalformedPackage,
}

/// The number the next block gets, or why there is none: 1 on an empty
/// chain, else one past the latest block, whose identifier must be free.
pub open spec fn next_block(bs: Map<Seq<u8>, Block>, latest: Option<Seq<u8>>) -> Result<u64, CommitmentError> {
    match latest {
        None => if bs.contains_key(block_id_of(1)) {
            Err(CommitmentError::BlockSlotTaken)
        } else {
            Ok(1)
        },
        Some(l) => if !bs.contains_key(l) {
            Err(CommitmentError::LatestBlockMissing)
        } else if bs[l].block_number == u64::MAX {
            Err(CommitmentError::BlockNumberExhausted)
        } else if bs.contains_key(block_id_of((bs[l].block_number + 1) as u64)) {
            Err(CommitmentError::BlockSlotTaken)
        } else {
            Ok((bs[l].block_number + 1) as u64)
        },
    }
}

/// Whether `package` can be staged and written with its own proof.
pub fn package_ready(package: &StateCommitmentPackage) -> (r: bool)
    ensures
        r == (package_wf(*package) && package.proof@.len() <= MAX_LEN),
{
    package.proof.len() <= MAX_LEN && check_package_wf(package)
}

/// Whether `package` can be staged and its records written.
pub fn check_package_wf(package: &StateCommitmentPackage) -> (r: bool)
    ensures
        r == package_wf(*package),
{
    if package.state_records.len() > MAX_LEN || package.transactions.len() > MAX_LEN {
        return false;
    }
    let mut i: usize = 0;
    while i < package.state_records.len()
        invariant
            i <= package.state_records@.len(),
            forall|k: int| 0 <= k < i ==> (#[trigger] package.state_records@[k]).wf(),
        decreases package.state_records@.len() - i,
    {
        if package.state_records[i].data.len() > MAX_LEN {
            assert(!package.state_records@[i as int].wf());
            return false;
        }
        i = i + 1;
    }
    let mut j: usize = 0;
    while j < package.transactions.len()
        invariant
            j <= package.transactions@.len(),
            forall|k: int| 0 <= k < j ==> (#[trigger] package.transactions@[k]).wf(),
        decreases package.transactions@.len() - j,
    {
        let t = &package.transactions[j];
        if t.signatures.len() == 0 || !t.encodable() {
            assert(!package.transactions@[j as int].wf());
            return false;
        }
        j = j + 1;
    }
    true
}

/// A package can be parked once proved with `prepared`: its records can be
/// written, it has accounts to take a root over, and every artifact fits
/// its length prefix.
pub open spec fn parkable(package: StateCommitmentPackage, prepared: ProofPackagePrepared) -> bool {
    &&& package_wf(package)
    &&& package.state_records@.len() > 0
    &&& package.transaction_ids@.len() <= MAX_LEN
    &&& prepared.proof@.len() <= MAX_LEN
    &&& prepared.public_inputs@.len() <= MAX_LEN
    &&& prepared.verifying_key@.len() <= MAX_LEN
}

/// Which pipeline a package takes.
#[derive(Debug, Clone, Copy, PartialEq, Eq)]
pub enum PackageRoute {
    /// Through the validator now, then finalized.
    Direct,
    /// Parked in the registry until anchored or timed out.
    Optimistic,
}

pub fn route_package(package: &StateCommitmentPackage) -> (r: PackageRoute)
    ensures
        r == if package.optimistic { PackageRoute::Optimistic } else { PackageRoute::Direct },
{
    if package.optimistic {
        PackageRoute::Optimistic
    } else {
        PackageRoute::Direct
    }
}

/// The package with its proof artifacts and its state root.
pub fn attach_proof(
    package: StateCommitmentPackage,
    state_root: [u8; 32],
    prepared: ProofPackagePrepared,
) -> (r: StateCommitmentPackage)
    ensures
        r.state_root == Some(state_root),
        r.proof == prepared.proof,
        r.public_inputs == prepared.public_inputs,
        r.verifying_key == prepared.verifying_key,
        r.optimistic == package.optimistic,
        r.state_records == package.state_records,
        r.transactions == package.transactions,
        r.transaction_ids == package.transaction_ids,
{
    let ProofPackagePrepared { proof, public_inputs, verifying_key } = prepared;
    StateCommitmentPackage { proof, public_inputs, verifying_key, state_root: Some(state_root), ..package }
}

/// What the optimistic processor reports about a pending commitment.
#[derive(Debug, Clone, Copy, PartialEq, Eq)]
pub enum CommitmentResultType {
    /// The parent chain anchored its state root.
    OnChain,
    /// It waited out the timeout.
    TimeOut,
}

#[derive(Debug, Clone, Copy)]
pub struct CommitmentProcessorMessage {
    pub state_root: [u8; 32],
    pub processor_type: CommitmentResultType,
}

/// What the main loop does with a processor message.
#[derive(Debug, Clone, Copy, PartialEq, Eq)]
pub enum PendingAction {
    /// Finalize the pending package: its root was anchored.
    FinalizeAnchored,
    /// Send the pending package through the validator round trip again.
    RetryDirect,
    /// Nothing is pending under that root.
    Ignore,
}

/// A state root that the parent chain's watched account now holds.
#[derive(Debug, Clone, Copy)]
pub struct PdaListenerMessage {
    pub state_root: [u8; 32],
}

/// The package can be staged and written: every record can be written and
/// every count fits its prefix.
pub open spec fn package_wf(p: StateCommitmentPackage) -> bool {
    &&& all_wf(p.state_records@)
    &&& all_wf(p.transactions@)
    &&& p.state_records@.len() <= MAX_LEN
    &&& p.transactions@.len() <= MAX_LEN
}

/// A fresh aggregator with the package's accounts and transactions staged.
pub open spec fn staged_model(p: StateCommitmentPackage) -> TreeModel {
    TreeModel {
        accounts: Seq::empty(),
        staged_accounts: record_leaves(p.state_records@),
        account_keys: Seq::empty(),
        staged_account_keys: account_keys_of(p.state_records@),
        transactions: Seq::empty(),
        staged_transactions: record_leaves(p.transactions@),
    }
}

/// Stages the package's transactions and accounts, in order, in a fresh
/// aggregator, and gives the account root that committing would make: the
/// package's new state root.
pub fn stage_package(package: &StateCommitmentPackage) -> (r: (TreeComposite, Option<[u8; 32]>))
    requires
        package_wf(*package),
    ensures
        r.0@ == staged_model(*package),
        opt_digest(r.1) == merkle_root(record_leaves(package.state_records@)),
{
    let mut tree = TreeComposite::new();
    tree.add_transactions(&package.transactions);
    tree.add_states(&package.state_records);
    let root = tree.get_uncommitted_root();
    assert(tree@.accounts + tree@.staged_accounts =~= record_leaves(package.state_records@));
    assert(tree@.staged_accounts =~= record_leaves(package.state_records@));
    assert(tree@.staged_account_keys =~= account_keys_of(package.state_records@));
    assert(tree@.staged_transactions =~= record_leaves(package.transactions@));
    assert(tree@.accounts =~= Seq::<Seq<u8>>::empty());
    assert(tree@.account_keys =~= Seq::<Seq<u8>>::empty());
    assert(tree@.transactions =~= Seq::<Seq<u8>>::empty());
    assert(tree@ =~= staged_model(*package));
    (tree, root)
}

/// The keys of `txs`, in order.
pub open spec fn tx_keys(txs: Seq<TrollupTransaction>) -> Seq<Seq<u8>> {
    Seq::new(txs.len(), |i: int| txs[i].spec_key())
}

pub fn transaction_ids(txs: &Vec<TrollupTransaction>) -> (r: Vec<[u8; 32]>)
    requires
        all_wf(txs@),
    ensures
        digests(r@) == tx_keys(txs@),
{
    let mut out: Vec<[u8; 32]> = Vec::new();
    let mut i: usize = 0;
    while i < txs.len()
        invariant
            i <= txs@.len(),
            all_wf(txs@),
            out@.len() == i,
            forall|k: int| 0 <= k < i ==> #[trigger] out@[k]@ == txs@[k].spec_key(),
        decreases txs@.len() - i,
    {
        out.push(txs[i].get_key());
        i = i + 1;
    }
    assert(digests(out@) =~= tx_keys(txs@));
    out
}

pub fn account_addresses(states: &Vec<AccountState>) -> (r: Vec<[u8; 32]>)
    ensures
        digests(r@) == account_keys_of(states@),
{
    let mut out: Vec<[u8; 32]> = Vec::new();
    let mut i: usize = 0;
    while i < states.len()
        invariant
            i <= states@.len(),
            out@.len() == i,
            forall|k: int| 0 <= k < i ==> #[trigger] out@[k]@ == states@[k].address@,
        decreases states@.len() - i,
    {
        out.push(states[i].address);
        i = i + 1;
    }
    assert(digests(out@) =~= account_keys_of(states@));
    out
}

/// Where the committer's main loop stands.
#[derive(Debug, Clone, Copy, PartialEq, Eq, Structural)]
pub enum CommitterState {
    Initialized,
    Running,
    Stopped,
}

/// The commitment pipeline's stores and its state.
pub struct StateCommitment<A, B, T, O> where
    A: ManageState<Record = AccountState>,
    B: ManageState<Record = Block>,
    T: ManageState<Record = TrollupTransaction>,
    O: ManageState<Record = StateCommitmentPackage>,
 {
    pub account_state_management: StateManager<A>,
    pub block_state_management: StateManager<B>,
    pub transaction_state_management: StateManager<T>,
    pub optimistic_commitment_state_management: StateManager<O>,
    pub committer_state: CommitterState,
    pub commitments: PendingRegistry,
}

impl<A, B, T, O> StateCommitment<A, B, T, O> where
    A: ManageState<Record = AccountState>,
    B: ManageState<Record = Block>,
    T: ManageState<Record = TrollupTransaction>,
    O: ManageState<Record = StateCommitmentPackage>,
 {
    pub open spec fn accounts(&self) -> Map<Seq<u8>, AccountState> {
        self.account_state_management.records()
    }

    pub open spec fn blocks(&self) -> Map<Seq<u8>, Block> {
        self.block_state_management.records()
    }

    pub open spec fn latest(&self) -> Option<Seq<u8>> {
        self.block_state_management.latest_block()
    }

    pub open spec fn transactions(&self) -> Map<Seq<u8>, TrollupTransaction> {
        self.transaction_state_management.records()
    }

    pub open spec fn pending(&self) -> Map<Seq<u8>, StateCommitmentPackage> {
        self.optimistic_commitment_state_management.records()
    }

    /// Neither block, latest-block slot, account nor transaction changed.
    pub open spec fn nothing_written(old: Self, new: Self) -> bool {
        &&& new.blocks() == old.blocks()
        &&& new.latest() == old.latest()
        &&& new.accounts() == old.accounts()
        &&& new.transactions() == old.transactions()
    }

    /// What finalizing `package` gives: no block for an empty package,
    /// else the next block number or why there is none.
    pub open spec fn finalize_result(old: Self, package: StateCommitmentPackage) -> Result<u64, CommitmentError> {
        if package.state_records@.len() == 0 || package.transactions@.len() == 0 {
            Err(CommitmentError::EmptyPackage)
        } else {
            next_block(old.blocks(), old.latest())
        }
    }

    /// `new` is `old` with block `n` made of `package` and `proof` written:
    /// the accounts and transactions stored, the block linked after the tip
    /// and named by the latest-block slot, its roots over the package's
    /// records in order.
    pub open spec fn block_written(
        old: Self,
        new: Self,
        package: StateCommitmentPackage,
        proof: Seq<u8>,
        n: u64,
    ) -> bool {
        let id = block_id_of(n);
        let b = new.blocks()[id];
        &&& n == tip(old.blocks(), old.latest()) + 1
        &&& tip(new.blocks(), new.latest()) == n
        &&& new.latest() == Some(id)
        &&& new.blocks() == old.blocks().insert(id, b)
        &&& b.block_number == n
        &&& b.id@ == id
        &&& b.previous_block_id@ == block_id_of((n - 1) as u64)
        &&& Some(b.accounts_merkle_root@) == merkle_root(record_leaves(package.state_records@))
        &&& Some(b.transactions_merkle_root@) == merkle_root(record_leaves(package.transactions@))
        &&& b.accounts_zk_proof@ == proof
        &&& digests(b.transactions@) == tx_keys(package.transactions@)
        &&& digests(b.accounts@) == account_keys_of(package.state_records@)
        &&& new.accounts() == put_all(old.accounts(), package.state_records@)
        &&& new.transactions() == put_all(old.transactions(), package.transactions@)
    }

    /// What resolving the pending commitment under `root` gives.
    pub open spec fn resolve_result(old: Self, root: Seq<u8>) -> Result<u64, CommitmentError> {
        if !old.pending().contains_key(root) {
            Err(CommitmentError::NotPending)
        } else {
            let p = old.pending()[root];
            if !(package_wf(p) && p.proof@.len() <= MAX_LEN) {
                Err(CommitmentError::MalformedPackage)
            } else {
                Self::finalize_result(old, p)
            }
        }
    }

    /// The pending commitment under `root` was resolved as `r` says: on
    /// success its block is written and it is forgotten, otherwise nothing
    /// changed.
    pub open spec fn resolved(old: Self, new: Self, root: Seq<u8>, r: Result<u64, CommitmentError>) -> bool {
        &&& r == Self::resolve_result(old, root)
        &&& match r {
            Ok(n) => {
                let p = old.pending()[root];
                &&& Self::block_written(old, new, p, p.proof@, n)
                &&& new.pending() == old.pending().remove(root)
                &&& new.commitments@ == without(old.commitments@, root)
            },
            Err(_) => {
                &&& Self::nothing_written(old, new)
                &&& new.pending() == old.pending()
                &&& new.commitments@ == old.commitments@
            },
        }
    }

    /// One more failed retry of the commitment under `root` was counted:
    /// nothing was written, and the entry stays, with its count raised,
    /// until `max_retries` retries have failed, when it is dropped from the
    /// registry and the persistent store.
    pub open spec fn retry_failed(old: Self, new: Self, root: Seq<u8>, max_retries: u32) -> bool {
        &&& Self::nothing_written(old, new)
        &&& match last_entry(old.commitments@, root) {
            None => new.pending() == old.pending() && new.commitments@ == old.commitments@,
            Some(e) => if e.retries as int + 1 >= max_retries as int {
                new.pending() == old.pending().remove(root) && new.commitments@ == without(
                    old.commitments@,
                    root,
                )
            } else {
                new.pending() == old.pending() && new.commitments@ == without(old.commitments@, root).push(
                    CommitmentEntry { retries: (e.retries + 1) as u32, ..e },
                )
            },
        }
    }

    pub fn new(
        account_state_management: StateManager<A>,
        block_state_management: StateManager<B>,
        transaction_state_management: StateManager<T>,
        optimistic_commitment_state_management: StateManager<O>,
    ) -> (r: Self)
        ensures
            r.account_state_management == account_state_management,
            r.block_state_management == block_state_management,
            r.transaction_state_management == transaction_state_management,
            r.optimistic_commitment_state_management == optimistic_commitment_state_management,
            r.committer_state == CommitterState::Initialized,
            r.commitments@ == Seq::<CommitmentEntry>::empty(),
    {
        StateCommitment {
            account_state_management,
            block_state_management,
            transaction_state_management,
            optimistic_commitment_state_management,
            committer_state: CommitterState::Initialized,
            commitments: PendingRegistry::new(),
        }
    }

    /// Moves the committer to `Running`; a stopped committer stays stopped.
    /// Each event of the running loop is one call of `process_message`,
    /// each package from the pool one of `park_optimistic` or
    /// `conclude_direct`, as `route_package` says.
    pub fn start(&mut self) -> (started: bool)
        ensures
            started == (old(self).committer_state != CommitterState::Stopped),
            final(self).committer_state == if started {
                CommitterState::Running
            } else {
                CommitterState::Stopped
            },
            final(self).accounts() == old(self).accounts(),
            final(self).blocks() == old(self).blocks(),
            final(self).latest() == old(self).latest(),
            final(self).transactions() == old(self).transactions(),
            final(self).pending() == old(self).pending(),
    {
        if self.committer_state == CommitterState::Stopped {
            return false;
        }
        self.committer_state = CommitterState::Running;
        true
    }

    /// Moves the committer to `Stopped`, for good.
    pub fn stop(&mut self)
        ensures
            final(self).committer_state == CommitterState::Stopped,
            final(self).accounts() == old(self).accounts(),
            final(self).blocks() == old(self).blocks(),
            final(self).latest() == old(self).latest(),
            final(self).transactions() == old(self).transactions(),
            final(self).pending() == old(self).pending(),
    {
        self.committer_state = CommitterState::Stopped;
    }

    /// Parks an optimistic package: persists it under its state root and
    /// registers the root at time `now`. No account, transaction or block
    /// is written.
    pub fn add_commitment(&mut self, package: StateCommitmentPackage, now: u64)
        requires
            package.wf(),
            registered_by(old(self).commitments@, now),
        ensures
            registered_by(final(self).commitments@, now),
            roots_distinct(old(self).commitments@) ==> roots_distinct(final(self).commitments@),
            final(self).pending() == old(self).pending().insert(package.spec_key(), package),
            final(self).commitments@ == without(old(self).commitments@, package.spec_key()).push(
                CommitmentEntry { state_root: package.state_root.unwrap(), timestamp: now, retries: 0 },
            ),
            final(self).accounts() == old(self).accounts(),
            final(self).transactions() == old(self).transactions(),
            final(self).blocks() == old(self).blocks(),
            final(self).latest() == old(self).latest(),
    {
        let root = package.state_root.unwrap();
        self.optimistic_commitment_state_management.set_state_record(package);
        self.optimistic_commitment_state_management.commit();
        self.commitments.add(root, now);
    }

    /// Forgets the pending commitment under `root`, in the registry and in
    /// the persistent store.
    pub fn remove_commitment(&mut self, root: &[u8; 32])
        ensures
            roots_distinct(old(self).commitments@) ==> roots_distinct(final(self).commitments@),
            final(self).pending() == old(self).pending().remove(root@),
            final(self).commitments@ == without(old(self).commitments@, root@),
            final(self).accounts() == old(self).accounts(),
            final(self).transactions() == old(self).transactions(),
            final(self).blocks() == old(self).blocks(),
            final(self).latest() == old(self).latest(),
    {
        self.optimistic_commitment_state_management.delete_state_record(root);
        self.optimistic_commitment_state_management.commit();
        self.commitments.remove(root);
    }

    /// Ends the direct path for a package staged by `stage_package`: when
    /// the validator accepted the proof and its anchoring transaction was
    /// confirmed the package is finalized, otherwise the staged view is
    /// dropped and nothing is written.
    pub fn conclude_direct(
        &mut self,
        tree: &mut TreeComposite,
        package: StateCommitmentPackage,
        proof: Vec<u8>,
        accepted: bool,
        confirmed: bool,
    ) -> (r: Result<u64, CommitmentError>)
        requires
            package_wf(package),
            old(tree)@ == staged_model(package),
            proof@.len() <= MAX_LEN,
            chain_wf(old(self).blocks(), old(self).latest()),
        ensures
            chain_wf(final(self).blocks(), final(self).latest()),
            final(self).pending() == old(self).pending(),
            final(self).commitments == old(self).commitments,
            !(accepted && confirmed) ==> {
                &&& r == Err::<u64, CommitmentError>(CommitmentError::ValidatorRejected)
                &&& final(tree)@ == crate::aggregator::model_abort(old(tree)@)
            },
            accepted && confirmed ==> r == Self::finalize_result(*old(self), package),
            r matches Ok(n) ==> Self::block_written(*old(self), *final(self), package, proof@, n)
                && final(tree)@ == model_commit(old(tree)@),
            r is Err ==> Self::nothing_written(*old(self), *final(self)),
    {
        if !(accepted && confirmed) {
            tree.abort_uncommitted();
            return Err(CommitmentError::ValidatorRejected);
        }
        self.finalize(tree, package, proof)
    }

    /// Parks a proved optimistic package: its state root is the Merkle root
    /// over its accounts in order; the proof artifacts and that root are
    /// attached and the package registered under the root at time `now`.
    /// Refused, with nothing written, when the package is not parkable.
    pub fn park_optimistic(
        &mut self,
        package: StateCommitmentPackage,
        prepared: ProofPackagePrepared,
        now: u64,
    ) -> (r: Result<[u8; 32], CommitmentError>)
        requires
            registered_by(old(self).commitments@, now),
        ensures
            r is Ok <==> parkable(package, prepared),
            registered_by(final(self).commitments@, now),
            Self::nothing_written(*old(self), *final(self)),
            r is Err ==> final(self).pending() == old(self).pending() && final(self).commitments@
                == old(self).commitments@,
            r matches Ok(root) ==> {
                let q = final(self).pending()[root@];
                &&& Some(root@) == merkle_root(record_leaves(package.state_records@))
                &&& final(self).pending() == old(self).pending().insert(root@, q)
                &&& q.state_root == Some(root)
                &&& q.optimistic == package.optimistic
                &&& q.state_records == package.state_records
                &&& q.transactions == package.transactions
                &&& q.transaction_ids == package.transaction_ids
                &&& q.proof == prepared.proof
                &&& q.public_inputs == prepared.public_inputs
                &&& q.verifying_key == prepared.verifying_key
                &&& final(self).commitments@ == without(old(self).commitments@, root@).push(
                    CommitmentEntry { state_root: root, timestamp: now, retries: 0 },
                )
            },
    {
        if package.state_records.len() == 0 || package.transaction_ids.len() > MAX_LEN
            || prepared.proof.len() > MAX_LEN || prepared.public_inputs.len() > MAX_LEN
            || prepared.verifying_key.len() > MAX_LEN || !check_package_wf(&package) {
            return Err(CommitmentError::MalformedPackage);
        }
        let (_tree, root) = stage_package(&package);
        let root = match root {
            Some(x) => x,
            None => {
                proof { lemma_root_present(record_leaves(package.state_records@)); }
                return Err(CommitmentError::EmptyPackage);
            },
        };
        let parked = attach_proof(package, root, prepared);
        self.add_commitment(parked, now);
        Ok(root)
    }

    /// Ends a direct-path retry of the pending commitment under `root`: when
    /// the validator accepted and the anchor was confirmed it is finalized
    /// and forgotten; otherwise the failure is counted, and after
    /// `max_retries` failures the commitment is dropped.
    pub fn conclude_retry(
        &mut self,
        root: &[u8; 32],
        accepted: bool,
        confirmed: bool,
        max_retries: u32,
    ) -> (r: Result<u64, CommitmentError>)
        requires
            chain_wf(old(self).blocks(), old(self).latest()),
        ensures
            chain_wf(final(self).blocks(), final(self).latest()),
            accepted && confirmed ==> Self::resolved(*old(self), *final(self), root@, r),
            !(accepted && confirmed) ==> r == Err::<u64, CommitmentError>(CommitmentError::ValidatorRejected)
                && Self::retry_failed(*old(self), *final(self), root@, max_retries),
    {
        if accepted && confirmed {
            self.resolve_pending(root)
        } else {
            self.record_retry_failure(root, max_retries);
            Err(CommitmentError::ValidatorRejected)
        }
    }

    /// Counts a failed direct-path retry of the pending commitment under
    /// `root`; after `max_retries` failures it is dropped from the registry
    /// and the persistent store. Returns whether it was dropped.
    pub fn record_retry_failure(&mut self, root: &[u8; 32], max_retries: u32) -> (dropped: bool)
        ensures
            roots_distinct(old(self).commitments@) ==> roots_distinct(final(self).commitments@),
            Self::retry_failed(*old(self), *final(self), root@, max_retries),
            dropped == match last_entry(old(self).commitments@, root@) {
                None => false,
                Some(e) => e.retries as int + 1 >= max_retries as int,
            },
    {
        let dropped = self.commitments.record_failed_retry(root, max_retries);
        if dropped {
            self.optimistic_commitment_state_management.delete_state_record(root);
            self.optimistic_commitment_state_management.commit();
        }
        dropped
    }

    /// What to do with a processor message.
    pub fn decide(&self, message: &CommitmentProcessorMessage) -> (r: PendingAction)
        ensures
            last_entry(self.commitments@, message.state_root@) is None ==> r == PendingAction::Ignore,
            last_entry(self.commitments@, message.state_root@) is Some ==> r == match message.processor_type {
                CommitmentResultType::OnChain => PendingAction::FinalizeAnchored,
                CommitmentResultType::TimeOut => PendingAction::RetryDirect,
            },
    {
        match self.commitments.get(&message.state_root) {
            None => PendingAction::Ignore,
            Some(_) => match message.processor_type {
                CommitmentResultType::OnChain => PendingAction::FinalizeAnchored,
                CommitmentResultType::TimeOut => PendingAction::RetryDirect,
            },
        }
    }

    /// The pending package under `root`.
    pub fn pending_package(&self, root: &[u8; 32]) -> (r: Option<&StateCommitmentPackage>)
        ensures
            match r {
                Some(p) => self.pending().contains_key(root@) && self.pending()[root@] == *p,
                None => !self.pending().contains_key(root@),
            },
    {
        self.optimistic_commitment_state_management.get_state_record(root)
    }

    /// Finalizes the pending package under `root` with the proof it was
    /// parked with, rebuilding its Merkle view from scratch, then forgets it.
    /// On an error nothing was written and it stays pending.
    pub fn resolve_pending(&mut self, root: &[u8; 32]) -> (r: Result<u64, CommitmentError>)
        requires
            chain_wf(old(self).blocks(), old(self).latest()),
        ensures
            chain_wf(final(self).blocks(), final(self).latest()),
            Self::resolved(*old(self), *final(self), root@, r),
    {
        match self.optimistic_commitment_state_management.get_state_record(root) {
            None => {
                return Err(CommitmentError::NotPending);
            },
            Some(p) => {
                if !package_ready(p) {
                    return Err(CommitmentError::MalformedPackage);
                }
                if p.state_records.len() == 0 || p.transactions.len() == 0 {
                    return Err(CommitmentError::EmptyPackage);
                }
            },
        }
        match self.next_block_number() {
            Err(e) => {
                return Err(e);
            },
            Ok(_) => {},
        }
        let package = match self.optimistic_commitment_state_management.take_state_record(root) {
            None => {
                return Err(CommitmentError::NotPending);
            },
            Some(p) => p,
        };
        let (mut tree, _root) = stage_package(&package);
        let proof_bytes = slice_to_vec(package.proof.as_slice());
        let n = match self.finalize(&mut tree, package, proof_bytes) {
            Ok(n) => n,
            Err(e) => {
                return Err(e);
            },
        };
        self.remove_commitment(root);
        assert(self.pending() =~= old(self).pending().remove(root@));
        Ok(n)
    }

    /// Handles a processor message: an anchor resolves the pending
    /// commitment; a timeout ends its direct-path retry, whose validator
    /// outcome is `accepted` and `confirmed`.
    pub fn process_message(
        &mut self,
        message: &CommitmentProcessorMessage,
        accepted: bool,
        confirmed: bool,
        max_retries: u32,
    ) -> (r: Result<u64, CommitmentError>)
        requires
            chain_wf(old(self).blocks(), old(self).latest()),
        ensures
            chain_wf(final(self).blocks(), final(self).latest()),
            message.processor_type == CommitmentResultType::OnChain ==> Self::resolved(
                *old(self),
                *final(self),
                message.state_root@,
                r,
            ),
            message.processor_type == CommitmentResultType::TimeOut ==> {
                &&& accepted && confirmed ==> Self::resolved(*old(self), *final(self), message.state_root@, r)
                &&& !(accepted && confirmed) ==> r == Err::<u64, CommitmentError>(
                    CommitmentError::ValidatorRejected,
                ) && Self::retry_failed(*old(self), *final(self), message.state_root@, max_retries)
            },
    {
        match message.processor_type {
            CommitmentResultType::OnChain => self.resolve_pending(&message.state_root),
            CommitmentResultType::TimeOut => self.conclude_retry(&message.state_root, accepted, confirmed, max_retries),
        }
    }

    /// The number the next block gets.
    pub fn next_block_number(&self) -> (r: Result<u64, CommitmentError>)
        ensures
            r == next_block(self.blocks(), self.latest()),
    {
        let next: u64 = match self.block_state_management.get_latest_block_id() {
            None => 1,
            Some(id) => match self.block_state_management.get_state_record(&id) {
                None => {
                    return Err(CommitmentError::LatestBlockMissing);
                },
                Some(latest) => {
                    if latest.block_number == u64::MAX {
                        return Err(CommitmentError::BlockNumberExhausted);
                    }
                    latest.block_number + 1
                },
            },
        };
        let id = Block::get_id(next);
        match self.block_state_management.get_state_record(&id) {
            Some(_) => Err(CommitmentError::BlockSlotTaken),
            None => Ok(next),
        }
    }

    /// Finalizes a package staged by `stage_package`: commits the Merkle
    /// view, writes the accounts and the transactions, then the next block
    /// and the latest-block slot, then passes the durability barrier. When
    /// an error is returned nothing was written.
    pub fn finalize(
        &mut self,
        tree: &mut TreeComposite,
        package: StateCommitmentPackage,
        proof: Vec<u8>,
    ) -> (r: Result<u64, CommitmentError>)
        requires
            package_wf(package),
            old(tree)@ == staged_model(package),
            proof@.len() <= MAX_LEN,
            chain_wf(old(self).blocks(), old(self).latest()),
        ensures
            chain_wf(final(self).blocks(), final(self).latest()),
            final(self).pending() == old(self).pending(),
            final(self).commitments == old(self).commitments,
            r == Self::finalize_result(*old(self), package),
            r matches Ok(n) ==> Self::block_written(*old(self), *final(self), package, proof@, n)
                && final(tree)@ == model_commit(old(tree)@),
            r is Err ==> Self::nothing_written(*old(self), *final(self)) && final(tree)@ == old(tree)@,
    {
        if package.state_records.len() == 0 || package.transactions.len() == 0 {
            return Err(CommitmentError::EmptyPackage);
        }
        let next = match self.next_block_number() {
            Err(e) => {
                return Err(e);
            },
            Ok(n) => n,
        };
        let id = Block::get_id(next);
        let tx_ids = transaction_ids(&package.transactions);
        let addresses = account_addresses(&package.state_records);
        assert(digests(tx_ids@).len() == tx_ids@.len());
        assert(digests(addresses@).len() == addresses@.len());

        tree.commit();
        let ghost committed = tree@;
        assert(committed.accounts =~= record_leaves(package.state_records@));
        assert(committed.transactions =~= record_leaves(package.transactions@));
        let accounts_root = match tree.get_root() {
            Some(x) => x,
            None => {
                proof { lemma_root_present(record_leaves(package.state_records@)); }
                return Err(CommitmentError::EmptyPackage);
            },
        };
        let transactions_root = match tree.get_transactions_root() {
            Some(x) => x,
            None => {
                proof { lemma_root_present(record_leaves(package.transactions@)); }
                return Err(CommitmentError::EmptyPackage);
            },
        };
        let StateCommitmentPackage { state_records, transactions, .. } = package;
        self.account_state_management.set_state_records(state_records);
        self.transaction_state_management.set_state_records(transactions);
        let block = Block::new(next, transactions_root, accounts_root, proof, tx_ids, addresses);
        let ghost old_blocks = self.blocks();
        let ghost old_latest = self.latest();
        proof {
            lemma_extend_chain(old_blocks, old_latest, block);
        }
        self.block_state_management.set_state_record(block);
        self.block_state_management.set_latest_block_id(&id);
        self.account_state_management.commit();
        self.transaction_state_management.commit();
        self.block_state_management.commit();
        Ok(next)
    }
}

/// After writing `records` in order, a key holds the last record written
/// under it.
pub proof fn lemma_put_all_last<R: StateRecord>(m: Map<Seq<u8>, R>, records: Seq<R>, i: int)
    requires
        0 <= i < records.len(),
        forall|j: int| i < j < records.len() ==> (#[trigger] records[j]).spec_key() != records[i].spec_key(),
    ensures
        put_all(m, records).contains_key(records[i].spec_key()),
        put_all(m, records)[records[i].spec_key()] == records[i],
    decreases records.len(),
{
    if i < records.len() - 1 {
        let init = records.drop_last();
        assert forall|j: int| i < j < init.len() implies (#[trigger] init[j]).spec_key() != init[i].spec_key() by {
            assert(init[j] == records[j]);
        }
        lemma_put_all_last(m, init, i);
        assert(records.last() == records[records.len() - 1]);
    }
}

/// The account leaves a block's accounts have in the account store.
pub open spec fn stored_account_leaves(
    accounts: Map<Seq<u8>, AccountState>,
    addresses: Seq<Seq<u8>>,
) -> Seq<Seq<u8>> {
    Seq::new(addresses.len(), |i: int| crate::hash::sha256_of(accounts[addresses[i]].spec_bytes()))
}

/// Once a package whose accounts have distinct addresses is written to the
/// account store, the Merkle root recomputed from the store over the
/// block's addresses, in block order, is the root the block holds.
pub proof fn lemma_block_accounts_root_recomputes(
    before: Map<Seq<u8>, AccountState>,
    states: Seq<AccountState>,
)
    requires
        forall|i: int, j: int|
            0 <= i < j < states.len() ==> (#[trigger] states[i]).address@ != (#[trigger] states[j]).address@,
    ensures
        merkle_root(stored_account_leaves(put_all(before, states), account_keys_of(states)))
            == merkle_root(record_leaves(states)),
{
    let after = put_all(before, states);
    let a = stored_account_leaves(after, account_keys_of(states));
    assert forall|i: int| 0 <= i < states.len() implies #[trigger] a[i] == record_leaves(states)[i] by {
        assert forall|j: int| i < j < states.len() implies (#[trigger] states[j]).spec_key()
            != states[i].spec_key() by {}
        lemma_put_all_last(before, states, i);
    }
    assert(a =~= record_leaves(states));
}

/// A non-empty sequence of leaves has a root.
pub proof fn lemma_root_present(leaves: Seq<Seq<u8>>)
    requires
        leaves.len() > 0,
    ensures
        merkle_root(leaves) is Some,
    decreases leaves.len(),
{
    if leaves.len() > 1 {
        lemma_root_present(crate::merkle::next_level(leaves));
    }
}

} // verus!
