//! The execution engine's decisions: which transactions a batch holds, and
//! the commitment package that the executor's outcomes make of it.

use vstd::prelude::*;
use crate::account::AccountState;
use crate::aggregator::all_wf;
use crate::commitment::{tx_keys, transaction_ids};
use crate::merkle::digests;
use crate::package::StateCommitmentPackage;
use crate::pool::{StateCommitmentPool, StatePool, TransactionPool, take_count};
use crate::record::StateRecord;
use crate::sanitize::{batch_sanitize_transactions, is_sanitized, sanitize_batch, signature_taken, txs_view};
use crate::transaction::{TransactionModel, transaction_model_wf};
use crate::transaction::TrollupTransaction;

verus! {

/// Transactions taken from the pool per batch unless configured otherwise.
pub const DEFAULT_BATCH_SIZE: u32 = 4;

/// Where the engine's loop stands.
#[derive(Debug, Clone, Copy, PartialEq, Eq, Structural)]
pub enum EngineState {
    Initialized,
    Running,
    Stopped,
}

/// The transactions the executor ran, in batch order.
pub open spec fn executed_txs(
    txs: Seq<TrollupTransaction>,
    outcomes: Seq<Option<Vec<AccountState>>>,
) -> Seq<TrollupTransaction>
    decreases txs.len(),
{
    if txs.len() == 0 || outcomes.len() < txs.len() {
        Seq::empty()
    } else {
        let prev = executed_txs(txs.drop_last(), outcomes.subrange(0, txs.len() - 1));
        match outcomes[txs.len() - 1] {
            Some(_) => prev.push(txs.last()),
            None => prev,
        }
    }
}

/// The accounts the executed transactions left, in batch order.
pub open spec fn executed_accounts(outcomes: Seq<Option<Vec<AccountState>>>) -> Seq<AccountState>
    decreases outcomes.len(),
{
    if outcomes.len() == 0 {
        Seq::empty()
    } else {
        let prev = executed_accounts(outcomes.drop_last());
        match outcomes.last() {
            Some(v) => prev + v@,
            None => prev,
        }
    }
}

/// Some executed transaction asked for an optimistic commitment.
pub open spec fn any_optimistic(txs: Seq<TrollupTransaction>) -> bool {
    exists|i: int| 0 <= i < txs.len() && (#[trigger] txs[i]).optimistic
}

/// The package of an executed batch: the executed transactions with their
/// keys and the accounts they left, optimistic when any of them asked to
/// be. `None` for an empty batch.
pub fn build_package(
    transactions: Vec<TrollupTransaction>,
    outcomes: Vec<Option<Vec<AccountState>>>,
) -> (r: Option<StateCommitmentPackage>)
    requires
        transactions@.len() == outcomes@.len(),
        all_wf(transactions@),
    ensures
        r is None <==> transactions@.len() == 0,
        r matches Some(p) ==> {
            &&& p.transactions@ == executed_txs(transactions@, outcomes@)
            &&& p.state_records@ == executed_accounts(outcomes@)
            &&& digests(p.transaction_ids@) == tx_keys(p.transactions@)
            &&& p.optimistic == any_optimistic(p.transactions@)
            &&& p.state_root is None
            &&& p.proof@.len() == 0
            &&& p.public_inputs@.len() == 0
            &&& p.verifying_key@.len() == 0
        },
{
    if transactions.len() == 0 {
        return None;
    }
    let ghost txs0 = transactions@;
    let ghost outs0 = outcomes@;
    let n = transactions.len();
    let mut txs = transactions;
    let mut outs = outcomes;
    let mut executed: Vec<TrollupTransaction> = Vec::new();
    let mut accounts: Vec<AccountState> = Vec::new();
    let mut optimistic = false;
    let mut i: usize = 0;
    while i < n
        invariant
            i <= n,
            n == txs0.len(),
            n == outs0.len(),
            txs@ == txs0.subrange(i as int, n as int),
            outs@ == outs0.subrange(i as int, n as int),
            executed@ == executed_txs(txs0.subrange(0, i as int), outs0.subrange(0, i as int)),
            accounts@ == executed_accounts(outs0.subrange(0, i as int)),
            optimistic == any_optimistic(executed@),
            all_wf(txs0),
        decreases n - i,
    {
        let tx = txs.remove(0);
        let out = outs.remove(0);
        proof {
            let t1 = txs0.subrange(0, i + 1);
            let o1 = outs0.subrange(0, i + 1);
            assert(t1.drop_last() =~= txs0.subrange(0, i as int));
            assert(o1.subrange(0, i as int) =~= outs0.subrange(0, i as int));
            assert(o1.drop_last() =~= outs0.subrange(0, i as int));
            assert(t1.last() == tx);
            assert(o1[i as int] == out);
        }
        match out {
            Some(mut accs) => {
                let ghost before = accounts@;
                accounts.append(&mut accs);
                let ghost ex = executed@;
                if tx.optimistic {
                    optimistic = true;
                }
                executed.push(tx);
                proof {
                    lemma_any_optimistic_push(ex, tx);
                }
            },
            None => {},
        }
        i = i + 1;
    }
    assert(txs0.subrange(0, n as int) =~= txs0);
    assert(outs0.subrange(0, n as int) =~= outs0);
    proof {
        lemma_executed_subset(txs0, outs0);
    }
    let ids = transaction_ids(&executed);
    Some(StateCommitmentPackage {
        optimistic,
        proof: Vec::new(),
        public_inputs: Vec::new(),
        verifying_key: Vec::new(),
        state_root: None,
        state_records: accounts,
        transactions: executed,
        transaction_ids: ids,
    })
}

pub proof fn lemma_any_optimistic_push(txs: Seq<TrollupTransaction>, t: TrollupTransaction)
    ensures
        any_optimistic(txs.push(t)) == (any_optimistic(txs) || t.optimistic),
{
    let ext = txs.push(t);
    if any_optimistic(txs) {
        let w = choose|w: int| 0 <= w < txs.len() && (#[trigger] txs[w]).optimistic;
        assert(ext[w] == txs[w]);
    }
    if t.optimistic {
        assert(ext[txs.len() as int] == t);
    }
    if any_optimistic(ext) {
        let w = choose|w: int| 0 <= w < ext.len() && (#[trigger] ext[w]).optimistic;
        if w < txs.len() {
            assert(ext[w] == txs[w]);
        }
    }
}

/// Executed transactions are transactions of the batch.
pub proof fn lemma_executed_subset(txs: Seq<TrollupTransaction>, outcomes: Seq<Option<Vec<AccountState>>>)
    requires
        all_wf(txs),
    ensures
        all_wf(executed_txs(txs, outcomes)),
    decreases txs.len(),
{
    if txs.len() > 0 && outcomes.len() >= txs.len() {
        let init = txs.drop_last();
        assert(all_wf(init)) by {
            assert forall|i: int| 0 <= i < init.len() implies (#[trigger] init[i]).wf() by {
                assert(init[i] == txs[i]);
            }
        }
        lemma_executed_subset(init, outcomes.subrange(0, txs.len() - 1));
        assert(txs.last().wf());
    }
}

/// Takes the next batch from the pool: up to `batch_size` transactions,
/// oldest first, of which those that pass the structural checks stay.
pub fn next_batch(pool: &mut TransactionPool, batch_size: u32) -> (r: Vec<TrollupTransaction>)
    ensures
        final(pool)@ == old(pool)@.subrange(
            take_count(batch_size, old(pool)@.len()) as int,
            old(pool)@.len() as int,
        ),
        txs_view(r@) == sanitize_batch(
            txs_view(old(pool)@.subrange(0, take_count(batch_size, old(pool)@.len()) as int)),
        ),
        all_wf(r@),
{
    let taken = pool.get_next_transactions(batch_size);
    batch_sanitize_transactions(taken)
}

/// A pool holding no more than a batch is taken whole: every transaction
/// is dequeued, in order, and none is left behind.
pub proof fn lemma_short_pool_taken_whole(q: Seq<TrollupTransaction>, batch_size: u32)
    requires
        q.len() <= batch_size,
    ensures
        q.subrange(0, take_count(batch_size, q.len()) as int) == q,
        q.subrange(take_count(batch_size, q.len()) as int, q.len() as int).len() == 0,
{
    assert(q.subrange(0, q.len() as int) =~= q);
}

/// Every transaction passes the checks and can be written, and no two
/// share a first signature.
pub open spec fn clean_batch(ts: Seq<TransactionModel>) -> bool {
    &&& forall|i: int| 0 <= i < ts.len() ==> is_sanitized(#[trigger] ts[i]) && transaction_model_wf(ts[i])
    &&& forall|i: int, j: int|
        0 <= i < j < ts.len() ==> (#[trigger] ts[i]).signatures[0] != (#[trigger] ts[j]).signatures[0]
}

/// The checks keep a clean batch whole.
pub proof fn lemma_clean_batch_kept(ts: Seq<TransactionModel>)
    requires
        clean_batch(ts),
    ensures
        sanitize_batch(ts) == ts,
    decreases ts.len(),
{
    if ts.len() > 0 {
        let init = ts.drop_last();
        assert(clean_batch(init)) by {
            assert forall|i: int, j: int| 0 <= i < j < init.len() implies (#[trigger] init[i]).signatures[0]
                != (#[trigger] init[j]).signatures[0] by {
                assert(init[i] == ts[i] && init[j] == ts[j]);
            }
            assert forall|i: int| 0 <= i < init.len() implies is_sanitized(#[trigger] init[i])
                && transaction_model_wf(init[i]) by {
                assert(init[i] == ts[i]);
            }
        }
        lemma_clean_batch_kept(init);
        let t = ts.last();
        assert(is_sanitized(ts[ts.len() - 1]));
        if signature_taken(init, t.signatures[0]) {
            let k = choose|k: int| 0 <= k < init.len() && (#[trigger] init[k]).signatures[0] == t.signatures[0];
            assert(init[k] == ts[k]);
            assert(ts[k].signatures[0] != ts[ts.len() - 1].signatures[0]);
        }
        assert(init.push(t) =~= ts);
    }
}

/// When every transaction of a batch was executed, the package holds them
/// all, in batch order.
pub proof fn lemma_all_executed(txs: Seq<TrollupTransaction>, outcomes: Seq<Option<Vec<AccountState>>>)
    requires
        outcomes.len() == txs.len(),
        forall|i: int| 0 <= i < outcomes.len() ==> (#[trigger] outcomes[i]) is Some,
    ensures
        executed_txs(txs, outcomes) == txs,
    decreases txs.len(),
{
    if txs.len() > 0 {
        let o = outcomes.subrange(0, txs.len() - 1);
        assert forall|i: int| 0 <= i < o.len() implies (#[trigger] o[i]) is Some by {
            assert(o[i] == outcomes[i]);
        }
        lemma_all_executed(txs.drop_last(), o);
        assert(outcomes[txs.len() - 1] is Some);
        assert(txs.drop_last().push(txs.last()) =~= txs);
    }
}

/// A pool no larger than a batch, whose transactions are clean and all
/// execute, becomes one package holding every one of them in pool order:
/// `batch` is what the engine takes from the pool, `outcomes` the
/// executor's report on it.
pub proof fn lemma_short_pool_one_package(
    q: Seq<TrollupTransaction>,
    batch_size: u32,
    batch: Seq<TrollupTransaction>,
    outcomes: Seq<Option<Vec<AccountState>>>,
)
    requires
        q.len() <= batch_size,
        clean_batch(txs_view(q)),
        txs_view(batch) == sanitize_batch(txs_view(q.subrange(0, take_count(batch_size, q.len()) as int))),
        outcomes.len() == batch.len(),
        forall|i: int| 0 <= i < outcomes.len() ==> (#[trigger] outcomes[i]) is Some,
    ensures
        txs_view(executed_txs(batch, outcomes)) == txs_view(q),
{
    lemma_short_pool_taken_whole(q, batch_size);
    lemma_clean_batch_kept(txs_view(q));
    lemma_all_executed(batch, outcomes);
}

/// The engine's state and batch size. Its loop takes a batch, has the
/// executor run it, and queues the package the outcomes make.
pub struct ExecutionEngine {
    pub engine_state: EngineState,
    pub batch_size: u32,
}

impl ExecutionEngine {
    pub fn new(batch_size: u32) -> (r: Self)
        ensures
            r.engine_state == EngineState::Initialized,
            r.batch_size == batch_size,
    {
        ExecutionEngine { engine_state: EngineState::Initialized, batch_size }
    }

    /// Moves the engine to `Running`; a stopped engine stays stopped.
    pub fn start(&mut self) -> (started: bool)
        ensures
            started == (old(self).engine_state != EngineState::Stopped),
            final(self).engine_state == if started { EngineState::Running } else { EngineState::Stopped },
            final(self).batch_size == old(self).batch_size,
    {
        if self.engine_state == EngineState::Stopped {
            return false;
        }
        self.engine_state = EngineState::Running;
        true
    }

    /// Moves the engine to `Stopped`, for good.
    pub fn stop(&mut self)
        ensures
            final(self).engine_state == EngineState::Stopped,
            final(self).batch_size == old(self).batch_size,
    {
        self.engine_state = EngineState::Stopped;
    }

    /// The next batch: nothing once stopped, else what `next_batch` takes.
    pub fn take_batch(&self, pool: &mut TransactionPool) -> (r: Vec<TrollupTransaction>)
        ensures
            self.engine_state == EngineState::Stopped ==> r@.len() == 0 && final(pool)@ == old(pool)@,
            self.engine_state != EngineState::Stopped ==> {
                &&& final(pool)@ == old(pool)@.subrange(
                    take_count(self.batch_size, old(pool)@.len()) as int,
                    old(pool)@.len() as int,
                )
                &&& txs_view(r@) == sanitize_batch(
                    txs_view(old(pool)@.subrange(0, take_count(self.batch_size, old(pool)@.len()) as int)),
                )
            },
            all_wf(r@),
    {
        if self.engine_state == EngineState::Stopped {
            return Vec::new();
        }
        next_batch(pool, self.batch_size)
    }

    /// Queues the package of an executed batch. An empty batch queues
    /// nothing. Returns whether a package was queued.
    pub fn execute_block(
        &self,
        batch: Vec<TrollupTransaction>,
        outcomes: Vec<Option<Vec<AccountState>>>,
        commitments: &mut StateCommitmentPool,
    ) -> (queued: bool)
        requires
            batch@.len() == outcomes@.len(),
            all_wf(batch@),
        ensures
            queued == (batch@.len() > 0),
            !queued ==> final(commitments).queued() == old(commitments).queued(),
            queued ==> {
                let p = final(commitments).queued().last();
                &&& final(commitments).queued().drop_last() == old(commitments).queued()
                &&& p.transactions@ == executed_txs(batch@, outcomes@)
                &&& p.state_records@ == executed_accounts(outcomes@)
                &&& digests(p.transaction_ids@) == tx_keys(p.transactions@)
                &&& p.optimistic == any_optimistic(p.transactions@)
            },
    {
        match build_package(batch, outcomes) {
            None => false,
            Some(p) => {
                commitments.add(p);
                proof {
                    assert(commitments.queued().drop_last() =~= old(commitments).queued());
                }
                true
            },
        }
    }
}

} // verus!
