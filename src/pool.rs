//! First-in first-out pools: pending transactions, and commitment packages
//! between execution and commitment.

use vstd::prelude::*;
use std::collections::VecDeque;
use crate::package::StateCommitmentPackage;
use crate::transaction::TrollupTransaction;

verus! {

/// How many items a request for `chunk` takes from a queue of `len`.
pub open spec fn take_count(chunk: u32, len: nat) -> nat {
    if (chunk as nat) < len { chunk as nat } else { len }
}

/// Removes up to `chunk` items from the front of `q`, in order.
fn take_front<T>(q: &mut VecDeque<T>, chunk: u32) -> (r: Vec<T>)
    ensures
        r@ == old(q)@.subrange(0, take_count(chunk, old(q)@.len()) as int),
        final(q)@ == old(q)@.subrange(take_count(chunk, old(q)@.len()) as int, old(q)@.len() as int),
{
    let ghost start = q@;
    let n: usize = if (chunk as usize) < q.len() { chunk as usize } else { q.len() };
    let mut out: Vec<T> = Vec::new();
    let mut i: usize = 0;
    while i < n
        invariant
            n == take_count(chunk, start.len()),
            i <= n,
            out@ == start.subrange(0, i as int),
            q@ == start.subrange(i as int, start.len() as int),
        decreases n - i,
    {
        match q.pop_front() {
            Some(x) => {
                out.push(x);
            },
            None => {},
        }
        assert(out@ =~= start.subrange(0, i + 1));
        assert(q@ =~= start.subrange(i + 1, start.len() as int));
        i = i + 1;
    }
    out
}

/// Transactions waiting for execution, oldest first.
pub struct TransactionPool {
    pool: VecDeque<TrollupTransaction>,
}

impl View for TransactionPool {
    type V = Seq<TrollupTransaction>;

    closed spec fn view(&self) -> Seq<TrollupTransaction> {
        self.pool@
    }
}

impl TransactionPool {
    pub fn new() -> (r: Self)
        ensures
            r@ == Seq::<TrollupTransaction>::empty(),
    {
        TransactionPool { pool: VecDeque::new() }
    }

    pub fn add_transaction(&mut self, tx: TrollupTransaction)
        ensures
            final(self)@ == old(self)@.push(tx),
    {
        self.pool.push_back(tx);
    }

    /// The oldest transaction, removed from the pool.
    pub fn get_next_transaction(&mut self) -> (r: Option<TrollupTransaction>)
        ensures
            old(self)@.len() == 0 ==> r is None && final(self)@ == old(self)@,
            old(self)@.len() > 0 ==> r == Some(old(self)@[0]) && final(self)@ == old(self)@.drop_first(),
    {
        let r = self.pool.pop_front();
        proof {
            if old(self)@.len() > 0 {
                assert(self@ =~= old(self)@.drop_first());
            }
        }
        r
    }

    pub fn pool_size(&self) -> (r: usize)
        ensures
            r == self@.len(),
    {
        self.pool.len()
    }

    /// The oldest `chunk` transactions, or all of them when fewer wait,
    /// removed from the pool in order.
    pub fn get_next_transactions(&mut self, chunk: u32) -> (r: Vec<TrollupTransaction>)
        ensures
            r@ == old(self)@.subrange(0, take_count(chunk, old(self)@.len()) as int),
            final(self)@ == old(self)@.subrange(
                take_count(chunk, old(self)@.len()) as int,
                old(self)@.len() as int,
            ),
    {
        take_front(&mut self.pool, chunk)
    }
}

/// Commitment packages waiting to be proved and anchored, oldest first.
pub struct StateCommitmentPool {
    pool: VecDeque<StateCommitmentPackage>,
}

impl View for StateCommitmentPool {
    type V = Seq<StateCommitmentPackage>;

    closed spec fn view(&self) -> Seq<StateCommitmentPackage> {
        self.pool@
    }
}

/// A first-in first-out pool of commitment packages.
pub trait StatePool: Sized {
    /// The packages waiting, oldest first.
    spec fn queued(&self) -> Seq<StateCommitmentPackage>;

    fn new() -> (r: Self)
        ensures
            r.queued() == Seq::<StateCommitmentPackage>::empty(),
    ;

    fn add(&mut self, package: StateCommitmentPackage)
        ensures
            final(self).queued() == old(self).queued().push(package),
    ;

    /// The oldest package, removed from the pool.
    fn get_next(&mut self) -> (r: Option<StateCommitmentPackage>)
        ensures
            old(self).queued().len() == 0 ==> r is None && final(self).queued() == old(self).queued(),
            old(self).queued().len() > 0 ==> r == Some(old(self).queued()[0]) && final(self).queued()
                == old(self).queued().drop_first(),
    ;

    fn pool_size(&self) -> (r: usize)
        ensures
            r == self.queued().len(),
    ;

    /// The oldest `chunk` packages, or all of them when fewer wait, removed
    /// from the pool in order.
    fn get_next_chunk(&mut self, chunk: u32) -> (r: Vec<StateCommitmentPackage>)
        ensures
            r@ == old(self).queued().subrange(0, take_count(chunk, old(self).queued().len()) as int),
            final(self).queued() == old(self).queued().subrange(
                take_count(chunk, old(self).queued().len()) as int,
                old(self).queued().len() as int,
            ),
    ;
}

impl StatePool for StateCommitmentPool {
    open spec fn queued(&self) -> Seq<StateCommitmentPackage> {
        self@
    }

    fn new() -> (r: Self) {
        StateCommitmentPool { pool: VecDeque::new() }
    }

    fn add(&mut self, package: StateCommitmentPackage) {
        self.pool.push_back(package);
    }

    fn get_next(&mut self) -> (r: Option<StateCommitmentPackage>) {
        let r = self.pool.pop_front();
        proof {
            if old(self)@.len() > 0 {
                assert(self@ =~= old(self)@.drop_first());
            }
        }
        r
    }

    fn pool_size(&self) -> (r: usize) {
        self.pool.len()
    }

    fn get_next_chunk(&mut self, chunk: u32) -> (r: Vec<StateCommitmentPackage>) {
        take_front(&mut self.pool, chunk)
    }
}

} // verus!
