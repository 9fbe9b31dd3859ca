//! The Merkle aggregator: an account tree and a transaction tree whose new
//! leaves are staged, and then either committed or dropped. The trees are
//! kept here as leaf lists over `merkle`: rs_merkle's staged tree carries an
//! odd last node up to the next level unpaired, where these trees pair it
//! with itself.

use vstd::prelude::*;
use crate::account::AccountState;
use crate::hash::{sha256, sha256_of};
use crate::merkle::{compute_root, digests, merkle_root, opt_digest};
use crate::record::StateRecord;
use crate::sanitize::eq32;
use crate::transaction::TrollupTransaction;

verus! {

/// The leaf of a record: SHA-256 of its canonical bytes.
pub open spec fn record_leaves<R: StateRecord>(rs: Seq<R>) -> Seq<Seq<u8>> {
    Seq::new(rs.len(), |i: int| sha256_of(rs[i].spec_bytes()))
}

pub open spec fn all_wf<R: StateRecord>(rs: Seq<R>) -> bool {
    forall|i: int| 0 <= i < rs.len() ==> (#[trigger] rs[i]).wf()
}

/// The leaves of `records`, in order.
pub fn leaves_of<R: StateRecord>(records: &Vec<R>) -> (r: Vec<[u8; 32]>)
    requires
        all_wf(records@),
    ensures
        digests(r@) == record_leaves(records@),
{
    let mut out: Vec<[u8; 32]> = Vec::new();
    let mut i: usize = 0;
    while i < records.len()
        invariant
            i <= records@.len(),
            all_wf(records@),
            out@.len() == i,
            forall|k: int| 0 <= k < i ==> #[trigger] out@[k]@ == sha256_of(records@[k].spec_bytes()),
        decreases records@.len() - i,
    {
        let bytes = records[i].to_bytes();
        out.push(sha256(bytes.as_slice()));
        i = i + 1;
    }
    assert(digests(out@) =~= record_leaves(records@));
    out
}

/// What the aggregator holds: committed and staged leaves of both trees, and
/// the key of each account leaf.
pub struct TreeModel {
    pub accounts: Seq<Seq<u8>>,
    pub staged_accounts: Seq<Seq<u8>>,
    pub account_keys: Seq<Seq<u8>>,
    pub staged_account_keys: Seq<Seq<u8>>,
    pub transactions: Seq<Seq<u8>>,
    pub staged_transactions: Seq<Seq<u8>>,
}

pub open spec fn model_stage_accounts(m: TreeModel, leaves: Seq<Seq<u8>>, keys: Seq<Seq<u8>>) -> TreeModel {
    TreeModel {
        staged_accounts: m.staged_accounts + leaves,
        staged_account_keys: m.staged_account_keys + keys,
        ..m
    }
}

pub open spec fn model_stage_transactions(m: TreeModel, leaves: Seq<Seq<u8>>) -> TreeModel {
    TreeModel { staged_transactions: m.staged_transactions + leaves, ..m }
}

pub open spec fn model_commit(m: TreeModel) -> TreeModel {
    TreeModel {
        accounts: m.accounts + m.staged_accounts,
        staged_accounts: Seq::empty(),
        account_keys: m.account_keys + m.staged_account_keys,
        staged_account_keys: Seq::empty(),
        transactions: m.transactions + m.staged_transactions,
        staged_transactions: Seq::empty(),
    }
}

pub open spec fn model_abort(m: TreeModel) -> TreeModel {
    TreeModel {
        staged_accounts: Seq::empty(),
        staged_account_keys: Seq::empty(),
        staged_transactions: Seq::empty(),
        ..m
    }
}

pub open spec fn committed_accounts_root(m: TreeModel) -> Option<Seq<u8>> {
    merkle_root(m.accounts)
}

pub open spec fn uncommitted_accounts_root(m: TreeModel) -> Option<Seq<u8>> {
    merkle_root(m.accounts + m.staged_accounts)
}

pub open spec fn committed_transactions_root(m: TreeModel) -> Option<Seq<u8>> {
    merkle_root(m.transactions)
}

pub open spec fn uncommitted_transactions_root(m: TreeModel) -> Option<Seq<u8>> {
    merkle_root(m.transactions + m.staged_transactions)
}

/// Committing after staging makes the committed root what the uncommitted
/// root was, the root recomputed over all the leaves in order.
pub proof fn lemma_commit_publishes_uncommitted_root(m: TreeModel)
    ensures
        committed_accounts_root(model_commit(m)) == uncommitted_accounts_root(m),
        committed_accounts_root(model_commit(m)) == merkle_root(m.accounts + m.staged_accounts),
        committed_transactions_root(model_commit(m)) == uncommitted_transactions_root(m),
        committed_transactions_root(model_commit(m)) == merkle_root(
            m.transactions + m.staged_transactions,
        ),
        uncommitted_accounts_root(model_commit(m)) == uncommitted_accounts_root(m),
{
    assert(model_commit(m).accounts + Seq::<Seq<u8>>::empty() =~= model_commit(m).accounts);
}

/// Dropping what was staged leaves the committed roots as they were, and
/// the uncommitted roots equal to them.
pub proof fn lemma_abort_keeps_committed_root(m: TreeModel)
    ensures
        committed_accounts_root(model_abort(m)) == committed_accounts_root(m),
        committed_transactions_root(model_abort(m)) == committed_transactions_root(m),
        uncommitted_accounts_root(model_abort(m)) == committed_accounts_root(m),
        uncommitted_transactions_root(model_abort(m)) == committed_transactions_root(m),
{
    assert(m.accounts + Seq::<Seq<u8>>::empty() =~= m.accounts);
    assert(m.transactions + Seq::<Seq<u8>>::empty() =~= m.transactions);
}

/// Appends `b` to `a`.
fn extend(a: &mut Vec<[u8; 32]>, b: &Vec<[u8; 32]>)
    ensures
        digests(final(a)@) == digests(old(a)@) + digests(b@),
{
    let ghost start = digests(a@);
    let mut i: usize = 0;
    while i < b.len()
        invariant
            i <= b@.len(),
            digests(a@) == start + digests(b@).subrange(0, i as int),
        decreases b@.len() - i,
    {
        let ghost prev = a@;
        a.push(b[i]);
        assert(a@ == prev.push(b@[i as int]));
        assert(digests(a@) =~= digests(prev).push(b@[i as int]@));
        assert(digests(b@).subrange(0, i + 1) =~= digests(b@).subrange(0, i as int).push(b@[i as int]@));
        assert(digests(a@) =~= start + digests(b@).subrange(0, i + 1));
        i = i + 1;
    }
    assert(digests(b@).subrange(0, b@.len() as int) =~= digests(b@));
}

/// Two Merkle trees, over account records and over transactions, with
/// staged insertions.
pub struct TreeComposite {
    accounts: Vec<[u8; 32]>,
    staged_accounts: Vec<[u8; 32]>,
    account_keys: Vec<[u8; 32]>,
    staged_account_keys: Vec<[u8; 32]>,
    transactions: Vec<[u8; 32]>,
    staged_transactions: Vec<[u8; 32]>,
}

impl View for TreeComposite {
    type V = TreeModel;

    closed spec fn view(&self) -> TreeModel {
        TreeModel {
            accounts: digests(self.accounts@),
            staged_accounts: digests(self.staged_accounts@),
            account_keys: digests(self.account_keys@),
            staged_account_keys: digests(self.staged_account_keys@),
            transactions: digests(self.transactions@),
            staged_transactions: digests(self.staged_transactions@),
        }
    }
}

pub open spec fn account_keys_of(rs: Seq<AccountState>) -> Seq<Seq<u8>> {
    Seq::new(rs.len(), |i: int| rs[i].address@)
}

impl TreeComposite {
    pub fn new() -> (r: Self)
        ensures
            r@.accounts.len() == 0,
            r@.staged_accounts.len() == 0,
            r@.account_keys.len() == 0,
            r@.staged_account_keys.len() == 0,
            r@.transactions.len() == 0,
            r@.staged_transactions.len() == 0,
    {
        TreeComposite {
            accounts: Vec::new(),
            staged_accounts: Vec::new(),
            account_keys: Vec::new(),
            staged_account_keys: Vec::new(),
            transactions: Vec::new(),
            staged_transactions: Vec::new(),
        }
    }

    /// Stages a leaf for each account, in order.
    pub fn add_states(&mut self, state_records: &Vec<AccountState>)
        requires
            all_wf(state_records@),
        ensures
            final(self)@ == model_stage_accounts(
                old(self)@,
                record_leaves(state_records@),
                account_keys_of(state_records@),
            ),
    {
        let leaves = leaves_of(state_records);
        extend(&mut self.staged_accounts, &leaves);
        let mut keys: Vec<[u8; 32]> = Vec::new();
        let mut i: usize = 0;
        while i < state_records.len()
            invariant
                i <= state_records@.len(),
                digests(keys@) == account_keys_of(state_records@).subrange(0, i as int),
            decreases state_records@.len() - i,
        {
            let ghost prev = keys@;
            keys.push(state_records[i].address);
            assert(digests(keys@) =~= digests(prev).push(state_records@[i as int].address@));
            assert(account_keys_of(state_records@).subrange(0, i + 1) =~= account_keys_of(
                state_records@,
            ).subrange(0, i as int).push(state_records@[i as int].address@));
            i = i + 1;
        }
        assert(account_keys_of(state_records@).subrange(0, state_records@.len() as int)
            =~= account_keys_of(state_records@));
        extend(&mut self.staged_account_keys, &keys);
        assert(self@ =~= model_stage_accounts(
            old(self)@,
            record_leaves(state_records@),
            account_keys_of(state_records@),
        ));
    }

    /// Stages a leaf for each transaction, in order.
    pub fn add_transactions(&mut self, transactions: &Vec<TrollupTransaction>)
        requires
            all_wf(transactions@),
        ensures
            final(self)@ == model_stage_transactions(old(self)@, record_leaves(transactions@)),
    {
        let leaves = leaves_of(transactions);
        extend(&mut self.staged_transactions, &leaves);
        assert(self@ =~= model_stage_transactions(old(self)@, record_leaves(transactions@)));
    }

    /// Where the latest leaf of the account with key `id` stands among all
    /// account leaves, committed then staged.
    pub fn get_leaf_index(&self, id: &[u8; 32]) -> (r: Option<usize>)
        ensures
            ({
                let keys = self@.account_keys + self@.staged_account_keys;
                match r {
                    Some(i) => i < keys.len() && keys[i as int] == id@ && forall|j: int|
                        i < j < keys.len() ==> keys[j] != id@,
                    None => forall|j: int| 0 <= j < keys.len() ==> keys[j] != id@,
                }
            }),
    {
        let mut all: Vec<[u8; 32]> = Vec::new();
        extend(&mut all, &self.account_keys);
        extend(&mut all, &self.staged_account_keys);
        assert(digests(Seq::<[u8; 32]>::empty()) =~= Seq::<Seq<u8>>::empty());
        assert(Seq::<Seq<u8>>::empty() + self@.account_keys =~= self@.account_keys);
        let ghost keys = digests(all@);
        assert(keys == self@.account_keys + self@.staged_account_keys);
        let mut k: usize = all.len();
        while k > 0
            invariant
                k <= all@.len(),
                keys == digests(all@),
                keys == self@.account_keys + self@.staged_account_keys,
                forall|j: int| k <= j < keys.len() ==> keys[j] != id@,
            decreases k,
        {
            k = k - 1;
            assert(keys[k as int] == all@[k as int]@);
            if eq32(&all[k], id) {
                return Some(k);
            }
        }
        None
    }

    /// The committed account root.
    pub fn get_root(&self) -> (r: Option<[u8; 32]>)
        ensures
            opt_digest(r) == committed_accounts_root(self@),
    {
        compute_root(&self.accounts)
    }

    /// The account root there would be if the staged leaves were committed.
    pub fn get_uncommitted_root(&self) -> (r: Option<[u8; 32]>)
        ensures
            opt_digest(r) == uncommitted_accounts_root(self@),
    {
        let mut all: Vec<[u8; 32]> = Vec::new();
        extend(&mut all, &self.accounts);
        extend(&mut all, &self.staged_accounts);
        assert(digests(Seq::<[u8; 32]>::empty()) =~= Seq::<Seq<u8>>::empty());
        assert(Seq::<Seq<u8>>::empty() + self@.accounts =~= self@.accounts);
        compute_root(&all)
    }

    /// The committed transaction root.
    pub fn get_transactions_root(&self) -> (r: Option<[u8; 32]>)
        ensures
            opt_digest(r) == committed_transactions_root(self@),
    {
        compute_root(&self.transactions)
    }

    /// The transaction root there would be if the staged leaves were committed.
    pub fn get_uncommitted_transactions_root(&self) -> (r: Option<[u8; 32]>)
        ensures
            opt_digest(r) == uncommitted_transactions_root(self@),
    {
        let mut all: Vec<[u8; 32]> = Vec::new();
        extend(&mut all, &self.transactions);
        extend(&mut all, &self.staged_transactions);
        assert(digests(Seq::<[u8; 32]>::empty()) =~= Seq::<Seq<u8>>::empty());
        assert(Seq::<Seq<u8>>::empty() + self@.transactions =~= self@.transactions);
        compute_root(&all)
    }

    /// Makes the staged leaves of both trees part of them.
    pub fn commit(&mut self)
        ensures
            final(self)@ == model_commit(old(self)@),
    {
        let mut sa: Vec<[u8; 32]> = Vec::new();
        std::mem::swap(&mut sa, &mut self.staged_accounts);
        extend(&mut self.accounts, &sa);
        let mut sk: Vec<[u8; 32]> = Vec::new();
        std::mem::swap(&mut sk, &mut self.staged_account_keys);
        extend(&mut self.account_keys, &sk);
        let mut st: Vec<[u8; 32]> = Vec::new();
        std::mem::swap(&mut st, &mut self.staged_transactions);
        extend(&mut self.transactions, &st);
        assert(digests(Seq::<[u8; 32]>::empty()) =~= Seq::<Seq<u8>>::empty());
        assert(self@ =~= model_commit(old(self)@));
    }

    /// Drops the staged leaves of both trees.
    pub fn abort_uncommitted(&mut self)
        ensures
            final(self)@ == model_abort(old(self)@),
    {
        self.staged_accounts = Vec::new();
        self.staged_account_keys = Vec::new();
        self.staged_transactions = Vec::new();
        assert(digests(Seq::<[u8; 32]>::empty()) =~= Seq::<Seq<u8>>::empty());
        assert(self@ =~= model_abort(old(self)@));
    }
}

} // verus!
