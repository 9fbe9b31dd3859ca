//! The read side of the node: what the block and transaction endpoints
//! return.

use vstd::prelude::*;
use crate::account::AccountState;
use crate::block::{Block, block_id_of};
use crate::canonical::{ConversionError, Transaction, canonical_model, convert_to_trollup_transaction, signatures_normal};
use crate::pool::TransactionPool;
use crate::transaction::TransactionModel;
use crate::hash::{sha256, sha256_of};
use crate::store::{ManageState, StateManager};
use crate::transaction::TrollupTransaction;

verus! {

/// Accepts a client's transaction into the pool, optimistic or not. Refused,
/// leaving the pool as it was, when a signature is not 64 bytes long.
pub fn send_transaction(
    pool: &mut TransactionPool,
    transaction: Transaction,
    optimistic: bool,
) -> (r: Result<(), ConversionError>)
    ensures
        r is Ok <==> signatures_normal(transaction),
        r is Ok ==> {
            &&& final(pool)@.len() == old(pool)@.len() + 1
            &&& final(pool)@.drop_last() == old(pool)@
            &&& final(pool)@.last()@ == (TransactionModel { optimistic, ..canonical_model(transaction) })
        },
        r is Err ==> final(pool)@ == old(pool)@,
{
    match convert_to_trollup_transaction(transaction) {
        Err(e) => Err(e),
        Ok(mut t) => {
            t.optimistic = optimistic;
            pool.add_transaction(t);
            proof {
                assert(pool@.drop_last() =~= old(pool)@);
            }
            Ok(())
        },
    }
}

/// Looks accounts up by address.
pub struct AccountHandler<'a, A: ManageState<Record = AccountState>> {
    pub account_state_management: &'a StateManager<A>,
}

impl<'a, A: ManageState<Record = AccountState>> AccountHandler<'a, A> {
    pub fn new(account_state_management: &'a StateManager<A>) -> (r: Self)
        ensures
            r.account_state_management == account_state_management,
    {
        AccountHandler { account_state_management }
    }

    pub fn get_account(&self, address: &[u8; 32]) -> (r: Option<&'a AccountState>)
        ensures
            ({
                let accounts = self.account_state_management.records();
                match r {
                    Some(a) => accounts.contains_key(address@) && accounts[address@] == *a,
                    None => !accounts.contains_key(address@),
                }
            }),
    {
        self.account_state_management.get_state_record(address)
    }
}

/// Looks blocks up by number and follows the latest-block slot.
pub struct BlockHandler<'a, B: ManageState<Record = Block>> {
    pub block_state_management: &'a StateManager<B>,
}

impl<'a, B: ManageState<Record = Block>> BlockHandler<'a, B> {
    pub fn new(block_state_management: &'a StateManager<B>) -> (r: Self)
        ensures
            r.block_state_management == block_state_management,
    {
        BlockHandler { block_state_management }
    }

    /// Block `block_number`, stored under its identifier.
    pub fn get_block(&self, block_number: u64) -> (r: Option<&'a Block>)
        ensures
            ({
                let bs = self.block_state_management.records();
                match r {
                    Some(b) => bs.contains_key(block_id_of(block_number)) && bs[block_id_of(block_number)] == *b,
                    None => !bs.contains_key(block_id_of(block_number)),
                }
            }),
    {
        let id = Block::get_id(block_number);
        self.block_state_management.get_state_record(&id)
    }

    /// The block the latest-block slot names.
    pub fn get_latest_block(&self) -> (r: Option<&'a Block>)
        ensures
            ({
                let bs = self.block_state_management.records();
                match self.block_state_management.latest_block() {
                    None => r is None,
                    Some(l) => match r {
                        Some(b) => bs.contains_key(l) && bs[l] == *b,
                        None => !bs.contains_key(l),
                    },
                }
            }),
    {
        match self.block_state_management.get_latest_block_id() {
            None => None,
            Some(id) => self.block_state_management.get_state_record(&id),
        }
    }
}

/// Looks transactions up by signature.
pub struct TransactionHandler<'a, T: ManageState<Record = TrollupTransaction>> {
    pub transaction_state_management: &'a StateManager<T>,
}

impl<'a, T: ManageState<Record = TrollupTransaction>> TransactionHandler<'a, T> {
    pub fn new(transaction_state_management: &'a StateManager<T>) -> (r: Self)
        ensures
            r.transaction_state_management == transaction_state_management,
    {
        TransactionHandler { transaction_state_management }
    }

    /// The transaction whose first signature is `signature`: stored under
    /// the signature's SHA-256.
    pub fn get_transaction(&self, signature: &[u8; 64]) -> (r: Option<&'a TrollupTransaction>)
        ensures
            ({
                let ts = self.transaction_state_management.records();
                let key = sha256_of(signature@);
                match r {
                    Some(t) => ts.contains_key(key) && ts[key] == *t,
                    None => !ts.contains_key(key),
                }
            }),
    {
        let key = sha256(signature.as_slice());
        self.transaction_state_management.get_state_record(&key)
    }
}

} // verus!
