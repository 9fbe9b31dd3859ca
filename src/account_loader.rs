//! How the executor's account lookups are answered: the loader's cache, then
//! the account store, then the parent chain for listed programs, and
//! otherwise a fresh funded account. Every answer is remembered.

use vstd::prelude::*;
use vstd::slice::slice_to_vec;
use crate::account::{AccountModel, AccountState};
use crate::store::{ManageState, MemoryStore, StateManager};

verus! {

/// The balance a fresh account starts with.
pub const DEFAULT_LAMPORTS: u64 = 10_000_000_000_000;

/// A fresh account under `key`: funded, with no data, and owned by the
/// system program, whose own address is 32 zero bytes.
pub open spec fn default_account(key: Seq<u8>) -> AccountModel {
    AccountModel {
        address: key,
        lamports: DEFAULT_LAMPORTS,
        data: Seq::empty(),
        owner: Seq::new(32, |i: int| 0u8),
        executable: false,
        rent_epoch: 0,
    }
}

impl AccountState {
    /// A copy of the account.
    pub fn duplicate(&self) -> (r: AccountState)
        ensures
            r@ == self@,
    {
        AccountState {
            address: self.address,
            lamports: self.lamports,
            data: slice_to_vec(self.data.as_slice()),
            owner: self.owner,
            executable: self.executable,
            rent_epoch: self.rent_epoch,
        }
    }
}

/// Answers account lookups for the executor and remembers each answer.
pub struct TrollupAccountLoader {
    cache: MemoryStore<AccountState>,
    program_ids: Vec<[u8; 32]>,
}

/// What a lookup of `key` answers, given the cache, the store, whether
/// `key` is a listed program, and what the parent chain gave for it.
pub open spec fn resolved(
    cached: Map<Seq<u8>, AccountState>,
    stored: Map<Seq<u8>, AccountState>,
    key: Seq<u8>,
    program: bool,
    fetched: Option<AccountModel>,
) -> AccountModel {
    if cached.contains_key(key) {
        cached[key]@
    } else if stored.contains_key(key) {
        stored[key]@
    } else if program && fetched is Some {
        fetched.unwrap()
    } else {
        default_account(key)
    }
}

pub open spec fn opt_account(o: Option<AccountState>) -> Option<AccountModel> {
    match o {
        Some(a) => Some(a@),
        None => None,
    }
}

impl TrollupAccountLoader {
    pub closed spec fn cached(&self) -> Map<Seq<u8>, AccountState> {
        self.cache.records()
    }

    pub closed spec fn programs(&self) -> Seq<[u8; 32]> {
        self.program_ids@
    }

    pub open spec fn is_program_spec(&self, key: Seq<u8>) -> bool {
        exists|i: int| 0 <= i < self.programs().len() && (#[trigger] self.programs()[i])@ == key
    }

    pub fn new(program_ids: Vec<[u8; 32]>) -> (r: Self)
        ensures
            r.cached() == Map::<Seq<u8>, AccountState>::empty(),
            r.programs() == program_ids@,
    {
        TrollupAccountLoader { cache: MemoryStore::empty(), program_ids }
    }

    pub fn is_program(&self, key: &[u8; 32]) -> (r: bool)
        ensures
            r == self.is_program_spec(key@),
    {
        let mut i: usize = 0;
        while i < self.program_ids.len()
            invariant
                i <= self.programs().len(),
                self.programs() == self.program_ids@,
                forall|k: int| 0 <= k < i ==> (#[trigger] self.programs()[k])@ != key@,
            decreases self.programs().len() - i,
        {
            if crate::sanitize::eq32(&self.program_ids[i], key) {
                return true;
            }
            i = i + 1;
        }
        false
    }

    /// Whether answering `key` needs the parent chain: it is a listed
    /// program that neither the cache nor the store holds.
    pub fn needs_fetch<A: ManageState<Record = AccountState>>(&self, store: &StateManager<A>, key: &[u8; 32]) -> (r: bool)
        ensures
            r == (!self.cached().contains_key(key@) && !store.records().contains_key(key@)
                && self.is_program_spec(key@)),
    {
        if self.cache.get_state_record(key).is_some() {
            return false;
        }
        if store.get_state_record(key).is_some() {
            return false;
        }
        self.is_program(key)
    }

    /// The account under `key`, looked up in order and remembered.
    /// `fetched` is what the parent chain gave for it, when `needs_fetch`
    /// said so.
    pub fn get_account_shared_data<A: ManageState<Record = AccountState>>(
        &mut self,
        store: &StateManager<A>,
        key: &[u8; 32],
        fetched: Option<AccountState>,
    ) -> (r: AccountState)
        ensures
            r@ == resolved(old(self).cached(), store.records(), key@, old(self).is_program_spec(key@), opt_account(fetched)),
            old(self).cached().contains_key(key@) ==> final(self).cached() == old(self).cached(),
            !old(self).cached().contains_key(key@) ==> exists|d: AccountState|
                d@ == r@ && final(self).cached() == old(self).cached().insert(key@, d),
            final(self).programs() == old(self).programs(),
    {
        match self.cache.get_state_record(key) {
            Some(a) => {
                return a.duplicate();
            },
            None => {},
        }
        let zero = [0u8; 32];
        assert(zero@ =~= default_account(key@).owner);
        let found: AccountState = match store.get_state_record(key) {
            Some(a) => a.duplicate(),
            None => {
                let program = self.is_program(key);
                match fetched {
                    Some(f) => if program {
                        f
                    } else {
                        AccountState {
                            address: *key,
                            lamports: DEFAULT_LAMPORTS,
                            data: Vec::new(),
                            owner: zero,
                            executable: false,
                            rent_epoch: 0,
                        }
                    },
                    None => AccountState {
                        address: *key,
                        lamports: DEFAULT_LAMPORTS,
                        data: Vec::new(),
                        owner: zero,
                        executable: false,
                        rent_epoch: 0,
                    },
                }
            },
        };
        let kept = found.duplicate();
        self.cache.set_state_record_under(key, kept);
        found
    }
}

} // verus!
