//! The state store capability: records under 32-byte keys, one slot for the
//! latest block's identifier, and a durability barrier.

use vstd::prelude::*;
use crate::merkle::opt_digest;
use crate::record::StateRecord;
use crate::block::Block;
use crate::chain::{block_linked, chain_wf};
use crate::sanitize::eq32;

verus! {

/// The store after writing `records` one after the other.
pub open spec fn put_all<R: StateRecord>(m: Map<Seq<u8>, R>, records: Seq<R>) -> Map<Seq<u8>, R>
    decreases records.len(),
{
    if records.len() == 0 {
        m
    } else {
        put_all(m, records.drop_last()).insert(records.last().spec_key(), records.last())
    }
}

/// A key-value store of records, implemented by each storage backend.
pub trait ManageState: Sized {
    type Record: StateRecord;

    /// The records the store holds, by key.
    spec fn records(&self) -> Map<Seq<u8>, Self::Record>;

    /// The identifier in the latest-block slot.
    spec fn latest_block(&self) -> Option<Seq<u8>>;

    /// A store holding nothing: no record, an empty latest-block slot. A
    /// store with contents is rebuilt from this by writing them back.
    fn empty() -> (r: Self)
        ensures
            r.records() == Map::<Seq<u8>, Self::Record>::empty(),
            r.latest_block() is None,
    ;

    /// The record under `key`.
    fn get_state_record(&self, key: &[u8; 32]) -> (r: Option<&Self::Record>)
        ensures
            match r {
                Some(x) => self.records().contains_key(key@) && self.records()[key@] == *x,
                None => !self.records().contains_key(key@),
            },
    ;

    /// Removes the record under `key` and hands it over.
    fn take_state_record(&mut self, key: &[u8; 32]) -> (r: Option<Self::Record>)
        ensures
            final(self).records() == old(self).records().remove(key@),
            final(self).latest_block() == old(self).latest_block(),
            match r {
                Some(x) => old(self).records().contains_key(key@) && old(self).records()[key@] == x,
                None => !old(self).records().contains_key(key@),
            },
    ;

    fn set_state_record(&mut self, state: Self::Record)
        requires
            state.wf(),
        ensures
            final(self).records() == old(self).records().insert(state.spec_key(), state),
            final(self).latest_block() == old(self).latest_block(),
    ;

    /// Writes all of `states`, in order, as one batch.
    fn set_state_records(&mut self, states: Vec<Self::Record>)
        requires
            crate::aggregator::all_wf(states@),
        ensures
            final(self).records() == put_all(old(self).records(), states@),
            final(self).latest_block() == old(self).latest_block(),
    ;

    fn delete_state_record(&mut self, key: &[u8; 32])
        ensures
            final(self).records() == old(self).records().remove(key@),
            final(self).latest_block() == old(self).latest_block(),
    ;

    fn set_latest_block_id(&mut self, value: &[u8; 32])
        ensures
            final(self).records() == old(self).records(),
            final(self).latest_block() == Some(value@),
    ;

    fn get_latest_block_id(&self) -> (r: Option<[u8; 32]>)
        ensures
            opt_digest(r) == self.latest_block(),
    ;

    /// Makes every earlier write survive a crash.
    fn commit(&mut self)
        ensures
            final(self).records() == old(self).records(),
            final(self).latest_block() == old(self).latest_block(),
    ;
}

/// The records of a list of writes: a later write under a key replaces an
/// earlier one.
pub open spec fn entries_map<R: StateRecord>(es: Seq<([u8; 32], R)>) -> Map<Seq<u8>, R>
    decreases es.len(),
{
    if es.len() == 0 {
        Map::empty()
    } else {
        entries_map(es.drop_last()).insert(es.last().0@, es.last().1)
    }
}

/// `es` without its writes under `key`, in order.
pub open spec fn entries_without<R: StateRecord>(es: Seq<([u8; 32], R)>, key: Seq<u8>) -> Seq<([u8; 32], R)>
    decreases es.len(),
{
    if es.len() == 0 {
        Seq::empty()
    } else if es.last().0@ == key {
        entries_without(es.drop_last(), key)
    } else {
        entries_without(es.drop_last(), key).push(es.last())
    }
}

pub proof fn lemma_entries_without<R: StateRecord>(es: Seq<([u8; 32], R)>, key: Seq<u8>)
    ensures
        entries_map(entries_without(es, key)) == entries_map(es).remove(key),
    decreases es.len(),
{
    if es.len() > 0 {
        lemma_entries_without(es.drop_last(), key);
        let w = entries_without(es.drop_last(), key);
        if es.last().0@ != key {
            assert(w.push(es.last()).drop_last() =~= w);
        }
        assert(entries_map(entries_without(es, key)) =~= entries_map(es).remove(key));
    }
}

/// The value under `key` is the last write under it.
pub proof fn lemma_entries_last<R: StateRecord>(es: Seq<([u8; 32], R)>, key: Seq<u8>, i: int)
    requires
        0 <= i < es.len(),
        es[i].0@ == key,
        forall|j: int| i < j < es.len() ==> (#[trigger] es[j]).0@ != key,
    ensures
        entries_map(es).contains_key(key),
        entries_map(es)[key] == es[i].1,
    decreases es.len(),
{
    if i < es.len() - 1 {
        let init = es.drop_last();
        assert forall|j: int| i < j < init.len() implies (#[trigger] init[j]).0@ != key by {
            assert(init[j] == es[j]);
        }
        lemma_entries_last(init, key, i);
    }
}

pub proof fn lemma_entries_absent<R: StateRecord>(es: Seq<([u8; 32], R)>, key: Seq<u8>)
    requires
        forall|j: int| 0 <= j < es.len() ==> (#[trigger] es[j]).0@ != key,
    ensures
        !entries_map(es).contains_key(key),
    decreases es.len(),
{
    if es.len() > 0 {
        let init = es.drop_last();
        assert forall|j: int| 0 <= j < init.len() implies (#[trigger] init[j]).0@ != key by {
            assert(init[j] == es[j]);
        }
        lemma_entries_absent(init, key);
        assert(es[es.len() - 1].0@ != key);
    }
}

/// A store kept in memory: the list of writes, and the latest-block slot.
/// Reads see every write at once.
pub struct MemoryStore<R: StateRecord> {
    entries: Vec<([u8; 32], R)>,
    latest: Option<[u8; 32]>,
}

impl<R: StateRecord> MemoryStore<R> {
    /// Writes `record` under `key`, whatever key the record itself names.
    pub fn set_state_record_under(&mut self, key: &[u8; 32], record: R)
        ensures
            final(self).records() == old(self).records().insert(key@, record),
            final(self).latest_block() == old(self).latest_block(),
    {
        self.entries.push((*key, record));
        assert(self.entries@.drop_last() =~= old(self).entries@);
    }

    /// The writes, oldest first; a later write under a key replaces an
    /// earlier one.
    pub fn entries(&self) -> (r: &Vec<([u8; 32], R)>)
        ensures
            entries_map(r@) == self.records(),
    {
        &self.entries
    }

    /// The last write under `key`, searching from the end.
    fn find(&self, key: &[u8; 32]) -> (r: Option<usize>)
        ensures
            match r {
                Some(i) => i < self.entries@.len() && self.entries@[i as int].0@ == key@ && forall|j: int|
                    i < j < self.entries@.len() ==> (#[trigger] self.entries@[j]).0@ != key@,
                None => forall|j: int| 0 <= j < self.entries@.len() ==> (#[trigger] self.entries@[j]).0@ != key@,
            },
    {
        let mut k: usize = self.entries.len();
        while k > 0
            invariant
                k <= self.entries@.len(),
                forall|j: int| k <= j < self.entries@.len() ==> (#[trigger] self.entries@[j]).0@ != key@,
            decreases k,
        {
            k = k - 1;
            if crate::sanitize::eq32(&self.entries[k].0, key) {
                return Some(k);
            }
        }
        None
    }

    /// Removes every write under `key`; hands over the last one.
    fn remove_key(&mut self, key: &[u8; 32]) -> (r: Option<R>)
        ensures
            final(self).entries@ == entries_without(old(self).entries@, key@),
            final(self).latest == old(self).latest,
            match r {
                Some(x) => entries_map(old(self).entries@).contains_key(key@)
                    && entries_map(old(self).entries@)[key@] == x,
                None => !entries_map(old(self).entries@).contains_key(key@),
            },
    {
        let ghost es = self.entries@;
        let mut rest: Vec<([u8; 32], R)> = Vec::new();
        std::mem::swap(&mut rest, &mut self.entries);
        let mut kept: Vec<([u8; 32], R)> = Vec::new();
        let mut found: Option<R> = None;
        let ghost done: int = 0;
        while rest.len() > 0
            invariant
                0 <= done <= es.len(),
                rest@.len() == es.len() - done,
                rest@ == es.subrange(done, es.len() as int),
                kept@ == entries_without(es.subrange(0, done), key@),
                match found {
                    Some(x) => entries_map(es.subrange(0, done)).contains_key(key@)
                        && entries_map(es.subrange(0, done))[key@] == x,
                    None => !entries_map(es.subrange(0, done)).contains_key(key@),
                },
            decreases rest@.len(),
        {
            assert(rest@[0] == es[done]);
            let e = rest.remove(0);
            proof {
                assert(es.subrange(0, done + 1).drop_last() =~= es.subrange(0, done));
                assert(es.subrange(0, done + 1).last() == e);
            }
            let (k, v) = e;
            if crate::sanitize::eq32(&k, key) {
                found = Some(v);
            } else {
                kept.push((k, v));
            }
            proof {
                done = done + 1;
                assert(rest@ =~= es.subrange(done, es.len() as int));
            }
        }
        assert(es.subrange(0, es.len() as int) =~= es);
        self.entries = kept;
        found
    }
}

impl<R: StateRecord> ManageState for MemoryStore<R> {
    type Record = R;

    closed spec fn records(&self) -> Map<Seq<u8>, R> {
        entries_map(self.entries@)
    }

    closed spec fn latest_block(&self) -> Option<Seq<u8>> {
        opt_digest(self.latest)
    }

    fn empty() -> (r: Self) {
        MemoryStore { entries: Vec::new(), latest: None }
    }

    fn get_state_record(&self, key: &[u8; 32]) -> (r: Option<&R>) {
        match self.find(key) {
            Some(i) => {
                proof {
                    lemma_entries_last(self.entries@, key@, i as int);
                }
                Some(&self.entries[i].1)
            },
            None => {
                proof {
                    lemma_entries_absent(self.entries@, key@);
                }
                None
            },
        }
    }

    fn take_state_record(&mut self, key: &[u8; 32]) -> (r: Option<R>) {
        let r = self.remove_key(key);
        proof {
            lemma_entries_without(old(self).entries@, key@);
        }
        r
    }

    fn set_state_record(&mut self, state: R) {
        let key = state.get_key();
        self.entries.push((key, state));
        assert(self.entries@.drop_last() =~= old(self).entries@);
    }

    fn set_state_records(&mut self, states: Vec<R>) {
        let ghost all = states@;
        assert(crate::aggregator::all_wf(all));
        let ghost start = self.entries@;
        let mut rest = states;
        let ghost done: int = 0;
        assert(all.subrange(0, 0) =~= Seq::<R>::empty());
        while rest.len() > 0
            invariant
                0 <= done <= all.len(),
                rest@.len() == all.len() - done,
                rest@ == all.subrange(done, all.len() as int),
                crate::aggregator::all_wf(all),
                entries_map(self.entries@) == put_all(entries_map(start), all.subrange(0, done)),
                self.latest == old(self).latest,
            decreases rest@.len(),
        {
            assert(rest@[0] == all[done]);
            let s = rest.remove(0);
            let ghost before = self.entries@;
            let key = s.get_key();
            self.entries.push((key, s));
            proof {
                assert(self.entries@.drop_last() =~= before);
                assert(all.subrange(0, done + 1).drop_last() =~= all.subrange(0, done));
                assert(all.subrange(0, done + 1).last() == all[done]);
                done = done + 1;
                assert(rest@ =~= all.subrange(done, all.len() as int));
            }
        }
        assert(all.subrange(0, all.len() as int) =~= all);
    }

    fn delete_state_record(&mut self, key: &[u8; 32]) {
        let _ = self.remove_key(key);
        proof {
            lemma_entries_without(old(self).entries@, key@);
        }
    }

    fn set_latest_block_id(&mut self, value: &[u8; 32]) {
        self.latest = Some(*value);
    }

    fn get_latest_block_id(&self) -> (r: Option<[u8; 32]>) {
        self.latest
    }

    /// Nothing is lost in memory; a program that persists the store writes
    /// `entries()` out after this call.
    fn commit(&mut self) {
    }
}

/// A store of one kind of record, over a storage backend.
pub struct StateManager<T: ManageState> {
    pub manage_state: T,
}

impl<T: ManageState> StateManager<T> {
    pub open spec fn records(&self) -> Map<Seq<u8>, T::Record> {
        self.manage_state.records()
    }

    pub open spec fn latest_block(&self) -> Option<Seq<u8>> {
        self.manage_state.latest_block()
    }

    /// An empty store: no record, an empty latest-block slot.
    pub fn new() -> (r: Self)
        ensures
            r.records() == Map::<Seq<u8>, T::Record>::empty(),
            r.latest_block() is None,
    {
        StateManager { manage_state: T::empty() }
    }

    pub fn get_state_record(&self, key: &[u8; 32]) -> (r: Option<&T::Record>)
        ensures
            match r {
                Some(x) => self.records().contains_key(key@) && self.records()[key@] == *x,
                None => !self.records().contains_key(key@),
            },
    {
        self.manage_state.get_state_record(key)
    }

    pub fn take_state_record(&mut self, key: &[u8; 32]) -> (r: Option<T::Record>)
        ensures
            final(self).records() == old(self).records().remove(key@),
            final(self).latest_block() == old(self).latest_block(),
            match r {
                Some(x) => old(self).records().contains_key(key@) && old(self).records()[key@] == x,
                None => !old(self).records().contains_key(key@),
            },
    {
        self.manage_state.take_state_record(key)
    }

    pub fn get_latest_block_id(&self) -> (r: Option<[u8; 32]>)
        ensures
            opt_digest(r) == self.latest_block(),
    {
        self.manage_state.get_latest_block_id()
    }

    pub fn set_latest_block_id(&mut self, key: &[u8; 32])
        ensures
            final(self).records() == old(self).records(),
            final(self).latest_block() == Some(key@),
    {
        self.manage_state.set_latest_block_id(key)
    }

    pub fn set_state_record(&mut self, state: T::Record)
        requires
            state.wf(),
        ensures
            final(self).records() == old(self).records().insert(state.spec_key(), state),
            final(self).latest_block() == old(self).latest_block(),
    {
        self.manage_state.set_state_record(state)
    }

    pub fn set_state_records(&mut self, states: Vec<T::Record>)
        requires
            crate::aggregator::all_wf(states@),
        ensures
            final(self).records() == put_all(old(self).records(), states@),
            final(self).latest_block() == old(self).latest_block(),
    {
        self.manage_state.set_state_records(states)
    }

    pub fn delete_state_record(&mut self, key: &[u8; 32])
        ensures
            final(self).records() == old(self).records().remove(key@),
            final(self).latest_block() == old(self).latest_block(),
    {
        self.manage_state.delete_state_record(key)
    }

    pub fn commit(&mut self)
        ensures
            final(self).records() == old(self).records(),
            final(self).latest_block() == old(self).latest_block(),
    {
        self.manage_state.commit()
    }
}

} // verus!

verus! {

/// Every key of the store is the key of some write.
pub proof fn lemma_entries_keys<R: StateRecord>(es: Seq<([u8; 32], R)>)
    ensures
        forall|k: Seq<u8>| #[trigger] entries_map(es).contains_key(k) ==> exists|i: int|
            0 <= i < es.len() && (#[trigger] es[i]).0@ == k,
    decreases es.len(),
{
    if es.len() > 0 {
        let init = es.drop_last();
        lemma_entries_keys(init);
        assert forall|k: Seq<u8>| #[trigger] entries_map(es).contains_key(k) implies exists|i: int|
            0 <= i < es.len() && (#[trigger] es[i]).0@ == k by {
            if k == es.last().0@ {
                assert(es[es.len() - 1].0@ == k);
            } else {
                assert(entries_map(init).contains_key(k));
                let i = choose|i: int| 0 <= i < init.len() && (#[trigger] init[i]).0@ == k;
                assert(es[i] == init[i]);
            }
        }
    }
}

impl MemoryStore<Block> {
    /// Whether the stored blocks form a chain: checked when a store is
    /// restored, since the finalization steps need it.
    pub fn check_chain(&self) -> (r: bool)
        ensures
            r ==> chain_wf(self.records(), self.latest_block()),
    {
        let l = match self.latest {
            None => {
                if self.entries.len() == 0 {
                    proof {
                        lemma_entries_keys(self.entries@);
                    }
                    return true;
                }
                return false;
            },
            Some(l) => l,
        };
        let top = match self.get_state_record(&l) {
            None => {
                return false;
            },
            Some(b) => b.block_number,
        };
        let ghost m = self.records();
        let mut i: usize = 0;
        while i < self.entries.len()
            invariant
                i <= self.entries@.len(),
                m == self.records(),
                m.contains_key(l@),
                m[l@].block_number == top,
                forall|j: int| 0 <= j < i ==> block_linked(m, (#[trigger] self.entries@[j]).0@)
                    && m[self.entries@[j].0@].block_number <= top,
            decreases self.entries@.len() - i,
        {
            let k = self.entries[i].0;
            let b = match self.get_state_record(&k) {
                None => {
                    return false;
                },
                Some(b) => b,
            };
            let n = b.block_number;
            if n < 1 || n > top || !eq32(&k, &Block::get_id(n)) || !eq32(&b.id, &k) {
                return false;
            }
            if n > 1 {
                let p = Block::get_id(n - 1);
                if !eq32(&b.previous_block_id, &p) {
                    return false;
                }
                match self.get_state_record(&p) {
                    None => {
                        return false;
                    },
                    Some(pb) => {
                        if pb.block_number != n - 1 {
                            return false;
                        }
                    },
                }
            }
            assert(block_linked(m, self.entries@[i as int].0@));
            i = i + 1;
        }
        proof {
            lemma_entries_keys(self.entries@);
            assert forall|k: Seq<u8>| #[trigger] m.contains_key(k) implies block_linked(m, k) && m[k].block_number
                <= m[l@].block_number by {
                let j = choose|j: int| 0 <= j < self.entries@.len() && (#[trigger] self.entries@[j]).0@ == k;
            }
        }
        true
    }
}

} // verus!
