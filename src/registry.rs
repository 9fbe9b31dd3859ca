//! The registry of optimistic commitments waiting for an anchor on the
//! parent chain or for their timeout, and the decisions taken on its events.

use vstd::prelude::*;
use crate::sanitize::eq32;

verus! {

/// One pending optimistic commitment: its state root, when it was
/// registered (in seconds of a monotone clock), and how many direct-path
/// retries have failed.
#[derive(Clone, Copy, Debug)]
pub struct CommitmentEntry {
    pub state_root: [u8; 32],
    pub timestamp: u64,
    pub retries: u32,
}

/// `es` without the entries for `root`, in order.
pub open spec fn without(es: Seq<CommitmentEntry>, root: Seq<u8>) -> Seq<CommitmentEntry>
    decreases es.len(),
{
    if es.len() == 0 {
        Seq::empty()
    } else if es.last().state_root@ == root {
        without(es.drop_last(), root)
    } else {
        without(es.drop_last(), root).push(es.last())
    }
}

/// The latest entry of `es` for `root`.
pub open spec fn last_entry(es: Seq<CommitmentEntry>, root: Seq<u8>) -> Option<CommitmentEntry>
    decreases es.len(),
{
    if es.len() == 0 {
        None
    } else if es.last().state_root@ == root {
        Some(es.last())
    } else {
        last_entry(es.drop_last(), root)
    }
}

/// Every entry of `es` was registered at `now` or before: registration
/// times only grow.
pub open spec fn registered_by(es: Seq<CommitmentEntry>, now: u64) -> bool {
    forall|i: int| 0 <= i < es.len() ==> (#[trigger] es[i]).timestamp <= now
}

/// No two entries of `es` share a root.
pub open spec fn roots_distinct(es: Seq<CommitmentEntry>) -> bool {
    forall|i: int, j: int|
        0 <= i < j < es.len() ==> (#[trigger] es[i]).state_root@ != (#[trigger] es[j]).state_root@
}

/// `without(es, root)` holds no entry for `root`, only entries of `es`, and
/// keeps the roots of `es` distinct.
pub proof fn lemma_without(es: Seq<CommitmentEntry>, root: Seq<u8>)
    ensures
        forall|i: int| 0 <= i < without(es, root).len() ==> (#[trigger] without(es, root)[i]).state_root@ != root,
        forall|i: int| 0 <= i < without(es, root).len() ==> es.contains(#[trigger] without(es, root)[i]),
        roots_distinct(es) ==> roots_distinct(without(es, root)),
    decreases es.len(),
{
    if es.len() > 0 {
        let init = es.drop_last();
        lemma_without(init, root);
        let w = without(init, root);
        assert forall|i: int| 0 <= i < w.len() implies es.contains(#[trigger] w[i]) by {
            let k = choose|k: int| 0 <= k < init.len() && init[k] == w[i];
            assert(es[k] == init[k]);
        }
        if roots_distinct(es) {
            assert(roots_distinct(init)) by {
                assert forall|i: int, j: int| 0 <= i < j < init.len() implies (#[trigger] init[i]).state_root@
                    != (#[trigger] init[j]).state_root@ by {
                    assert(init[i] == es[i] && init[j] == es[j]);
                }
            }
            assert forall|i: int| 0 <= i < w.len() implies (#[trigger] w[i]).state_root@ != es.last().state_root@ by {
                let k = choose|k: int| 0 <= k < init.len() && init[k] == w[i];
                assert(es[k] == init[k]);
                assert(es[es.len() - 1] == es.last());
            }
        }
        if es.last().state_root@ != root {
            let wp = w.push(es.last());
            assert forall|i: int| 0 <= i < wp.len() implies es.contains(#[trigger] wp[i]) by {
                if i < w.len() {
                    assert(wp[i] == w[i]);
                } else {
                    assert(es[es.len() - 1] == wp[i]);
                }
            }
            assert forall|i: int| 0 <= i < wp.len() implies (#[trigger] wp[i]).state_root@ != root by {
                if i < w.len() {
                    assert(wp[i] == w[i]);
                }
            }
            if roots_distinct(es) {
                assert forall|i: int, j: int| 0 <= i < j < wp.len() implies (#[trigger] wp[i]).state_root@
                    != (#[trigger] wp[j]).state_root@ by {
                    if j < w.len() {
                        assert(wp[i] == w[i] && wp[j] == w[j]);
                    } else {
                        assert(wp[i] == w[i]);
                    }
                }
            }
        }
    }
}

pub proof fn lemma_last_entry(es: Seq<CommitmentEntry>, root: Seq<u8>)
    ensures
        last_entry(es, root) matches Some(e) ==> e.state_root@ == root,
    decreases es.len(),
{
    if es.len() > 0 {
        lemma_last_entry(es.drop_last(), root);
    }
}

pub proof fn lemma_push_fresh(w: Seq<CommitmentEntry>, e: CommitmentEntry)
    requires
        roots_distinct(w),
        forall|i: int| 0 <= i < w.len() ==> (#[trigger] w[i]).state_root@ != e.state_root@,
    ensures
        roots_distinct(w.push(e)),
{
    let wp = w.push(e);
    assert forall|i: int, j: int| 0 <= i < j < wp.len() implies (#[trigger] wp[i]).state_root@
        != (#[trigger] wp[j]).state_root@ by {
        assert(wp[i] == w[i]);
        if j < w.len() {
            assert(wp[j] == w[j]);
        }
    }
}

pub open spec fn has_root(es: Seq<CommitmentEntry>, root: Seq<u8>) -> bool {
    exists|i: int| 0 <= i < es.len() && (#[trigger] es[i]).state_root@ == root
}

/// The entry has waited `timeout` seconds or more at time `now`.
pub open spec fn is_expired(e: CommitmentEntry, now: u64, timeout: u64) -> bool {
    e.timestamp as int + timeout as int <= now as int
}

/// The roots of the expired entries of `es`, in order.
pub open spec fn expired(es: Seq<CommitmentEntry>, now: u64, timeout: u64) -> Seq<Seq<u8>>
    decreases es.len(),
{
    if es.len() == 0 {
        Seq::empty()
    } else if is_expired(es.last(), now, timeout) {
        expired(es.drop_last(), now, timeout).push(es.last().state_root@)
    } else {
        expired(es.drop_last(), now, timeout)
    }
}

/// Every root of `expired(es, ..)` belongs to an expired entry, and every
/// expired entry's root is among them.
pub proof fn lemma_expired_members(es: Seq<CommitmentEntry>, now: u64, timeout: u64)
    ensures
        forall|i: int|
            0 <= i < es.len() && is_expired(#[trigger] es[i], now, timeout) ==> expired(es, now, timeout).contains(
                es[i].state_root@,
            ),
        forall|r: Seq<u8>|
            #[trigger] expired(es, now, timeout).contains(r) ==> exists|i: int|
                0 <= i < es.len() && (#[trigger] es[i]).state_root@ == r && is_expired(es[i], now, timeout),
    decreases es.len(),
{
    if es.len() > 0 {
        let init = es.drop_last();
        lemma_expired_members(init, now, timeout);
        let ex = expired(es, now, timeout);
        let exi = expired(init, now, timeout);
        assert forall|i: int|
            0 <= i < es.len() && is_expired(#[trigger] es[i], now, timeout) implies ex.contains(es[i].state_root@) by {
            if i < es.len() - 1 {
                assert(init[i] == es[i]);
                assert(exi.contains(es[i].state_root@));
                let w = choose|k: int| 0 <= k < exi.len() && exi[k] == es[i].state_root@;
                if is_expired(es.last(), now, timeout) {
                    assert(ex[w] == exi[w]);
                }
            } else {
                assert(ex[ex.len() - 1] == es[i].state_root@);
            }
        }
        assert forall|r: Seq<u8>| #[trigger] ex.contains(r) implies exists|i: int|
            0 <= i < es.len() && (#[trigger] es[i]).state_root@ == r && is_expired(es[i], now, timeout) by {
            let w = choose|k: int| 0 <= k < ex.len() && ex[k] == r;
            if is_expired(es.last(), now, timeout) && w == ex.len() - 1 {
                assert(es[es.len() - 1].state_root@ == r);
            } else {
                assert(exi[w] == r);
                assert(exi.contains(r));
                let i = choose|i: int| 0 <= i < init.len() && (#[trigger] init[i]).state_root@ == r && is_expired(init[i], now, timeout);
                assert(es[i] == init[i]);
            }
        }
    }
}

/// Each pending entry is reported by the timeout scan at every time from
/// its registration plus the timeout on, so every entry that no anchor
/// resolves meets a timeout event.
pub proof fn lemma_pending_entry_times_out(es: Seq<CommitmentEntry>, i: int, now: u64, timeout: u64)
    requires
        0 <= i < es.len(),
        es[i].timestamp as int + timeout as int <= now as int,
    ensures
        expired(es, now, timeout).contains(es[i].state_root@),
{
    lemma_expired_members(es, now, timeout);
}

/// The optimistic commitments waiting for resolution, oldest first.
pub struct PendingRegistry {
    entries: Vec<CommitmentEntry>,
}

impl View for PendingRegistry {
    type V = Seq<CommitmentEntry>;

    closed spec fn view(&self) -> Seq<CommitmentEntry> {
        self.entries@
    }
}

impl PendingRegistry {
    pub fn new() -> (r: Self)
        ensures
            r@ == Seq::<CommitmentEntry>::empty(),
            roots_distinct(r@),
    {
        PendingRegistry { entries: Vec::new() }
    }

    pub fn len(&self) -> (r: usize)
        ensures
            r == self@.len(),
    {
        self.entries.len()
    }

    /// The latest entry for `root`, if one is pending.
    pub fn get(&self, root: &[u8; 32]) -> (r: Option<CommitmentEntry>)
        ensures
            r == last_entry(self@, root@),
    {
        let ghost es = self@;
        let mut k: usize = self.entries.len();
        assert(es.subrange(0, k as int) =~= es);
        while k > 0
            invariant
                k <= es.len(),
                self@ == es,
                last_entry(es, root@) == last_entry(es.subrange(0, k as int), root@),
            decreases k,
        {
            let e = self.entries[k - 1];
            assert(es.subrange(0, k as int).drop_last() =~= es.subrange(0, k - 1));
            assert(es.subrange(0, k as int).last() == e);
            if eq32(&e.state_root, root) {
                return Some(e);
            }
            k = k - 1;
        }
        None
    }

    /// Removes every entry for `root`.
    pub fn remove(&mut self, root: &[u8; 32])
        ensures
            final(self)@ == without(old(self)@, root@),
            roots_distinct(old(self)@) ==> roots_distinct(final(self)@),
    {
        proof {
            lemma_without(old(self)@, root@);
        }
        let ghost es = self@;
        let mut kept: Vec<CommitmentEntry> = Vec::new();
        let mut i: usize = 0;
        while i < self.entries.len()
            invariant
                i <= es.len(),
                self@ == es,
                kept@ == without(es.subrange(0, i as int), root@),
            decreases es.len() - i,
        {
            let e = self.entries[i];
            assert(es.subrange(0, i + 1).drop_last() =~= es.subrange(0, i as int));
            assert(es.subrange(0, i + 1).last() == e);
            if !eq32(&e.state_root, root) {
                kept.push(e);
            }
            i = i + 1;
        }
        assert(es.subrange(0, es.len() as int) =~= es);
        self.entries = kept;
    }

    /// Registers `root` at time `now`, replacing an earlier entry for it.
    pub fn add(&mut self, root: [u8; 32], now: u64)
        ensures
            final(self)@ == without(old(self)@, root@).push(
                CommitmentEntry { state_root: root, timestamp: now, retries: 0 },
            ),
            roots_distinct(old(self)@) ==> roots_distinct(final(self)@),
            registered_by(old(self)@, now) ==> registered_by(final(self)@, now),
    {
        proof {
            lemma_without(old(self)@, root@);
            let w = without(old(self)@, root@);
            assert forall|i: int| 0 <= i < w.len() implies (#[trigger] w[i]).timestamp <= now
                || !registered_by(old(self)@, now) by {
                if registered_by(old(self)@, now) {
                    assert(old(self)@.contains(w[i]));
                }
            }
        }
        self.remove(&root);
        self.entries.push(CommitmentEntry { state_root: root, timestamp: now, retries: 0 });
    }

    /// Whether every entry was registered at `now` or before.
    pub fn all_registered_by(&self, now: u64) -> (r: bool)
        ensures
            r == registered_by(self@, now),
    {
        let mut i: usize = 0;
        while i < self.entries.len()
            invariant
                i <= self@.len(),
                forall|k: int| 0 <= k < i ==> (#[trigger] self@[k]).timestamp <= now,
            decreases self@.len() - i,
        {
            if self.entries[i].timestamp > now {
                return false;
            }
            i = i + 1;
        }
        true
    }

    /// The roots of the entries that have waited `timeout` seconds or more
    /// at time `now`, oldest first.
    pub fn expired_roots(&self, now: u64, timeout: u64) -> (r: Vec<[u8; 32]>)
        ensures
            crate::merkle::digests(r@) == expired(self@, now, timeout),
    {
        let ghost es = self@;
        let mut out: Vec<[u8; 32]> = Vec::new();
        let mut i: usize = 0;
        while i < self.entries.len()
            invariant
                i <= es.len(),
                self@ == es,
                crate::merkle::digests(out@) == expired(es.subrange(0, i as int), now, timeout),
            decreases es.len() - i,
        {
            let e = self.entries[i];
            assert(es.subrange(0, i + 1).drop_last() =~= es.subrange(0, i as int));
            assert(es.subrange(0, i + 1).last() == e);
            let ghost prev = out@;
            if e.timestamp as u128 + timeout as u128 <= now as u128 {
                out.push(e.state_root);
                assert(crate::merkle::digests(out@) =~= crate::merkle::digests(prev).push(e.state_root@));
            }
            i = i + 1;
        }
        assert(es.subrange(0, es.len() as int) =~= es);
        out
    }

    /// Counts one more failed retry for `root`; drops the entry once
    /// `max_retries` retries have failed. Returns whether it was dropped.
    pub fn record_failed_retry(&mut self, root: &[u8; 32], max_retries: u32) -> (dropped: bool)
        ensures
            roots_distinct(old(self)@) ==> roots_distinct(final(self)@),
            match last_entry(old(self)@, root@) {
                None => !dropped && final(self)@ == old(self)@,
                Some(e) => {
                    &&& dropped == (e.retries as int + 1 >= max_retries as int)
                    &&& dropped ==> final(self)@ == without(old(self)@, root@)
                    &&& !dropped ==> final(self)@ == without(old(self)@, root@).push(
                        CommitmentEntry { retries: (e.retries + 1) as u32, ..e },
                    )
                },
            },
    {
        proof {
            lemma_without(old(self)@, root@);
        }
        match self.get(root) {
            None => false,
            Some(e) => {
                let retries: u32 = if e.retries == u32::MAX { u32::MAX } else { e.retries + 1 };
                self.remove(root);
                if retries as u64 >= max_retries as u64 || e.retries == u32::MAX {
                    true
                } else {
                    let ghost w = self@;
                    self.entries.push(CommitmentEntry { retries, ..e });
                    proof {
                        lemma_last_entry(old(self)@, root@);
                        if roots_distinct(old(self)@) {
                            lemma_push_fresh(w, CommitmentEntry { retries, ..e });
                        }
                    }
                    false
                }
            },
        }
    }
}

} // verus!
