//! Structural checks on transactions before execution, and the batch they
//! leave.

use vstd::prelude::*;
use crate::codec::{MAX_LEN, all_len, sigs_view};
use crate::merkle::digests;
use crate::record::StateRecord;
use crate::transaction::{TransactionModel, TrollupTransaction, instruction_model_wf, transaction_model_wf};

verus! {

/// The header counts and every index of `t` are consistent, and its account
/// keys are distinct: at least one signature, no fewer signatures than
/// required and no more than there are accounts, the read-only counts in
/// range, every instruction's program index within the keys and not the fee
/// payer's, every account index within the keys.
pub open spec fn is_sanitized(t: TransactionModel) -> bool {
    let h = t.message.header;
    let nkeys = t.message.account_keys.len();
    let nsig = t.signatures.len();
    &&& nsig >= 1
    &&& h[0] as nat <= nsig
    &&& nsig <= nkeys
    &&& h[0] as nat + h[2] as nat <= nkeys
    &&& h[1] < h[0]
    &&& forall|i: int|
        0 <= i < t.message.instructions.len() ==> {
            let ix = #[trigger] t.message.instructions[i];
            &&& 0 < ix.program_id_index
            &&& (ix.program_id_index as nat) < nkeys
            &&& forall|j: int| 0 <= j < ix.accounts.len() ==> ((#[trigger] ix.accounts[j]) as nat) < nkeys
        }
    &&& forall|a: int, b: int|
        0 <= a < b < nkeys ==> #[trigger] t.message.account_keys[a]
            != #[trigger] t.message.account_keys[b]
}

pub fn eq32(a: &[u8; 32], b: &[u8; 32]) -> (r: bool)
    ensures
        r == (a@ == b@),
{
    let mut i: usize = 0;
    while i < 32
        invariant
            i <= 32,
            forall|k: int| 0 <= k < i ==> a@[k] == b@[k],
        decreases 32 - i,
    {
        if a[i] != b[i] {
            return false;
        }
        i = i + 1;
    }
    assert(a@ =~= b@);
    true
}

pub fn eq64(a: &[u8; 64], b: &[u8; 64]) -> (r: bool)
    ensures
        r == (a@ == b@),
{
    let mut i: usize = 0;
    while i < 64
        invariant
            i <= 64,
            forall|k: int| 0 <= k < i ==> a@[k] == b@[k],
        decreases 64 - i,
    {
        if a[i] != b[i] {
            return false;
        }
        i = i + 1;
    }
    assert(a@ =~= b@);
    true
}

impl TrollupTransaction {
    /// Whether the transaction passes the structural checks.
    pub fn sanitize(&self) -> (r: bool)
        ensures
            r == is_sanitized(self@),
    {
        let m = &self.message;
        let nkeys = m.account_keys.len();
        let nsig = self.signatures.len();
        let h0 = m.header[0] as usize;
        let h1 = m.header[1];
        let h2 = m.header[2] as usize;
        if nsig < 1 || h0 > nsig || nsig > nkeys || h0 + h2 > nkeys || h1 >= m.header[0] {
            return false;
        }
        let mut i: usize = 0;
        while i < m.instructions.len()
            invariant
                i <= m.instructions@.len(),
                nkeys == m.account_keys@.len(),
                *m == self.message,
                forall|k: int|
                    0 <= k < i ==> {
                        let ix = #[trigger] self@.message.instructions[k];
                        &&& 0 < ix.program_id_index
                        &&& (ix.program_id_index as nat) < nkeys
                        &&& forall|j: int|
                            0 <= j < ix.accounts.len() ==> ((#[trigger] ix.accounts[j]) as nat) < nkeys
                    },
            decreases m.instructions@.len() - i,
        {
            let ix = &m.instructions[i];
            assert(self@.message.instructions[i as int] == ix@);
            if ix.program_id_index == 0 || ix.program_id_index as usize >= nkeys {
                return false;
            }
            let mut j: usize = 0;
            while j < ix.accounts.len()
                invariant
                    j <= ix.accounts@.len(),
                    ix@ == self@.message.instructions[i as int],
                    i < self@.message.instructions.len(),
                    nkeys == self@.message.account_keys.len(),
                    forall|q: int| 0 <= q < j ==> ((#[trigger] ix.accounts@[q]) as nat) < nkeys,
                decreases ix.accounts@.len() - j,
            {
                if ix.accounts[j] as usize >= nkeys {
                    assert(self@.message.instructions[i as int].accounts[j as int] as nat >= nkeys);
                    return false;
                }
                j = j + 1;
            }
            i = i + 1;
        }
        let mut a: usize = 0;
        while a < nkeys
            invariant
                a <= nkeys,
                nkeys == m.account_keys@.len(),
                *m == self.message,
                forall|x: int, y: int|
                    0 <= x < a && x < y < nkeys ==> #[trigger] self@.message.account_keys[x]
                        != #[trigger] self@.message.account_keys[y],
            decreases nkeys - a,
        {
            let mut b: usize = a + 1;
            while b < nkeys
                invariant
                    a < b <= nkeys,
                    nkeys == m.account_keys@.len(),
                    *m == self.message,
                    forall|x: int, y: int|
                        0 <= x < a && x < y < nkeys ==> #[trigger] self@.message.account_keys[x]
                            != #[trigger] self@.message.account_keys[y],
                    forall|y: int|
                        a < y < b ==> self@.message.account_keys[a as int]
                            != #[trigger] self@.message.account_keys[y],
                decreases nkeys - b,
            {
                assert(self@.message.account_keys[a as int] == m.account_keys@[a as int]@);
                assert(self@.message.account_keys[b as int] == m.account_keys@[b as int]@);
                if eq32(&m.account_keys[a], &m.account_keys[b]) {
                    return false;
                }
                b = b + 1;
            }
            a = a + 1;
        }
        true
    }
}

impl TrollupTransaction {
    /// Whether every length of the transaction fits its 32-bit prefix.
    pub fn encodable(&self) -> (r: bool)
        ensures
            r == transaction_model_wf(self@),
    {
        let m = &self.message;
        assert(all_len(sigs_view(self.signatures@), 64));
        assert(all_len(digests(m.account_keys@), 32));
        if self.signatures.len() > MAX_LEN || m.account_keys.len() > MAX_LEN || m.instructions.len() > MAX_LEN {
            return false;
        }
        let mut i: usize = 0;
        while i < m.instructions.len()
            invariant
                i <= m.instructions@.len(),
                *m == self.message,
                forall|k: int| 0 <= k < i ==> #[trigger] instruction_model_wf(self@.message.instructions[k]),
            decreases m.instructions@.len() - i,
        {
            assert(self@.message.instructions[i as int] == m.instructions@[i as int]@);
            if m.instructions[i].accounts.len() > MAX_LEN || m.instructions[i].data.len() > MAX_LEN {
                assert(!instruction_model_wf(self@.message.instructions[i as int]));
                return false;
            }
            i = i + 1;
        }
        true
    }
}

/// Some transaction of `kept` has `sig` as its first signature.
pub open spec fn signature_taken(kept: Seq<TransactionModel>, sig: Seq<u8>) -> bool {
    exists|i: int| 0 <= i < kept.len() && (#[trigger] kept[i]).signatures[0] == sig
}

/// The transactions of `ts` that pass the checks, in order, each dropped
/// whose first signature an earlier kept one already has.
pub open spec fn sanitize_batch(ts: Seq<TransactionModel>) -> Seq<TransactionModel>
    decreases ts.len(),
{
    if ts.len() == 0 {
        Seq::empty()
    } else {
        let kept = sanitize_batch(ts.drop_last());
        let t = ts.last();
        if is_sanitized(t) && transaction_model_wf(t) && !signature_taken(kept, t.signatures[0]) {
            kept.push(t)
        } else {
            kept
        }
    }
}

pub open spec fn txs_view(v: Seq<TrollupTransaction>) -> Seq<TransactionModel> {
    Seq::new(v.len(), |i: int| v[i]@)
}

/// Keeps the transactions that pass the structural checks and can be
/// written, in order; of two with the same first signature only the
/// earlier is kept.
pub fn batch_sanitize_transactions(transactions: Vec<TrollupTransaction>) -> (r: Vec<TrollupTransaction>)
    ensures
        txs_view(r@) == sanitize_batch(txs_view(transactions@)),
        forall|k: int| 0 <= k < r@.len() ==> (#[trigger] r@[k]).wf(),
{
    let ghost all = txs_view(transactions@);
    let mut rest = transactions;
    let mut kept: Vec<TrollupTransaction> = Vec::new();
    let ghost done: int = 0;
    while rest.len() > 0
        invariant
            0 <= done <= all.len(),
            rest@.len() == all.len() - done,
            txs_view(rest@) == all.subrange(done, all.len() as int),
            txs_view(kept@) == sanitize_batch(all.subrange(0, done)),
            forall|k: int| 0 <= k < kept@.len() ==> (#[trigger] kept@[k]).signatures@.len() >= 1,
            forall|k: int| 0 <= k < kept@.len() ==> (#[trigger] kept@[k]).wf(),
        decreases rest@.len(),
    {
        assert(txs_view(rest@)[0] == rest@[0]@);
        let ghost old_rest = rest@;
        let t = rest.remove(0);
        let ghost before = txs_view(kept@);
        proof {
            assert(t@ == all[done]);
            assert(all.subrange(0, done + 1).drop_last() =~= all.subrange(0, done));
            assert(all.subrange(0, done + 1).last() == all[done]);
        }
        if t.sanitize() && t.encodable() {
            let mut taken = false;
            let mut k: usize = 0;
            while k < kept.len()
                invariant
                    k <= kept@.len(),
                    t.signatures@.len() >= 1,
                    forall|q: int| 0 <= q < kept@.len() ==> (#[trigger] kept@[q]).signatures@.len() >= 1,
                    forall|q: int| 0 <= q < kept@.len() ==> (#[trigger] kept@[q]).wf(),
                    before == txs_view(kept@),
                    taken == exists|q: int| 0 <= q < k && (#[trigger] before[q]).signatures[0] == t@.signatures[0],
                decreases kept@.len() - k,
            {
                assert(before[k as int] == kept@[k as int]@);
                assert(before[k as int].signatures[0] == kept@[k as int].signatures@[0]@);
                if eq64(&kept[k].signatures[0], &t.signatures[0]) {
                    taken = true;
                }
                k = k + 1;
            }
            assert(t@.signatures[0] == t.signatures@[0]@);
            if !taken {
                kept.push(t);
                assert(txs_view(kept@) =~= before.push(t@));
            }
        }
        proof {
            assert forall|k: int| 0 <= k < rest@.len() implies #[trigger] txs_view(rest@)[k]
                == all[done + 1 + k] by {
                assert(rest@[k] == old_rest[k + 1]);
                assert(txs_view(old_rest)[k + 1] == all.subrange(done, all.len() as int)[k + 1]);
            }
            done = done + 1;
            assert(txs_view(rest@) =~= all.subrange(done, all.len() as int));
        }
    }
    assert(all.subrange(0, all.len() as int) =~= all);
    kept
}

/// After the batch checks no two kept transactions share a first signature,
/// and every transaction that passes the checks and can be written has its
/// first signature among the kept ones.
pub proof fn lemma_batch_signatures_unique(ts: Seq<TransactionModel>)
    ensures
        forall|i: int, j: int|
            0 <= i < j < sanitize_batch(ts).len() ==> (#[trigger] sanitize_batch(ts)[i]).signatures[0]
                != (#[trigger] sanitize_batch(ts)[j]).signatures[0],
        forall|i: int|
            0 <= i < ts.len() && is_sanitized(#[trigger] ts[i]) && transaction_model_wf(ts[i])
                ==> signature_taken(
                sanitize_batch(ts),
                ts[i].signatures[0],
            ),
    decreases ts.len(),
{
    if ts.len() > 0 {
        let init = ts.drop_last();
        lemma_batch_signatures_unique(init);
        let kept = sanitize_batch(init);
        let out = sanitize_batch(ts);
        let t = ts.last();
        assert forall|i: int|
            0 <= i < ts.len() && is_sanitized(#[trigger] ts[i]) && transaction_model_wf(ts[i])
            implies signature_taken(
            out,
            ts[i].signatures[0],
        ) by {
            if i < ts.len() - 1 {
                assert(ts[i] == init[i]);
                let w = choose|q: int| 0 <= q < kept.len() && (#[trigger] kept[q]).signatures[0] == ts[i].signatures[0];
                assert(out[w] == kept[w]);
            } else {
                if !signature_taken(kept, t.signatures[0]) {
                    assert(out[kept.len() as int] == t);
                } else {
                    let w = choose|q: int| 0 <= q < kept.len() && (#[trigger] kept[q]).signatures[0] == t.signatures[0];
                    assert(out[w] == kept[w]);
                }
            }
        }
    }
}

} // verus!
