//! The block chain a block store holds: block `n` under the identifier of
//! `n`, linked to block `n - 1`, the latest-block slot naming the highest.

use vstd::prelude::*;
use crate::block::{Block, block_id_of};

verus! {

/// The block under `k` is block `n` for some `n >= 1`, stored under the
/// identifier of `n`, and for `n > 1` names and finds block `n - 1`.
pub open spec fn block_linked(bs: Map<Seq<u8>, Block>, k: Seq<u8>) -> bool {
    let b = bs[k];
    let n = b.block_number;
    &&& n >= 1
    &&& k == block_id_of(n)
    &&& b.id@ == k
    &&& n > 1 ==> {
        &&& b.previous_block_id@ == block_id_of((n - 1) as u64)
        &&& bs.contains_key(block_id_of((n - 1) as u64))
        &&& bs[block_id_of((n - 1) as u64)].block_number == n - 1
    }
}

/// The number of the latest block; 0 before the first.
pub open spec fn tip(bs: Map<Seq<u8>, Block>, latest: Option<Seq<u8>>) -> nat {
    match latest {
        None => 0,
        Some(l) => bs[l].block_number as nat,
    }
}

/// Every stored block is linked, and the latest-block slot names the
/// highest-numbered one, or is empty with no block stored.
pub open spec fn chain_wf(bs: Map<Seq<u8>, Block>, latest: Option<Seq<u8>>) -> bool {
    &&& forall|k: Seq<u8>| #[trigger] bs.contains_key(k) ==> block_linked(bs, k)
    &&& match latest {
        None => forall|k: Seq<u8>| !(#[trigger] bs.contains_key(k)),
        Some(l) => {
            &&& bs.contains_key(l)
            &&& forall|k: Seq<u8>| #[trigger] bs.contains_key(k) ==> bs[k].block_number <= bs[l].block_number
        },
    }
}

/// An empty store with an empty latest-block slot holds a chain.
pub proof fn lemma_empty_chain()
    ensures
        chain_wf(Map::<Seq<u8>, Block>::empty(), None),
        tip(Map::<Seq<u8>, Block>::empty(), None) == 0,
{
}

/// Any visible block numbered above 1 has its predecessor visible, under
/// the identifier of the number before.
pub proof fn lemma_predecessor_visible(bs: Map<Seq<u8>, Block>, latest: Option<Seq<u8>>, k: Seq<u8>)
    requires
        chain_wf(bs, latest),
        bs.contains_key(k),
        bs[k].block_number > 1,
    ensures
        bs.contains_key(block_id_of((bs[k].block_number - 1) as u64)),
        bs[block_id_of((bs[k].block_number - 1) as u64)].block_number == bs[k].block_number - 1,
{
    assert(block_linked(bs, k));
}

/// Adding the block after the tip, under its identifier, keeps the chain.
pub proof fn lemma_extend_chain(bs: Map<Seq<u8>, Block>, latest: Option<Seq<u8>>, b: Block)
    requires
        chain_wf(bs, latest),
        b.block_number == tip(bs, latest) + 1,
        b.id@ == block_id_of(b.block_number),
        b.previous_block_id@ == block_id_of((b.block_number - 1) as u64),
        !bs.contains_key(b.id@),
    ensures
        chain_wf(bs.insert(b.id@, b), Some(b.id@)),
        tip(bs.insert(b.id@, b), Some(b.id@)) == tip(bs, latest) + 1,
{
    let nb = bs.insert(b.id@, b);
    let key = b.id@;
    assert forall|k: Seq<u8>| #[trigger] nb.contains_key(k) implies block_linked(nb, k) by {
        if k == key {
            if b.block_number > 1 {
                let l = latest.unwrap();
                assert(block_linked(bs, l));
                assert(l == block_id_of((b.block_number - 1) as u64));
            }
        } else {
            assert(block_linked(bs, k));
            if bs[k].block_number > 1 {
                assert(bs.contains_key(block_id_of((bs[k].block_number - 1) as u64)));
            }
        }
    }
    assert forall|k: Seq<u8>| #[trigger] nb.contains_key(k) implies nb[k].block_number
        <= nb[key].block_number by {
        if k != key {
            match latest {
                None => {},
                Some(l) => {
                    assert(bs.contains_key(k));
                },
            }
        }
    }
}

} // verus!
