//! Binary Merkle trees over SHA-256 leaf digests. A level with an odd number
//! of nodes pairs its last node with itself; the root of no leaves is absent.

use vstd::prelude::*;
use crate::aggregator::{all_wf, leaves_of, record_leaves};
use crate::hash::{hash_pair, node_hash, sha256, sha256_of};
use crate::record::StateRecord;

verus! {

/// The views of a sequence of 32-byte digests.
pub open spec fn digests(v: Seq<[u8; 32]>) -> Seq<Seq<u8>> {
    Seq::new(v.len(), |i: int| v[i]@)
}

/// The level above `level`: node `i` hashes nodes `2i` and `2i + 1`, or node
/// `2i` with itself when it is the last one.
pub open spec fn next_level(level: Seq<Seq<u8>>) -> Seq<Seq<u8>> {
    Seq::new(
        ((level.len() + 1) / 2) as nat,
        |i: int|
            if 2 * i + 1 < level.len() {
                node_hash(level[2 * i], level[2 * i + 1])
            } else {
                node_hash(level[2 * i], level[2 * i])
            },
    )
}

/// The Merkle root over `leaves`, in their order.
pub open spec fn merkle_root(leaves: Seq<Seq<u8>>) -> Option<Seq<u8>>
    decreases leaves.len(),
{
    if leaves.len() == 0 {
        None
    } else if leaves.len() == 1 {
        Some(leaves[0])
    } else {
        merkle_root(next_level(leaves))
    }
}

/// The view of an optional digest.
pub open spec fn opt_digest(o: Option<[u8; 32]>) -> Option<Seq<u8>> {
    match o {
        Some(h) => Some(h@),
        None => None,
    }
}

/// Computes the level above `level`.
pub fn build_level(level: &Vec<[u8; 32]>) -> (r: Vec<[u8; 32]>)
    ensures
        digests(r@) == next_level(digests(level@)),
{
    let n = level.len();
    let mut out: Vec<[u8; 32]> = Vec::new();
    let mut i: usize = 0;
    while i < n
        invariant
            n == level.len(),
            i <= n,
            i < n ==> i % 2 == 0,
            out.len() == (i + 1) / 2,
            forall|k: int|
                0 <= k < out.len() ==> #[trigger] out@[k]@ == next_level(digests(level@))[k],
        decreases n - i,
    {
        if i + 1 < n {
            let h = hash_pair(&level[i], &level[i + 1]);
            out.push(h);
            i = i + 2;
        } else {
            let h = hash_pair(&level[i], &level[i]);
            out.push(h);
            i = i + 1;
        }
    }
    assert(digests(out@) =~= next_level(digests(level@)));
    out
}

/// The Merkle root over `leaves`; `None` when there are none.
pub fn compute_root(leaves: &Vec<[u8; 32]>) -> (r: Option<[u8; 32]>)
    ensures
        opt_digest(r) == merkle_root(digests(leaves@)),
{
    if leaves.len() == 0 {
        return None;
    }
    let mut level: Vec<[u8; 32]> = leaves.clone();
    assert(digests(level@) =~= digests(leaves@));
    while level.len() > 1
        invariant
            level.len() >= 1,
            merkle_root(digests(level@)) == merkle_root(digests(leaves@)),
        decreases level.len(),
    {
        level = build_level(&level);
    }
    Some(level[0])
}

} // verus!

verus! {

/// A path from a leaf to the root: each sibling digest with whether it
/// stands to the right of the path.
#[derive(Clone, Debug)]
pub struct MerkleProof {
    pub leaf_hash: [u8; 32],
    pub sibling_hashes: Vec<([u8; 32], bool)>,
}

pub open spec fn siblings_view(v: Seq<([u8; 32], bool)>) -> Seq<(Seq<u8>, bool)> {
    Seq::new(v.len(), |i: int| (v[i].0@, v[i].1))
}

/// The digest reached from `h` by hashing it with each sibling in turn, the
/// sibling on the side it stands.
pub open spec fn fold_path(h: Seq<u8>, sibs: Seq<(Seq<u8>, bool)>) -> Seq<u8>
    decreases sibs.len(),
{
    if sibs.len() == 0 {
        h
    } else {
        let prev = fold_path(h, sibs.drop_last());
        let (s, is_right) = sibs.last();
        if is_right {
            node_hash(prev, s)
        } else {
            node_hash(s, prev)
        }
    }
}

impl MerkleProof {
    /// The root this path leads to from its leaf.
    pub open spec fn spec_root(&self) -> Seq<u8> {
        fold_path(self.leaf_hash@, siblings_view(self.sibling_hashes@))
    }

    /// Whether the path leads from its leaf to `root_hash`.
    pub fn verify(&self, root_hash: &[u8; 32]) -> (r: bool)
        ensures
            r == (self.spec_root() == root_hash@),
    {
        let ghost sv = siblings_view(self.sibling_hashes@);
        let mut computed: [u8; 32] = self.leaf_hash;
        let mut i: usize = 0;
        while i < self.sibling_hashes.len()
            invariant
                i <= sv.len(),
                sv == siblings_view(self.sibling_hashes@),
                computed@ == fold_path(self.leaf_hash@, sv.subrange(0, i as int)),
            decreases sv.len() - i,
        {
            let (sibling, is_right) = self.sibling_hashes[i];
            assert(sv.subrange(0, i + 1).drop_last() =~= sv.subrange(0, i as int));
            assert(sv.subrange(0, i + 1).last() == (sibling@, is_right));
            if is_right {
                computed = hash_pair(&computed, &sibling);
            } else {
                computed = hash_pair(&sibling, &computed);
            }
            i = i + 1;
        }
        assert(sv.subrange(0, sv.len() as int) =~= sv);
        crate::sanitize::eq32(&computed, root_hash)
    }
}

/// A Merkle tree over the leaf digests of records, in insertion order.
pub struct MerkleTree<T: StateRecord> {
    root: Option<[u8; 32]>,
    leaves: Vec<[u8; 32]>,
    marker: std::marker::PhantomData<T>,
}

impl<T: StateRecord> MerkleTree<T> {
    /// The leaf digests, in order.
    pub closed spec fn leaves(&self) -> Seq<Seq<u8>> {
        digests(self.leaves@)
    }

    pub closed spec fn wf(&self) -> bool {
        opt_digest(self.root) == merkle_root(digests(self.leaves@))
    }

    pub fn new(states: Vec<T>) -> (r: Self)
        requires
            all_wf(states@),
        ensures
            r.wf(),
            r.leaves() == record_leaves(states@),
    {
        let leaves = leaves_of(&states);
        let root = compute_root(&leaves);
        MerkleTree { root, leaves, marker: std::marker::PhantomData }
    }

    /// Appends the leaf of `data`.
    pub fn add_leaf(&mut self, data: &T)
        requires
            data.wf(),
        ensures
            final(self).wf(),
            final(self).leaves() == old(self).leaves().push(sha256_of(data.spec_bytes())),
    {
        let bytes = data.to_bytes();
        self.leaves.push(sha256(bytes.as_slice()));
        self.root = compute_root(&self.leaves);
        assert(digests(self.leaves@) =~= digests(old(self).leaves@).push(sha256_of(data.spec_bytes())));
    }

    pub fn root_hash(&self) -> (r: Option<[u8; 32]>)
        requires
            self.wf(),
        ensures
            opt_digest(r) == merkle_root(self.leaves()),
    {
        self.root
    }

    /// A path from the first leaf of `account` to the root, if the tree has
    /// such a leaf.
    pub fn generate_proof(&self, account: &T) -> (r: Option<MerkleProof>)
        requires
            self.wf(),
            account.wf(),
        ensures
            match r {
                Some(p) => {
                    &&& p.leaf_hash@ == sha256_of(account.spec_bytes())
                    &&& self.leaves().contains(p.leaf_hash@)
                    &&& merkle_root(self.leaves()) == Some(p.spec_root())
                },
                None => !self.leaves().contains(sha256_of(account.spec_bytes())),
            },
    {
        let bytes = account.to_bytes();
        let target = sha256(bytes.as_slice());
        let mut idx: usize = 0;
        let mut found = false;
        while !found && idx < self.leaves.len()
            invariant
                idx <= self.leaves@.len(),
                forall|k: int| 0 <= k < idx ==> self.leaves@[k]@ != target@,
                found ==> idx < self.leaves@.len() && self.leaves@[idx as int]@ == target@,
            decreases self.leaves@.len() - idx + if found { 0int } else { 1int },
        {
            if crate::sanitize::eq32(&self.leaves[idx], &target) {
                found = true;
            } else {
                idx = idx + 1;
            }
        }
        if !found {
            assert forall|k: int| 0 <= k < self.leaves().len() implies self.leaves()[k] != target@ by {
                assert(self.leaves()[k] == self.leaves@[k]@);
            }
            return None;
        }
        assert(self.leaves()[idx as int] == target@);
        let mut level: Vec<[u8; 32]> = self.leaves.clone();
        assert(digests(level@) =~= digests(self.leaves@));
        let mut sibs: Vec<([u8; 32], bool)> = Vec::new();
        let mut pos: usize = idx;
        assert(siblings_view(sibs@) =~= Seq::<(Seq<u8>, bool)>::empty());
        while level.len() > 1
            invariant
                level.len() >= 1,
                pos < level.len(),
                merkle_root(digests(level@)) == merkle_root(digests(self.leaves@)),
                fold_path(target@, siblings_view(sibs@)) == level@[pos as int]@,
            decreases level.len(),
        {
            let n = level.len();
            let ghost d = digests(level@);
            let ghost sv = siblings_view(sibs@);
            let ghost cur = level@[pos as int]@;
            assert(d[pos as int] == cur);
            if pos % 2 == 0 {
                let s = if pos + 1 < n { level[pos + 1] } else { level[pos] };
                sibs.push((s, true));
            } else {
                sibs.push((level[pos - 1], false));
            }
            assert(siblings_view(sibs@).drop_last() =~= sv);
            let next = build_level(&level);
            assert(digests(next@).len() == next@.len());
            assert(next_level(d).len() == (n as int + 1) / 2);
            assert(d.len() == n);
            assert(pos as int / 2 < next@.len());
            assert(digests(next@)[pos as int / 2] == next@[pos as int / 2]@);
            if pos % 2 == 0 {
                assert(2 * (pos as int / 2) == pos);
                if pos + 1 < n {
                    assert(d[pos + 1] == level@[pos + 1]@);
                }
            } else {
                assert(2 * (pos as int / 2) + 1 == pos);
                assert(d[pos - 1] == level@[pos - 1]@);
            }
            assert(fold_path(target@, siblings_view(sibs@)) == next_level(d)[pos as int / 2]);
            level = next;
            pos = pos / 2;
        }
        Some(MerkleProof { leaf_hash: target, sibling_hashes: sibs })
    }
}

} // verus!
