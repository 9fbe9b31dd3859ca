//! Blocks: what one finalization wrote, linked to the block before it.

use vstd::prelude::*;
use crate::codec::{
    MAX_LEN, all_len, enc_bytes, enc_seq, enc_u64, lemma_enc_sizes, lemma_parse_bytes,
    lemma_parse_fixed, lemma_parse_seq, lemma_parse_u64, lemma_split, parse_bytes, parse_fixed,
    parse_seq, parse_u64, put_bytes, put_raw, put_seq32, put_u64, read_array32, read_bytes,
    read_seq32, read_u64,
};
use crate::hash::{sha256, sha256_of};
use crate::merkle::digests;
use crate::record::StateRecord;

verus! {

/// The ASCII decimal digits of `n`, without leading zeros.
pub open spec fn decimal(n: nat) -> Seq<u8>
    decreases n,
{
    if n < 10 {
        seq![(48 + n) as u8]
    } else {
        decimal(n / 10).push((48 + n % 10) as u8)
    }
}

/// The ASCII bytes of `block_`.
pub open spec fn block_prefix() -> Seq<u8> {
    seq![98u8, 108u8, 111u8, 99u8, 107u8, 95u8]
}

/// The identifier of block `n`: SHA-256 of `block_` followed by `n` in decimal.
pub open spec fn block_id_of(n: u64) -> Seq<u8> {
    sha256_of(block_prefix() + decimal(n as nat))
}

/// Appends the decimal digits of `n`.
pub fn push_decimal(out: &mut Vec<u8>, n: u64)
    ensures
        final(out)@ == old(out)@ + decimal(n as nat),
    decreases n,
{
    if n < 10 {
        out.push(48u8 + n as u8);
        assert(out@ =~= old(out)@ + decimal(n as nat));
    } else {
        push_decimal(out, n / 10);
        out.push(48u8 + (n % 10) as u8);
        assert(out@ =~= old(out)@ + decimal(n as nat));
    }
}

/// A finalized block.
#[derive(Clone, Debug)]
pub struct Block {
    pub id: [u8; 32],
    pub block_number: u64,
    pub previous_block_id: [u8; 32],
    pub transactions_merkle_root: [u8; 32],
    pub accounts_merkle_root: [u8; 32],
    pub accounts_zk_proof: Vec<u8>,
    /// Identifiers of the block's transactions, in execution order.
    pub transactions: Vec<[u8; 32]>,
    /// Addresses of the accounts the block wrote, in order.
    pub accounts: Vec<[u8; 32]>,
}

/// What a `Block` holds.
pub struct BlockModel {
    pub id: Seq<u8>,
    pub block_number: u64,
    pub previous_block_id: Seq<u8>,
    pub transactions_merkle_root: Seq<u8>,
    pub accounts_merkle_root: Seq<u8>,
    pub accounts_zk_proof: Seq<u8>,
    pub transactions: Seq<Seq<u8>>,
    pub accounts: Seq<Seq<u8>>,
}

impl View for Block {
    type V = BlockModel;

    open spec fn view(&self) -> BlockModel {
        BlockModel {
            id: self.id@,
            block_number: self.block_number,
            previous_block_id: self.previous_block_id@,
            transactions_merkle_root: self.transactions_merkle_root@,
            accounts_merkle_root: self.accounts_merkle_root@,
            accounts_zk_proof: self.accounts_zk_proof@,
            transactions: digests(self.transactions@),
            accounts: digests(self.accounts@),
        }
    }
}

/// A model that some `Block` has.
pub open spec fn block_model_wf(m: BlockModel) -> bool {
    &&& m.id.len() == 32
    &&& m.previous_block_id.len() == 32
    &&& m.transactions_merkle_root.len() == 32
    &&& m.accounts_merkle_root.len() == 32
    &&& m.accounts_zk_proof.len() <= MAX_LEN
    &&& m.transactions.len() <= MAX_LEN
    &&& all_len(m.transactions, 32)
    &&& m.accounts.len() <= MAX_LEN
    &&& all_len(m.accounts, 32)
}

pub open spec fn encode_block(m: BlockModel) -> Seq<u8> {
    m.id + enc_u64(m.block_number) + m.previous_block_id + m.transactions_merkle_root
        + m.accounts_merkle_root + enc_bytes(m.accounts_zk_proof) + enc_seq(m.transactions)
        + enc_seq(m.accounts)
}

pub open spec fn parse_block_at(s: Seq<u8>, p: int) -> Option<(BlockModel, int)> {
    match parse_fixed(s, p, 32) {
        None => None,
        Some((id, p1)) => match parse_u64(s, p1) {
            None => None,
            Some((block_number, p2)) => match parse_fixed(s, p2, 32) {
                None => None,
                Some((previous_block_id, p3)) => match parse_fixed(s, p3, 32) {
                    None => None,
                    Some((transactions_merkle_root, p4)) => match parse_fixed(s, p4, 32) {
                        None => None,
                        Some((accounts_merkle_root, p5)) => match parse_bytes(s, p5) {
                            None => None,
                            Some((accounts_zk_proof, p6)) => match parse_seq(s, p6, 32) {
                                None => None,
                                Some((transactions, p7)) => match parse_seq(s, p7, 32) {
                                    None => None,
                                    Some((accounts, p8)) => Some((
                                        BlockModel {
                                            id,
                                            block_number,
                                            previous_block_id,
                                            transactions_merkle_root,
                                            accounts_merkle_root,
                                            accounts_zk_proof,
                                            transactions,
                                            accounts,
                                        },
                                        p8,
                                    )),
                                },
                            },
                        },
                    },
                },
            },
        },
    }
}

/// The block that `s` holds, all of `s` read.
pub open spec fn parse_block(s: Seq<u8>) -> Option<BlockModel> {
    match parse_block_at(s, 0) {
        Some((m, p)) => if p == s.len() { Some(m) } else { None },
        None => None,
    }
}

/// Reading back a written block gives the block.
pub proof fn lemma_block_round_trip(m: BlockModel)
    requires
        block_model_wf(m),
    ensures
        parse_block(encode_block(m)) == Some(m),
{
    let s = encode_block(m);
    let e0 = m.id;
    let e1 = enc_u64(m.block_number);
    let e2 = m.previous_block_id;
    let e3 = m.transactions_merkle_root;
    let e4 = m.accounts_merkle_root;
    let e5 = enc_bytes(m.accounts_zk_proof);
    let e6 = enc_seq(m.transactions);
    let e7 = enc_seq(m.accounts);
    lemma_enc_sizes(m.block_number, m.accounts_zk_proof.len());
    assert(s.subrange(0, s.len() as int) == s);
    lemma_split(s, 0, e0 + e1 + e2 + e3 + e4 + e5 + e6, e7);
    lemma_split(s, 0, e0 + e1 + e2 + e3 + e4 + e5, e6);
    lemma_split(s, 0, e0 + e1 + e2 + e3 + e4, e5);
    lemma_split(s, 0, e0 + e1 + e2 + e3, e4);
    lemma_split(s, 0, e0 + e1 + e2, e3);
    lemma_split(s, 0, e0 + e1, e2);
    lemma_split(s, 0, e0, e1);
    let p5 = 32 + 8 + 32 + 32 + 32int;
    let p6 = p5 + e5.len();
    let p7 = p6 + e6.len();
    lemma_parse_fixed(s, 0, e0);
    lemma_parse_u64(s, 32, m.block_number);
    lemma_parse_fixed(s, 40, e2);
    lemma_parse_fixed(s, 72, e3);
    lemma_parse_fixed(s, 104, e4);
    lemma_parse_bytes(s, p5, m.accounts_zk_proof);
    lemma_parse_seq(s, p6, m.transactions, 32);
    lemma_parse_seq(s, p7, m.accounts, 32);
}

impl Block {
    /// Block `block_number`, linked to block `block_number - 1` by that
    /// block's identifier.
    pub fn new(
        block_number: u64,
        transactions_merkle_root: [u8; 32],
        accounts_merkle_root: [u8; 32],
        accounts_zk_proof: Vec<u8>,
        transactions: Vec<[u8; 32]>,
        accounts: Vec<[u8; 32]>,
    ) -> (r: Block)
        requires
            block_number >= 1,
        ensures
            r@.id == block_id_of(block_number),
            r.block_number == block_number,
            r@.previous_block_id == block_id_of((block_number - 1) as u64),
            r.transactions_merkle_root == transactions_merkle_root,
            r.accounts_merkle_root == accounts_merkle_root,
            r.accounts_zk_proof == accounts_zk_proof,
            r.transactions == transactions,
            r.accounts == accounts,
    {
        Block {
            id: Self::get_id(block_number),
            block_number,
            previous_block_id: Self::get_id(block_number - 1),
            transactions_merkle_root,
            accounts_merkle_root,
            accounts_zk_proof,
            transactions,
            accounts,
        }
    }

    /// The identifier of block `block_number`.
    pub fn get_id(block_number: u64) -> (r: [u8; 32])
        ensures
            r@ == block_id_of(block_number),
    {
        let mut buf: Vec<u8> = Vec::new();
        buf.push(98u8);
        buf.push(108u8);
        buf.push(111u8);
        buf.push(99u8);
        buf.push(107u8);
        buf.push(95u8);
        assert(buf@ =~= block_prefix());
        push_decimal(&mut buf, block_number);
        sha256(buf.as_slice())
    }

    /// The key the block is stored under.
    pub fn id(&self) -> (r: [u8; 32])
        ensures
            r == self.id,
    {
        self.id
    }

    /// Reads a block from its canonical byte form, which must be read whole.
    pub fn from_bytes(b: &[u8]) -> (r: Option<Block>)
        ensures
            match r {
                Some(x) => parse_block(b@) == Some(x@),
                None => parse_block(b@) is None,
            },
    {
        let (id, p1) = match read_array32(b, 0) { Some(x) => x, None => return None };
        let (block_number, p2) = match read_u64(b, p1) { Some(x) => x, None => return None };
        let (previous_block_id, p3) = match read_array32(b, p2) { Some(x) => x, None => return None };
        let (transactions_merkle_root, p4) = match read_array32(b, p3) { Some(x) => x, None => return None };
        let (accounts_merkle_root, p5) = match read_array32(b, p4) { Some(x) => x, None => return None };
        let (accounts_zk_proof, p6) = match read_bytes(b, p5) { Some(x) => x, None => return None };
        let (transactions, p7) = match read_seq32(b, p6) { Some(x) => x, None => return None };
        let (accounts, p8) = match read_seq32(b, p7) { Some(x) => x, None => return None };
        if p8 != b.len() {
            return None;
        }
        Some(Block {
            id,
            block_number,
            previous_block_id,
            transactions_merkle_root,
            accounts_merkle_root,
            accounts_zk_proof,
            transactions,
            accounts,
        })
    }
}

impl StateRecord for Block {
    open spec fn wf(&self) -> bool {
        &&& self.accounts_zk_proof@.len() <= MAX_LEN
        &&& self.transactions@.len() <= MAX_LEN
        &&& self.accounts@.len() <= MAX_LEN
    }

    open spec fn spec_key(&self) -> Seq<u8> {
        self.id@
    }

    open spec fn spec_bytes(&self) -> Seq<u8> {
        encode_block(self@)
    }

    fn get_key(&self) -> (r: [u8; 32]) {
        self.id
    }

    fn check_wf(&self) -> (r: bool) {
        self.accounts_zk_proof.len() <= MAX_LEN && self.transactions.len() <= MAX_LEN
            && self.accounts.len() <= MAX_LEN
    }

    fn to_bytes(&self) -> (r: Vec<u8>) {
        let mut out: Vec<u8> = Vec::new();
        put_raw(&mut out, self.id.as_slice());
        put_u64(&mut out, self.block_number);
        put_raw(&mut out, self.previous_block_id.as_slice());
        put_raw(&mut out, self.transactions_merkle_root.as_slice());
        put_raw(&mut out, self.accounts_merkle_root.as_slice());
        put_bytes(&mut out, self.accounts_zk_proof.as_slice());
        put_seq32(&mut out, &self.transactions);
        put_seq32(&mut out, &self.accounts);
        out
    }
}

} // verus!
