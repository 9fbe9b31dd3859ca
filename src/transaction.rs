//! Transactions in the rollup's own form, their key and their byte
//! form.

use vstd::prelude::*;
use crate::codec::{
    MAX_LEN, all_len, enc_bool, enc_bytes, enc_seq, lemma_enc_sizes, lemma_parse_bool,
    lemma_parse_bytes, lemma_parse_fixed, lemma_parse_seq, lemma_split, parse_bool, parse_bytes,
    parse_fixed, parse_seq, put_bool, put_bytes, put_len, put_raw, put_seq32, put_seq64,
    read_array32, read_bool, read_bytes, read_len, read_seq32, read_seq64, sigs_view,
};
use crate::hash::{sha256, sha256_of};
use crate::listcodec::{
    enc_items, enc_list, lemma_enc_items_push, lemma_parse_list, parse_items, parse_list,
    reads_back, reads_back_one,
};
use crate::merkle::digests;
use crate::record::StateRecord;

verus! {

/// One instruction: the index of its program among the account keys, the
/// indices of the accounts it reads or writes, and its opaque data.
#[derive(Clone, Debug)]
pub struct TrollupCompileInstruction {
    pub program_id_index: u8,
    pub accounts: Vec<u8>,
    pub data: Vec<u8>,
}

/// The signed part of a transaction. `header` holds the number of required
/// signatures, of read-only signed accounts and of read-only unsigned
/// accounts.
#[derive(Clone, Debug)]
pub struct TrollupMessage {
    pub header: [u8; 3],
    pub account_keys: Vec<[u8; 32]>,
    pub recent_blockhash: [u8; 32],
    pub instructions: Vec<TrollupCompileInstruction>,
}

/// A transaction as the rollup keeps it.
#[derive(Clone, Debug)]
pub struct TrollupTransaction {
    /// The submitter asked for an optimistic commitment.
    pub optimistic: bool,
    pub signatures: Vec<[u8; 64]>,
    pub message: TrollupMessage,
}

pub struct InstructionModel {
    pub program_id_index: u8,
    pub accounts: Seq<u8>,
    pub data: Seq<u8>,
}

pub struct MessageModel {
    pub header: Seq<u8>,
    pub account_keys: Seq<Seq<u8>>,
    pub recent_blockhash: Seq<u8>,
    pub instructions: Seq<InstructionModel>,
}

pub struct TransactionModel {
    pub optimistic: bool,
    pub signatures: Seq<Seq<u8>>,
    pub message: MessageModel,
}

impl View for TrollupCompileInstruction {
    type V = InstructionModel;

    open spec fn view(&self) -> InstructionModel {
        InstructionModel {
            program_id_index: self.program_id_index,
            accounts: self.accounts@,
            data: self.data@,
        }
    }
}

pub open spec fn instructions_view(v: Seq<TrollupCompileInstruction>) -> Seq<InstructionModel> {
    Seq::new(v.len(), |i: int| v[i]@)
}

impl View for TrollupMessage {
    type V = MessageModel;

    open spec fn view(&self) -> MessageModel {
        MessageModel {
            header: self.header@,
            account_keys: digests(self.account_keys@),
            recent_blockhash: self.recent_blockhash@,
            instructions: instructions_view(self.instructions@),
        }
    }
}

impl View for TrollupTransaction {
    type V = TransactionModel;

    open spec fn view(&self) -> TransactionModel {
        TransactionModel {
            optimistic: self.optimistic,
            signatures: sigs_view(self.signatures@),
            message: self.message@,
        }
    }
}

// ---------------------------------------------------------------- format

pub open spec fn instruction_model_wf(ix: InstructionModel) -> bool {
    ix.accounts.len() <= MAX_LEN && ix.data.len() <= MAX_LEN
}

pub open spec fn transaction_model_wf(t: TransactionModel) -> bool {
    &&& t.signatures.len() <= MAX_LEN
    &&& all_len(t.signatures, 64)
    &&& t.message.header.len() == 3
    &&& t.message.account_keys.len() <= MAX_LEN
    &&& all_len(t.message.account_keys, 32)
    &&& t.message.recent_blockhash.len() == 32
    &&& t.message.instructions.len() <= MAX_LEN
    &&& forall|i: int|
        0 <= i < t.message.instructions.len() ==> #[trigger] instruction_model_wf(
            t.message.instructions[i],
        )
}

pub open spec fn encode_instruction(ix: InstructionModel) -> Seq<u8> {
    seq![ix.program_id_index] + enc_bytes(ix.accounts) + enc_bytes(ix.data)
}

pub open spec fn parse_instruction(s: Seq<u8>, p: int) -> Option<(InstructionModel, int)> {
    if 0 <= p && p + 1 <= s.len() {
        match parse_bytes(s, p + 1) {
            None => None,
            Some((accounts, q)) => match parse_bytes(s, q) {
                None => None,
                Some((data, r)) => Some((
                    InstructionModel { program_id_index: s[p], accounts, data },
                    r,
                )),
            },
        }
    } else {
        None
    }
}

pub open spec fn ix_enc() -> spec_fn(InstructionModel) -> Seq<u8> {
    |ix: InstructionModel| encode_instruction(ix)
}

pub open spec fn ix_parse() -> spec_fn(Seq<u8>, int) -> Option<(InstructionModel, int)> {
    |s: Seq<u8>, p: int| parse_instruction(s, p)
}

pub open spec fn encode_transaction(t: TransactionModel) -> Seq<u8> {
    enc_bool(t.optimistic) + enc_seq(t.signatures) + t.message.header + enc_seq(
        t.message.account_keys,
    ) + t.message.recent_blockhash + enc_list(t.message.instructions, ix_enc())
}

pub open spec fn parse_transaction_at(s: Seq<u8>, p: int) -> Option<(TransactionModel, int)> {
    match parse_bool(s, p) {
        None => None,
        Some((optimistic, p1)) => match parse_seq(s, p1, 64) {
            None => None,
            Some((signatures, p2)) => match parse_fixed(s, p2, 3) {
                None => None,
                Some((header, p3)) => match parse_seq(s, p3, 32) {
                    None => None,
                    Some((account_keys, p4)) => match parse_fixed(s, p4, 32) {
                        None => None,
                        Some((recent_blockhash, p5)) => match parse_list(s, p5, ix_parse()) {
                            None => None,
                            Some((instructions, p6)) => Some((
                                TransactionModel {
                                    optimistic,
                                    signatures,
                                    message: MessageModel {
                                        header,
                                        account_keys,
                                        recent_blockhash,
                                        instructions,
                                    },
                                },
                                p6,
                            )),
                        },
                    },
                },
            },
        },
    }
}

/// The transaction that `s` holds, all of `s` read.
pub open spec fn parse_transaction(s: Seq<u8>) -> Option<TransactionModel> {
    match parse_transaction_at(s, 0) {
        Some((m, p)) => if p == s.len() { Some(m) } else { None },
        None => None,
    }
}

pub proof fn lemma_instruction_reads_back(ix: InstructionModel)
    requires
        instruction_model_wf(ix),
    ensures
        reads_back_one(ix, ix_enc(), ix_parse()),
{
    let e = encode_instruction(ix);
    lemma_enc_sizes(0, ix.accounts.len());
    lemma_enc_sizes(0, ix.data.len());
    assert forall|s: Seq<u8>, p: int|
        0 <= p && p + e.len() <= s.len() && s.subrange(p, p + e.len()) == e
        implies #[trigger] ix_parse()(s, p) == Some((ix, p + e.len())) by {
        let a = seq![ix.program_id_index];
        lemma_split(s, p, a + enc_bytes(ix.accounts), enc_bytes(ix.data));
        lemma_split(s, p, a, enc_bytes(ix.accounts));
        assert(s[p] == s.subrange(p, p + 1)[0]);
        lemma_parse_bytes(s, p + 1, ix.accounts);
        lemma_parse_bytes(s, p + 1 + 4 + ix.accounts.len(), ix.data);
    }
}

/// A transaction written at `p` in `s` reads back from there.
pub proof fn lemma_transaction_at(s: Seq<u8>, p: int, t: TransactionModel)
    requires
        transaction_model_wf(t),
        0 <= p,
        p + encode_transaction(t).len() <= s.len(),
        s.subrange(p, p + encode_transaction(t).len()) == encode_transaction(t),
    ensures
        encode_transaction(t).len() > 0,
        parse_transaction_at(s, p) == Some((t, p + encode_transaction(t).len())),
{
    let m = t.message;
    let e0 = enc_bool(t.optimistic);
    let e1 = enc_seq(t.signatures);
    let e2 = m.header;
    let e3 = enc_seq(m.account_keys);
    let e4 = m.recent_blockhash;
    let e5 = enc_list(m.instructions, ix_enc());
    assert(reads_back(m.instructions, ix_enc(), ix_parse())) by {
        assert forall|i: int| 0 <= i < m.instructions.len() implies #[trigger] reads_back_one(
            m.instructions[i],
            ix_enc(),
            ix_parse(),
        ) by {
            lemma_instruction_reads_back(m.instructions[i]);
        }
    }
    lemma_split(s, p, e0 + e1 + e2 + e3 + e4, e5);
    lemma_split(s, p, e0 + e1 + e2 + e3, e4);
    lemma_split(s, p, e0 + e1 + e2, e3);
    lemma_split(s, p, e0 + e1, e2);
    lemma_split(s, p, e0, e1);
    lemma_parse_bool(s, p, t.optimistic);
    lemma_parse_seq(s, p + 1, t.signatures, 64);
    let p2: int = p + 1 + e1.len() as int;
    lemma_parse_fixed(s, p2, e2);
    lemma_parse_seq(s, p2 + 3, m.account_keys, 32);
    let p4: int = p2 + 3 + e3.len() as int;
    lemma_parse_fixed(s, p4, e4);
    lemma_parse_list(s, p4 + 32, m.instructions, ix_enc(), ix_parse());
}

/// Reading back a written transaction gives the transaction.
pub proof fn lemma_transaction_round_trip(t: TransactionModel)
    requires
        transaction_model_wf(t),
    ensures
        parse_transaction(encode_transaction(t)) == Some(t),
{
    let s = encode_transaction(t);
    assert(s.subrange(0, s.len() as int) == s);
    lemma_transaction_at(s, 0, t);
}

// ---------------------------------------------------------------- exec

impl TrollupCompileInstruction {
    pub open spec fn wf(&self) -> bool {
        instruction_model_wf(self@)
    }

    /// Appends the canonical form of the instruction.
    pub fn write(&self, out: &mut Vec<u8>)
        requires
            self.wf(),
        ensures
            final(out)@ == old(out)@ + encode_instruction(self@),
    {
        let ghost start = out@;
        out.push(self.program_id_index);
        put_bytes(out, self.accounts.as_slice());
        put_bytes(out, self.data.as_slice());
        assert(out@ =~= start + encode_instruction(self@));
    }

    /// Reads one instruction at `p`.
    pub fn read(s: &[u8], p: usize) -> (r: Option<(TrollupCompileInstruction, usize)>)
        ensures
            match r {
                Some((ix, q)) => parse_instruction(s@, p as int) == Some((ix@, q as int)) && q > p,
                None => parse_instruction(s@, p as int) is None,
            },
    {
        if p >= s.len() {
            return None;
        }
        let program_id_index = s[p];
        let (accounts, q) = match read_bytes(s, p + 1) { Some(x) => x, None => return None };
        let (data, r) = match read_bytes(s, q) { Some(x) => x, None => return None };
        Some((TrollupCompileInstruction { program_id_index, accounts, data }, r))
    }
}

/// `o` with `xs` put before the sequence it holds.
pub open spec fn prepend<A>(xs: Seq<A>, o: Option<(Seq<A>, int)>) -> Option<(Seq<A>, int)> {
    match o {
        None => None,
        Some((ys, r)) => Some((xs + ys, r)),
    }
}

/// Reads `n` instructions from `p`.
pub fn read_instructions(s: &[u8], p: usize, n: usize) -> (r: Option<(Vec<TrollupCompileInstruction>, usize)>)
    ensures
        match r {
            Some((v, q)) => parse_items(s@, p as int, n as nat, ix_parse()) == Some((
                instructions_view(v@),
                q as int,
            )) && q >= p,
            None => parse_items(s@, p as int, n as nat, ix_parse()) is None,
        },
{
    let mut v: Vec<TrollupCompileInstruction> = Vec::new();
    let mut pos = p;
    let mut i: usize = 0;
    assert(prepend(Seq::<InstructionModel>::empty(), parse_items(s@, p as int, n as nat, ix_parse()))
        == parse_items(s@, p as int, n as nat, ix_parse())) by {
        match parse_items(s@, p as int, n as nat, ix_parse()) {
            None => {},
            Some((ys, r)) => {
                assert(Seq::<InstructionModel>::empty() + ys =~= ys);
            },
        }
    }
    while i < n
        invariant
            i <= n,
            pos >= p,
            parse_items(s@, p as int, n as nat, ix_parse()) == prepend(
                instructions_view(v@),
                parse_items(s@, pos as int, (n - i) as nat, ix_parse()),
            ),
        decreases n - i,
    {
        match TrollupCompileInstruction::read(s, pos) {
            None => {
                return None;
            },
            Some((ix, q)) => {
                let ghost before = instructions_view(v@);
                v.push(ix);
                assert(instructions_view(v@) =~= before.push(ix@));
                assert(prepend(instructions_view(v@), parse_items(s@, q as int, (n - i - 1) as nat, ix_parse()))
                    == prepend(before, parse_items(s@, pos as int, (n - i) as nat, ix_parse()))) by {
                    match parse_items(s@, q as int, (n - i - 1) as nat, ix_parse()) {
                        None => {},
                        Some((ys, r)) => {
                            assert(before.push(ix@) + ys =~= before + (seq![ix@] + ys));
                        },
                    }
                }
                pos = q;
            },
        }
        i = i + 1;
    }
    assert(instructions_view(v@) + Seq::<InstructionModel>::empty() =~= instructions_view(v@));
    Some((v, pos))
}

impl TrollupTransaction {
    /// Reads a transaction from its canonical byte form, which must be read whole.
    pub fn from_bytes(b: &[u8]) -> (r: Option<TrollupTransaction>)
        ensures
            match r {
                Some(t) => parse_transaction(b@) == Some(t@),
                None => parse_transaction(b@) is None,
            },
    {
        match Self::read_at(b, 0) {
            None => None,
            Some((t, q)) => if q == b.len() { Some(t) } else { None },
        }
    }

    /// Reads a transaction written at `p`.
    pub fn read_at(b: &[u8], p: usize) -> (r: Option<(TrollupTransaction, usize)>)
        ensures
            match r {
                Some((t, q)) => parse_transaction_at(b@, p as int) == Some((t@, q as int)) && q > p,
                None => parse_transaction_at(b@, p as int) is None,
            },
    {
        let (optimistic, p1) = match read_bool(b, p) { Some(x) => x, None => return None };
        let (signatures, p2) = match read_seq64(b, p1) { Some(x) => x, None => return None };
        if p2 > b.len() || b.len() - p2 < 3 {
            return None;
        }
        let header: [u8; 3] = [b[p2], b[p2 + 1], b[p2 + 2]];
        assert(header@ =~= b@.subrange(p2 as int, p2 + 3));
        let p3 = p2 + 3;
        let (account_keys, p4) = match read_seq32(b, p3) { Some(x) => x, None => return None };
        let (recent_blockhash, p5) = match read_array32(b, p4) { Some(x) => x, None => return None };
        let (n, p6) = match read_len(b, p5) { Some(x) => x, None => return None };
        let (instructions, p7) = match read_instructions(b, p6, n) { Some(x) => x, None => return None };
        Some((
            TrollupTransaction {
                optimistic,
                signatures,
                message: TrollupMessage { header, account_keys, recent_blockhash, instructions },
            },
            p7,
        ))
    }
}

impl StateRecord for TrollupTransaction {
    open spec fn wf(&self) -> bool {
        &&& self.signatures@.len() >= 1
        &&& transaction_model_wf(self@)
    }

    /// SHA-256 of the first signature.
    open spec fn spec_key(&self) -> Seq<u8> {
        sha256_of(self.signatures@[0]@)
    }

    open spec fn spec_bytes(&self) -> Seq<u8> {
        encode_transaction(self@)
    }

    fn get_key(&self) -> (r: [u8; 32]) {
        sha256(self.signatures[0].as_slice())
    }

    fn check_wf(&self) -> (r: bool) {
        self.signatures.len() >= 1 && self.encodable()
    }

    fn to_bytes(&self) -> (r: Vec<u8>) {
        let mut out: Vec<u8> = Vec::new();
        put_bool(&mut out, self.optimistic);
        put_seq64(&mut out, &self.signatures);
        put_raw(&mut out, self.message.header.as_slice());
        put_seq32(&mut out, &self.message.account_keys);
        put_raw(&mut out, self.message.recent_blockhash.as_slice());
        let ixs = &self.message.instructions;
        let ghost iv = instructions_view(ixs@);
        put_len(&mut out, ixs.len());
        let ghost mid = out@;
        let mut i: usize = 0;
        assert(iv.subrange(0, 0) =~= Seq::<InstructionModel>::empty());
        while i < ixs.len()
            invariant
                i <= ixs@.len(),
                iv == instructions_view(ixs@),
                transaction_model_wf(self@),
                *ixs == self.message.instructions,
                out@ == mid + enc_items(iv.subrange(0, i as int), ix_enc()),
            decreases ixs@.len() - i,
        {
            assert(instruction_model_wf(iv[i as int]));
            ixs[i].write(&mut out);
            proof {
                lemma_enc_items_push(iv.subrange(0, i as int), iv[i as int], ix_enc());
            }
            assert(iv.subrange(0, i as int).push(iv[i as int]) =~= iv.subrange(0, i + 1));
            assert(out@ =~= mid + enc_items(iv.subrange(0, i + 1), ix_enc()));
            i = i + 1;
        }
        assert(iv.subrange(0, ixs@.len() as int) =~= iv);
        assert(out@ =~= encode_transaction(self@));
        out
    }
}

} // verus!
