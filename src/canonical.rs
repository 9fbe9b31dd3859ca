//! Transactions in the parent chain's canonical form, as clients submit
//! them, and their conversion to and from the rollup's form.

use vstd::prelude::*;
use crate::codec::sigs_view;
use crate::merkle::digests;
use crate::record::StateRecord;
use crate::transaction::{
    InstructionModel, MessageModel, TransactionModel, TrollupCompileInstruction, TrollupMessage,
    TrollupTransaction, instructions_view, transaction_model_wf,
};

verus! {

#[derive(Clone, Copy, Debug, PartialEq, Eq)]
pub struct MessageHeader {
    pub num_required_signatures: u8,
    pub num_readonly_signed_accounts: u8,
    pub num_readonly_unsigned_accounts: u8,
}

#[derive(Clone, Debug)]
pub struct CompiledInstruction {
    pub program_id_index: u8,
    pub accounts: Vec<u8>,
    pub data: Vec<u8>,
}

#[derive(Clone, Debug)]
pub struct Message {
    pub header: MessageHeader,
    pub account_keys: Vec<[u8; 32]>,
    pub recent_blockhash: [u8; 32],
    pub instructions: Vec<CompiledInstruction>,
}

/// A transaction as a client submits it. A signature is any byte string
/// here; the rollup's form holds 64-byte signatures.
#[derive(Clone, Debug)]
pub struct Transaction {
    pub signatures: Vec<Vec<u8>>,
    pub message: Message,
}

pub open spec fn header_bytes(h: MessageHeader) -> Seq<u8> {
    seq![h.num_required_signatures, h.num_readonly_signed_accounts, h.num_readonly_unsigned_accounts]
}

pub open spec fn canonical_instructions(v: Seq<CompiledInstruction>) -> Seq<InstructionModel> {
    Seq::new(
        v.len(),
        |i: int| InstructionModel { program_id_index: v[i].program_id_index, accounts: v[i].accounts@, data: v[i].data@ },
    )
}

pub open spec fn canonical_signatures(v: Seq<Vec<u8>>) -> Seq<Seq<u8>> {
    Seq::new(v.len(), |i: int| v[i]@)
}

/// What a canonical transaction holds, in the rollup's model.
pub open spec fn canonical_model(t: Transaction) -> TransactionModel {
    TransactionModel {
        optimistic: false,
        signatures: canonical_signatures(t.signatures@),
        message: MessageModel {
            header: header_bytes(t.message.header),
            account_keys: digests(t.message.account_keys@),
            recent_blockhash: t.message.recent_blockhash@,
            instructions: canonical_instructions(t.message.instructions@),
        },
    }
}

/// Every signature is 64 bytes long.
pub open spec fn signatures_normal(t: Transaction) -> bool {
    forall|i: int| 0 <= i < t.signatures@.len() ==> (#[trigger] t.signatures@[i])@.len() == 64
}

pub fn message_header_to_bytes(message_header: &MessageHeader) -> (r: [u8; 3])
    ensures
        r@ == header_bytes(*message_header),
{
    let r = [
        message_header.num_required_signatures,
        message_header.num_readonly_signed_accounts,
        message_header.num_readonly_unsigned_accounts,
    ];
    assert(r@ =~= header_bytes(*message_header));
    r
}

pub fn message_header_from_bytes(bytes: [u8; 3]) -> (r: MessageHeader)
    ensures
        header_bytes(r) == bytes@,
{
    let r = MessageHeader {
        num_required_signatures: bytes[0],
        num_readonly_signed_accounts: bytes[1],
        num_readonly_unsigned_accounts: bytes[2],
    };
    assert(header_bytes(r) =~= bytes@);
    r
}

fn to_array64(v: &Vec<u8>) -> (r: [u8; 64])
    requires
        v@.len() == 64,
    ensures
        r@ == v@,
{
    let mut a = [0u8; 64];
    let mut i: usize = 0;
    while i < 64
        invariant
            i <= 64,
            v@.len() == 64,
            forall|k: int| 0 <= k < i ==> a@[k] == v@[k],
        decreases 64 - i,
    {
        a[i] = v[i];
        i = i + 1;
    }
    assert(a@ =~= v@);
    a
}

fn to_vec64(a: &[u8; 64]) -> (r: Vec<u8>)
    ensures
        r@ == a@,
{
    let mut v: Vec<u8> = Vec::new();
    let mut i: usize = 0;
    while i < 64
        invariant
            i <= 64,
            v@ == a@.subrange(0, i as int),
        decreases 64 - i,
    {
        v.push(a[i]);
        assert(v@ =~= a@.subrange(0, i + 1));
        i = i + 1;
    }
    assert(a@.subrange(0, 64) =~= a@);
    v
}

/// Why a canonical transaction has no rollup form.
#[derive(Clone, Copy, Debug, PartialEq, Eq)]
pub enum ConversionError {
    /// A signature is not 64 bytes long.
    SignatureLength,
}

/// The rollup form of a canonical transaction, not optimistic. Refused when
/// a signature is not 64 bytes long.
pub fn convert_to_trollup_transaction(tx: Transaction) -> (r: Result<TrollupTransaction, ConversionError>)
    ensures
        signatures_normal(tx) <==> r is Ok,
        r matches Ok(t) ==> t@ == canonical_model(tx),
{
    let ghost m0 = canonical_model(tx);
    let mut j: usize = 0;
    while j < tx.signatures.len()
        invariant
            j <= tx.signatures@.len(),
            forall|k: int| 0 <= k < j ==> (#[trigger] tx.signatures@[k])@.len() == 64,
        decreases tx.signatures@.len() - j,
    {
        if tx.signatures[j].len() != 64 {
            return Err(ConversionError::SignatureLength);
        }
        j = j + 1;
    }
    let ghost s0 = tx.signatures@;
    let Transaction { signatures, message } = tx;
    let Message { header, account_keys, recent_blockhash, instructions } = message;
    let mut sigs: Vec<[u8; 64]> = Vec::new();
    let mut i: usize = 0;
    while i < signatures.len()
        invariant
            i <= signatures@.len(),
            m0.signatures == canonical_signatures(signatures@),
            signatures@ == s0,
            sigs@.len() == i,
            forall|k: int| 0 <= k < i ==> (#[trigger] sigs@[k])@ == m0.signatures[k],
            forall|k: int| 0 <= k < signatures@.len() ==> (#[trigger] signatures@[k])@.len() == 64,
        decreases signatures@.len() - i,
    {
        sigs.push(to_array64(&signatures[i]));
        i = i + 1;
    }
    assert(sigs_view(sigs@) =~= m0.signatures);
    let mut ixs: Vec<TrollupCompileInstruction> = Vec::new();
    let mut rest = instructions;
    let ghost all = m0.message.instructions;
    let ghost done: int = 0;
    while rest.len() > 0
        invariant
            0 <= done <= all.len(),
            rest@.len() == all.len() - done,
            canonical_instructions(rest@) == all.subrange(done, all.len() as int),
            instructions_view(ixs@) == all.subrange(0, done),
        decreases rest@.len(),
    {
        assert(canonical_instructions(rest@)[0] == all[done]);
        let ghost old_rest = rest@;
        let CompiledInstruction { program_id_index, accounts, data } = rest.remove(0);
        let ghost before = instructions_view(ixs@);
        ixs.push(TrollupCompileInstruction { program_id_index, accounts, data });
        proof {
            assert(instructions_view(ixs@) =~= before.push(all[done]));
            assert(all.subrange(0, done + 1) =~= all.subrange(0, done).push(all[done]));
            assert forall|k: int| 0 <= k < rest@.len() implies #[trigger] canonical_instructions(rest@)[k]
                == all[done + 1 + k] by {
                assert(rest@[k] == old_rest[k + 1]);
                assert(canonical_instructions(old_rest)[k + 1] == all.subrange(done, all.len() as int)[k + 1]);
            }
            done = done + 1;
            assert(canonical_instructions(rest@) =~= all.subrange(done, all.len() as int));
        }
    }
    assert(all.subrange(0, all.len() as int) =~= all);
    let header_arr = message_header_to_bytes(&header);
    let t = TrollupTransaction {
        optimistic: false,
        signatures: sigs,
        message: TrollupMessage { header: header_arr, account_keys, recent_blockhash, instructions: ixs },
    };
    assert(t@.message =~= m0.message);
    Ok(t)
}

/// The canonical form of a rollup transaction; its optimistic flag is
/// dropped.
pub fn convert_to_solana_transaction(tx: TrollupTransaction) -> (r: Transaction)
    ensures
        canonical_model(r) == (TransactionModel { optimistic: false, ..tx@ }),
        signatures_normal(r),
{
    let ghost m0 = tx@;
    let TrollupTransaction { optimistic: _, signatures, message } = tx;
    let TrollupMessage { header, account_keys, recent_blockhash, instructions } = message;
    let mut sigs: Vec<Vec<u8>> = Vec::new();
    let mut i: usize = 0;
    while i < signatures.len()
        invariant
            i <= signatures@.len(),
            m0.signatures == sigs_view(signatures@),
            sigs@.len() == i,
            forall|k: int| 0 <= k < i ==> (#[trigger] sigs@[k])@ == m0.signatures[k],
        decreases signatures@.len() - i,
    {
        sigs.push(to_vec64(&signatures[i]));
        i = i + 1;
    }
    let mut ixs: Vec<CompiledInstruction> = Vec::new();
    let mut rest = instructions;
    let ghost all = m0.message.instructions;
    let ghost done: int = 0;
    while rest.len() > 0
        invariant
            0 <= done <= all.len(),
            rest@.len() == all.len() - done,
            instructions_view(rest@) == all.subrange(done, all.len() as int),
            canonical_instructions(ixs@) == all.subrange(0, done),
        decreases rest@.len(),
    {
        assert(instructions_view(rest@)[0] == all[done]);
        let ghost old_rest = rest@;
        let TrollupCompileInstruction { program_id_index, accounts, data } = rest.remove(0);
        let ghost before = canonical_instructions(ixs@);
        ixs.push(CompiledInstruction { program_id_index, accounts, data });
        proof {
            assert(canonical_instructions(ixs@) =~= before.push(all[done]));
            assert(all.subrange(0, done + 1) =~= all.subrange(0, done).push(all[done]));
            assert forall|k: int| 0 <= k < rest@.len() implies #[trigger] instructions_view(rest@)[k]
                == all[done + 1 + k] by {
                assert(rest@[k] == old_rest[k + 1]);
                assert(instructions_view(old_rest)[k + 1] == all.subrange(done, all.len() as int)[k + 1]);
            }
            done = done + 1;
            assert(instructions_view(rest@) =~= all.subrange(done, all.len() as int));
        }
    }
    assert(all.subrange(0, all.len() as int) =~= all);
    let h = message_header_from_bytes(header);
    let r = Transaction {
        signatures: sigs,
        message: Message { header: h, account_keys, recent_blockhash, instructions: ixs },
    };
    assert(canonical_signatures(r.signatures@) =~= m0.signatures);
    assert(canonical_model(r).message =~= m0.message);
    r
}

/// A canonical transaction with 64-byte signatures survives the trip to the
/// rollup's form and back: same signatures, header, keys, blockhash and
/// instructions.
pub proof fn lemma_canonical_round_trip(tx: Transaction, t: TrollupTransaction, back: Transaction)
    requires
        t@ == canonical_model(tx),
        canonical_model(back) == (TransactionModel { optimistic: false, ..t@ }),
    ensures
        canonical_model(back) == canonical_model(tx),
{
}

/// A rollup transaction survives the trip to the canonical form and back,
/// but for its optimistic flag.
pub proof fn lemma_rollup_round_trip(t: TrollupTransaction, c: Transaction, back: TrollupTransaction)
    requires
        canonical_model(c) == (TransactionModel { optimistic: false, ..t@ }),
        back@ == canonical_model(c),
    ensures
        back@ == (TransactionModel { optimistic: false, ..t@ }),
{
}

/// The canonical bytes of a transaction: its rollup form, not optimistic,
/// written out. `None` when a signature is not 64 bytes long or the
/// transaction cannot be written.
pub fn serialize_transaction(transaction: Transaction) -> (r: Option<Vec<u8>>)
    ensures
        r matches Some(b) ==> signatures_normal(transaction) && transaction.signatures@.len() >= 1
            && transaction_model_wf(canonical_model(transaction))
            && b@ == crate::transaction::encode_transaction(canonical_model(transaction))
            && crate::transaction::parse_transaction(b@) == Some(canonical_model(transaction)),
        signatures_normal(transaction) && transaction_model_wf(canonical_model(transaction))
            && transaction.signatures@.len() >= 1 ==> r is Some,
{
    match convert_to_trollup_transaction(transaction) {
        Err(_) => None,
        Ok(t) => {
            if t.signatures.len() == 0 || !t.encodable() {
                return None;
            }
            proof {
                crate::transaction::lemma_transaction_round_trip(t@);
            }
            Some(t.to_bytes())
        },
    }
}

/// The canonical transaction that `data` holds.
pub fn deserialize_transaction(data: &[u8]) -> (r: Option<Transaction>)
    ensures
        match r {
            Some(t) => crate::transaction::parse_transaction(data@) matches Some(m) && canonical_model(t)
                == (TransactionModel { optimistic: false, ..m }),
            None => crate::transaction::parse_transaction(data@) is None,
        },
{
    match TrollupTransaction::from_bytes(data) {
        None => None,
        Some(t) => Some(convert_to_solana_transaction(t)),
    }
}

} // verus!
