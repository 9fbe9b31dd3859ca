//! Commitment packages: the outcome of one executed batch on its way to
//! being proved and anchored.

use vstd::prelude::*;
use crate::account::{
    AccountModel, AccountState, account_model_wf, encode_account, lemma_account_at, parse_account_at,
};
use crate::codec::{
    MAX_LEN, all_len, enc_bool, enc_bytes, enc_seq, lemma_enc_sizes, lemma_parse_bool,
    lemma_parse_bytes, lemma_parse_fixed, lemma_parse_seq, lemma_split, parse_bool, parse_bytes,
    parse_fixed, parse_seq, put_bool, put_bytes, put_len, put_raw, put_seq32,
    read_array32, read_bool, read_bytes, read_len, read_seq32,
};
use crate::listcodec::{
    enc_items, enc_list, lemma_enc_items_push, lemma_parse_list, parse_items, parse_list,
    reads_back, reads_back_one,
};
use crate::merkle::{digests, opt_digest};
use crate::record::StateRecord;
use crate::transaction::{
    TransactionModel, TrollupTransaction, encode_transaction, lemma_transaction_at,
    parse_transaction_at, prepend, transaction_model_wf,
};

verus! {

/// The successful transactions of a batch with the accounts they produced,
/// and, once proved, the proof artifacts and the state root.
#[derive(Clone, Debug)]
pub struct StateCommitmentPackage {
    pub optimistic: bool,
    pub proof: Vec<u8>,
    pub public_inputs: Vec<u8>,
    pub verifying_key: Vec<u8>,
    /// The Merkle root over `state_records`, in order, once computed.
    pub state_root: Option<[u8; 32]>,
    pub state_records: Vec<AccountState>,
    pub transactions: Vec<TrollupTransaction>,
    /// The key of each transaction, in the same order.
    pub transaction_ids: Vec<[u8; 32]>,
}

pub open spec fn accounts_view(v: Seq<AccountState>) -> Seq<AccountModel> {
    Seq::new(v.len(), |i: int| v[i]@)
}

pub open spec fn transactions_view(v: Seq<TrollupTransaction>) -> Seq<TransactionModel> {
    Seq::new(v.len(), |i: int| v[i]@)
}

pub open spec fn account_enc() -> spec_fn(AccountModel) -> Seq<u8> {
    |a: AccountModel| encode_account(a)
}

pub open spec fn transaction_enc() -> spec_fn(TransactionModel) -> Seq<u8> {
    |t: TransactionModel| encode_transaction(t)
}

/// What a `StateCommitmentPackage` holds.
pub struct PackageModel {
    pub optimistic: bool,
    pub proof: Seq<u8>,
    pub public_inputs: Seq<u8>,
    pub verifying_key: Seq<u8>,
    pub state_root: Option<Seq<u8>>,
    pub state_records: Seq<AccountModel>,
    pub transactions: Seq<TransactionModel>,
    pub transaction_ids: Seq<Seq<u8>>,
}

impl View for StateCommitmentPackage {
    type V = PackageModel;

    open spec fn view(&self) -> PackageModel {
        PackageModel {
            optimistic: self.optimistic,
            proof: self.proof@,
            public_inputs: self.public_inputs@,
            verifying_key: self.verifying_key@,
            state_root: opt_digest(self.state_root),
            state_records: accounts_view(self.state_records@),
            transactions: transactions_view(self.transactions@),
            transaction_ids: digests(self.transaction_ids@),
        }
    }
}

pub open spec fn account_parse() -> spec_fn(Seq<u8>, int) -> Option<(AccountModel, int)> {
    |s: Seq<u8>, p: int| parse_account_at(s, p)
}

pub open spec fn transaction_parse() -> spec_fn(Seq<u8>, int) -> Option<(TransactionModel, int)> {
    |s: Seq<u8>, p: int| parse_transaction_at(s, p)
}

/// An absent root is the byte 0; a present one is the byte 1 and its bytes.
pub open spec fn enc_root(r: Option<Seq<u8>>) -> Seq<u8> {
    match r {
        None => seq![0u8],
        Some(x) => seq![1u8] + x,
    }
}

pub open spec fn parse_root(s: Seq<u8>, p: int) -> Option<(Option<Seq<u8>>, int)> {
    if 0 <= p && p + 1 <= s.len() {
        if s[p] == 0 {
            Some((None, p + 1))
        } else if s[p] == 1 {
            match parse_fixed(s, p + 1, 32) {
                Some((x, q)) => Some((Some(x), q)),
                None => None,
            }
        } else {
            None
        }
    } else {
        None
    }
}

/// The fields of a package before its sequences.
pub open spec fn enc_head(m: PackageModel) -> Seq<u8> {
    enc_bool(m.optimistic) + enc_bytes(m.proof) + enc_bytes(m.public_inputs) + enc_bytes(
        m.verifying_key,
    ) + enc_root(m.state_root)
}

pub open spec fn encode_package(m: PackageModel) -> Seq<u8> {
    enc_head(m) + enc_list(m.state_records, account_enc()) + enc_list(m.transactions, transaction_enc())
        + enc_seq(m.transaction_ids)
}

pub open spec fn parse_head(s: Seq<u8>, p: int) -> Option<((bool, Seq<u8>, Seq<u8>, Seq<u8>, Option<Seq<u8>>), int)> {
    match parse_bool(s, p) {
        None => None,
        Some((optimistic, p1)) => match parse_bytes(s, p1) {
            None => None,
            Some((proof, p2)) => match parse_bytes(s, p2) {
                None => None,
                Some((public_inputs, p3)) => match parse_bytes(s, p3) {
                    None => None,
                    Some((verifying_key, p4)) => match parse_root(s, p4) {
                        None => None,
                        Some((state_root, p5)) => Some(
                            ((optimistic, proof, public_inputs, verifying_key, state_root), p5),
                        ),
                    },
                },
            },
        },
    }
}

pub open spec fn parse_package_at(s: Seq<u8>, p: int) -> Option<(PackageModel, int)> {
    match parse_head(s, p) {
        None => None,
        Some((h, p5)) => match parse_list(s, p5, account_parse()) {
            None => None,
            Some((state_records, p6)) => match parse_list(s, p6, transaction_parse()) {
                None => None,
                Some((transactions, p7)) => match parse_seq(s, p7, 32) {
                    None => None,
                    Some((transaction_ids, p8)) => Some((
                        PackageModel {
                            optimistic: h.0,
                            proof: h.1,
                            public_inputs: h.2,
                            verifying_key: h.3,
                            state_root: h.4,
                            state_records,
                            transactions,
                            transaction_ids,
                        },
                        p8,
                    )),
                },
            },
        },
    }
}

/// The package that `s` holds, all of `s` read.
pub open spec fn parse_package(s: Seq<u8>) -> Option<PackageModel> {
    match parse_package_at(s, 0) {
        Some((m, p)) => if p == s.len() { Some(m) } else { None },
        None => None,
    }
}

pub open spec fn package_model_wf(m: PackageModel) -> bool {
    &&& m.proof.len() <= MAX_LEN
    &&& m.public_inputs.len() <= MAX_LEN
    &&& m.verifying_key.len() <= MAX_LEN
    &&& (m.state_root matches Some(r) ==> r.len() == 32)
    &&& m.state_records.len() <= MAX_LEN
    &&& forall|i: int| 0 <= i < m.state_records.len() ==> #[trigger] account_model_wf(m.state_records[i])
    &&& m.transactions.len() <= MAX_LEN
    &&& forall|i: int| 0 <= i < m.transactions.len() ==> #[trigger] transaction_model_wf(m.transactions[i])
    &&& m.transaction_ids.len() <= MAX_LEN
    &&& all_len(m.transaction_ids, 32)
}

pub proof fn lemma_accounts_read_back(xs: Seq<AccountModel>)
    requires
        forall|i: int| 0 <= i < xs.len() ==> #[trigger] account_model_wf(xs[i]),
    ensures
        reads_back(xs, account_enc(), account_parse()),
{
    assert(reads_back(xs, account_enc(), account_parse())) by {
        assert forall|i: int| 0 <= i < xs.len() implies #[trigger] reads_back_one(
            xs[i],
            account_enc(),
            account_parse(),
        ) by {
            let x = xs[i];
            assert(account_model_wf(x));
            assert forall|t: Seq<u8>, q: int|
                0 <= q && q + account_enc()(x).len() <= t.len() && t.subrange(q, q + account_enc()(x).len())
                    == account_enc()(x) implies #[trigger] account_parse()(t, q) == Some(
                (x, q + account_enc()(x).len()),
            ) by {
                lemma_account_at(t, q, x);
            }
            lemma_enc_sizes(0, x.data.len());
        }
    }
}

pub proof fn lemma_transactions_read_back(xs: Seq<TransactionModel>)
    requires
        forall|i: int| 0 <= i < xs.len() ==> #[trigger] transaction_model_wf(xs[i]),
    ensures
        reads_back(xs, transaction_enc(), transaction_parse()),
{
    assert(reads_back(xs, transaction_enc(), transaction_parse())) by {
        assert forall|i: int| 0 <= i < xs.len() implies #[trigger] reads_back_one(
            xs[i],
            transaction_enc(),
            transaction_parse(),
        ) by {
            let x = xs[i];
            assert(transaction_model_wf(x));
            assert forall|t: Seq<u8>, q: int|
                0 <= q && q + transaction_enc()(x).len() <= t.len() && t.subrange(
                    q,
                    q + transaction_enc()(x).len(),
                ) == transaction_enc()(x) implies #[trigger] transaction_parse()(t, q) == Some(
                (x, q + transaction_enc()(x).len()),
            ) by {
                lemma_transaction_at(t, q, x);
            }
            assert(encode_transaction(x).len() > 0) by {
                let t = encode_transaction(x);
                assert(t.subrange(0, t.len() as int) == t);
                lemma_transaction_at(t, 0, x);
            }
        }
    }
}

pub proof fn lemma_head_at(s: Seq<u8>, p: int, m: PackageModel)
    requires
        package_model_wf(m),
        0 <= p,
        p + enc_head(m).len() <= s.len(),
        s.subrange(p, p + enc_head(m).len()) == enc_head(m),
    ensures
        parse_head(s, p) == Some(
            ((m.optimistic, m.proof, m.public_inputs, m.verifying_key, m.state_root), p + enc_head(m).len()),
        ),
{
    let e0 = enc_bool(m.optimistic);
    let e1 = enc_bytes(m.proof);
    let e2 = enc_bytes(m.public_inputs);
    let e3 = enc_bytes(m.verifying_key);
    let e4 = enc_root(m.state_root);
    lemma_enc_sizes(0, m.proof.len());
    lemma_enc_sizes(0, m.public_inputs.len());
    lemma_enc_sizes(0, m.verifying_key.len());
    lemma_split(s, p, e0 + e1 + e2 + e3, e4);
    lemma_split(s, p, e0 + e1 + e2, e3);
    lemma_split(s, p, e0 + e1, e2);
    lemma_split(s, p, e0, e1);
    lemma_parse_bool(s, p, m.optimistic);
    let p1: int = p + 1;
    lemma_parse_bytes(s, p1, m.proof);
    let p2: int = p1 + e1.len() as int;
    lemma_parse_bytes(s, p2, m.public_inputs);
    let p3: int = p2 + e2.len() as int;
    lemma_parse_bytes(s, p3, m.verifying_key);
    let p4: int = p3 + e3.len() as int;
    match m.state_root {
        None => {
            assert(s[p4] == s.subrange(p4, p4 + 1)[0]);
        },
        Some(r) => {
            lemma_split(s, p4, seq![1u8], r);
            assert(s[p4] == s.subrange(p4, p4 + 1)[0]);
            lemma_parse_fixed(s, p4 + 1, r);
        },
    }
}

/// Reading back a written package gives the package.
#[verifier::rlimit(50)]
pub proof fn lemma_package_round_trip(m: PackageModel)
    requires
        package_model_wf(m),
    ensures
        parse_package(encode_package(m)) == Some(m),
{
    let s = encode_package(m);
    let h = enc_head(m);
    let e5 = enc_list(m.state_records, account_enc());
    let e6 = enc_list(m.transactions, transaction_enc());
    let e7 = enc_seq(m.transaction_ids);
    assert(s.subrange(0, s.len() as int) == s);
    lemma_split(s, 0, h + e5 + e6, e7);
    lemma_split(s, 0, h + e5, e6);
    lemma_split(s, 0, h, e5);
    let p5: int = h.len() as int;
    assert(parse_head(s, 0) == Some(
        ((m.optimistic, m.proof, m.public_inputs, m.verifying_key, m.state_root), p5),
    )) by {
        lemma_head_at(s, 0, m);
    }
    assert(parse_list(s, p5, account_parse()) == Some((m.state_records, p5 + e5.len()))) by {
        lemma_accounts_read_back(m.state_records);
        lemma_parse_list(s, p5, m.state_records, account_enc(), account_parse());
    }
    let p6: int = p5 + e5.len() as int;
    assert(parse_list(s, p6, transaction_parse()) == Some((m.transactions, p6 + e6.len()))) by {
        lemma_transactions_read_back(m.transactions);
        lemma_parse_list(s, p6, m.transactions, transaction_enc(), transaction_parse());
    }
    let p7: int = p6 + e6.len() as int;
    assert(parse_seq(s, p7, 32) == Some((m.transaction_ids, p7 + e7.len()))) by {
        lemma_parse_seq(s, p7, m.transaction_ids, 32);
    }
}

/// Reads `n` accounts from `p`.
fn read_accounts(s: &[u8], p: usize, n: usize) -> (r: Option<(Vec<AccountState>, usize)>)
    ensures
        match r {
            Some((v, q)) => parse_items(s@, p as int, n as nat, account_parse()) == Some((
                accounts_view(v@),
                q as int,
            )),
            None => parse_items(s@, p as int, n as nat, account_parse()) is None,
        },
{
    let mut v: Vec<AccountState> = Vec::new();
    let mut pos = p;
    let mut i: usize = 0;
    assert(prepend(Seq::<AccountModel>::empty(), parse_items(s@, p as int, n as nat, account_parse()))
        == parse_items(s@, p as int, n as nat, account_parse())) by {
        match parse_items(s@, p as int, n as nat, account_parse()) {
            None => {},
            Some((ys, r)) => {
                assert(Seq::<AccountModel>::empty() + ys =~= ys);
            },
        }
    }
    while i < n
        invariant
            i <= n,
            parse_items(s@, p as int, n as nat, account_parse()) == prepend(
                accounts_view(v@),
                parse_items(s@, pos as int, (n - i) as nat, account_parse()),
            ),
        decreases n - i,
    {
        match AccountState::read_at(s, pos) {
            None => {
                return None;
            },
            Some((x, q)) => {
                let ghost before = accounts_view(v@);
                v.push(x);
                assert(accounts_view(v@) =~= before.push(x@));
                assert(prepend(accounts_view(v@), parse_items(s@, q as int, (n - i - 1) as nat, account_parse()))
                    == prepend(before, parse_items(s@, pos as int, (n - i) as nat, account_parse()))) by {
                    match parse_items(s@, q as int, (n - i - 1) as nat, account_parse()) {
                        None => {},
                        Some((ys, r)) => {
                            assert(before.push(x@) + ys =~= before + (seq![x@] + ys));
                        },
                    }
                }
                pos = q;
            },
        }
        i = i + 1;
    }
    assert(accounts_view(v@) + Seq::<AccountModel>::empty() =~= accounts_view(v@));
    Some((v, pos))
}

/// Reads `n` transactions from `p`.
fn read_transactions(s: &[u8], p: usize, n: usize) -> (r: Option<(Vec<TrollupTransaction>, usize)>)
    ensures
        match r {
            Some((v, q)) => parse_items(s@, p as int, n as nat, transaction_parse()) == Some((
                transactions_view(v@),
                q as int,
            )),
            None => parse_items(s@, p as int, n as nat, transaction_parse()) is None,
        },
{
    let mut v: Vec<TrollupTransaction> = Vec::new();
    let mut pos = p;
    let mut i: usize = 0;
    assert(prepend(Seq::<TransactionModel>::empty(), parse_items(s@, p as int, n as nat, transaction_parse()))
        == parse_items(s@, p as int, n as nat, transaction_parse())) by {
        match parse_items(s@, p as int, n as nat, transaction_parse()) {
            None => {},
            Some((ys, r)) => {
                assert(Seq::<TransactionModel>::empty() + ys =~= ys);
            },
        }
    }
    while i < n
        invariant
            i <= n,
            parse_items(s@, p as int, n as nat, transaction_parse()) == prepend(
                transactions_view(v@),
                parse_items(s@, pos as int, (n - i) as nat, transaction_parse()),
            ),
        decreases n - i,
    {
        match TrollupTransaction::read_at(s, pos) {
            None => {
                return None;
            },
            Some((x, q)) => {
                let ghost before = transactions_view(v@);
                v.push(x);
                assert(transactions_view(v@) =~= before.push(x@));
                assert(prepend(transactions_view(v@), parse_items(s@, q as int, (n - i - 1) as nat, transaction_parse()))
                    == prepend(before, parse_items(s@, pos as int, (n - i) as nat, transaction_parse()))) by {
                    match parse_items(s@, q as int, (n - i - 1) as nat, transaction_parse()) {
                        None => {},
                        Some((ys, r)) => {
                            assert(before.push(x@) + ys =~= before + (seq![x@] + ys));
                        },
                    }
                }
                pos = q;
            },
        }
        i = i + 1;
    }
    assert(transactions_view(v@) + Seq::<TransactionModel>::empty() =~= transactions_view(v@));
    Some((v, pos))
}

impl StateCommitmentPackage {
    /// Reads a package from its canonical byte form, which must be read whole.
    pub fn from_bytes(b: &[u8]) -> (r: Option<StateCommitmentPackage>)
        ensures
            match r {
                Some(x) => parse_package(b@) == Some(x@),
                None => parse_package(b@) is None,
            },
    {
        let (optimistic, p1) = match read_bool(b, 0) { Some(x) => x, None => return None };
        let (proof, p2) = match read_bytes(b, p1) { Some(x) => x, None => return None };
        let (public_inputs, p3) = match read_bytes(b, p2) { Some(x) => x, None => return None };
        let (verifying_key, p4) = match read_bytes(b, p3) { Some(x) => x, None => return None };
        if p4 >= b.len() {
            return None;
        }
        let (state_root, p5): (Option<[u8; 32]>, usize) = if b[p4] == 0 {
            (None, p4 + 1)
        } else if b[p4] == 1 {
            match read_array32(b, p4 + 1) {
                Some((x, q)) => (Some(x), q),
                None => {
                    return None;
                },
            }
        } else {
            return None;
        };
        let (na, q5) = match read_len(b, p5) { Some(x) => x, None => return None };
        let (state_records, p6) = match read_accounts(b, q5, na) { Some(x) => x, None => return None };
        let (nt, q6) = match read_len(b, p6) { Some(x) => x, None => return None };
        let (transactions, p7) = match read_transactions(b, q6, nt) { Some(x) => x, None => return None };
        let (transaction_ids, p8) = match read_seq32(b, p7) { Some(x) => x, None => return None };
        if p8 != b.len() {
            return None;
        }
        Some(StateCommitmentPackage {
            optimistic,
            proof,
            public_inputs,
            verifying_key,
            state_root,
            state_records,
            transactions,
            transaction_ids,
        })
    }
}

impl StateRecord for StateCommitmentPackage {
    open spec fn wf(&self) -> bool {
        &&& self.state_root is Some
        &&& self.proof@.len() <= MAX_LEN
        &&& self.public_inputs@.len() <= MAX_LEN
        &&& self.verifying_key@.len() <= MAX_LEN
        &&& self.state_records@.len() <= MAX_LEN
        &&& forall|i: int| 0 <= i < self.state_records@.len() ==> (#[trigger] self.state_records@[i]).wf()
        &&& self.transactions@.len() <= MAX_LEN
        &&& forall|i: int| 0 <= i < self.transactions@.len() ==> (#[trigger] self.transactions@[i]).wf()
        &&& self.transaction_ids@.len() <= MAX_LEN
    }

    /// The state root.
    open spec fn spec_key(&self) -> Seq<u8> {
        self.state_root.unwrap()@
    }

    open spec fn spec_bytes(&self) -> Seq<u8> {
        encode_package(self@)
    }

    fn get_key(&self) -> (r: [u8; 32]) {
        self.state_root.unwrap()
    }

    fn check_wf(&self) -> (r: bool) {
        if self.state_root.is_none() || self.public_inputs.len() > MAX_LEN
            || self.verifying_key.len() > MAX_LEN || self.transaction_ids.len() > MAX_LEN {
            return false;
        }
        crate::commitment::package_ready(self)
    }

    fn to_bytes(&self) -> (r: Vec<u8>) {
        let mut out: Vec<u8> = Vec::new();
        put_bool(&mut out, self.optimistic);
        put_bytes(&mut out, self.proof.as_slice());
        put_bytes(&mut out, self.public_inputs.as_slice());
        put_bytes(&mut out, self.verifying_key.as_slice());
        match &self.state_root {
            None => {
                out.push(0u8);
            },
            Some(x) => {
                out.push(1u8);
                put_raw(&mut out, x.as_slice());
            },
        }
        let ghost head = out@;
        assert(head =~= enc_head(self@));

        let accs = &self.state_records;
        let ghost av = accounts_view(accs@);
        put_len(&mut out, accs.len());
        let ghost mid = out@;
        let mut i: usize = 0;
        assert(av.subrange(0, 0) =~= Seq::<AccountModel>::empty());
        while i < accs.len()
            invariant
                i <= accs@.len(),
                av == accounts_view(accs@),
                *accs == self.state_records,
                self.wf(),
                out@ == mid + enc_items(av.subrange(0, i as int), account_enc()),
            decreases accs@.len() - i,
        {
            assert(accs@[i as int].wf());
            let b = accs[i].to_bytes();
            put_raw(&mut out, b.as_slice());
            proof {
                lemma_enc_items_push(av.subrange(0, i as int), av[i as int], account_enc());
            }
            assert(av.subrange(0, i as int).push(av[i as int]) =~= av.subrange(0, i + 1));
            assert(out@ =~= mid + enc_items(av.subrange(0, i + 1), account_enc()));
            i = i + 1;
        }
        assert(av.subrange(0, accs@.len() as int) =~= av);
        let ghost after_accounts = out@;
        assert(after_accounts =~= head + enc_list(av, account_enc()));

        let txs = &self.transactions;
        let ghost tv = transactions_view(txs@);
        put_len(&mut out, txs.len());
        let ghost mid2 = out@;
        let mut j: usize = 0;
        assert(tv.subrange(0, 0) =~= Seq::<TransactionModel>::empty());
        while j < txs.len()
            invariant
                j <= txs@.len(),
                tv == transactions_view(txs@),
                *txs == self.transactions,
                self.wf(),
                out@ == mid2 + enc_items(tv.subrange(0, j as int), transaction_enc()),
            decreases txs@.len() - j,
        {
            assert(txs@[j as int].wf());
            let b = txs[j].to_bytes();
            put_raw(&mut out, b.as_slice());
            proof {
                lemma_enc_items_push(tv.subrange(0, j as int), tv[j as int], transaction_enc());
            }
            assert(tv.subrange(0, j as int).push(tv[j as int]) =~= tv.subrange(0, j + 1));
            assert(out@ =~= mid2 + enc_items(tv.subrange(0, j + 1), transaction_enc()));
            j = j + 1;
        }
        assert(tv.subrange(0, txs@.len() as int) =~= tv);
        assert(out@ =~= after_accounts + enc_list(tv, transaction_enc()));
        put_seq32(&mut out, &self.transaction_ids);
        assert(out@ =~= encode_package(self@));
        out
    }
}

} // verus!
