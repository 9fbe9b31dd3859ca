//! The state of one account.

use vstd::prelude::*;
use crate::codec::{
    MAX_LEN, enc_bool, enc_bytes, enc_u64, lemma_enc_sizes, lemma_parse_bool, lemma_parse_bytes,
    lemma_parse_fixed, lemma_parse_u64, lemma_split, parse_bool, parse_bytes, parse_fixed, parse_u64,
    put_bool, put_bytes, put_raw, put_u64, read_array32, read_bool, read_bytes, read_u64,
};
use crate::record::StateRecord;

verus! {

/// An account as the executor leaves it.
#[derive(Clone, Debug)]
pub struct AccountState {
    pub address: [u8; 32],
    /// Balance in the smallest unit.
    pub lamports: u64,
    pub data: Vec<u8>,
    /// The program that owns the account.
    pub owner: [u8; 32],
    /// The account holds a loaded program.
    pub executable: bool,
    /// The epoch at which the account next owes rent.
    pub rent_epoch: u64,
}

/// What an `AccountState` holds.
pub struct AccountModel {
    pub address: Seq<u8>,
    pub lamports: u64,
    pub data: Seq<u8>,
    pub owner: Seq<u8>,
    pub executable: bool,
    pub rent_epoch: u64,
}

impl View for AccountState {
    type V = AccountModel;

    open spec fn view(&self) -> AccountModel {
        AccountModel {
            address: self.address@,
            lamports: self.lamports,
            data: self.data@,
            owner: self.owner@,
            executable: self.executable,
            rent_epoch: self.rent_epoch,
        }
    }
}

/// A model that some `AccountState` has.
pub open spec fn account_model_wf(m: AccountModel) -> bool {
    m.address.len() == 32 && m.owner.len() == 32 && m.data.len() <= MAX_LEN
}

pub open spec fn encode_account(m: AccountModel) -> Seq<u8> {
    m.address + enc_u64(m.lamports) + enc_bytes(m.data) + m.owner + enc_bool(m.executable)
        + enc_u64(m.rent_epoch)
}

pub open spec fn parse_account_at(s: Seq<u8>, p: int) -> Option<(AccountModel, int)> {
    match parse_fixed(s, p, 32) {
        None => None,
        Some((address, p1)) => match parse_u64(s, p1) {
            None => None,
            Some((lamports, p2)) => match parse_bytes(s, p2) {
                None => None,
                Some((data, p3)) => match parse_fixed(s, p3, 32) {
                    None => None,
                    Some((owner, p4)) => match parse_bool(s, p4) {
                        None => None,
                        Some((executable, p5)) => match parse_u64(s, p5) {
                            None => None,
                            Some((rent_epoch, p6)) => Some((
                                AccountModel { address, lamports, data, owner, executable, rent_epoch },
                                p6,
                            )),
                        },
                    },
                },
            },
        },
    }
}

/// The account that `s` holds, all of `s` read.
pub open spec fn parse_account(s: Seq<u8>) -> Option<AccountModel> {
    match parse_account_at(s, 0) {
        Some((m, p)) => if p == s.len() { Some(m) } else { None },
        None => None,
    }
}

/// An account written at `p` in `s` reads back from there.
pub proof fn lemma_account_at(s: Seq<u8>, p: int, m: AccountModel)
    requires
        account_model_wf(m),
        0 <= p,
        p + encode_account(m).len() <= s.len(),
        s.subrange(p, p + encode_account(m).len()) == encode_account(m),
    ensures
        encode_account(m).len() == 32 + 8 + 4 + m.data.len() + 32 + 1 + 8,
        parse_account_at(s, p) == Some((m, p + encode_account(m).len())),
{
    let a = m.address;
    let l = enc_u64(m.lamports);
    let d = enc_bytes(m.data);
    let o = m.owner;
    let b = enc_bool(m.executable);
    let r = enc_u64(m.rent_epoch);
    lemma_enc_sizes(m.lamports, m.data.len());
    lemma_enc_sizes(m.rent_epoch, 0);
    lemma_split(s, p, a + l + d + o + b, r);
    lemma_split(s, p, a + l + d + o, b);
    lemma_split(s, p, a + l + d, o);
    lemma_split(s, p, a + l, d);
    lemma_split(s, p, a, l);
    let p1 = p + 32;
    let p2 = p1 + 8;
    let p3 = p2 + d.len();
    let p4 = p3 + 32;
    let p5 = p4 + 1;
    lemma_parse_fixed(s, p, a);
    lemma_parse_u64(s, p1, m.lamports);
    lemma_parse_bytes(s, p2, m.data);
    lemma_parse_fixed(s, p3, o);
    lemma_parse_bool(s, p4, m.executable);
    lemma_parse_u64(s, p5, m.rent_epoch);
}

/// Reading back a written account gives the account.
pub proof fn lemma_account_round_trip(m: AccountModel)
    requires
        account_model_wf(m),
    ensures
        parse_account(encode_account(m)) == Some(m),
{
    let s = encode_account(m);
    assert(s.subrange(0, s.len() as int) == s);
    lemma_account_at(s, 0, m);
}

impl AccountState {
    /// Reads an account from its canonical byte form, which must be read whole.
    pub fn from_bytes(b: &[u8]) -> (r: Option<AccountState>)
        ensures
            match r {
                Some(a) => parse_account(b@) == Some(a@),
                None => parse_account(b@) is None,
            },
    {
        match Self::read_at(b, 0) {
            None => None,
            Some((a, q)) => if q == b.len() { Some(a) } else { None },
        }
    }

    /// Reads an account written at `p`.
    pub fn read_at(b: &[u8], p: usize) -> (r: Option<(AccountState, usize)>)
        ensures
            match r {
                Some((a, q)) => parse_account_at(b@, p as int) == Some((a@, q as int)) && q > p,
                None => parse_account_at(b@, p as int) is None,
            },
    {
        let (address, p1) = match read_array32(b, p) { Some(x) => x, None => return None };
        let (lamports, p2) = match read_u64(b, p1) { Some(x) => x, None => return None };
        let (data, p3) = match read_bytes(b, p2) { Some(x) => x, None => return None };
        let (owner, p4) = match read_array32(b, p3) { Some(x) => x, None => return None };
        let (executable, p5) = match read_bool(b, p4) { Some(x) => x, None => return None };
        let (rent_epoch, p6) = match read_u64(b, p5) { Some(x) => x, None => return None };
        let a = AccountState { address, lamports, data, owner, executable, rent_epoch };
        Some((a, p6))
    }
}

impl StateRecord for AccountState {
    open spec fn wf(&self) -> bool {
        self.data@.len() <= MAX_LEN
    }

    open spec fn spec_key(&self) -> Seq<u8> {
        self.address@
    }

    open spec fn spec_bytes(&self) -> Seq<u8> {
        encode_account(self@)
    }

    fn get_key(&self) -> (r: [u8; 32]) {
        self.address
    }

    fn check_wf(&self) -> (r: bool) {
        self.data.len() <= MAX_LEN
    }

    fn to_bytes(&self) -> (r: Vec<u8>) {
        let mut out: Vec<u8> = Vec::new();
        put_raw(&mut out, self.address.as_slice());
        put_u64(&mut out, self.lamports);
        put_bytes(&mut out, self.data.as_slice());
        put_raw(&mut out, self.owner.as_slice());
        put_bool(&mut out, self.executable);
        put_u64(&mut out, self.rent_epoch);
        out
    }
}

} // verus!
