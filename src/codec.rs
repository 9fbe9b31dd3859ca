//! The persisted record format: little-endian fixed-width integers, one byte
//! for a flag, 32-bit little-endian length prefixes before byte vectors and
//! sequences, fixed-size byte arrays written as they are.

use vstd::prelude::*;
use vstd::bytes::{
    spec_u32_from_le_bytes, spec_u32_to_le_bytes, spec_u64_from_le_bytes, spec_u64_to_le_bytes,
    u32_from_le_bytes, u32_to_le_bytes, u64_from_le_bytes, u64_to_le_bytes,
    lemma_auto_spec_u32_to_from_le_bytes, lemma_auto_spec_u64_to_from_le_bytes,
};
use vstd::slice::{slice_subrange, slice_to_vec};

verus! {

/// Largest length a 32-bit prefix can state.
pub const MAX_LEN: usize = 0xffff_ffff;

pub open spec fn enc_u64(x: u64) -> Seq<u8> {
    spec_u64_to_le_bytes(x)
}

pub open spec fn enc_len(n: nat) -> Seq<u8> {
    spec_u32_to_le_bytes(n as u32)
}

pub open spec fn enc_bool(b: bool) -> Seq<u8> {
    seq![if b { 1u8 } else { 0u8 }]
}

/// A byte vector: its length, then its bytes.
pub open spec fn enc_bytes(b: Seq<u8>) -> Seq<u8> {
    enc_len(b.len()) + b
}

/// The pieces of `ks` laid end to end.
pub open spec fn flat(ks: Seq<Seq<u8>>) -> Seq<u8>
    decreases ks.len(),
{
    if ks.len() == 0 {
        Seq::empty()
    } else {
        flat(ks.drop_last()) + ks.last()
    }
}

/// A sequence of fixed-size values: their count, then each one in order.
pub open spec fn enc_seq(ks: Seq<Seq<u8>>) -> Seq<u8> {
    enc_len(ks.len()) + flat(ks)
}

/// Every element of `ks` is `k` bytes long.
pub open spec fn all_len(ks: Seq<Seq<u8>>, k: nat) -> bool {
    forall|i: int| 0 <= i < ks.len() ==> (#[trigger] ks[i]).len() == k
}

// ---------------------------------------------------------------- reading

pub open spec fn parse_u64(s: Seq<u8>, p: int) -> Option<(u64, int)> {
    if 0 <= p && p + 8 <= s.len() {
        Some((spec_u64_from_le_bytes(s.subrange(p, p + 8)), p + 8))
    } else {
        None
    }
}

pub open spec fn parse_len(s: Seq<u8>, p: int) -> Option<(nat, int)> {
    if 0 <= p && p + 4 <= s.len() {
        Some((spec_u32_from_le_bytes(s.subrange(p, p + 4)) as nat, p + 4))
    } else {
        None
    }
}

/// A flag is the byte 0 or 1; any other byte is malformed.
pub open spec fn parse_bool(s: Seq<u8>, p: int) -> Option<(bool, int)> {
    if 0 <= p && p + 1 <= s.len() && (s[p] == 0 || s[p] == 1) {
        Some((s[p] == 1, p + 1))
    } else {
        None
    }
}

pub open spec fn parse_fixed(s: Seq<u8>, p: int, k: nat) -> Option<(Seq<u8>, int)> {
    if 0 <= p && p + k <= s.len() {
        Some((s.subrange(p, p + k), p + k))
    } else {
        None
    }
}

pub open spec fn parse_bytes(s: Seq<u8>, p: int) -> Option<(Seq<u8>, int)> {
    match parse_len(s, p) {
        Some((n, q)) => parse_fixed(s, q, n),
        None => None,
    }
}

pub open spec fn parse_seq(s: Seq<u8>, p: int, k: nat) -> Option<(Seq<Seq<u8>>, int)> {
    match parse_len(s, p) {
        Some((n, q)) => if q + k * n <= s.len() {
            Some((Seq::new(n, |i: int| s.subrange(q + k * i, q + k * i + k)), q + k * n))
        } else {
            None
        },
        None => None,
    }
}

// ---------------------------------------------------------------- lemmas

/// Where `a + b` stands in `s` at `p`, `a` stands at `p` and `b` right after it.
pub proof fn lemma_split(s: Seq<u8>, p: int, a: Seq<u8>, b: Seq<u8>)
    requires
        0 <= p,
        p + a.len() + b.len() <= s.len(),
        s.subrange(p, p + a.len() + b.len()) == a + b,
    ensures
        s.subrange(p, p + a.len()) == a,
        s.subrange(p + a.len(), p + a.len() + b.len()) == b,
{
    assert(s.subrange(p, p + a.len()) =~= (a + b).subrange(0, a.len() as int));
    assert(s.subrange(p + a.len(), p + a.len() + b.len()) =~= (a + b).subrange(
        a.len() as int,
        (a.len() + b.len()) as int,
    ));
    assert((a + b).subrange(0, a.len() as int) =~= a);
    assert((a + b).subrange(a.len() as int, (a.len() + b.len()) as int) =~= b);
}

pub proof fn lemma_parse_u64(s: Seq<u8>, p: int, x: u64)
    requires
        0 <= p,
        p + 8 <= s.len(),
        s.subrange(p, p + 8) == enc_u64(x),
    ensures
        enc_u64(x).len() == 8,
        parse_u64(s, p) == Some((x, p + 8)),
{
    lemma_auto_spec_u64_to_from_le_bytes();
}

pub proof fn lemma_parse_len(s: Seq<u8>, p: int, n: nat)
    requires
        n <= MAX_LEN,
        0 <= p,
        p + 4 <= s.len(),
        s.subrange(p, p + 4) == enc_len(n),
    ensures
        parse_len(s, p) == Some((n, p + 4)),
{
    lemma_auto_spec_u32_to_from_le_bytes();
    let x = n as u32;
    assert(x as nat == n);
    assert(spec_u32_to_le_bytes(x).len() == 4);
    assert(spec_u32_from_le_bytes(spec_u32_to_le_bytes(x)) == x);
    assert(s.subrange(p, p + 4) == spec_u32_to_le_bytes(x));
}

pub proof fn lemma_enc_sizes(x: u64, n: nat)
    ensures
        enc_u64(x).len() == 8,
        enc_len(n).len() == 4,
{
    lemma_auto_spec_u32_to_from_le_bytes();
    assert(spec_u32_to_le_bytes(n as u32).len() == 4);
    lemma_auto_spec_u64_to_from_le_bytes();
}

pub proof fn lemma_parse_bool(s: Seq<u8>, p: int, b: bool)
    requires
        0 <= p,
        p + 1 <= s.len(),
        s.subrange(p, p + 1) == enc_bool(b),
    ensures
        parse_bool(s, p) == Some((b, p + 1)),
{
    assert(s[p] == s.subrange(p, p + 1)[0]);
}

pub proof fn lemma_parse_fixed(s: Seq<u8>, p: int, b: Seq<u8>)
    requires
        0 <= p,
        p + b.len() <= s.len(),
        s.subrange(p, p + b.len()) == b,
    ensures
        parse_fixed(s, p, b.len()) == Some((b, p + b.len())),
{
}

pub proof fn lemma_parse_bytes(s: Seq<u8>, p: int, b: Seq<u8>)
    requires
        b.len() <= MAX_LEN,
        0 <= p,
        p + enc_bytes(b).len() <= s.len(),
        s.subrange(p, p + enc_bytes(b).len()) == enc_bytes(b),
    ensures
        enc_bytes(b).len() == 4 + b.len(),
        parse_bytes(s, p) == Some((b, p + 4 + b.len())),
{
    lemma_enc_sizes(0, b.len());
    lemma_split(s, p, enc_len(b.len()), b);
    lemma_parse_len(s, p, b.len());
}

/// The length of `flat(ks)`, and where each piece stands in it.
pub proof fn lemma_flat(ks: Seq<Seq<u8>>, k: nat)
    requires
        all_len(ks, k),
    ensures
        flat(ks).len() == k * ks.len(),
        forall|i: int|
            0 <= i < ks.len() ==> flat(ks).subrange(k * i, k * i + k) == #[trigger] ks[i],
    decreases ks.len(),
{
    if ks.len() > 0 {
        let init = ks.drop_last();
        assert(all_len(init, k)) by {
            assert forall|i: int| 0 <= i < init.len() implies (#[trigger] init[i]).len() == k by {
                assert(init[i] == ks[i]);
            }
        }
        lemma_flat(init, k);
        let n = ks.len() as int;
        assert(k * n == k * (n - 1) + k) by (nonlinear_arith);
        assert forall|i: int| 0 <= i < ks.len() implies flat(ks).subrange(k * i, k * i + k)
            == #[trigger] ks[i] by {
            if i < n - 1 {
                assert(k * i + k <= k * (n - 1)) by (nonlinear_arith)
                    requires i < n - 1, 0 <= i;
                assert(0 <= k * i) by (nonlinear_arith) requires 0 <= i;
                assert(init[i] == ks[i]);
                assert(flat(ks).subrange(k * i, k * i + k) =~= flat(init).subrange(k * i, k * i + k));
            } else {
                assert(i == n - 1);
                assert(flat(ks).subrange(k * i, k * i + k) =~= ks.last());
            }
        }
    }
}

pub proof fn lemma_parse_seq(s: Seq<u8>, p: int, ks: Seq<Seq<u8>>, k: nat)
    requires
        all_len(ks, k),
        ks.len() <= MAX_LEN,
        0 <= p,
        p + enc_seq(ks).len() <= s.len(),
        s.subrange(p, p + enc_seq(ks).len()) == enc_seq(ks),
    ensures
        enc_seq(ks).len() == 4 + k * ks.len(),
        parse_seq(s, p, k) == Some((ks, p + 4 + k * ks.len())),
{
    lemma_enc_sizes(0, ks.len());
    lemma_flat(ks, k);
    lemma_split(s, p, enc_len(ks.len()), flat(ks));
    lemma_parse_len(s, p, ks.len());
    let q = p + 4;
    let got = Seq::new(ks.len(), |i: int| s.subrange(q + k * i, q + k * i + k));
    assert forall|i: int| 0 <= i < ks.len() implies #[trigger] got[i] == ks[i] by {
        assert(0 <= k * i) by (nonlinear_arith) requires 0 <= i;
        assert(k * i + k <= k * ks.len()) by (nonlinear_arith) requires i < ks.len();
        assert(got[i] =~= flat(ks).subrange(k * i, k * i + k));
    }
    assert(got =~= ks);
}

// ---------------------------------------------------------------- writing

pub fn put_u64(out: &mut Vec<u8>, x: u64)
    ensures
        final(out)@ == old(out)@ + enc_u64(x),
{
    let mut b = u64_to_le_bytes(x);
    out.append(&mut b);
}

pub fn put_len(out: &mut Vec<u8>, n: usize)
    requires
        n <= MAX_LEN,
    ensures
        final(out)@ == old(out)@ + enc_len(n as nat),
{
    let mut b = u32_to_le_bytes(n as u32);
    out.append(&mut b);
}

pub fn put_bool(out: &mut Vec<u8>, b: bool)
    ensures
        final(out)@ == old(out)@ + enc_bool(b),
{
    out.push(if b { 1u8 } else { 0u8 });
}

/// Appends the bytes as they are.
pub fn put_raw(out: &mut Vec<u8>, b: &[u8])
    ensures
        final(out)@ == old(out)@ + b@,
{
    let ghost start = out@;
    let mut i: usize = 0;
    while i < b.len()
        invariant
            i <= b@.len(),
            out@ == start + b@.subrange(0, i as int),
        decreases b@.len() - i,
    {
        out.push(b[i]);
        i = i + 1;
    }
    assert(b@.subrange(0, b@.len() as int) == b@);
}

pub fn put_bytes(out: &mut Vec<u8>, b: &[u8])
    requires
        b@.len() <= MAX_LEN,
    ensures
        final(out)@ == old(out)@ + enc_bytes(b@),
{
    let ghost start = out@;
    put_len(out, b.len());
    put_raw(out, b);
    assert(out@ =~= start + enc_bytes(b@));
}

/// Appends a sequence of 32-byte values.
pub fn put_seq32(out: &mut Vec<u8>, ks: &Vec<[u8; 32]>)
    requires
        ks@.len() <= MAX_LEN,
    ensures
        final(out)@ == old(out)@ + enc_seq(crate::merkle::digests(ks@)),
{
    let ghost start = out@;
    let ghost d = crate::merkle::digests(ks@);
    put_len(out, ks.len());
    let mut i: usize = 0;
    while i < ks.len()
        invariant
            i <= ks@.len(),
            d == crate::merkle::digests(ks@),
            out@ == start + enc_len(ks@.len()) + flat(d.subrange(0, i as int)),
        decreases ks@.len() - i,
    {
        let ghost before = out@;
        put_raw(out, ks[i].as_slice());
        assert(d.subrange(0, i + 1).drop_last() =~= d.subrange(0, i as int));
        assert(out@ =~= start + enc_len(ks@.len()) + flat(d.subrange(0, i + 1)));
        i = i + 1;
    }
    assert(d.subrange(0, ks@.len() as int) =~= d);
    assert(out@ =~= start + enc_seq(d));
}

/// Appends a sequence of 64-byte values.
pub fn put_seq64(out: &mut Vec<u8>, ks: &Vec<[u8; 64]>)
    requires
        ks@.len() <= MAX_LEN,
    ensures
        final(out)@ == old(out)@ + enc_seq(sigs_view(ks@)),
{
    let ghost start = out@;
    let ghost d = sigs_view(ks@);
    put_len(out, ks.len());
    let mut i: usize = 0;
    while i < ks.len()
        invariant
            i <= ks@.len(),
            d == sigs_view(ks@),
            out@ == start + enc_len(ks@.len()) + flat(d.subrange(0, i as int)),
        decreases ks@.len() - i,
    {
        put_raw(out, ks[i].as_slice());
        assert(d.subrange(0, i + 1).drop_last() =~= d.subrange(0, i as int));
        assert(out@ =~= start + enc_len(ks@.len()) + flat(d.subrange(0, i + 1)));
        i = i + 1;
    }
    assert(d.subrange(0, ks@.len() as int) =~= d);
    assert(out@ =~= start + enc_seq(d));
}

/// The views of a sequence of 64-byte values.
pub open spec fn sigs_view(v: Seq<[u8; 64]>) -> Seq<Seq<u8>> {
    Seq::new(v.len(), |i: int| v[i]@)
}

// ---------------------------------------------------------------- exec reading

pub fn read_u64(s: &[u8], p: usize) -> (r: Option<(u64, usize)>)
    ensures
        match r {
            Some((x, q)) => parse_u64(s@, p as int) == Some((x, q as int)),
            None => parse_u64(s@, p as int) is None,
        },
{
    if p <= s.len() && s.len() - p >= 8 {
        let x = u64_from_le_bytes(slice_subrange(s, p, p + 8));
        Some((x, p + 8))
    } else {
        None
    }
}

pub fn read_len(s: &[u8], p: usize) -> (r: Option<(usize, usize)>)
    ensures
        match r {
            Some((n, q)) => parse_len(s@, p as int) == Some((n as nat, q as int)),
            None => parse_len(s@, p as int) is None,
        },
{
    if p <= s.len() && s.len() - p >= 4 {
        let n = u32_from_le_bytes(slice_subrange(s, p, p + 4));
        Some((n as usize, p + 4))
    } else {
        None
    }
}

pub fn read_bool(s: &[u8], p: usize) -> (r: Option<(bool, usize)>)
    ensures
        match r {
            Some((b, q)) => parse_bool(s@, p as int) == Some((b, q as int)),
            None => parse_bool(s@, p as int) is None,
        },
{
    if p < s.len() && (s[p] == 0 || s[p] == 1) {
        Some((s[p] == 1, p + 1))
    } else {
        None
    }
}

pub fn read_array32(s: &[u8], p: usize) -> (r: Option<([u8; 32], usize)>)
    ensures
        match r {
            Some((a, q)) => parse_fixed(s@, p as int, 32) == Some((a@, q as int)),
            None => parse_fixed(s@, p as int, 32) is None,
        },
{
    let len = s.len();
    if p <= len && len - p >= 32 {
        let mut a = [0u8; 32];
        let mut i: usize = 0;
        while i < 32
            invariant
                i <= 32,
                len == s@.len(),
                p + 32 <= len,
                forall|k: int| 0 <= k < i ==> a@[k] == s@[p + k],
            decreases 32 - i,
        {
            a[i] = s[p + i];
            i = i + 1;
        }
        assert(a@ =~= s@.subrange(p as int, p + 32));
        Some((a, p + 32))
    } else {
        None
    }
}

pub fn read_array64(s: &[u8], p: usize) -> (r: Option<([u8; 64], usize)>)
    ensures
        match r {
            Some((a, q)) => parse_fixed(s@, p as int, 64) == Some((a@, q as int)),
            None => parse_fixed(s@, p as int, 64) is None,
        },
{
    let len = s.len();
    if p <= len && len - p >= 64 {
        let mut a = [0u8; 64];
        let mut i: usize = 0;
        while i < 64
            invariant
                i <= 64,
                len == s@.len(),
                p + 64 <= len,
                forall|k: int| 0 <= k < i ==> a@[k] == s@[p + k],
            decreases 64 - i,
        {
            a[i] = s[p + i];
            i = i + 1;
        }
        assert(a@ =~= s@.subrange(p as int, p + 64));
        Some((a, p + 64))
    } else {
        None
    }
}

pub fn read_bytes(s: &[u8], p: usize) -> (r: Option<(Vec<u8>, usize)>)
    ensures
        match r {
            Some((b, q)) => parse_bytes(s@, p as int) == Some((b@, q as int)),
            None => parse_bytes(s@, p as int) is None,
        },
{
    match read_len(s, p) {
        None => None,
        Some((n, q)) => {
            if q <= s.len() && s.len() - q >= n {
                let b = slice_to_vec(slice_subrange(s, q, q + n));
                Some((b, q + n))
            } else {
                None
            }
        },
    }
}

pub fn read_seq32(s: &[u8], p: usize) -> (r: Option<(Vec<[u8; 32]>, usize)>)
    ensures
        match r {
            Some((v, q)) => parse_seq(s@, p as int, 32) == Some((
                crate::merkle::digests(v@),
                q as int,
            )),
            None => parse_seq(s@, p as int, 32) is None,
        },
{
    let len = s.len();
    match read_len(s, p) {
        None => None,
        Some((n, q)) => {
            if q > s.len() || n > (s.len() - q) / 32 {
                assert(q + 32 * n > s@.len()) by (nonlinear_arith)
                    requires q > s@.len() || n > (s@.len() - q) / 32, q >= 0, n >= 0;
                return None;
            }
            assert(q + 32 * n <= s@.len()) by (nonlinear_arith)
                requires n <= (s@.len() - q) / 32, q <= s@.len();
            let ghost want = Seq::new(
                n as nat,
                |i: int| s@.subrange(q + 32 * i, q + 32 * i + 32),
            );
            let mut v: Vec<[u8; 32]> = Vec::new();
            let mut i: usize = 0;
            while i < n
                invariant
                    i <= n,
                    q + 32 * n <= s@.len(),
                    len == s@.len(),
                    want.len() == n,
                    want == Seq::new(n as nat, |i: int| s@.subrange(q + 32 * i, q + 32 * i + 32)),
                    v@.len() == i,
                    forall|k: int| 0 <= k < i ==> #[trigger] v@[k]@ == want[k],
                decreases n - i,
            {
                assert(q + 32 * i + 32 <= q + 32 * n) by (nonlinear_arith)
                    requires i < n;
                assert(q + 32 * i + 32 <= len);
                match read_array32(s, q + 32 * i) {
                    Some((a, _)) => {
                        v.push(a);
                    },
                    None => {
                        return None;
                    },
                }
                i = i + 1;
            }
            assert(crate::merkle::digests(v@) =~= want);
            Some((v, q + 32 * n))
        },
    }
}

pub fn read_seq64(s: &[u8], p: usize) -> (r: Option<(Vec<[u8; 64]>, usize)>)
    ensures
        match r {
            Some((v, q)) => parse_seq(s@, p as int, 64) == Some((sigs_view(v@), q as int)),
            None => parse_seq(s@, p as int, 64) is None,
        },
{
    let len = s.len();
    match read_len(s, p) {
        None => None,
        Some((n, q)) => {
            if q > s.len() || n > (s.len() - q) / 64 {
                assert(q + 64 * n > s@.len()) by (nonlinear_arith)
                    requires q > s@.len() || n > (s@.len() - q) / 64, q >= 0, n >= 0;
                return None;
            }
            assert(q + 64 * n <= s@.len()) by (nonlinear_arith)
                requires n <= (s@.len() - q) / 64, q <= s@.len();
            let ghost want = Seq::new(
                n as nat,
                |i: int| s@.subrange(q + 64 * i, q + 64 * i + 64),
            );
            let mut v: Vec<[u8; 64]> = Vec::new();
            let mut i: usize = 0;
            while i < n
                invariant
                    i <= n,
                    q + 64 * n <= s@.len(),
                    len == s@.len(),
                    want.len() == n,
                    want == Seq::new(n as nat, |i: int| s@.subrange(q + 64 * i, q + 64 * i + 64)),
                    v@.len() == i,
                    forall|k: int| 0 <= k < i ==> #[trigger] v@[k]@ == want[k],
                decreases n - i,
            {
                assert(q + 64 * i + 64 <= q + 64 * n) by (nonlinear_arith)
                    requires i < n;
                assert(q + 64 * i + 64 <= len);
                match read_array64(s, q + 64 * i) {
                    Some((a, _)) => {
                        v.push(a);
                    },
                    None => {
                        return None;
                    },
                }
                i = i + 1;
            }
            assert(sigs_view(v@) =~= want);
            Some((v, q + 64 * n))
        },
    }
}

} // verus!
