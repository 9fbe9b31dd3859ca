//! Byte-order conversions between the proof system's field encodings and
//! the parent chain's: each fixed-size chunk read back to front.

use vstd::prelude::*;

verus! {

/// `t` back to front.
pub open spec fn rev(t: Seq<u8>) -> Seq<u8> {
    Seq::new(t.len(), |i: int| t[t.len() - 1 - i])
}

/// `s` cut into chunks of `k` bytes, the last one possibly shorter, each
/// chunk reversed in place.
pub open spec fn reversed_chunks(s: Seq<u8>, k: nat) -> Seq<u8>
    decreases s.len(),
{
    if k == 0 || s.len() <= k {
        rev(s)
    } else {
        rev(s.subrange(0, k as int)) + reversed_chunks(s.subrange(k as int, s.len() as int), k)
    }
}

/// Appends `s[from..to]` back to front.
fn push_reversed(out: &mut Vec<u8>, s: &[u8], from: usize, to: usize)
    requires
        from <= to <= s@.len(),
    ensures
        final(out)@ == old(out)@ + rev(s@.subrange(from as int, to as int)),
{
    let ghost start = out@;
    let ghost t = s@.subrange(from as int, to as int);
    let mut j: usize = to;
    while j > from
        invariant
            from <= j <= to,
            to <= s@.len(),
            t == s@.subrange(from as int, to as int),
            out@ == start + rev(t).subrange(0, (to - j) as int),
        decreases j,
    {
        j = j - 1;
        out.push(s[j]);
        assert(rev(t).subrange(0, (to - j) as int) =~= rev(t).subrange(0, (to - j - 1) as int).push(s@[j as int]));
    }
    assert(rev(t).subrange(0, (to - from) as int) =~= rev(t));
}

/// Each `k`-byte chunk of `bytes`, the last one possibly shorter, reversed.
pub fn reverse_chunks(bytes: &[u8], k: usize) -> (r: Vec<u8>)
    requires
        k > 0,
    ensures
        r@ == reversed_chunks(bytes@, k as nat),
{
    let n = bytes.len();
    let mut out: Vec<u8> = Vec::new();
    let mut c: usize = 0;
    assert(bytes@.subrange(0, n as int) =~= bytes@);
    while c < n
        invariant
            c <= n,
            n == bytes@.len(),
            k > 0,
            reversed_chunks(bytes@, k as nat) == out@ + reversed_chunks(bytes@.subrange(c as int, n as int), k as nat),
        decreases n - c,
    {
        let ghost rest = bytes@.subrange(c as int, n as int);
        let ghost before = out@;
        if n - c <= k {
            push_reversed(&mut out, bytes, c, n);
            assert(reversed_chunks(bytes@.subrange(n as int, n as int), k as nat) =~= Seq::<u8>::empty());
            assert(out@ + Seq::<u8>::empty() =~= out@);
            c = n;
        } else {
            push_reversed(&mut out, bytes, c, c + k);
            assert(rest.subrange(0, k as int) =~= bytes@.subrange(c as int, c + k));
            assert(rest.subrange(k as int, rest.len() as int) =~= bytes@.subrange(c + k, n as int));
            assert(before + reversed_chunks(rest, k as nat) =~= out@ + reversed_chunks(bytes@.subrange(c + k, n as int), k as nat));
            c = c + k;
        }
    }
    assert(reversed_chunks(bytes@.subrange(n as int, n as int), k as nat) =~= Seq::<u8>::empty());
    assert(out@ + Seq::<u8>::empty() =~= out@);
    out
}

/// Reverses every 32-byte chunk of `input` in place.
pub fn reverse_endianness(input: &mut Vec<u8>)
    ensures
        final(input)@ == reversed_chunks(old(input)@, 32),
{
    let r = reverse_chunks(input.as_slice(), 32);
    *input = r;
}

/// Every 32-byte chunk reversed.
pub fn convert_endianness_64_to_vec(bytes: &[u8]) -> (r: Vec<u8>)
    ensures
        r@ == reversed_chunks(bytes@, 32),
{
    reverse_chunks(bytes, 32)
}

/// Every 64-byte chunk reversed.
pub fn convert_endianness_128(bytes: &[u8]) -> (r: Vec<u8>)
    ensures
        r@ == reversed_chunks(bytes@, 64),
{
    reverse_chunks(bytes, 64)
}

/// Every 32-byte chunk reversed.
pub fn change_endianness(bytes: &[u8]) -> (r: Vec<u8>)
    ensures
        r@ == reversed_chunks(bytes@, 32),
{
    reverse_chunks(bytes, 32)
}

/// The first 64 bytes of `input`, zero-filled past its end. Swapping the
/// bytes of a single byte leaves it as it is.
pub fn convert_endianness_64(input: &[u8]) -> (r: [u8; 64])
    ensures
        forall|i: int| 0 <= i < 64 ==> #[trigger] r@[i] == if i < input@.len() { input@[i] } else { 0u8 },
{
    let mut out = [0u8; 64];
    let mut i: usize = 0;
    while i < 64
        invariant
            i <= 64,
            forall|k: int| 0 <= k < i ==> #[trigger] out@[k] == if k < input@.len() { input@[k] } else { 0u8 },
            forall|k: int| i <= k < 64 ==> #[trigger] out@[k] == 0u8,
        decreases 64 - i,
    {
        if i < input.len() {
            out[i] = input[i];
        }
        i = i + 1;
    }
    out
}

/// The first 32 bytes of `input`, zero-filled past its end.
pub fn convert_endianness_32(input: &[u8]) -> (r: [u8; 32])
    ensures
        forall|i: int| 0 <= i < 32 ==> #[trigger] r@[i] == if i < input@.len() { input@[i] } else { 0u8 },
{
    let mut out = [0u8; 32];
    let mut i: usize = 0;
    while i < 32
        invariant
            i <= 32,
            forall|k: int| 0 <= k < i ==> #[trigger] out@[k] == if k < input@.len() { input@[k] } else { 0u8 },
            forall|k: int| i <= k < 32 ==> #[trigger] out@[k] == 0u8,
        decreases 32 - i,
    {
        if i < input.len() {
            out[i] = input[i];
        }
        i = i + 1;
    }
    out
}

} // verus!
