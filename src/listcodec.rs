//! Sequences of variable-size items: a 32-bit count, then each item's own
//! encoding in order.

use vstd::prelude::*;
use crate::codec::{enc_len, lemma_enc_sizes, lemma_parse_len, lemma_split, parse_len, MAX_LEN};

verus! {

/// The encodings of `items`, laid end to end.
pub open spec fn enc_items<A>(items: Seq<A>, enc: spec_fn(A) -> Seq<u8>) -> Seq<u8>
    decreases items.len(),
{
    if items.len() == 0 {
        Seq::empty()
    } else {
        enc(items[0]) + enc_items(items.drop_first(), enc)
    }
}

pub open spec fn enc_list<A>(items: Seq<A>, enc: spec_fn(A) -> Seq<u8>) -> Seq<u8> {
    enc_len(items.len()) + enc_items(items, enc)
}

/// Reads `n` items one after the other from `p`.
pub open spec fn parse_items<A>(
    s: Seq<u8>,
    p: int,
    n: nat,
    parse: spec_fn(Seq<u8>, int) -> Option<(A, int)>,
) -> Option<(Seq<A>, int)>
    decreases n,
{
    if n == 0 {
        Some((Seq::empty(), p))
    } else {
        match parse(s, p) {
            None => None,
            Some((x, q)) => if q > p {
                match parse_items(s, q, (n - 1) as nat, parse) {
                    None => None,
                    Some((xs, r)) => Some((seq![x] + xs, r)),
                }
            } else {
                None
            },
        }
    }
}

pub open spec fn parse_list<A>(
    s: Seq<u8>,
    p: int,
    parse: spec_fn(Seq<u8>, int) -> Option<(A, int)>,
) -> Option<(Seq<A>, int)> {
    match parse_len(s, p) {
        None => None,
        Some((n, q)) => parse_items(s, q, n, parse),
    }
}

/// `parse` reads back what `enc` wrote for `x`, wherever it stands, and the
/// encoding is at least one byte.
pub open spec fn reads_back_one<A>(
    x: A,
    enc: spec_fn(A) -> Seq<u8>,
    parse: spec_fn(Seq<u8>, int) -> Option<(A, int)>,
) -> bool {
    &&& enc(x).len() > 0
    &&& forall|s: Seq<u8>, p: int|
        0 <= p && p + enc(x).len() <= s.len() && s.subrange(p, p + enc(x).len()) == enc(x)
            ==> #[trigger] parse(s, p) == Some((x, p + enc(x).len()))
}

pub open spec fn reads_back<A>(
    items: Seq<A>,
    enc: spec_fn(A) -> Seq<u8>,
    parse: spec_fn(Seq<u8>, int) -> Option<(A, int)>,
) -> bool {
    forall|i: int| 0 <= i < items.len() ==> #[trigger] reads_back_one(items[i], enc, parse)
}

pub proof fn lemma_parse_items<A>(
    s: Seq<u8>,
    p: int,
    items: Seq<A>,
    enc: spec_fn(A) -> Seq<u8>,
    parse: spec_fn(Seq<u8>, int) -> Option<(A, int)>,
)
    requires
        reads_back(items, enc, parse),
        0 <= p,
        p + enc_items(items, enc).len() <= s.len(),
        s.subrange(p, p + enc_items(items, enc).len()) == enc_items(items, enc),
    ensures
        parse_items(s, p, items.len(), parse) == Some((items, p + enc_items(items, enc).len())),
    decreases items.len(),
{
    if items.len() > 0 {
        let x = items[0];
        let rest = items.drop_first();
        lemma_split(s, p, enc(x), enc_items(rest, enc));
        assert(reads_back_one(items[0], enc, parse));
        assert(parse(s, p) == Some((items[0], p + enc(items[0]).len())));
        assert(reads_back_one(items[0], enc, parse));
        assert(reads_back(rest, enc, parse)) by {
            assert forall|i: int| 0 <= i < rest.len() implies #[trigger] reads_back_one(
                rest[i],
                enc,
                parse,
            ) by {
                assert(rest[i] == items[i + 1]);
            }
        }
        lemma_parse_items(s, p + enc(x).len(), rest, enc, parse);
        assert(seq![x] + rest =~= items);
    }
}

pub proof fn lemma_parse_list<A>(
    s: Seq<u8>,
    p: int,
    items: Seq<A>,
    enc: spec_fn(A) -> Seq<u8>,
    parse: spec_fn(Seq<u8>, int) -> Option<(A, int)>,
)
    requires
        reads_back(items, enc, parse),
        items.len() <= MAX_LEN,
        0 <= p,
        p + enc_list(items, enc).len() <= s.len(),
        s.subrange(p, p + enc_list(items, enc).len()) == enc_list(items, enc),
    ensures
        enc_list(items, enc).len() == 4 + enc_items(items, enc).len(),
        parse_list(s, p, parse) == Some((items, p + enc_list(items, enc).len())),
{
    lemma_enc_sizes(0, items.len());
    lemma_split(s, p, enc_len(items.len()), enc_items(items, enc));
    lemma_parse_len(s, p, items.len());
    lemma_parse_items(s, p + 4, items, enc, parse);
}

/// Writing one more item extends the written bytes by its encoding.
pub proof fn lemma_enc_items_push<A>(items: Seq<A>, x: A, enc: spec_fn(A) -> Seq<u8>)
    ensures
        enc_items(items.push(x), enc) == enc_items(items, enc) + enc(x),
    decreases items.len(),
{
    if items.len() == 0 {
        assert(items.push(x).drop_first() =~= Seq::<A>::empty());
        assert(items.push(x)[0] == x);
        assert(enc_items(Seq::<A>::empty(), enc) == Seq::<u8>::empty());
        assert(enc(x) + Seq::<u8>::empty() =~= enc(x));
        assert(enc_items(items, enc) == Seq::<u8>::empty());
        assert(enc_items(items.push(x), enc) =~= enc_items(items, enc) + enc(x));
    } else {
        lemma_enc_items_push(items.drop_first(), x, enc);
        assert(items.push(x).drop_first() =~= items.drop_first().push(x));
        assert(enc_items(items.push(x), enc) =~= enc_items(items, enc) + enc(x));
    }
}

/// Unfolds `parse_items` at the end: `n + 1` items are `n` items and one more.
pub proof fn lemma_parse_items_step<A>(
    s: Seq<u8>,
    p: int,
    n: nat,
    parse: spec_fn(Seq<u8>, int) -> Option<(A, int)>,
    xs: Seq<A>,
    q: int,
)
    requires
        parse_items(s, p, n, parse) == Some((xs, q)),
    ensures
        parse_items(s, p, n + 1, parse) == match parse(s, q) {
            None => None,
            Some((x, r)) => if r > q {
                Some((xs.push(x), r))
            } else {
                None
            },
        },
    decreases n,
{
    if n > 0 {
        let (x0, q0) = parse(s, p).unwrap();
        let (xs1, r1) = parse_items(s, q0, (n - 1) as nat, parse).unwrap();
        lemma_parse_items_step(s, q0, (n - 1) as nat, parse, xs1, q);
        match parse(s, q) {
            None => {},
            Some((x, r)) => {
                assert(seq![x0] + xs1.push(x) =~= (seq![x0] + xs1).push(x));
            },
        }
    } else {
        match parse(s, q) {
            None => {},
            Some((x, r)) => {
                assert(seq![x] + Seq::<A>::empty() =~= Seq::<A>::empty().push(x));
                assert(parse_items(s, r, 0, parse) == Some((Seq::<A>::empty(), r)));
            },
        }
    }
}

} // verus!
