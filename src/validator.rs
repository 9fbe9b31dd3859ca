//! How a state root travels to the validator: base64url in the request path.

use vstd::prelude::*;
use crate::watcher::opt_bytes;

verus! {

/// The padded URL-safe base64 text of `b`.
pub uninterp spec fn base64_url_of(b: Seq<u8>) -> Seq<char>;

/// The bytes that `s` encodes in padded URL-safe base64, if it is valid.
pub uninterp spec fn base64_url_decoded(s: Seq<char>) -> Option<Seq<u8>>;

/// Relies on `base64::engine::general_purpose::URL_SAFE.encode`: the padded
/// URL-safe base64 text of the 32 bytes, 44 characters long.
#[verifier::external_body]
fn encode_base64_url(b: &[u8; 32]) -> (r: String)
    ensures
        r@ == base64_url_of(b@),
        r@.len() == 44,
{
    base64::Engine::encode(&base64::engine::general_purpose::URL_SAFE, b)
}

/// Relies on `base64::engine::general_purpose::URL_SAFE.decode`: the bytes
/// `s` encodes, or an error when `s` is not valid padded URL-safe base64.
#[verifier::external_body]
fn decode_base64_url(s: &str) -> (r: Option<Vec<u8>>)
    ensures
        opt_bytes(r) == base64_url_decoded(s@),
{
    base64::Engine::decode(&base64::engine::general_purpose::URL_SAFE, s).ok()
}

/// The path segment that names `root`: `POST /prove/{segment}` to the
/// validator, `GET /get-pending-commitments/{segment}` on the node.
pub fn state_root_segment(root: &[u8; 32]) -> (r: String)
    ensures
        r@ == base64_url_of(root@),
        r@.len() == 44,
{
    encode_base64_url(root)
}

/// The state root a path segment names: it must decode to exactly 32 bytes.
pub fn state_root_from_segment(segment: &str) -> (r: Option<[u8; 32]>)
    ensures
        match r {
            Some(root) => base64_url_decoded(segment@) == Some(root@),
            None => match base64_url_decoded(segment@) {
                Some(d) => d.len() != 32,
                None => true,
            },
        },
{
    match decode_base64_url(segment) {
        None => None,
        Some(d) => {
            if d.len() != 32 {
                return None;
            }
            let mut a = [0u8; 32];
            let mut i: usize = 0;
            while i < 32
                invariant
                    i <= 32,
                    d@.len() == 32,
                    forall|k: int| 0 <= k < i ==> a@[k] == d@[k],
                decreases 32 - i,
            {
                a[i] = d[i];
                i = i + 1;
            }
            assert(a@ =~= d@);
            Some(a)
        },
    }
}

} // verus!
