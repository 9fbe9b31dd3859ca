//! Records kept in a state store: each has a 32-byte key and a canonical
//! byte form.

use vstd::prelude::*;

verus! {

/// A record of a key-value store: the key it is stored under and the bytes
/// it is stored and hashed as.
pub trait StateRecord: Sized {
    /// The record can be written: every length fits its 32-bit prefix, and
    /// whatever its key is read from exists.
    spec fn wf(&self) -> bool;

    /// The key the record is stored under.
    spec fn spec_key(&self) -> Seq<u8>;

    /// The canonical byte form of the record.
    spec fn spec_bytes(&self) -> Seq<u8>;

    fn get_key(&self) -> (r: [u8; 32])
        requires
            self.wf(),
        ensures
            r@ == self.spec_key(),
    ;

    fn to_bytes(&self) -> (r: Vec<u8>)
        requires
            self.wf(),
        ensures
            r@ == self.spec_bytes(),
    ;

    /// Whether the record can be written.
    fn check_wf(&self) -> (r: bool)
        ensures
            r == self.wf(),
    ;
}

} // verus!
