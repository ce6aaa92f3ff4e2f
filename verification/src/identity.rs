use vstd::prelude::*;

verus! {

/// One ledger identity (a 256-bit account key), held as four 64-bit words in
/// little-endian order of significance.  The core only ever compares
/// identities for equality; the runtime converts its own key type to and from
/// these words.
#[derive(Clone, Copy, PartialEq, Eq, Structural, Debug)]
pub struct Identity {
    pub w0: u64,
    pub w1: u64,
    pub w2: u64,
    pub w3: u64,
}

impl Identity {
    pub fn new(w0: u64, w1: u64, w2: u64, w3: u64) -> (r: Identity)
        ensures
            r == (Identity { w0, w1, w2, w3 }),
    {
        Identity { w0, w1, w2, w3 }
    }
}

} // verus!
