use vstd::prelude::*;

verus! {

/// An opaque component token.
///
/// A component is identified by an address-like value that the registry only
/// ever compares for equality. The numeric identity carried here stands for
/// whatever external token a deployment uses; the surrounding (unverified)
/// entry-point layer is responsible for mapping external tokens to these
/// values one-to-one.
#[derive(Clone, Copy, PartialEq, Eq, Structural, Debug)]
pub struct Address {
    pub id: u64,
}

impl Address {
    pub fn new(id: u64) -> (a: Address)
        ensures
            a.id == id,
    {
        Address { id }
    }
}

} // verus!
