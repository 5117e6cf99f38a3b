use vstd::prelude::*;

verus! {

/// The fatal failures an operation can surface.
///
/// Expected non-results (registering an address that already owns a bit,
/// unregistering an absent address, removing an absent system) are not
/// errors; they are ordinary return values or silent no-ops.
#[derive(Clone, Copy, PartialEq, Eq, Structural, Debug)]
pub enum Error {
    /// The world has not been created yet, so there is nothing to read.
    NoWorld,
    /// No register exists yet: nothing has ever been registered, so there
    /// is nothing to unregister from.
    NoRegister,
    /// The register's fixed-width bitmap has no unassigned bit left, so no
    /// further component can be registered.
    RegisterFull,
}

} // verus!
