use vstd::prelude::*;

verus! {

/// A clonable unique token; no two `Unique`s created with `Unique::new` in
/// one process can be equal, but a `Unique` and its clone will always be
/// equal.
#[derive(Clone, Debug, PartialEq, Eq, Structural, Hash)]
pub struct Unique {
    id: u64,
}

/// Relies on `uid::IdU64::new` and `uid::IdU64::get`: each call draws the
/// next value from a process-wide atomic counter that starts at 1, so no two
/// calls in one process return the same value. The call aborts only if that
/// counter overflows its 64 bits.
#[verifier::external_body]
fn fresh_id() -> (r: u64)
    ensures
        r != 0,
{
    uid::IdU64::<()>::new().get()
}

impl Unique {
    /// Create a new `Unique`, distinct at run time from every other one this
    /// process has created. The distinctness rests on a process-wide
    /// counter; it cannot be stated as a contract, since no contract relates
    /// two separate calls.
    pub fn new() -> (r: Unique)
    {
        Unique { id: fresh_id() }
    }
}

} // verus!
