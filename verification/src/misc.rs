use vstd::prelude::*;

verus! {

/// Implemented by ``ConstEval<true>``.
pub trait IsTrue {}

/// Implemented by ``ConstEval<false>``.
pub trait IsFalse {}

/// Implements ``IsTrue`` for ``ConstEval<true>``, and ``IsFalse`` for
/// ``ConstEval<false>``. Useful for gating generic items on boolean
/// compile-time conditions.
pub struct ConstEval<const CONDITION: bool>;

impl IsTrue for ConstEval<true> {}

impl IsFalse for ConstEval<false> {}

/// Returns a non-zero value. Callers must establish that `N` is non-zero,
/// which Verus checks statically.
pub fn nonzero_usize<const N: usize>() -> (r: usize)
    requires
        N != 0,
    ensures
        r == N,
        r != 0,
{
    N
}

/// Returns a non-zero value. Callers must establish that `n` is non-zero,
/// which Verus checks statically.
pub fn nonzero_isize(n: isize) -> (r: isize)
    requires
        n != 0,
    ensures
        r == n,
        r != 0,
{
    n
}

} // verus!
