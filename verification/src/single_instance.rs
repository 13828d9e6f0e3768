use vstd::prelude::*;

verus! {

/// Proof that this process is the one instance of the clicker. On Linux
/// nothing else needs holding: every start may go on.
pub struct SingleInstanceGuard;

/// Claims the single instance: on Linux the claim always succeeds.
pub fn acquire() -> (r: Option<SingleInstanceGuard>)
    ensures
        r is Some,
{
    Some(SingleInstanceGuard)
}

} // verus!
