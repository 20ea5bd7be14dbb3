//! Gas accounting helper for execution traces.

use vstd::prelude::*;

verus! {

/// Gas actually used by an execution, accounting for refunds: the refund is
/// capped at one fifth of the gas spent.
pub fn gas_used(spent: u64, refunded: u64) -> (r: u64)
    ensures
        r == spent - (if refunded <= spent / 5 {
            refunded as int
        } else {
            (spent / 5) as int
        }),
{
    let refund_quotient: u64 = 5;
    let cap: u64 = spent / refund_quotient;
    let refund: u64 = if refunded < cap {
        refunded
    } else {
        cap
    };
    spent - refund
}

} // verus!
