//! On-chain resource describing a validator operator.

use vstd::prelude::*;

verus! {

/// The operator configuration resource: only a human-readable name.
#[derive(Debug, PartialEq, Eq)]
pub struct ValidatorOperatorConfigResource {
    pub human_name: Vec<u8>,
}

impl ValidatorOperatorConfigResource {
    /// Wrap a name.
    pub fn new(human_name: Vec<u8>) -> (r: ValidatorOperatorConfigResource)
        ensures
            r.human_name@ == human_name@,
    {
        ValidatorOperatorConfigResource { human_name }
    }
}

impl Default for ValidatorOperatorConfigResource {
    /// The empty name.
    fn default() -> (r: ValidatorOperatorConfigResource)
        ensures
            r.human_name@ == Seq::<u8>::empty(),
    {
        ValidatorOperatorConfigResource { human_name: Vec::new() }
    }
}

} // verus!
