//! A reference to another contract.

use vstd::prelude::*;

verus! {

/// A contract's address and the hash of its code.
#[derive(Clone, Debug, Default)]
pub struct Contract {
    pub address: String,
    pub hash: String,
}

} // verus!
