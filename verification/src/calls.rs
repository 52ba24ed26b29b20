//! The subset of the counterparty runtime's calls the relay submits.
//!
//! Building and signing the full transaction is chain-specific transport
//! work an outer layer does; the library owns the call data itself.

use vstd::prelude::*;

verus! {

/// Calls of the counterparty chain's system pallet.
#[derive(Clone, PartialEq, Eq, Debug)]
#[allow(non_camel_case_types)]
pub enum SystemCall {
    /// Leave a note on chain; used for test transactions.
    remark(Vec<u8>),
}

impl SystemCall {
    /// The note carried by the call.
    pub fn remark_payload(&self) -> (r: &Vec<u8>)
        ensures
            *self matches SystemCall::remark(p) && r@ == p@,
    {
        match self {
            SystemCall::remark(payload) => payload,
        }
    }
}

} // verus!
