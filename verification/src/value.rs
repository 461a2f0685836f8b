//! Monetary amounts, kept behind a sum type so a future change of unit
//! cannot silently mix scales.

use vstd::prelude::*;

verus! {

/// An amount of currency, in satoshi.
#[derive(Clone, Copy, Debug, PartialEq, Eq)]
pub enum Value {
    Satoshi(u64),
}

impl Value {
    /// The raw amount in satoshi.
    pub open spec fn spec_satoshi(&self) -> u64 {
        match *self {
            Value::Satoshi(v) => v,
        }
    }

    /// The raw amount in satoshi.
    pub fn satoshi(&self) -> (r: u64)
        ensures
            r == self.spec_satoshi(),
    {
        match *self {
            Value::Satoshi(v) => v,
        }
    }
}

} // verus!
