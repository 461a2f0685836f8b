//! Core of a Bitcoin peer-to-peer node: wire codec, message framing,
//! per-peer protocol engine, and the bucketed address manager.

use vstd::prelude::*;

pub mod addrmng;
pub mod clock;
pub mod config;
pub mod crypto;
pub mod hash;
pub mod invvect;
pub mod marshalling;
pub mod message;
pub mod msgbuffer;
pub mod netaddr;
pub mod peer;
pub mod transaction;
pub mod value;

verus! {

} // verus!
