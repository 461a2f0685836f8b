//! The getaddr message: the empty-payload request for known addresses.

use vstd::prelude::*;

use crate::marshalling::Marshalling;
use crate::marshalling::DecodeError;
use crate::message::wire_of;
use crate::message::spec_cmd_getaddr;
use crate::message::cmd_getaddr;

verus! {

/// The address request; it carries nothing.
#[derive(Clone, Copy, Debug)]
pub struct GetAddr;

impl GetAddr {
    /// Build the request.
    pub fn new() -> GetAddr {
        GetAddr
    }

    /// Encode the full wire message: a header over an empty payload.
    pub fn serialize(&self) -> (r: Vec<u8>)
        ensures
            r@ == wire_of(spec_cmd_getaddr(), Seq::<u8>::empty()),
    {
        let payload: Vec<u8> = Vec::new();
        let cks = crate::crypto::checksum(payload.as_slice());
        let cmd = cmd_getaddr();
        proof {
            assert(crate::marshalling::all_safe(cmd@));
        }
        let mut w = Marshalling::new();
        w.write_uint32(crate::config::NETWORK);
        w.write_str12(&cmd);
        w.write_uint32(payload.len() as u32);
        w.write_uint32(cks);
        w.write(payload.as_slice());
        proof {
            assert(w@ =~= wire_of(spec_cmd_getaddr(), Seq::<u8>::empty()));
        }
        w.get()
    }

    /// Decode a getaddr; any payload is accepted and ignored.
    pub fn unserialize(_data: &Vec<u8>) -> (r: Result<GetAddr, DecodeError>)
        ensures
            r is Ok,
    {
        Ok(GetAddr)
    }
}

} // verus!
