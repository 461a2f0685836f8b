//! The verack message: the empty-payload acknowledgement of a version.

use vstd::prelude::*;

use crate::marshalling::Marshalling;
use crate::marshalling::DecodeError;
use crate::message::wire_of;
use crate::message::spec_cmd_verack;
use crate::message::cmd_verack;

verus! {

/// The version acknowledgement; it carries nothing.
#[derive(Clone, Copy, Debug)]
pub struct VerAck;

impl VerAck {
    /// Build the acknowledgement.
    pub fn new() -> VerAck {
        VerAck
    }

    /// Encode the full wire message: a header over an empty payload.
    pub fn serialize(&self) -> (r: Vec<u8>)
        ensures
            r@ == wire_of(spec_cmd_verack(), Seq::<u8>::empty()),
    {
        let payload: Vec<u8> = Vec::new();
        let cks = crate::crypto::checksum(payload.as_slice());
        let cmd = cmd_verack();
        proof {
            assert(crate::marshalling::all_safe(cmd@));
        }
        let mut w = Marshalling::new();
        w.write_uint32(crate::config::NETWORK);
        w.write_str12(&cmd);
        w.write_uint32(payload.len() as u32);
        w.write_uint32(cks);
        w.write(payload.as_slice());
        proof {
            assert(w@ =~= wire_of(spec_cmd_verack(), Seq::<u8>::empty()));
        }
        w.get()
    }

    /// Decode a verack; any payload is accepted and ignored.
    pub fn unserialize(_data: &Vec<u8>) -> (r: Result<VerAck, DecodeError>)
        ensures
            r is Ok,
    {
        Ok(VerAck)
    }
}

} // verus!
