//! The ping message: a heartbeat carrying an 8-byte nonce.

use vstd::prelude::*;

use crate::marshalling::Marshalling;
use crate::marshalling::DecodeError;
use crate::marshalling::enc_u64;
use crate::marshalling::dec_u64;
use crate::marshalling::Unmarshalling;
use crate::marshalling::lemma_dec_enc_u64;
use crate::message::wire_of;
use crate::message::spec_cmd_ping;
use crate::message::cmd_ping;

verus! {

/// A ping with its nonce.
#[derive(Clone, Copy, Debug)]
pub struct Ping {
    nounce: u64,
}

/// Decode a ping payload: the first eight bytes, little-endian.
pub open spec fn dec_ping_payload(s: Seq<u8>) -> Option<u64> {
    match dec_u64(s) {
        Some((v, n)) => Some(v),
        None => None,
    }
}

impl Ping {
    /// The nonce carried.
    pub closed spec fn spec_nounce(&self) -> u64 {
        self.nounce
    }

    /// Build a ping around a nonce.
    pub fn new(nounce: u64) -> (r: Ping)
        ensures
            r.spec_nounce() == nounce,
    {
        Ping { nounce }
    }

    /// The nonce carried.
    pub fn get_nounce(&self) -> (r: u64)
        ensures
            r == self.spec_nounce(),
    {
        self.nounce
    }

    /// Encode the full wire message: header plus 8-byte payload.
    pub fn serialize(&self) -> (r: Vec<u8>)
        ensures
            r@ == wire_of(spec_cmd_ping(), enc_u64(self.spec_nounce())),
    {
        let mut m = Marshalling::new();
        m.write_uint64(self.nounce);
        let payload = m.get();
        let cks = crate::crypto::checksum(payload.as_slice());
        let cmd = cmd_ping();
        proof {
            assert(crate::marshalling::all_safe(cmd@));
        }
        let mut w = Marshalling::new();
        w.write_uint32(crate::config::NETWORK);
        w.write_str12(&cmd);
        w.write_uint32(payload.len() as u32);
        w.write_uint32(cks);
        w.write(payload.as_slice());
        proof {
            assert(w@ =~= wire_of(spec_cmd_ping(), enc_u64(self.spec_nounce())));
        }
        w.get()
    }

    /// Decode a ping from a payload.
    pub fn unserialize(data: &Vec<u8>) -> (r: Result<Ping, DecodeError>)
        ensures
            match dec_ping_payload(data@) {
                Some(v) => r matches Ok(p) && p.spec_nounce() == v,
                None => r == Err::<Ping, DecodeError>(DecodeError),
            },
    {
        let mut u = Unmarshalling::new(data);
        match u.read_uint64() {
            Ok(v) => Ok(Ping { nounce: v }),
            Err(e) => Err(e),
        }
    }

    /// Decoding an encoded ping payload gives the nonce back.
    pub proof fn lemma_round_trip(nounce: u64)
        ensures
            dec_ping_payload(enc_u64(nounce)) == Some(nounce),
    {
        lemma_dec_enc_u64(nounce, Seq::<u8>::empty());
        assert(enc_u64(nounce) + Seq::<u8>::empty() =~= enc_u64(nounce));
    }
}

} // verus!
