//! The pong message: the reply to a ping, echoing its nonce.

use vstd::prelude::*;

use crate::marshalling::Marshalling;
use crate::marshalling::DecodeError;
use crate::marshalling::enc_u64;
use crate::marshalling::dec_u64;
use crate::marshalling::Unmarshalling;
use crate::marshalling::lemma_dec_enc_u64;
use crate::message::wire_of;
use crate::message::spec_cmd_pong;
use crate::message::cmd_pong;

verus! {

/// A pong with its nonce.
#[derive(Clone, Copy, Debug)]
pub struct Pong {
    nounce: u64,
}

/// Decode a pong payload: the first eight bytes, little-endian.
pub open spec fn dec_pong_payload(s: Seq<u8>) -> Option<u64> {
    match dec_u64(s) {
        Some((v, n)) => Some(v),
        None => None,
    }
}

impl Pong {
    /// The nonce carried.
    pub closed spec fn spec_nounce(&self) -> u64 {
        self.nounce
    }

    /// Build a pong around a nonce.
    pub fn new(nounce: u64) -> (r: Pong)
        ensures
            r.spec_nounce() == nounce,
    {
        Pong { nounce }
    }

    /// The nonce carried.
    pub fn get_nounce(&self) -> (r: u64)
        ensures
            r == self.spec_nounce(),
    {
        self.nounce
    }

    /// Encode the full wire message: header plus 8-byte payload.
    pub fn serialize(&self) -> (r: Vec<u8>)
        ensures
            r@ == wire_of(spec_cmd_pong(), enc_u64(self.spec_nounce())),
    {
        let mut m = Marshalling::new();
        m.write_uint64(self.nounce);
        let payload = m.get();
        let cks = crate::crypto::checksum(payload.as_slice());
        let cmd = cmd_pong();
        proof {
            assert(crate::marshalling::all_safe(cmd@));
        }
        let mut w = Marshalling::new();
        w.write_uint32(crate::config::NETWORK);
        w.write_str12(&cmd);
        w.write_uint32(payload.len() as u32);
        w.write_uint32(cks);
        w.write(payload.as_slice());
        proof {
            assert(w@ =~= wire_of(spec_cmd_pong(), enc_u64(self.spec_nounce())));
        }
        w.get()
    }

    /// Decode a pong from a payload.
    pub fn unserialize(data: &Vec<u8>) -> (r: Result<Pong, DecodeError>)
        ensures
            match dec_pong_payload(data@) {
                Some(v) => r matches Ok(p) && p.spec_nounce() == v,
                None => r == Err::<Pong, DecodeError>(DecodeError),
            },
    {
        let mut u = Unmarshalling::new(data);
        match u.read_uint64() {
            Ok(v) => Ok(Pong { nounce: v }),
            Err(e) => Err(e),
        }
    }

    /// Decoding an encoded pong payload gives the nonce back.
    pub proof fn lemma_round_trip(nounce: u64)
        ensures
            dec_pong_payload(enc_u64(nounce)) == Some(nounce),
    {
        lemma_dec_enc_u64(nounce, Seq::<u8>::empty());
        assert(enc_u64(nounce) + Seq::<u8>::empty() =~= enc_u64(nounce));
    }
}

} // verus!
