//! The getdata message: a request for the objects an inv announced.

use vstd::prelude::*;

use crate::invvect::InvVect;
use crate::invvect::InvEntry;
use crate::invvect::InvEntryV;
use crate::invvect::INV_VECT_MAX;
use crate::marshalling::Marshalling;
use crate::marshalling::DecodeError;
use crate::marshalling::Unmarshalling;
use crate::marshalling::enc_invvect;
use crate::marshalling::dec_invvect;
use crate::marshalling::lemma_dec_enc_invvect;
use crate::message::inv::lemma_enc_invvect_bound;
use crate::message::wire_of;
use crate::message::spec_cmd_getdata;
use crate::message::cmd_getdata;

verus! {

/// An object request.
#[derive(Debug)]
pub struct GetData {
    vect: InvVect,
}

impl View for GetData {
    type V = Seq<InvEntryV>;

    closed spec fn view(&self) -> Seq<InvEntryV> {
        self.vect@
    }
}

impl GetData {
    /// The bounds every request satisfies.
    pub open spec fn wf(&self) -> bool {
        self@.len() <= INV_VECT_MAX && forall|i: int|
            0 <= i < self@.len() ==> (#[trigger] self@[i]).hash.len() == 32
    }

    /// An empty request.
    pub fn new() -> (r: GetData)
        ensures
            r@ =~= Seq::<InvEntryV>::empty(),
            r.wf(),
    {
        GetData { vect: InvVect::new() }
    }

    /// The carried inventory vector.
    pub fn get_invvect(&self) -> (r: &InvVect)
        ensures
            r@ == self@,
    {
        &self.vect
    }

    /// Build a request for everything an inventory vector announces.
    pub fn from_inv(invvect: &InvVect) -> (r: GetData)
        ensures
            r@ == invvect@,
    {
        GetData { vect: invvect.clone() }
    }

    /// Append one entry, within the size bound.
    pub fn add(&mut self, entry: InvEntry)
        requires
            old(self)@.len() < INV_VECT_MAX,
        ensures
            final(self)@ =~= old(self)@.push(entry@),
    {
        self.vect.add(entry);
    }

    /// Encode the full wire message: header, then the inventory vector.
    pub fn serialize(&self) -> (r: Vec<u8>)
        requires
            self.wf(),
        ensures
            r@ == wire_of(spec_cmd_getdata(), enc_invvect(self@)),
    {
        proof {
            lemma_enc_invvect_bound(self@);
        }
        let mut m = Marshalling::new();
        m.write_invvect(&self.vect);
        let payload = m.get();
        let cks = crate::crypto::checksum(payload.as_slice());
        let cmd = cmd_getdata();
        proof {
            assert(crate::marshalling::all_safe(cmd@));
        }
        let mut w = Marshalling::new();
        w.write_uint32(crate::config::NETWORK);
        w.write_str12(&cmd);
        w.write_uint32(payload.len() as u32);
        w.write_uint32(cks);
        w.write(payload.as_slice());
        proof {
            assert(w@ =~= wire_of(spec_cmd_getdata(), enc_invvect(self@)));
        }
        w.get()
    }

    /// Decode an inv from a payload.
    pub fn unserialize(data: &Vec<u8>) -> (r: Result<GetData, DecodeError>)
        ensures
            match dec_invvect(data@) {
                Some((v, n)) => (r matches Ok(m) && m@ == v && m.wf()),
                None => r == Err::<GetData, DecodeError>(DecodeError),
            },
    {
        let mut u = Unmarshalling::new(data);
        match u.read_invvect() {
            Ok(v) => Ok(GetData { vect: v }),
            Err(e) => Err(e),
        }
    }

    /// Decoding an encoded inventory payload gives the entries back.
    pub proof fn lemma_round_trip(es: Seq<InvEntryV>)
        requires
            es.len() <= INV_VECT_MAX,
            forall|i: int| 0 <= i < es.len() ==> (#[trigger] es[i]).hash.len() == 32,
        ensures
            dec_invvect(enc_invvect(es)) == Some((es, enc_invvect(es).len() as int)),
    {
        lemma_dec_enc_invvect(es, Seq::<u8>::empty());
        assert(enc_invvect(es) + Seq::<u8>::empty() =~= enc_invvect(es));
    }
}

} // verus!
