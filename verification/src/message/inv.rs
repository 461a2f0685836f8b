//! The inv message: an inventory vector announcing objects.

use vstd::prelude::*;

use crate::invvect::InvVect;
use crate::invvect::InvEntry;
use crate::invvect::InvEntryV;
use crate::invvect::INV_VECT_MAX;
use crate::marshalling::Marshalling;
use crate::marshalling::DecodeError;
use crate::marshalling::Unmarshalling;
use crate::marshalling::enc_invvect;
use crate::marshalling::dec_invvect;
use crate::marshalling::enc_inventry;
use crate::marshalling::enc_list;
use crate::marshalling::lemma_enc_list_len_bound;
use crate::marshalling::lemma_dec_enc_invvect;
use crate::message::wire_of;
use crate::message::spec_cmd_inv;
use crate::message::cmd_inv;

verus! {

/// The payload of an inventory message is within the wire length field.
pub proof fn lemma_enc_invvect_bound(es: Seq<InvEntryV>)
    requires
        es.len() <= INV_VECT_MAX,
        forall|i: int| 0 <= i < es.len() ==> (#[trigger] es[i]).hash.len() == 32,
    ensures
        enc_invvect(es).len() <= 1800009,
{
    let fe = |e: InvEntryV| enc_inventry(e);
    assert(forall|i: int| 0 <= i < es.len() ==> (#[trigger] fe(es[i])).len() <= 36);
    lemma_enc_list_len_bound(es, fe, 36);
    assert(es.len() * 36 <= 50000 * 36) by (nonlinear_arith)
        requires
            es.len() <= 50000,
    ;
}

/// An object announcement.
#[derive(Debug)]
pub struct Inv {
    vect: InvVect,
}

impl View for Inv {
    type V = Seq<InvEntryV>;

    closed spec fn view(&self) -> Seq<InvEntryV> {
        self.vect@
    }
}

impl Inv {
    /// The bounds every announcement satisfies.
    pub open spec fn wf(&self) -> bool {
        self@.len() <= INV_VECT_MAX && forall|i: int|
            0 <= i < self@.len() ==> (#[trigger] self@[i]).hash.len() == 32
    }

    /// An empty announcement.
    pub fn new() -> (r: Inv)
        ensures
            r@ =~= Seq::<InvEntryV>::empty(),
            r.wf(),
    {
        Inv { vect: InvVect::new() }
    }

    /// The carried inventory vector.
    pub fn get_invvect(&self) -> (r: &InvVect)
        ensures
            r@ == self@,
    {
        &self.vect
    }

    /// Append one entry, within the size bound.
    pub fn add(&mut self, entry: InvEntry)
        requires
            old(self)@.len() < INV_VECT_MAX,
        ensures
            final(self)@ =~= old(self)@.push(entry@),
    {
        self.vect.add(entry);
    }

    /// Encode the full wire message: header, then the inventory vector.
    pub fn serialize(&self) -> (r: Vec<u8>)
        requires
            self.wf(),
        ensures
            r@ == wire_of(spec_cmd_inv(), enc_invvect(self@)),
    {
        proof {
            lemma_enc_invvect_bound(self@);
        }
        let mut m = Marshalling::new();
        m.write_invvect(&self.vect);
        let payload = m.get();
        let cks = crate::crypto::checksum(payload.as_slice());
        let cmd = cmd_inv();
        proof {
            assert(crate::marshalling::all_safe(cmd@));
        }
        let mut w = Marshalling::new();
        w.write_uint32(crate::config::NETWORK);
        w.write_str12(&cmd);
        w.write_uint32(payload.len() as u32);
        w.write_uint32(cks);
        w.write(payload.as_slice());
        proof {
            assert(w@ =~= wire_of(spec_cmd_inv(), enc_invvect(self@)));
        }
        w.get()
    }

    /// Decode an inv from a payload.
    pub fn unserialize(data: &Vec<u8>) -> (r: Result<Inv, DecodeError>)
        ensures
            match dec_invvect(data@) {
                Some((v, n)) => (r matches Ok(m) && m@ == v && m.wf()),
                None => r == Err::<Inv, DecodeError>(DecodeError),
            },
    {
        let mut u = Unmarshalling::new(data);
        match u.read_invvect() {
            Ok(v) => Ok(Inv { vect: v }),
            Err(e) => Err(e),
        }
    }

    /// Decoding an encoded inventory payload gives the entries back.
    pub proof fn lemma_round_trip(es: Seq<InvEntryV>)
        requires
            es.len() <= INV_VECT_MAX,
            forall|i: int| 0 <= i < es.len() ==> (#[trigger] es[i]).hash.len() == 32,
        ensures
            dec_invvect(enc_invvect(es)) == Some((es, enc_invvect(es).len() as int)),
    {
        lemma_dec_enc_invvect(es, Seq::<u8>::empty());
        assert(enc_invvect(es) + Seq::<u8>::empty() =~= enc_invvect(es));
    }
}

} // verus!
