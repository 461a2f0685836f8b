//! The tx message: a transaction skeleton in its wire form.

use vstd::prelude::*;

use crate::transaction::Transaction;
use crate::marshalling::Marshalling;
use crate::marshalling::DecodeError;
use crate::marshalling::Unmarshalling;
use crate::marshalling::enc_transaction;
use crate::marshalling::dec_transaction;
use crate::marshalling::tx_round_trippable;
use crate::marshalling::lemma_dec_enc_transaction;
use crate::transaction::TransactionV;
use crate::message::wire_of;
use crate::message::spec_cmd_tx;
use crate::message::cmd_tx;

verus! {

/// A relayed transaction.
#[derive(Debug)]
pub struct Tx {
    tx: Transaction,
}

impl View for Tx {
    type V = TransactionV;

    closed spec fn view(&self) -> TransactionV {
        self.tx@
    }
}

impl Tx {
    /// Wrap a transaction for relay.
    pub fn new(tx: Transaction) -> (r: Tx)
        ensures
            r@ == tx@,
    {
        Tx { tx }
    }

    /// The carried transaction.
    pub fn get_transaction(&self) -> (r: &Transaction)
        ensures
            r@ == self@,
    {
        &self.tx
    }

    /// Encode the full wire message: header, then the transaction. The
    /// payload must fit the header's 32-bit length field.
    pub fn serialize(&self) -> (r: Vec<u8>)
        requires
            self@.wf(),
            enc_transaction(self@).len() <= u32::MAX,
        ensures
            r@ == wire_of(spec_cmd_tx(), enc_transaction(self@)),
    {
        let mut m = Marshalling::new();
        m.write_transaction(&self.tx);
        let payload = m.get();
        let cks = crate::crypto::checksum(payload.as_slice());
        let cmd = cmd_tx();
        proof {
            assert(crate::marshalling::all_safe(cmd@));
        }
        let mut w = Marshalling::new();
        w.write_uint32(crate::config::NETWORK);
        w.write_str12(&cmd);
        w.write_uint32(payload.len() as u32);
        w.write_uint32(cks);
        w.write(payload.as_slice());
        proof {
            assert(w@ =~= wire_of(spec_cmd_tx(), enc_transaction(self@)));
        }
        w.get()
    }

    /// Decode a tx from a payload.
    pub fn unserialize(data: &Vec<u8>) -> (r: Result<Tx, DecodeError>)
        ensures
            match dec_transaction(data@) {
                Some((v, n)) => (r matches Ok(m) && m@ == v && m@.wf()),
                None => r == Err::<Tx, DecodeError>(DecodeError),
            },
    {
        let mut u = Unmarshalling::new(data);
        match u.read_transaction() {
            Ok(v) => Ok(Tx { tx: v }),
            Err(e) => Err(e),
        }
    }

    /// Decoding an encoded well-formed transaction payload gives it back.
    pub proof fn lemma_round_trip(t: TransactionV)
        requires
            tx_round_trippable(t),
        ensures
            dec_transaction(enc_transaction(t)) == Some((t, enc_transaction(t).len() as int)),
    {
        lemma_dec_enc_transaction(t, Seq::<u8>::empty());
        assert(enc_transaction(t) + Seq::<u8>::empty() =~= enc_transaction(t));
    }
}

} // verus!
