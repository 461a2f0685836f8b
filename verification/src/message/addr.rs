//! The addr message: a list of known network addresses, at most 1000.

use vstd::prelude::*;

use crate::netaddr::NetAddr;
use crate::marshalling::Marshalling;
use crate::marshalling::DecodeError;
use crate::marshalling::Unmarshalling;
use crate::marshalling::enc_varint;
use crate::marshalling::enc_netaddr;
use crate::marshalling::enc_list;
use crate::marshalling::dec_varint;
use crate::marshalling::dec_netaddr;
use crate::marshalling::dec_list;
use crate::marshalling::prepend;
use crate::marshalling::netaddr_round_trippable;
use crate::marshalling::lemma_enc_list_push;
use crate::marshalling::lemma_enc_list_len_bound;
use crate::marshalling::lemma_dec_list_step;
use crate::marshalling::lemma_dec_enc_list;
use crate::marshalling::lemma_dec_enc_varint;
use crate::marshalling::lemma_dec_enc_netaddr;
use crate::message::wire_of;
use crate::message::spec_cmd_addr;
use crate::message::cmd_addr;

verus! {

/// The most addresses one addr message may carry.
pub const MSG_ADDR_MAX: usize = 1000;

/// The timestamped-record encoder as a function value.
pub open spec fn fe_netaddr() -> spec_fn(NetAddr) -> Seq<u8> {
    |a: NetAddr| enc_netaddr(a, true)
}

/// The timestamped-record decoder as a function value.
pub open spec fn fd_netaddr() -> spec_fn(Seq<u8>) -> Option<(NetAddr, int)> {
    |t: Seq<u8>| dec_netaddr(t, true)
}

/// The payload of an addr message: varint count, then each record with
/// its timestamp.
pub open spec fn enc_addr_payload(addrs: Seq<NetAddr>) -> Seq<u8> {
    enc_varint(addrs.len() as u64) + enc_list(addrs, fe_netaddr())
}

/// Decode an addr payload; counts above 1000 are refused.
pub open spec fn dec_addr_payload(s: Seq<u8>) -> Option<Seq<NetAddr>> {
    match dec_varint(s) {
        None => None,
        Some((count, n)) => if count > MSG_ADDR_MAX as u64 {
            None
        } else {
            match dec_list(s.skip(n), count as nat, fd_netaddr()) {
                None => None,
                Some((es, m)) => Some(es),
            }
        },
    }
}

/// An address announcement.
#[derive(Debug)]
pub struct Addr {
    addresses: Vec<NetAddr>,
}

impl View for Addr {
    type V = Seq<NetAddr>;

    closed spec fn view(&self) -> Seq<NetAddr> {
        self.addresses@
    }
}

impl Addr {
    /// The announcement is within the wire bound.
    pub open spec fn wf(&self) -> bool {
        self@.len() <= MSG_ADDR_MAX
    }

    /// An empty announcement.
    pub fn new() -> (r: Addr)
        ensures
            r@ =~= Seq::<NetAddr>::empty(),
            r.wf(),
    {
        Addr { addresses: Vec::new() }
    }

    /// An announcement of the given records; at most 1000.
    pub fn from_addrs(addrs: &Vec<NetAddr>) -> (r: Addr)
        requires
            addrs@.len() <= MSG_ADDR_MAX,
        ensures
            r@ == addrs@,
            r.wf(),
    {
        let mut addresses: Vec<NetAddr> = Vec::new();
        let mut i: usize = 0;
        while i < addrs.len()
            invariant
                i <= addrs@.len(),
                addresses@ == addrs@.take(i as int),
            decreases addrs@.len() - i,
        {
            addresses.push(addrs[i]);
            i += 1;
            proof {
                assert(addresses@ =~= addrs@.take(i as int));
            }
        }
        proof {
            assert(addresses@ =~= addrs@);
        }
        Addr { addresses }
    }

    /// Append one record, within the wire bound.
    pub fn add(&mut self, addr: NetAddr)
        requires
            old(self)@.len() < MSG_ADDR_MAX,
        ensures
            final(self)@ == old(self)@.push(addr),
    {
        self.addresses.push(addr);
    }

    /// The carried records.
    pub fn get_addresses(&self) -> (r: &Vec<NetAddr>)
        ensures
            r@ == self@,
    {
        &self.addresses
    }

    /// Encode the full wire message: header, then count and records.
    pub fn serialize(&self) -> (r: Vec<u8>)
        requires
            self.wf(),
        ensures
            r@ == wire_of(spec_cmd_addr(), enc_addr_payload(self@)),
    {
        let ghost fe = fe_netaddr();
        proof {
            assert(forall|i: int|
                0 <= i < self@.len() ==> (#[trigger] fe(self@[i])).len() <= 30);
            lemma_enc_list_len_bound(self@, fe, 30);
            assert(self@.len() * 30 <= 1000 * 30) by (nonlinear_arith)
                requires
                    self@.len() <= 1000,
            ;
        }
        let mut m = Marshalling::new();
        m.write_varint(self.addresses.len() as u64);
        let ghost pre = enc_varint(self@.len() as u64);
        proof {
            assert(enc_list(self@.take(0), fe) == Seq::<u8>::empty());
            assert(m@ =~= pre + enc_list(self@.take(0), fe));
        }
        let mut i: usize = 0;
        while i < self.addresses.len()
            invariant
                i <= self@.len(),
                m@ == pre + enc_list(self@.take(i as int), fe),
                fe == fe_netaddr(),
                pre == enc_varint(self@.len() as u64),
            decreases self@.len() - i,
        {
            m.write_netaddr(&self.addresses[i], true);
            i += 1;
            proof {
                lemma_enc_list_push(self@.take(i - 1), fe, self@[i - 1]);
                assert(self@.take(i - 1).push(self@[i - 1]) =~= self@.take(i as int));
                assert(pre + enc_list(self@.take(i - 1), fe) + enc_netaddr(self@[i - 1], true)
                    =~= pre + (enc_list(self@.take(i - 1), fe) + fe(self@[i - 1])));
            }
        }
        proof {
            assert(self@.take(self@.len() as int) =~= self@);
            assert(m@ =~= enc_addr_payload(self@));
        }
        let payload = m.get();
        let cks = crate::crypto::checksum(payload.as_slice());
        let cmd = cmd_addr();
        proof {
            assert(crate::marshalling::all_safe(cmd@));
        }
        let mut w = Marshalling::new();
        w.write_uint32(crate::config::NETWORK);
        w.write_str12(&cmd);
        w.write_uint32(payload.len() as u32);
        w.write_uint32(cks);
        w.write(payload.as_slice());
        proof {
            assert(w@ =~= wire_of(spec_cmd_addr(), enc_addr_payload(self@)));
        }
        w.get()
    }

    /// Decode an addr message from a payload.
    #[verifier::rlimit(100)]
    pub fn unserialize(data: &Vec<u8>) -> (r: Result<Addr, DecodeError>)
        ensures
            match dec_addr_payload(data@) {
                Some(v) => (r matches Ok(m) && m@ == v && m.wf()),
                None => r == Err::<Addr, DecodeError>(DecodeError),
            },
    {
        let ghost s0 = data@;
        let ghost fd = fd_netaddr();
        let mut u = Unmarshalling::new(data);
        let (count, n0) = match u.peek_varint() {
            Some(p) => p,
            None => {
                return Err(DecodeError);
            },
        };
        if count > MSG_ADDR_MAX as u64 {
            return Err(DecodeError);
        }
        u.skip(n0);
        let ghost slist = u.rest();
        proof {
            assert(slist =~= s0.skip(n0 as int));
        }
        let mut addresses: Vec<NetAddr> = Vec::new();
        let mut i: u64 = 0;
        let ghost mut consumed: int = 0;
        while i < count
            invariant
                u.wf(),
                s0 == data@,
                u.bytes() == s0,
                fd == fd_netaddr(),
                dec_varint(s0) == Some((count, n0 as int)),
                count <= MSG_ADDR_MAX as u64,
                slist == s0.skip(n0 as int),
                i <= count,
                addresses@.len() == i as int,
                consumed >= 0,
                u.spec_consumed() == n0 + consumed,
                dec_list(slist, count as nat, fd) == prepend(
                    addresses@,
                    consumed,
                    dec_list(u.rest(), (count - i) as nat, fd),
                ),
            decreases count - i,
        {
            let ghost rcur = u.rest();
            let ghost ivprev = addresses@;
            let a = match u.read_netaddr(true) {
                Ok(a) => a,
                Err(_) => {
                    proof {
                        assert(dec_list(rcur, (count - i) as nat, fd) is None);
                        assert(dec_list(slist, count as nat, fd) is None);
                        assert(dec_list(s0.skip(n0 as int), count as nat, fd_netaddr()) is None);
                        assert(dec_addr_payload(s0) is None);
                    }
                    return Err(DecodeError);
                },
            };
            addresses.push(a);
            proof {
                assert(fd(rcur) == Some((a, 30int)));
                assert(u.rest() =~= rcur.skip(30));
                lemma_dec_list_step(rcur, (count - i) as nat, fd, ivprev, consumed, a, 30int);
                assert(addresses@ =~= ivprev.push(a));
                consumed = consumed + 30;
            }
            i += 1;
        }
        proof {
            assert(dec_list(u.rest(), 0nat, fd) == Some((Seq::<NetAddr>::empty(), 0int)));
            assert(addresses@ + Seq::<NetAddr>::empty() =~= addresses@);
            assert(dec_list(slist, count as nat, fd) == Some((addresses@, consumed)));
        }
        Ok(Addr { addresses })
    }

    /// Decoding an encoded announcement of round-trippable records gives
    /// them back.
    pub proof fn lemma_round_trip(addrs: Seq<NetAddr>)
        requires
            addrs.len() <= MSG_ADDR_MAX,
            forall|i: int| 0 <= i < addrs.len() ==> netaddr_round_trippable(
                #[trigger] addrs[i],
                true,
            ),
        ensures
            dec_addr_payload(enc_addr_payload(addrs)) == Some(addrs),
    {
        let fe = fe_netaddr();
        let fd = fd_netaddr();
        let s = enc_addr_payload(addrs);
        let body = enc_list(addrs, fe);
        assert(s =~= enc_varint(addrs.len() as u64) + (body + Seq::<u8>::empty()));
        lemma_dec_enc_varint(addrs.len() as u64, body + Seq::<u8>::empty());
        let n = enc_varint(addrs.len() as u64).len() as int;
        assert(s.skip(n) =~= body + Seq::<u8>::empty());
        assert(forall|e: NetAddr, r: Seq<u8>|
            #![trigger fd(fe(e) + r)]
            addrs.contains(e) ==> fd(fe(e) + r) == Some((e, fe(e).len() as int))) by {
            assert forall|e: NetAddr, r: Seq<u8>|
                #![trigger fd(fe(e) + r)]
                addrs.contains(e) implies fd(fe(e) + r) == Some((e, fe(e).len() as int)) by {
                lemma_dec_enc_netaddr(e, true, r);
            }
        }
        lemma_dec_enc_list(addrs, fe, fd, Seq::<u8>::empty());
    }
}

} // verus!
