//! The version message: the handshake's opening announcement.

use vstd::prelude::*;

use crate::netaddr::NetAddr;
use crate::marshalling::Marshalling;
use crate::marshalling::DecodeError;
use crate::marshalling::Unmarshalling;
use crate::marshalling::all_safe;
use crate::marshalling::enc_u32;
use crate::marshalling::enc_u64;
use crate::marshalling::enc_bool;
use crate::marshalling::enc_varstr;
use crate::marshalling::enc_netaddr;
use crate::marshalling::dec_u32;
use crate::marshalling::dec_u64;
use crate::marshalling::dec_bool;
use crate::marshalling::dec_varstr;
use crate::marshalling::dec_netaddr;
use crate::marshalling::netaddr_round_trippable;
use crate::marshalling::lemma_dec_enc_u32;
use crate::marshalling::lemma_dec_enc_u64;
use crate::marshalling::lemma_dec_enc_bool;
use crate::marshalling::lemma_dec_enc_varstr;
use crate::marshalling::lemma_dec_enc_netaddr;
use crate::marshalling::VARSTR_MAX_LENGTH;
use crate::message::wire_of;
use crate::message::spec_cmd_version;
use crate::message::cmd_version;

verus! {

/// A version announcement.
#[derive(Debug)]
pub struct Version {
    proto_ver: u32,
    services: u64,
    version: Vec<u8>,
    time: i64,
    addr_recv: NetAddr,
    addr_send: NetAddr,
    best_height: u32,
    nounce: u64,
    relay: bool,
}

/// The mathematical value of a version announcement.
pub struct VersionV {
    pub proto_ver: u32,
    pub services: u64,
    pub version: Seq<u8>,
    pub time: i64,
    pub addr_recv: NetAddr,
    pub addr_send: NetAddr,
    pub best_height: u32,
    pub nounce: u64,
    pub relay: bool,
}

impl View for Version {
    type V = VersionV;

    closed spec fn view(&self) -> VersionV {
        VersionV {
            proto_ver: self.proto_ver,
            services: self.services,
            version: self.version@,
            time: self.time,
            addr_recv: self.addr_recv,
            addr_send: self.addr_send,
            best_height: self.best_height,
            nounce: self.nounce,
            relay: self.relay,
        }
    }
}

/// The payload of a version announcement.
pub open spec fn enc_version_payload(v: VersionV) -> Seq<u8> {
    enc_u32(v.proto_ver) + enc_u64(v.services) + enc_u64(v.time as u64) + enc_netaddr(
        v.addr_recv,
        false,
    ) + enc_netaddr(v.addr_send, false) + enc_u64(v.nounce) + enc_varstr(v.version) + enc_u32(
        v.best_height,
    ) + enc_bool(v.relay)
}

/// Decode a version payload of `size` bytes. The relay flag is present
/// only when bytes remain for it; services other than none or
/// node-network are refused.
pub open spec fn dec_version_payload(s: Seq<u8>, size: int) -> Option<VersionV> {
    match dec_u32(s) {
        None => None,
        Some((pv, a)) => match dec_u64(s.skip(a)) {
            None => None,
            Some((sv, b)) => if sv != 0 && sv != 1 {
                None
            } else {
                match dec_u64(s.skip(a + b)) {
                    None => None,
                    Some((tm, c)) => match dec_netaddr(s.skip(a + b + c), false) {
                        None => None,
                        Some((ar, d)) => match dec_netaddr(s.skip(a + b + c + d), false) {
                            None => None,
                            Some((sd, e)) => match dec_u64(s.skip(a + b + c + d + e)) {
                                None => None,
                                Some((nn, f)) => match dec_varstr(s.skip(a + b + c + d + e + f)) {
                                    None => None,
                                    Some((ua, g)) => match dec_u32(
                                        s.skip(a + b + c + d + e + f + g),
                                    ) {
                                        None => None,
                                        Some((bh, h)) => {
                                            let consumed = a + b + c + d + e + f + g + h;
                                            if consumed < size {
                                                match dec_bool(s.skip(consumed)) {
                                                    None => None,
                                                    Some((rl, i2)) => Some(
                                                        VersionV {
                                                            proto_ver: pv,
                                                            services: sv,
                                                            version: ua,
                                                            time: if tm > 0x7fffffffffffffffu64 {
                                                                0i64
                                                            } else {
                                                                tm as i64
                                                            },
                                                            addr_recv: ar,
                                                            addr_send: sd,
                                                            best_height: bh,
                                                            nounce: nn,
                                                            relay: rl,
                                                        },
                                                    ),
                                                }
                                            } else {
                                                Some(
                                                    VersionV {
                                                        proto_ver: pv,
                                                        services: sv,
                                                        version: ua,
                                                        time: if tm > 0x7fffffffffffffffu64 {
                                                            0i64
                                                        } else {
                                                            tm as i64
                                                        },
                                                        addr_recv: ar,
                                                        addr_send: sd,
                                                        best_height: bh,
                                                        nounce: nn,
                                                        relay: true,
                                                    },
                                                )
                                            }
                                        },
                                    },
                                },
                            },
                        },
                    },
                }
            },
        },
    }
}

impl Version {
    /// The user agent is sanitized and bounded, and the timestamp fits
    /// the wire's unsigned field.
    pub open spec fn wf(&self) -> bool {
        &&& all_safe(self@.version)
        &&& self@.version.len() <= VARSTR_MAX_LENGTH
        &&& self@.time >= 0
    }

    /// Build an announcement for this node: configured protocol version
    /// and services, the clock's time, a fresh random nonce, empty
    /// neighbour records, and relaying on.
    pub fn new(version: Vec<u8>, best_height: u32) -> (r: Version)
        requires
            all_safe(version@),
            version@.len() <= VARSTR_MAX_LENGTH,
        ensures
            r.wf(),
            r@.proto_ver == crate::config::PROTOCOL_VERSION,
            r@.services == crate::config::SERVICES,
            r@.version == version@,
            r@.best_height == best_height,
            r@.relay == true,
            r@.addr_recv == (NetAddr { time: None, services: crate::config::SERVICES, addr: None }),
            r@.addr_send == (NetAddr { time: None, services: crate::config::SERVICES, addr: None }),
    {
        Version {
            proto_ver: crate::config::PROTOCOL_VERSION,
            services: crate::config::SERVICES,
            version,
            time: crate::clock::now_seconds(),
            addr_recv: NetAddr::new(None, crate::config::SERVICES, None),
            addr_send: NetAddr::new(None, crate::config::SERVICES, None),
            best_height,
            nounce: crate::crypto::random_u64(),
            relay: true,
        }
    }

    /// Build an announcement from every field.
    pub fn with_fields(
        proto_ver: u32,
        services: u64,
        version: Vec<u8>,
        time: i64,
        addr_recv: NetAddr,
        addr_send: NetAddr,
        best_height: u32,
        nounce: u64,
        relay: bool,
    ) -> (r: Version)
        requires
            all_safe(version@),
            version@.len() <= VARSTR_MAX_LENGTH,
            time >= 0,
        ensures
            r.wf(),
            r@ == (VersionV {
                proto_ver,
                services,
                version: version@,
                time,
                addr_recv,
                addr_send,
                best_height,
                nounce,
                relay,
            }),
    {
        Version {
            proto_ver,
            services,
            version,
            time,
            addr_recv,
            addr_send,
            best_height,
            nounce,
            relay,
        }
    }

    /// The protocol version announced.
    pub fn get_protocol_version(&self) -> (r: u32)
        ensures
            r == self@.proto_ver,
    {
        self.proto_ver
    }

    /// The sender's own address record.
    pub fn get_addr_send(&self) -> (r: &NetAddr)
        ensures
            *r == self@.addr_send,
    {
        &self.addr_send
    }

    /// The nonce announced.
    pub fn get_nounce(&self) -> (r: u64)
        ensures
            r == self@.nounce,
    {
        self.nounce
    }

    /// Encode the full wire message: header, then the announcement.
    pub fn serialize(&self) -> (r: Vec<u8>)
        requires
            self.wf(),
        ensures
            r@ == wire_of(spec_cmd_version(), enc_version_payload(self@)),
    {
        let mut m = Marshalling::new();
        m.write_uint32(self.proto_ver);
        m.write_uint64(self.services);
        m.write_int64(self.time);
        m.write_netaddr(&self.addr_recv, false);
        m.write_netaddr(&self.addr_send, false);
        m.write_uint64(self.nounce);
        m.write_varstr(&self.version);
        m.write_uint32(self.best_height);
        m.write_bool(self.relay);
        proof {
            assert(m@ =~= enc_version_payload(self@));
        }
        let payload = m.get();
        let cks = crate::crypto::checksum(payload.as_slice());
        let cmd = cmd_version();
        proof {
            assert(crate::marshalling::all_safe(cmd@));
        }
        let mut w = Marshalling::new();
        w.write_uint32(crate::config::NETWORK);
        w.write_str12(&cmd);
        w.write_uint32(payload.len() as u32);
        w.write_uint32(cks);
        w.write(payload.as_slice());
        proof {
            assert(w@ =~= wire_of(spec_cmd_version(), enc_version_payload(self@)));
        }
        w.get()
    }

    /// Decode a version announcement from a payload of `size` bytes.
    #[verifier::rlimit(100)]
    pub fn unserialize(data: &Vec<u8>, size: usize) -> (r: Result<Version, DecodeError>)
        ensures
            match dec_version_payload(data@, size as int) {
                Some(v) => (r matches Ok(m) && m@ == v && m.wf()),
                None => r == Err::<Version, DecodeError>(DecodeError),
            },
    {
        let ghost s = data@;
        let mut u = Unmarshalling::new(data);
        let proto_ver = match u.read_uint32() {
            Ok(v) => v,
            Err(e) => {
                return Err(e);
            },
        };
        proof {
            assert(u.rest() =~= s.skip(4));
        }
        let services = match u.read_uint64() {
            Ok(v) => v,
            Err(e) => {
                return Err(e);
            },
        };
        if services != 0 && services != 1 {
            return Err(DecodeError);
        }
        proof {
            assert(u.rest() =~= s.skip(12));
        }
        let time64 = match u.read_uint64() {
            Ok(v) => v,
            Err(e) => {
                return Err(e);
            },
        };
        proof {
            assert(u.rest() =~= s.skip(20));
        }
        let addr_recv = match u.read_netaddr(false) {
            Ok(v) => v,
            Err(e) => {
                return Err(e);
            },
        };
        proof {
            assert(u.rest() =~= s.skip(46));
        }
        let addr_send = match u.read_netaddr(false) {
            Ok(v) => v,
            Err(e) => {
                return Err(e);
            },
        };
        proof {
            assert(u.rest() =~= s.skip(72));
        }
        let nounce = match u.read_uint64() {
            Ok(v) => v,
            Err(e) => {
                return Err(e);
            },
        };
        proof {
            assert(u.rest() =~= s.skip(80));
        }
        let version = match u.read_varstr() {
            Ok(v) => v,
            Err(e) => {
                return Err(e);
            },
        };
        let ghost g = u.spec_consumed() - 80;
        proof {
            assert(u.rest() =~= s.skip(80 + g));
            crate::message::reject::lemma_varstr_result_wf(s.skip(80));
        }
        let best_height = match u.read_uint32() {
            Ok(v) => v,
            Err(e) => {
                return Err(e);
            },
        };
        proof {
            assert(u.rest() =~= s.skip(84 + g));
        }
        let relay = if u.consumed() < size {
            match u.read_bool() {
                Ok(v) => v,
                Err(e) => {
                    return Err(e);
                },
            }
        } else {
            true
        };
        let time: i64 = if time64 > 0x7fffffffffffffff {
            0
        } else {
            time64 as i64
        };
        Ok(
            Version {
                proto_ver,
                services,
                version,
                time,
                addr_recv,
                addr_send,
                best_height,
                nounce,
                relay,
            },
        )
    }

    /// Where each field of an encoded announcement begins: the suffix of
    /// the payload from the services field on.
    pub open spec fn vp_tail1(v: VersionV) -> Seq<u8> {
        enc_u64(v.services) + Version::vp_tail2(v)
    }

    /// The suffix from the timestamp on.
    pub open spec fn vp_tail2(v: VersionV) -> Seq<u8> {
        enc_u64(v.time as u64) + Version::vp_tail3(v)
    }

    /// The suffix from the receiver record on.
    pub open spec fn vp_tail3(v: VersionV) -> Seq<u8> {
        enc_netaddr(v.addr_recv, false) + Version::vp_tail4(v)
    }

    /// The suffix from the sender record on.
    pub open spec fn vp_tail4(v: VersionV) -> Seq<u8> {
        enc_netaddr(v.addr_send, false) + Version::vp_tail5(v)
    }

    /// The suffix from the nonce on.
    pub open spec fn vp_tail5(v: VersionV) -> Seq<u8> {
        enc_u64(v.nounce) + Version::vp_tail6(v)
    }

    /// The suffix from the user agent on.
    pub open spec fn vp_tail6(v: VersionV) -> Seq<u8> {
        enc_varstr(v.version) + Version::vp_tail7(v)
    }

    /// The suffix from the height on.
    pub open spec fn vp_tail7(v: VersionV) -> Seq<u8> {
        enc_u32(v.best_height) + enc_bool(v.relay)
    }

    /// The skip of an encoded announcement at each field boundary is the
    /// corresponding suffix.
    #[verifier::rlimit(100)]
    pub proof fn lemma_vp_skips(v: VersionV)
        ensures
            ({
                let s = enc_version_payload(v);
                let g = enc_varstr(v.version).len() as int;
                &&& s == enc_u32(v.proto_ver) + Version::vp_tail1(v)
                &&& s.skip(4) == Version::vp_tail1(v)
                &&& s.skip(12) == Version::vp_tail2(v)
                &&& s.skip(20) == Version::vp_tail3(v)
                &&& s.skip(46) == Version::vp_tail4(v)
                &&& s.skip(72) == Version::vp_tail5(v)
                &&& s.skip(80) == Version::vp_tail6(v)
                &&& s.skip(80 + g) == Version::vp_tail7(v)
                &&& s.skip(84 + g) == enc_bool(v.relay)
                &&& s.len() == 85 + g
            }),
    {
        let s = enc_version_payload(v);
        let g = enc_varstr(v.version).len() as int;
        assert(s =~= enc_u32(v.proto_ver) + Version::vp_tail1(v));
        assert(s.skip(4) =~= Version::vp_tail1(v));
        assert(Version::vp_tail1(v).skip(8) =~= Version::vp_tail2(v));
        vstd::seq_lib::lemma_seq_skip_of_skip(s, 4, 8);
        assert(s.skip(12) == Version::vp_tail2(v));
        assert(Version::vp_tail2(v).skip(8) =~= Version::vp_tail3(v));
        vstd::seq_lib::lemma_seq_skip_of_skip(s, 12, 8);
        assert(s.skip(20) == Version::vp_tail3(v));
        assert(enc_netaddr(v.addr_recv, false).len() == 26);
        assert(Version::vp_tail3(v).skip(26) =~= Version::vp_tail4(v));
        vstd::seq_lib::lemma_seq_skip_of_skip(s, 20, 26);
        assert(s.skip(46) == Version::vp_tail4(v));
        assert(enc_netaddr(v.addr_send, false).len() == 26);
        assert(Version::vp_tail4(v).skip(26) =~= Version::vp_tail5(v));
        vstd::seq_lib::lemma_seq_skip_of_skip(s, 46, 26);
        assert(s.skip(72) == Version::vp_tail5(v));
        assert(Version::vp_tail5(v).skip(8) =~= Version::vp_tail6(v));
        vstd::seq_lib::lemma_seq_skip_of_skip(s, 72, 8);
        assert(s.skip(80) == Version::vp_tail6(v));
        assert(Version::vp_tail6(v).skip(g) =~= Version::vp_tail7(v));
        vstd::seq_lib::lemma_seq_skip_of_skip(s, 80, g);
        assert(s.skip(80 + g) == Version::vp_tail7(v));
        assert(Version::vp_tail7(v).skip(4) =~= enc_bool(v.relay));
        vstd::seq_lib::lemma_seq_skip_of_skip(s, 80 + g, 4);
        assert(s.skip(84 + g) == enc_bool(v.relay));
        assert(s.len() == 85 + g);
    }

    /// Decoding an encoded well-formed announcement, framed at its own
    /// length, gives it back.
    #[verifier::rlimit(100)]
    pub proof fn lemma_round_trip(v: VersionV)
        requires
            all_safe(v.version),
            v.version.len() <= VARSTR_MAX_LENGTH,
            v.time >= 0,
            v.services == 0 || v.services == 1,
            netaddr_round_trippable(v.addr_recv, false),
            netaddr_round_trippable(v.addr_send, false),
        ensures
            dec_version_payload(enc_version_payload(v), enc_version_payload(v).len() as int)
                == Some(v),
    {
        let s = enc_version_payload(v);
        let g = enc_varstr(v.version).len() as int;
        Version::lemma_vp_skips(v);
        lemma_dec_enc_u32(v.proto_ver, Version::vp_tail1(v));
        lemma_dec_enc_u64(v.services, Version::vp_tail2(v));
        lemma_dec_enc_u64(v.time as u64, Version::vp_tail3(v));
        lemma_dec_enc_netaddr(v.addr_recv, false, Version::vp_tail4(v));
        lemma_dec_enc_netaddr(v.addr_send, false, Version::vp_tail5(v));
        lemma_dec_enc_u64(v.nounce, Version::vp_tail6(v));
        lemma_dec_enc_varstr(v.version, Version::vp_tail7(v));
        lemma_dec_enc_u32(v.best_height, enc_bool(v.relay));
        lemma_dec_enc_bool(v.relay, Seq::<u8>::empty());
        assert(enc_bool(v.relay) + Seq::<u8>::empty() =~= enc_bool(v.relay));
        assert((v.time as u64) <= 0x7fffffffffffffffu64);
        assert((v.time as u64) as i64 == v.time);
    }
}

} // verus!
