//! The per-peer protocol engine: the handshake state, the reply each
//! inbound message earns, and the periodic duties of a connection. All
//! socket and channel traffic happens outside; this module decides.

use vstd::prelude::*;

use crate::netaddr::SockAddr;
use crate::netaddr::NetAddr;
use crate::marshalling::enc_u64;
use crate::marshalling::enc_invvect;
use crate::message::wire_of;
use crate::message::spec_cmd_version;
use crate::message::spec_cmd_verack;
use crate::message::spec_cmd_ping;
use crate::message::spec_cmd_pong;
use crate::message::spec_cmd_getdata;
use crate::message::spec_cmd_getaddr;
use crate::message::spec_cmd_addr;
use crate::message::version::Version;
use crate::message::version::enc_version_payload;
use crate::message::verack::VerAck;
use crate::message::ping::Ping;
use crate::message::pong::Pong;
use crate::message::addr::Addr;
use crate::message::addr::enc_addr_payload;
use crate::message::addr::MSG_ADDR_MAX;
use crate::message::inv::Inv;
use crate::message::getdata::GetData;
use crate::message::getaddr::GetAddr;
use crate::addrmng::AddrManagerRequest;

verus! {

/// Everything that can end or disturb a connection. Fatal errors
/// terminate the peer; the others are logged and the loop continues.
#[derive(Clone, Copy, Debug, PartialEq, Eq, Structural)]
pub enum PeerError {
    ReadEOF,
    ReadTimeout,
    ReadIncomplete,
    ReadIOError,
    ReadMsgPayloadTooBig,
    ReadMsgInvalidChecksum,
    ReadMsgUnknownCommand,
    ReadMsgWrongNetwork,
    ReadMsgInvalidPayload,
    WriteIOError,
    WriteTimeout,
    ConnectError,
    NotConnected,
    DoubleHandshake,
    UnsupportedProtoVersion,
    PingTimeout,
}

impl PeerError {
    /// Which errors end the connection: all but a read timeout, an
    /// incomplete read, and an unknown command.
    pub open spec fn spec_is_fatal(&self) -> bool {
        match *self {
            PeerError::ReadTimeout => false,
            PeerError::ReadIncomplete => false,
            PeerError::ReadMsgUnknownCommand => false,
            _ => true,
        }
    }

    /// Which errors end the connection.
    pub fn is_fatal(&self) -> (r: bool)
        ensures
            r == self.spec_is_fatal(),
    {
        match *self {
            PeerError::ReadTimeout => false,
            PeerError::ReadIncomplete => false,
            PeerError::ReadMsgUnknownCommand => false,
            _ => true,
        }
    }
}

/// Seconds between runs of the periodic scheduler.
pub const PERIODIC_PERIOD_S: u64 = 5;

/// Seconds between heartbeat pings.
pub const PERIOD_PING_S: u64 = 120;

/// Seconds between checks of the outstanding ping.
pub const PERIOD_TIMEOUT_CHECK_S: u64 = 10;

/// Seconds between unsolicited address announcements.
pub const PERIOD_ANNOUNCE_ADDRS_S: u64 = 900;

/// Seconds between address requests.
pub const PERIOD_REQUEST_ADDRS_S: u64 = 1800;

/// Seconds an outstanding ping may wait before the connection fails.
pub const TIMEOUT_S: u64 = 600;

/// Milliseconds the connect call may take.
pub const TIMEOUT_CONNECT_MS: u64 = 10000;

/// Milliseconds a write may take.
pub const TIMEOUT_WRITE_MS: u64 = 300000;

/// Which periodic duty a schedule entry drives.
#[derive(Clone, Copy, Debug, PartialEq, Eq, Structural)]
pub enum PeriodicToken {
    PeriodicPing,
    PeriodicTimeoutCheck,
    PeriodicAnnounceAddresses,
    PeriodicRequestAddresses,
}

/// One schedule entry: an interval, the time it last fired, and the duty
/// it drives.
#[derive(Clone, Copy, Debug)]
pub struct Periodic {
    interval: u64,
    last: i64,
    token: PeriodicToken,
}

impl Periodic {
    /// The interval in seconds.
    pub closed spec fn spec_interval(&self) -> u64 {
        self.interval
    }

    /// When the entry last fired.
    pub closed spec fn spec_last(&self) -> i64 {
        self.last
    }

    /// The duty driven.
    pub closed spec fn spec_token(&self) -> PeriodicToken {
        self.token
    }

    /// A schedule entry that last fired at `now`.
    pub fn new(interval: u64, token: PeriodicToken, now: i64) -> (r: Periodic)
        requires
            0 <= now,
            interval <= 1800,
        ensures
            r.spec_interval() == interval,
            r.spec_last() == now,
            r.spec_token() == token,
    {
        Periodic { interval, last: now, token }
    }

    /// Whether the entry is due: the interval has passed since it fired.
    pub fn is_time(&self, now: i64) -> (r: bool)
        requires
            0 <= self.spec_last(),
            0 <= now,
            self.spec_interval() <= 1800,
        ensures
            r == (now > self.spec_last() + self.spec_interval()),
    {
        now - self.last > self.interval as i64
    }

    /// The duty driven.
    pub fn token(&self) -> (r: PeriodicToken)
        ensures
            r == self.spec_token(),
    {
        self.token
    }

    /// Mark the entry as fired at `now`.
    pub fn done(&mut self, now: i64)
        requires
            0 <= now,
        ensures
            final(self).spec_interval() == old(self).spec_interval(),
            final(self).spec_token() == old(self).spec_token(),
            final(self).spec_last() == now,
    {
        self.last = now;
    }
}

/// The schedule of a fresh connection: heartbeat ping, ping timeout
/// check, address announcement and address request, each starting now.
pub fn init_periodics(now: i64) -> (r: Vec<Periodic>)
    requires
        0 <= now,
    ensures
        r@.len() == 4,
        forall|k: int|
            0 <= k < 4 ==> (#[trigger] r@[k]).spec_last() == now && r@[k].spec_interval() <= 1800,
        r@[0].spec_token() == PeriodicToken::PeriodicPing,
        r@[0].spec_interval() == PERIOD_PING_S,
        r@[1].spec_token() == PeriodicToken::PeriodicTimeoutCheck,
        r@[1].spec_interval() == PERIOD_TIMEOUT_CHECK_S,
        r@[2].spec_token() == PeriodicToken::PeriodicAnnounceAddresses,
        r@[2].spec_interval() == PERIOD_ANNOUNCE_ADDRS_S,
        r@[3].spec_token() == PeriodicToken::PeriodicRequestAddresses,
        r@[3].spec_interval() == PERIOD_REQUEST_ADDRS_S,
{
    let mut r: Vec<Periodic> = Vec::new();
    r.push(Periodic::new(PERIOD_PING_S, PeriodicToken::PeriodicPing, now));
    r.push(Periodic::new(PERIOD_TIMEOUT_CHECK_S, PeriodicToken::PeriodicTimeoutCheck, now));
    r.push(Periodic::new(PERIOD_ANNOUNCE_ADDRS_S, PeriodicToken::PeriodicAnnounceAddresses, now));
    r.push(Periodic::new(PERIOD_REQUEST_ADDRS_S, PeriodicToken::PeriodicRequestAddresses, now));
    r
}

/// The protocol state of one outbound connection.
#[derive(Debug)]
pub struct Peer {
    addr: SockAddr,
    handshake_started: bool,
    version: Option<Version>,
    last_ping: Option<i64>,
    last_addr: Option<i64>,
}

impl Peer {
    /// The remote endpoint.
    pub closed spec fn spec_addr(&self) -> SockAddr {
        self.addr
    }

    /// Whether our own version announcement has gone out. It is the
    /// first outbound message, and it goes out exactly once.
    pub closed spec fn spec_handshake_started(&self) -> bool {
        self.handshake_started
    }

    /// The remote's version announcement, once received.
    pub closed spec fn spec_version(&self) -> Option<Version> {
        self.version
    }

    /// When the outstanding ping went out, if one did.
    pub closed spec fn spec_last_ping(&self) -> Option<i64> {
        self.last_ping
    }

    /// When the last address announcement arrived, if one did.
    pub closed spec fn spec_last_addr(&self) -> Option<i64> {
        self.last_addr
    }

    /// Timestamps the engine stores are never negative.
    pub open spec fn wf(&self) -> bool {
        &&& match self.spec_last_ping() {
            Some(t) => 0 <= t,
            None => true,
        }
        &&& match self.spec_last_addr() {
            Some(t) => 0 <= t,
            None => true,
        }
    }

    /// A fresh connection to `addr`: no handshake yet, nothing
    /// outstanding.
    pub fn new(addr: SockAddr) -> (r: Peer)
        ensures
            r.wf(),
            r.spec_addr() == addr,
            !r.spec_handshake_started(),
            r.spec_version() is None,
            r.spec_last_ping() is None,
            r.spec_last_addr() is None,
    {
        Peer { addr, handshake_started: false, version: None, last_ping: None, last_addr: None }
    }

    /// Open the handshake: our version announcement, the first bytes this
    /// connection ever sends, and never sent twice.
    pub fn send_version(&mut self) -> (r: Vec<u8>)
        requires
            old(self).wf(),
            !old(self).spec_handshake_started(),
        ensures
            final(self).wf(),
            final(self).spec_handshake_started(),
            final(self).spec_addr() == old(self).spec_addr(),
            final(self).spec_version() == old(self).spec_version(),
            final(self).spec_last_ping() == old(self).spec_last_ping(),
            final(self).spec_last_addr() == old(self).spec_last_addr(),
            exists|vv: crate::message::version::VersionV|
                r@ == wire_of(spec_cmd_version(), #[trigger] enc_version_payload(vv))
                    && vv.proto_ver == crate::config::PROTOCOL_VERSION && vv.services
                    == crate::config::SERVICES && vv.version == crate::config::spec_user_agent()
                    && vv.best_height == 0 && vv.relay == true && vv.addr_recv == (NetAddr {
                    time: None,
                    services: crate::config::SERVICES,
                    addr: None,
                }) && vv.addr_send == (NetAddr {
                    time: None,
                    services: crate::config::SERVICES,
                    addr: None,
                }),
    {
        let ua = crate::config::user_agent();
        let version = Version::new(ua, 0);
        let r = version.serialize();
        self.handshake_started = true;
        proof {
            assert(r@ == wire_of(spec_cmd_version(), enc_version_payload(version@)));
        }
        r
    }

    /// Accept the remote's version announcement: a second one is a fatal
    /// protocol error, an unsupported protocol version is refused, and an
    /// accepted one is answered with exactly a verack.
    pub fn handle_version(&mut self, version: Version) -> (r: Result<Vec<u8>, PeerError>)
        requires
            old(self).wf(),
            old(self).spec_handshake_started(),
        ensures
            final(self).wf(),
            final(self).spec_addr() == old(self).spec_addr(),
            final(self).spec_handshake_started(),
            old(self).spec_version() is Some ==> r == Err::<Vec<u8>, PeerError>(
                PeerError::DoubleHandshake,
            ) && *final(self) == *old(self),
            old(self).spec_version() is None && version@.proto_ver
                < crate::config::PROTOCOL_VERSION_MIN ==> r == Err::<Vec<u8>, PeerError>(
                PeerError::UnsupportedProtoVersion,
            ) && *final(self) == *old(self),
            old(self).spec_version() is None && version@.proto_ver
                >= crate::config::PROTOCOL_VERSION_MIN ==> (r matches Ok(w) && w@ == wire_of(
                spec_cmd_verack(),
                Seq::<u8>::empty(),
            ) && final(self).spec_version() == Some(version) && final(self).spec_last_ping() == old(
                self,
            ).spec_last_ping() && final(self).spec_last_addr() == old(self).spec_last_addr()),
    {
        if self.version.is_some() {
            return Err(PeerError::DoubleHandshake);
        }
        if version.get_protocol_version() < crate::config::PROTOCOL_VERSION_MIN {
            return Err(PeerError::UnsupportedProtoVersion);
        }
        self.version = Some(version);
        let verack = VerAck::new();
        Ok(verack.serialize())
    }

    /// The record announcing the remote itself: its advertised endpoint
    /// and services, stamped `now`.
    pub open spec fn spec_self_record(&self, now: u32) -> NetAddr
        recommends
            self.spec_version() is Some,
    {
        let sent = self.spec_version()->0@.addr_send;
        NetAddr { time: Some(now), services: sent.services, addr: sent.addr }
    }

    /// The remote's own address record, stamped `now`, for the address
    /// manager: an admission request under this peer's name carrying
    /// exactly that record, owed if and only if the remote advertised a
    /// usable endpoint.
    pub fn self_announcement(&self, now: u32) -> (r: Option<AddrManagerRequest>)
        requires
            self.spec_version() is Some,
        ensures
            r is Some <==> self.spec_self_record(now).spec_is_valid_addr(),
            match r {
                Some(req) => req matches AddrManagerRequest::AddrMngAddAddresses(ip, list) && ip
                    == self.spec_addr().ip && list@ == seq![self.spec_self_record(now)],
                None => true,
            },
    {
        let v = match &self.version {
            Some(v) => v,
            None => {
                proof {
                    assert(false);
                }
                return None;
            },
        };
        let sent = v.get_addr_send();
        let na = NetAddr::new(Some(now), sent.services, sent.addr);
        proof {
            assert(na == self.spec_self_record(now));
        }
        if na.is_valid_addr() {
            let mut list: Vec<NetAddr> = Vec::new();
            list.push(na);
            proof {
                assert(list@ =~= seq![self.spec_self_record(now)]);
            }
            Some(AddrManagerRequest::AddrMngAddAddresses(self.addr.ip, list))
        } else {
            None
        }
    }

    /// Accept a verack; nothing is owed in reply.
    pub fn handle_verack(&mut self, _verack: &VerAck) -> (r: Result<(), PeerError>)
        ensures
            *final(self) == *old(self),
            r is Ok,
    {
        Ok(())
    }

    /// Answer a ping: exactly one pong, echoing the nonce, and nothing
    /// else.
    pub fn handle_ping(&self, ping: &Ping) -> (r: Vec<u8>)
        requires
            self.spec_handshake_started(),
        ensures
            r@ == wire_of(spec_cmd_pong(), enc_u64(ping.spec_nounce())),
    {
        let pong = Pong::new(ping.get_nounce());
        pong.serialize()
    }

    /// Accept a pong: the outstanding ping is cleared, and the send time
    /// encoded in the nonce is decoded back as seconds and milliseconds.
    pub fn handle_pong(&mut self, pong: &Pong) -> (r: (u64, u64))
        requires
            old(self).wf(),
        ensures
            final(self).wf(),
            final(self).spec_last_ping() is None,
            final(self).spec_addr() == old(self).spec_addr(),
            final(self).spec_handshake_started() == old(self).spec_handshake_started(),
            final(self).spec_version() == old(self).spec_version(),
            final(self).spec_last_addr() == old(self).spec_last_addr(),
            r.0 == pong.spec_nounce() >> 10,
            r.1 == pong.spec_nounce() & 0x3ff,
    {
        self.last_ping = None;
        let nounce = pong.get_nounce();
        (nounce >> 10, nounce & 0x3ff)
    }

    /// Accept an address announcement: the list goes to the address
    /// manager under this peer's name, and the arrival time is recorded.
    pub fn handle_addr(&mut self, addr: &Addr, now: i64) -> (r: AddrManagerRequest)
        requires
            old(self).wf(),
            0 <= now,
        ensures
            final(self).wf(),
            final(self).spec_last_addr() == Some(now),
            final(self).spec_addr() == old(self).spec_addr(),
            final(self).spec_handshake_started() == old(self).spec_handshake_started(),
            final(self).spec_version() == old(self).spec_version(),
            final(self).spec_last_ping() == old(self).spec_last_ping(),
            r matches AddrManagerRequest::AddrMngAddAddresses(ip, list) && ip == old(
                self,
            ).spec_addr().ip && list@ == addr@,
    {
        self.last_addr = Some(now);
        let src = addr.get_addresses();
        let mut list: Vec<NetAddr> = Vec::new();
        let mut i: usize = 0;
        while i < src.len()
            invariant
                i <= src@.len(),
                list@ == src@.take(i as int),
            decreases src@.len() - i,
        {
            list.push(src[i]);
            i += 1;
            proof {
                assert(list@ =~= src@.take(i as int));
            }
        }
        proof {
            assert(list@ =~= src@);
        }
        AddrManagerRequest::AddrMngAddAddresses(self.addr.ip, list)
    }

    /// Answer an inv: a getdata whose inventory vector is exactly the
    /// announced one.
    pub fn handle_inv(&self, inv: &Inv) -> (r: Vec<u8>)
        requires
            self.spec_handshake_started(),
            inv.wf(),
        ensures
            r@ == wire_of(spec_cmd_getdata(), enc_invvect(inv@)),
    {
        let getdata = GetData::from_inv(inv.get_invvect());
        getdata.serialize()
    }

    /// Accept a getdata; serving data is out of scope, nothing is owed.
    pub fn handle_getdata(&mut self, _getdata: &GetData) -> (r: Result<(), PeerError>)
        ensures
            *final(self) == *old(self),
            r is Ok,
    {
        Ok(())
    }

    /// Accept a rejection notice; nothing is owed.
    pub fn handle_reject(&mut self, _reject: &crate::message::reject::Reject) -> (r: Result<
        (),
        PeerError,
    >)
        ensures
            *final(self) == *old(self),
            r is Ok,
    {
        Ok(())
    }

    /// Accept a relayed transaction; nothing is owed.
    pub fn handle_tx(&mut self, _tx: &crate::message::tx::Tx) -> (r: Result<(), PeerError>)
        ensures
            *final(self) == *old(self),
            r is Ok,
    {
        Ok(())
    }

    /// Answer a batch of records from the manager with an addr message.
    pub fn send_addr(&self, addrs: &Vec<NetAddr>) -> (r: Vec<u8>)
        requires
            self.spec_handshake_started(),
            addrs@.len() <= MSG_ADDR_MAX,
        ensures
            r@ == wire_of(spec_cmd_addr(), enc_addr_payload(addrs@)),
    {
        let msg = Addr::from_addrs(addrs);
        msg.serialize()
    }

    /// Send a heartbeat ping, with the send time encoded in the nonce:
    /// seconds shifted left ten bits, with the milliseconds in the low
    /// ten. Only one ping may be outstanding.
    pub fn send_ping(&mut self, now_s: i64, now_ms: u32) -> (r: Vec<u8>)
        requires
            old(self).wf(),
            old(self).spec_handshake_started(),
            old(self).spec_last_ping() is None,
            0 <= now_s,
            now_ms < 1000,
        ensures
            final(self).wf(),
            final(self).spec_last_ping() == Some(now_s),
            final(self).spec_addr() == old(self).spec_addr(),
            final(self).spec_handshake_started(),
            final(self).spec_version() == old(self).spec_version(),
            final(self).spec_last_addr() == old(self).spec_last_addr(),
            r@ == wire_of(
                spec_cmd_ping(),
                enc_u64((((now_s as u64) << 10) | (now_ms as u64)) as u64),
            ),
    {
        let nounce: u64 = ((now_s as u64) << 10) | (now_ms as u64);
        let ping = Ping::new(nounce);
        self.last_ping = Some(now_s);
        ping.serialize()
    }

    /// Send an address request.
    pub fn send_getaddr(&self) -> (r: Vec<u8>)
        requires
            self.spec_handshake_started(),
        ensures
            r@ == wire_of(spec_cmd_getaddr(), Seq::<u8>::empty()),
    {
        let getaddr = GetAddr::new();
        getaddr.serialize()
    }

    /// The heartbeat duty: a ping goes out only when none is
    /// outstanding.
    pub fn periodic_sendping(&mut self, now_s: i64, now_ms: u32) -> (r: Option<Vec<u8>>)
        requires
            old(self).wf(),
            old(self).spec_handshake_started(),
            0 <= now_s,
            now_ms < 1000,
        ensures
            final(self).wf(),
            final(self).spec_addr() == old(self).spec_addr(),
            final(self).spec_handshake_started(),
            final(self).spec_version() == old(self).spec_version(),
            final(self).spec_last_addr() == old(self).spec_last_addr(),
            old(self).spec_last_ping() is Some ==> r is None && *final(self) == *old(self),
            old(self).spec_last_ping() is None ==> (r matches Some(w) && w@ == wire_of(
                spec_cmd_ping(),
                enc_u64((((now_s as u64) << 10) | (now_ms as u64)) as u64),
            ) && final(self).spec_last_ping() == Some(now_s)),
    {
        match self.last_ping {
            Some(_) => None,
            None => Some(self.send_ping(now_s, now_ms)),
        }
    }

    /// The timeout duty: an outstanding ping older than the bound fails
    /// the connection with a ping timeout, and nothing else does.
    pub fn periodic_timeout_check(&self, now: i64) -> (r: Result<(), PeerError>)
        requires
            self.wf(),
            0 <= now,
        ensures
            r == Err::<(), PeerError>(PeerError::PingTimeout) <==> (self.spec_last_ping() matches
            Some(t) && now - t > TIMEOUT_S as i64),
            r is Ok <==> !(self.spec_last_ping() matches Some(t) && now - t > TIMEOUT_S as i64),
    {
        match self.last_ping {
            Some(t) => {
                if now - t > TIMEOUT_S as i64 {
                    Err(PeerError::PingTimeout)
                } else {
                    Ok(())
                }
            },
            None => Ok(()),
        }
    }

    /// The request duty: an address request goes out when none was ever
    /// answered, or the last answer is older than the request interval.
    pub fn periodic_request_addrs(&self, now: i64) -> (r: Option<Vec<u8>>)
        requires
            self.wf(),
            self.spec_handshake_started(),
            0 <= now,
        ensures
            match self.spec_last_addr() {
                None => r matches Some(w) && w@ == wire_of(spec_cmd_getaddr(), Seq::<u8>::empty()),
                Some(t) => if now - t > PERIOD_REQUEST_ADDRS_S as i64 {
                    r matches Some(w) && w@ == wire_of(spec_cmd_getaddr(), Seq::<u8>::empty())
                } else {
                    r is None
                },
            },
    {
        match self.last_addr {
            None => Some(self.send_getaddr()),
            Some(t) => {
                if now - t > PERIOD_REQUEST_ADDRS_S as i64 {
                    Some(self.send_getaddr())
                } else {
                    None
                }
            },
        }
    }
}

} // verus!
