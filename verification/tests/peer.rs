//! The peer engine: handshake rules, replies, and periodic duties.

use rustybit::addrmng::AddrManagerRequest;
use rustybit::invvect::{InvEntry, InvEntryType};
use rustybit::message::addr::Addr;
use rustybit::message::inv::Inv;
use rustybit::message::ping::Ping;
use rustybit::message::pong::Pong;
use rustybit::message::version::Version;
use rustybit::message::Message;
use rustybit::msgbuffer::MsgBuffer;
use rustybit::netaddr::{IpV4, NetAddr, SockAddr};
use rustybit::peer::{init_periodics, Peer, PeerError, PeriodicToken};

fn remote() -> SockAddr {
    SockAddr::new(IpV4::new(93, 93, 135, 12), 8333)
}

fn remote_version(proto: u32) -> Version {
    Version::with_fields(
        proto,
        1,
        b"/other:1.0.0/".to_vec(),
        1_500_000_000,
        NetAddr::new(None, 1, None),
        NetAddr::new(None, 1, Some(remote())),
        0,
        5,
        true,
    )
}

#[test]
fn first_outbound_is_version() {
    let mut peer = Peer::new(remote());
    let bytes = peer.send_version();
    assert_eq!(&bytes[4..16], b"version\0\0\0\0\0");
    // the library refuses a second version by contract: the handshake
    // flag is now set, so send_version may not be called again
}

#[test]
fn second_inbound_version_is_double_handshake() {
    let mut peer = Peer::new(remote());
    let _ = peer.send_version();
    let verack = peer.handle_version(remote_version(70002)).unwrap();
    assert_eq!(&verack[4..16], b"verack\0\0\0\0\0\0");
    assert_eq!(verack.len(), 24);
    let err = peer.handle_version(remote_version(70002)).unwrap_err();
    assert_eq!(err, PeerError::DoubleHandshake);
    assert!(err.is_fatal());
}

#[test]
fn old_protocol_version_is_refused() {
    let mut peer = Peer::new(remote());
    let _ = peer.send_version();
    let err = peer.handle_version(remote_version(70001)).unwrap_err();
    assert_eq!(err, PeerError::UnsupportedProtoVersion);
    // the refusal stored nothing, so a supported version is still welcome
    assert!(peer.handle_version(remote_version(70002)).is_ok());
}

#[test]
fn self_announcement_carries_the_advertised_endpoint() {
    let mut peer = Peer::new(remote());
    let _ = peer.send_version();
    peer.handle_version(remote_version(70002)).unwrap();
    match peer.self_announcement(123_456) {
        Some(AddrManagerRequest::AddrMngAddAddresses(ip, list)) => {
            assert_eq!(ip, remote().ip);
            assert_eq!(list.len(), 1);
            assert_eq!(list[0].time, Some(123_456));
            assert_eq!(list[0].addr, Some(remote()));
        }
        _ => panic!("an announcement was owed"),
    }
}

#[test]
fn self_announcement_is_declined_without_usable_endpoint() {
    let mut peer = Peer::new(remote());
    let _ = peer.send_version();
    // the remote advertised no endpoint of its own
    let v = Version::with_fields(
        70002,
        1,
        b"/other:1.0.0/".to_vec(),
        1_500_000_000,
        NetAddr::new(None, 1, None),
        NetAddr::new(None, 1, None),
        0,
        5,
        true,
    );
    peer.handle_version(v).unwrap();
    assert!(peer.self_announcement(42).is_none());
}

#[test]
fn ping_elicits_exactly_one_pong_with_same_nonce() {
    let mut peer = Peer::new(remote());
    let _ = peer.send_version();
    let reply = peer.handle_ping(&Ping::new(0xFEEDBEEF));
    let mut buf = MsgBuffer::new();
    buf.feed(&reply);
    match buf.read_message().unwrap() {
        Message::MsgPong(p) => assert_eq!(p.get_nounce(), 0xFEEDBEEF),
        _ => panic!("expected a pong"),
    }
    // nothing follows the pong
    assert_eq!(buf.len(), 0);
    assert!(buf.read_message().is_err());
}

#[test]
fn pong_clears_outstanding_ping_and_decodes_nonce() {
    let mut peer = Peer::new(remote());
    let _ = peer.send_version();
    let ping_bytes = peer.send_ping(1_000_000, 250);
    let mut buf = MsgBuffer::new();
    buf.feed(&ping_bytes);
    let nounce = match buf.read_message().unwrap() {
        Message::MsgPing(p) => p.get_nounce(),
        _ => panic!("expected a ping"),
    };
    assert_eq!(nounce, (1_000_000u64 << 10) | 250);
    let (sec, ms) = peer.handle_pong(&Pong::new(nounce));
    assert_eq!(sec, 1_000_000);
    assert_eq!(ms, 250);
    // with the ping answered the timeout check stays quiet forever after
    assert!(peer.periodic_timeout_check(2_000_000).is_ok());
}

#[test]
fn withheld_pong_times_out_after_ten_minutes() {
    let mut peer = Peer::new(remote());
    let _ = peer.send_version();
    let _ = peer.send_ping(1_000_000, 0);
    assert!(peer.periodic_timeout_check(1_000_000 + 600).is_ok());
    let err = peer.periodic_timeout_check(1_000_000 + 601).unwrap_err();
    assert_eq!(err, PeerError::PingTimeout);
    assert!(err.is_fatal());
}

#[test]
fn only_one_ping_outstanding() {
    let mut peer = Peer::new(remote());
    let _ = peer.send_version();
    assert!(peer.periodic_sendping(500, 0).is_some());
    assert!(peer.periodic_sendping(600, 0).is_none());
    let _ = peer.handle_pong(&Pong::new(0));
    assert!(peer.periodic_sendping(700, 0).is_some());
}

#[test]
fn inv_elicits_getdata_with_equal_vector() {
    let mut peer = Peer::new(remote());
    let _ = peer.send_version();
    let mut inv = Inv::new();
    inv.add(InvEntry::new(InvEntryType::MsgTx, rustybit::hash::Hash::new(vec![3u8; 32])));
    inv.add(InvEntry::new(InvEntryType::MsgBlock, rustybit::hash::Hash::new(vec![4u8; 32])));
    let inv_bytes = inv.serialize();
    let reply = peer.handle_inv(&inv);
    // the getdata payload equals the inv payload byte for byte
    assert_eq!(&reply[24..], &inv_bytes[24..]);
    assert_eq!(&reply[4..16], b"getdata\0\0\0\0\0");
    let mut buf = MsgBuffer::new();
    buf.feed(&reply);
    match buf.read_message().unwrap() {
        Message::MsgGetData(g) => assert_eq!(g.get_invvect().len(), 2),
        _ => panic!("expected a getdata"),
    }
}

#[test]
fn addr_goes_to_the_manager_under_this_peer() {
    let mut peer = Peer::new(remote());
    let _ = peer.send_version();
    let na = NetAddr::new(Some(77), 1, Some(SockAddr::new(IpV4::new(5, 6, 7, 8), 8333)));
    let addr = Addr::from_addrs(&vec![na]);
    match peer.handle_addr(&addr, 1_000) {
        AddrManagerRequest::AddrMngAddAddresses(ip, list) => {
            assert_eq!(ip, remote().ip);
            assert_eq!(list, vec![na]);
        }
        _ => panic!("an admission request was owed"),
    }
    // a fresh answer quiets the periodic address request
    assert!(peer.periodic_request_addrs(1_100).is_none());
    assert!(peer.periodic_request_addrs(1_000 + 1801).is_some());
}

#[test]
fn getaddr_goes_out_when_no_answer_was_seen() {
    let mut peer = Peer::new(remote());
    let _ = peer.send_version();
    let bytes = peer.periodic_request_addrs(5).unwrap();
    assert_eq!(&bytes[4..16], b"getaddr\0\0\0\0\0");
    assert_eq!(bytes.len(), 24);
    let same = peer.send_getaddr();
    assert_eq!(bytes, same);
}

#[test]
fn send_addr_frames_the_batch() {
    let mut peer = Peer::new(remote());
    let _ = peer.send_version();
    let na = NetAddr::new(Some(9), 1, Some(SockAddr::new(IpV4::new(4, 3, 2, 1), 8333)));
    let bytes = peer.send_addr(&vec![na, na]);
    let mut buf = MsgBuffer::new();
    buf.feed(&bytes);
    match buf.read_message().unwrap() {
        Message::MsgAddr(a) => assert_eq!(a.get_addresses().len(), 2),
        _ => panic!("expected an addr"),
    }
}

#[test]
fn periodic_schedule_fires_after_its_interval() {
    let mut ps = init_periodics(100);
    assert_eq!(ps.len(), 4);
    assert!(matches!(ps[0].token(), PeriodicToken::PeriodicPing));
    assert!(!ps[0].is_time(100 + 120));
    assert!(ps[0].is_time(100 + 121));
    assert!(ps[1].is_time(100 + 11));
    ps[1].done(300);
    assert!(!ps[1].is_time(305));
    assert!(ps[1].is_time(311));
}

#[test]
fn fatality_classification() {
    assert!(!PeerError::ReadTimeout.is_fatal());
    assert!(!PeerError::ReadIncomplete.is_fatal());
    assert!(!PeerError::ReadMsgUnknownCommand.is_fatal());
    assert!(PeerError::ReadEOF.is_fatal());
    assert!(PeerError::ReadIOError.is_fatal());
    assert!(PeerError::ReadMsgPayloadTooBig.is_fatal());
    assert!(PeerError::ReadMsgInvalidChecksum.is_fatal());
    assert!(PeerError::ReadMsgWrongNetwork.is_fatal());
    assert!(PeerError::WriteIOError.is_fatal());
    assert!(PeerError::WriteTimeout.is_fatal());
    assert!(PeerError::ConnectError.is_fatal());
    assert!(PeerError::NotConnected.is_fatal());
    assert!(PeerError::DoubleHandshake.is_fatal());
    assert!(PeerError::UnsupportedProtoVersion.is_fatal());
    assert!(PeerError::PingTimeout.is_fatal());
}
