//! Whole-message framing: encodings, headers, and the framing buffer.

use rustybit::config;
use rustybit::crypto;
use rustybit::invvect::{InvEntry, InvEntryType};
use rustybit::marshalling::Unmarshalling;
use rustybit::message::header::Header;
use rustybit::message::inv::Inv;
use rustybit::message::ping::Ping;
use rustybit::message::reject::{Reject, RejectType};
use rustybit::message::version::Version;
use rustybit::message::Message;
use rustybit::msgbuffer::MsgBuffer;
use rustybit::netaddr::NetAddr;

#[test]
fn version_wire_layout() {
    let ua = b"/rustybit:0.0.0_dev/".to_vec();
    let recv = NetAddr::new(None, 1, None);
    let send = NetAddr::new(None, 1, None);
    let v = Version::with_fields(70002, 1, ua.clone(), 1_412_833_399, recv, send, 0, 0xABABEFACE, true);
    let bytes = v.serialize();
    // magic, little-endian on the wire
    assert_eq!(&bytes[0..4], &[0xF9, 0xBE, 0xB4, 0xD9]);
    // command, NUL-padded to 12
    assert_eq!(&bytes[4..16], b"version\0\0\0\0\0");
    let payload = bytes[24..].to_vec();
    // length field
    let plen = u32::from_le_bytes([bytes[16], bytes[17], bytes[18], bytes[19]]);
    assert_eq!(plen as usize, payload.len());
    // checksum field is the first four bytes of dsha256(payload), little-endian
    let cks = u32::from_le_bytes([bytes[20], bytes[21], bytes[22], bytes[23]]);
    assert_eq!(cks, crypto::checksum(&payload));
    // the payload decodes back to an equal announcement
    let back = Version::unserialize(&payload, payload.len()).unwrap();
    let again = back.serialize();
    assert_eq!(bytes, again);
    assert_eq!(back.get_protocol_version(), 70002);
    assert_eq!(back.get_nounce(), 0xABABEFACE);
}

#[test]
fn version_round_trip_through_buffer() {
    let ua = config::user_agent();
    let recv = NetAddr::new(None, 1, None);
    let send = NetAddr::new(None, 1, None);
    let v = Version::with_fields(70002, 1, ua, 1_412_833_399, recv, send, 7, 99, true);
    let bytes = v.serialize();
    let mut buf = MsgBuffer::new();
    buf.feed(&bytes);
    match buf.read_message().unwrap() {
        Message::MsgVersion(back) => {
            assert_eq!(back.get_protocol_version(), 70002);
            assert_eq!(back.get_nounce(), 99);
        }
        _ => panic!("expected a version"),
    }
    assert_eq!(buf.len(), 0);
}

#[test]
fn ping_wire_and_read_message() {
    let ping = Ping::new(0x0123456789ABCDEF);
    let bytes = ping.serialize();
    // 8-byte little-endian payload
    assert_eq!(bytes.len(), 32);
    assert_eq!(
        &bytes[24..],
        &[0xEF, 0xCD, 0xAB, 0x89, 0x67, 0x45, 0x23, 0x01]
    );
    let mut buf = MsgBuffer::new();
    buf.feed(&bytes);
    match buf.read_message().unwrap() {
        Message::MsgPing(p) => assert_eq!(p.get_nounce(), 0x0123456789ABCDEF),
        _ => panic!("expected a ping"),
    }
}

#[test]
fn tampered_payload_fails_checksum() {
    let ping = Ping::new(42);
    let mut bytes = ping.serialize();
    let last = bytes.len() - 1;
    bytes[last] ^= 0xFF;
    let mut buf = MsgBuffer::new();
    buf.feed(&bytes);
    assert_eq!(
        buf.read_message().unwrap_err(),
        rustybit::peer::PeerError::ReadMsgInvalidChecksum
    );
}

#[test]
fn oversized_payload_header_is_fatal_before_payload() {
    // a bare header declaring a 5 MiB payload; no payload bytes at all
    let header = Header::new(config::NETWORK, b"ping".to_vec(), 5 * (1 << 20), 0);
    let bytes = header.serialize();
    assert_eq!(bytes.len(), 24);
    let mut buf = MsgBuffer::new();
    buf.feed(&bytes);
    assert_eq!(
        buf.read_message().unwrap_err(),
        rustybit::peer::PeerError::ReadMsgPayloadTooBig
    );
}

#[test]
fn wrong_network_is_fatal() {
    let ping = Ping::new(1);
    let good = ping.serialize();
    let payload = good[24..].to_vec();
    let header = Header::new(0x0B110907, b"ping".to_vec(), 8, crypto::checksum(&payload));
    let mut bytes = header.serialize();
    bytes.extend_from_slice(&payload);
    let mut buf = MsgBuffer::new();
    buf.feed(&bytes);
    assert_eq!(
        buf.read_message().unwrap_err(),
        rustybit::peer::PeerError::ReadMsgWrongNetwork
    );
}

#[test]
fn unknown_command_is_nonfatal_and_clears() {
    let header = Header::new(config::NETWORK, b"bogus".to_vec(), 0, crypto::checksum(&[]));
    let bytes = header.serialize();
    let mut buf = MsgBuffer::new();
    buf.feed(&bytes);
    let err = buf.read_message().unwrap_err();
    assert_eq!(err, rustybit::peer::PeerError::ReadMsgUnknownCommand);
    assert!(!err.is_fatal());
    assert_eq!(buf.len(), 0);
}

#[test]
fn short_payload_is_incomplete_then_complete() {
    let ping = Ping::new(7);
    let bytes = ping.serialize();
    let mut buf = MsgBuffer::new();
    buf.feed(&bytes[..20]);
    assert_eq!(
        buf.read_message().unwrap_err(),
        rustybit::peer::PeerError::ReadIncomplete
    );
    buf.feed(&bytes[20..28]);
    assert_eq!(
        buf.read_message().unwrap_err(),
        rustybit::peer::PeerError::ReadIncomplete
    );
    buf.feed(&bytes[28..]);
    match buf.read_message().unwrap() {
        Message::MsgPing(p) => assert_eq!(p.get_nounce(), 7),
        _ => panic!("expected a ping"),
    }
}

#[test]
fn truncated_ping_payload_is_invalid() {
    // header declares four payload bytes; the ping decoder needs eight
    let payload = vec![1u8, 2, 3, 4];
    let header = Header::new(config::NETWORK, b"ping".to_vec(), 4, crypto::checksum(&payload));
    let mut bytes = header.serialize();
    bytes.extend_from_slice(&payload);
    let mut buf = MsgBuffer::new();
    buf.feed(&bytes);
    assert_eq!(
        buf.read_message().unwrap_err(),
        rustybit::peer::PeerError::ReadMsgInvalidPayload
    );
}

#[test]
fn two_messages_in_one_buffer() {
    let a = Ping::new(1).serialize();
    let b = Ping::new(2).serialize();
    let mut buf = MsgBuffer::new();
    buf.feed(&a);
    buf.feed(&b);
    match buf.read_message().unwrap() {
        Message::MsgPing(p) => assert_eq!(p.get_nounce(), 1),
        _ => panic!("expected a ping"),
    }
    match buf.read_message().unwrap() {
        Message::MsgPing(p) => assert_eq!(p.get_nounce(), 2),
        _ => panic!("expected a ping"),
    }
}

#[test]
fn inv_round_trip_through_buffer() {
    let mut inv = Inv::new();
    inv.add(InvEntry::new(InvEntryType::MsgTx, rustybit::hash::Hash::new(vec![1u8; 32])));
    inv.add(InvEntry::new(InvEntryType::MsgBlock, rustybit::hash::Hash::new(vec![2u8; 32])));
    let bytes = inv.serialize();
    assert_eq!(&bytes[4..16], b"inv\0\0\0\0\0\0\0\0\0");
    let mut buf = MsgBuffer::new();
    buf.feed(&bytes);
    match buf.read_message().unwrap() {
        Message::MsgInv(back) => {
            assert_eq!(back.get_invvect().len(), 2);
        }
        _ => panic!("expected an inv"),
    }
}

#[test]
fn reject_round_trip() {
    let r = Reject::new(
        b"tx".to_vec(),
        RejectType::RejectInsufficientFee,
        b"fee too low".to_vec(),
    );
    let bytes = r.serialize();
    let payload = bytes[24..].to_vec();
    let mut u = Unmarshalling::new(&payload);
    let msg = u.read_varstr().unwrap();
    assert_eq!(msg, b"tx".to_vec());
    assert_eq!(u.read_uint8().unwrap(), 0x42);
    assert_eq!(u.read_varstr().unwrap(), b"fee too low".to_vec());
    let back = Reject::unserialize(&payload).unwrap();
    let again = back.serialize();
    assert_eq!(bytes, again);
}

#[test]
fn reject_unknown_code_is_refused() {
    assert!(RejectType::from_u8(0x42).is_some());
    assert!(RejectType::from_u8(0x05).is_none());
    let payload = vec![0u8, 0x05, 0u8]; // empty msg, bad code, empty reason
    assert!(Reject::unserialize(&payload).is_err());
}

#[test]
fn config_strings() {
    assert_eq!(config::version(), "0.0.0-dev");
    assert_eq!(config::name_version(), "rustybit 0.0.0-dev");
    assert_eq!(config::name_version_bip0014(), "/rustybit:0.0.0_dev/");
    assert_eq!(config::user_agent(), b"/rustybit:0.0.0_dev/".to_vec());
    assert_eq!(config::NETWORK, 0xD9B4BEF9);
    assert_eq!(config::PROTOCOL_VERSION, 70002);
}
