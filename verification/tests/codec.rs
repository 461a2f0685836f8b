//! Round trips and boundary values of the primitive wire codec.

use rustybit::marshalling::{Marshalling, Unmarshalling};
use rustybit::invvect::{InvEntry, InvEntryType, InvVect};
use rustybit::netaddr::{IpV4, NetAddr, SockAddr};
use rustybit::transaction::{OutPoint, Script, Transaction, TxIn, TxLock, TxOut};
use rustybit::value::Value;

fn roundtrip_varint(v: u64, expected_len: usize) {
    let mut m = Marshalling::new();
    m.write_varint(v);
    let bytes = m.get();
    assert_eq!(bytes.len(), expected_len);
    let mut u = Unmarshalling::new(&bytes);
    assert_eq!(u.read_varint().unwrap(), v);
    assert_eq!(u.consumed(), expected_len);
}

#[test]
fn varint_boundaries() {
    roundtrip_varint(0, 1);
    roundtrip_varint(252, 1);
    roundtrip_varint(253, 3);
    roundtrip_varint(0xFFFF, 3);
    roundtrip_varint(0x10000, 5);
    roundtrip_varint(0xFFFFFFFF, 5);
    roundtrip_varint(0x100000000, 9);
    roundtrip_varint(u64::MAX, 9);
}

#[test]
fn uint_roundtrips() {
    let mut m = Marshalling::new();
    m.write_uint8(0xAB);
    m.write_uint16(0x1234);
    m.write_uint32(0xDEADBEEF);
    m.write_uint64(0x0123456789ABCDEF);
    m.write_bool(true);
    m.write_bool(false);
    let bytes = m.get();
    assert_eq!(bytes.len(), 1 + 2 + 4 + 8 + 2);
    // little-endian layout
    assert_eq!(&bytes[1..3], &[0x34, 0x12]);
    assert_eq!(&bytes[3..7], &[0xEF, 0xBE, 0xAD, 0xDE]);
    let mut u = Unmarshalling::new(&bytes);
    assert_eq!(u.read_uint8().unwrap(), 0xAB);
    assert_eq!(u.read_uint16().unwrap(), 0x1234);
    assert_eq!(u.read_uint32().unwrap(), 0xDEADBEEF);
    assert_eq!(u.read_uint64().unwrap(), 0x0123456789ABCDEF);
    assert!(u.read_bool().unwrap());
    assert!(!u.read_bool().unwrap());
}

#[test]
fn out_of_bounds_reads_fail_without_moving() {
    let bytes = vec![1u8, 2u8];
    let mut u = Unmarshalling::new(&bytes);
    assert!(u.read_uint32().is_err());
    assert_eq!(u.consumed(), 0);
    assert_eq!(u.read_uint16().unwrap(), 0x0201);
}

#[test]
fn str12_roundtrip() {
    let cmd = b"version".to_vec();
    let mut m = Marshalling::new();
    m.write_str12(&cmd);
    let bytes = m.get();
    assert_eq!(bytes.len(), 12);
    assert_eq!(&bytes[..7], b"version");
    assert_eq!(&bytes[7..], &[0u8; 5]);
    let mut u = Unmarshalling::new(&bytes);
    assert_eq!(u.read_str12().unwrap(), cmd);
}

#[test]
fn str12_sanitizes_on_decode() {
    // bytes outside the safe alphabet are dropped
    let bytes = vec![118u8, 1u8, 101u8, 114u8, 0u8, 0u8, 0u8, 0u8, 0u8, 0u8, 0u8, 0u8];
    let mut u = Unmarshalling::new(&bytes);
    assert_eq!(u.read_str12().unwrap(), b"ver".to_vec());
}

#[test]
fn varstr_roundtrip_and_bound() {
    let s = b"/rustybit:0.0.0_dev/".to_vec();
    let mut m = Marshalling::new();
    m.write_varstr(&s);
    let bytes = m.get();
    assert_eq!(bytes.len(), 1 + s.len());
    let mut u = Unmarshalling::new(&bytes);
    assert_eq!(u.read_varstr().unwrap(), s);
    // a declared length above 256 is rejected
    let mut m2 = Marshalling::new();
    m2.write_varint(300);
    let mut long = m2.get();
    long.extend(std::iter::repeat(65u8).take(300));
    let mut u2 = Unmarshalling::new(&long);
    assert!(u2.read_varstr().is_err());
    assert_eq!(u2.consumed(), 0);
}

#[test]
fn hash_roundtrip_reverses_wire_order() {
    let logical: Vec<u8> = (0u8..32u8).collect();
    let h = rustybit::hash::Hash::new(logical.clone());
    let mut m = Marshalling::new();
    m.write_hash(&h);
    let bytes = m.get();
    assert_eq!(bytes[0], 31);
    assert_eq!(bytes[31], 0);
    let mut u = Unmarshalling::new(&bytes);
    let back = u.read_hash().unwrap();
    for i in 0..32 {
        assert_eq!(back.get(i), logical[i]);
    }
}

#[test]
fn netaddr_roundtrip() {
    let na = NetAddr::new(
        Some(1_412_833_399),
        1,
        Some(SockAddr::new(IpV4::new(10, 0, 0, 1), 8333)),
    );
    let mut m = Marshalling::new();
    m.write_netaddr(&na, true);
    let bytes = m.get();
    assert_eq!(bytes.len(), 30);
    // port is big-endian on the wire
    assert_eq!(bytes[28], (8333u16 >> 8) as u8);
    assert_eq!(bytes[29], (8333u16 & 0xff) as u8);
    let mut u = Unmarshalling::new(&bytes);
    assert_eq!(u.read_netaddr(true).unwrap(), na);

    let bare = NetAddr::new(None, 1, None);
    let mut m2 = Marshalling::new();
    m2.write_netaddr(&bare, false);
    let bytes2 = m2.get();
    assert_eq!(bytes2.len(), 26);
    let mut u2 = Unmarshalling::new(&bytes2);
    assert_eq!(u2.read_netaddr(false).unwrap(), bare);
}

#[test]
fn invvect_roundtrip() {
    let mut iv = InvVect::new();
    iv.add(InvEntry::new(InvEntryType::MsgTx, rustybit::hash::Hash::new(vec![7u8; 32])));
    iv.add(InvEntry::new(InvEntryType::MsgBlock, rustybit::hash::Hash::new(vec![9u8; 32])));
    let mut m = Marshalling::new();
    m.write_invvect(&iv);
    let bytes = m.get();
    assert_eq!(bytes.len(), 1 + 2 * 36);
    let mut u = Unmarshalling::new(&bytes);
    let back = u.read_invvect().unwrap();
    assert_eq!(back.len(), 2);
    assert!(matches!(back.get(0).typ, InvEntryType::MsgTx));
    assert!(matches!(back.get(1).typ, InvEntryType::MsgBlock));
    assert_eq!(back.get(0).hash.get(0), 7);
    assert_eq!(back.get(1).hash.get(31), 9);
}

#[test]
fn invvect_rejects_bad_type() {
    let mut m = Marshalling::new();
    m.write_varint(1);
    m.write_uint32(3); // no such entry type
    m.write_hash(&rustybit::hash::Hash::new(vec![0u8; 32]));
    let bytes = m.get();
    let mut u = Unmarshalling::new(&bytes);
    assert!(u.read_invvect().is_err());
    assert_eq!(u.consumed(), 0);
}

#[test]
fn txlock_boundaries() {
    assert!(matches!(TxLock::from_u32(0), TxLock::LockLocked));
    assert!(matches!(TxLock::from_u32(1), TxLock::LockBlock(1)));
    assert!(matches!(TxLock::from_u32(500_000_000), TxLock::LockBlock(500_000_000)));
    assert!(matches!(TxLock::from_u32(500_000_001), TxLock::LockTime(500_000_001)));
    assert!(matches!(TxLock::from_u32(0xFFFFFFFE), TxLock::LockTime(0xFFFFFFFE)));
    assert!(matches!(TxLock::from_u32(0xFFFFFFFF), TxLock::LockUnlocked));
    assert_eq!(TxLock::LockBlock(42).to_u32(), 42);
}

#[test]
fn transaction_roundtrip() {
    let prev = OutPoint::new(rustybit::hash::Hash::new(vec![5u8; 32]), 3);
    let tin = TxIn::new(prev, Script::from_bytes(vec![0xAA, 0xBB]), 0xFFFFFFFF);
    let tout = TxOut::new(Value::Satoshi(5_000_000_000), Script::from_bytes(vec![0xCC]));
    let tx = Transaction::new(1, vec![tin], vec![tout], TxLock::LockBlock(100));
    let mut m = Marshalling::new();
    m.write_transaction(&tx);
    let bytes = m.get();
    let mut u = Unmarshalling::new(&bytes);
    let back = u.read_transaction().unwrap();
    assert_eq!(back.get_version(), 1);
    assert_eq!(back.get_in_txs().len(), 1);
    assert_eq!(back.get_out_txs().len(), 1);
    assert_eq!(back.get_in_txs()[0].get_sequence(), 0xFFFFFFFF);
    assert_eq!(back.get_in_txs()[0].get_prev_out().get_index(), 3);
    assert_eq!(back.get_in_txs()[0].get_script().bytes, vec![0xAA, 0xBB]);
    assert_eq!(back.get_out_txs()[0].get_value().satoshi(), 5_000_000_000);
    assert_eq!(back.get_out_txs()[0].get_script().bytes, vec![0xCC]);
    assert!(matches!(back.get_lock(), TxLock::LockBlock(100)));
    assert_eq!(u.consumed(), bytes.len());
}

#[test]
fn transaction_id_is_reversed_double_sha() {
    let prev = OutPoint::new(rustybit::hash::Hash::new(vec![5u8; 32]), 3);
    let tin = TxIn::new(prev, Script::from_bytes(vec![0xAA, 0xBB]), 0xFFFFFFFF);
    let tout = TxOut::new(Value::Satoshi(50), Script::from_bytes(vec![0xCC]));
    let tx = Transaction::new(1, vec![tin], vec![tout], TxLock::LockLocked);
    let mut m = Marshalling::new();
    m.write_transaction(&tx);
    let digest = rustybit::crypto::dsha256(&m.get());
    let txid = tx.get_hash();
    for i in 0..32 {
        assert_eq!(txid.get(i), digest[31 - i]);
    }
}

#[test]
fn checksum_known_vector() {
    // double SHA-256 of the empty string, first four bytes little-endian
    assert_eq!(rustybit::crypto::checksum(&[]), 0xE2E0F65D);
    let digest = rustybit::crypto::dsha256(&[]);
    let hex = rustybit::crypto::to_hexstr(&digest);
    assert_eq!(
        String::from_utf8(hex).unwrap(),
        "5df6e0e2761359d30a8275058e299fcc0381534545f55cf43e41983f5d4c9456"
    );
}
