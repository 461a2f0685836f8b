//! The address manager's admission, quotas, serving and cleanup.

use rustybit::addrmng::{AddrManager, AddrManagerReply, AddrManagerRequest};
use rustybit::netaddr::{IpV4, NetAddr, SockAddr};

fn endpoint(a: u8, b: u8, c: u8, d: u8, port: u16) -> SockAddr {
    SockAddr::new(IpV4::new(a, b, c, d), port)
}

fn record(sa: SockAddr, t: u32) -> NetAddr {
    NetAddr::new(Some(t), 1, Some(sa))
}

#[test]
fn refresh_moves_announcer_between_peers() {
    let mut mng = AddrManager::new();
    let peer_a = IpV4::new(1, 1, 1, 1);
    let peer_b = IpV4::new(2, 2, 2, 2);
    let x = endpoint(93, 93, 135, 12, 8333);
    let t = 1_000_000;
    mng.handle_add_addresses(peer_a, &vec![record(x, t)], t);
    assert_eq!(mng.address_count(), 1);
    assert_eq!(mng.peer_addresses(&peer_a), 1);
    assert_eq!(mng.peer_addresses(&peer_b), 0);
    // the same endpoint, one second newer, from another peer
    mng.handle_add_addresses(peer_b, &vec![record(x, t + 1)], t);
    assert_eq!(mng.address_count(), 1);
    assert_eq!(mng.peer_addresses(&peer_a), 0);
    assert_eq!(mng.peer_addresses(&peer_b), 1);
    assert_eq!(mng.get_known_address_time(&x), Some(t + 1));
}

#[test]
fn stale_timestamp_does_not_refresh() {
    let mut mng = AddrManager::new();
    let peer = IpV4::new(1, 1, 1, 1);
    let x = endpoint(10, 1, 2, 3, 8333);
    let t = 500_000;
    mng.handle_add_addresses(peer, &vec![record(x, t)], t);
    mng.handle_add_addresses(peer, &vec![record(x, t - 1)], t);
    assert_eq!(mng.get_known_address_time(&x), Some(t));
    assert_eq!(mng.address_count(), 1);
}

#[test]
fn invalid_or_old_records_are_rejected() {
    let mut mng = AddrManager::new();
    let peer = IpV4::new(1, 1, 1, 1);
    let now = 1_000_000;
    let no_port = record(endpoint(10, 0, 0, 1, 0), now);
    let zero_host = record(endpoint(0, 0, 0, 0, 8333), now);
    let no_time = NetAddr::new(None, 1, Some(endpoint(10, 0, 0, 2, 8333)));
    let no_endpoint = NetAddr::new(Some(now), 1, None);
    let too_old = record(endpoint(10, 0, 0, 3, 8333), now - 10801);
    mng.handle_add_addresses(
        peer,
        &vec![no_port, zero_host, no_time, no_endpoint, too_old],
        now,
    );
    assert_eq!(mng.address_count(), 0);
    assert_eq!(mng.peer_addresses(&peer), 0);
}

#[test]
fn peer_quota_caps_at_fifty() {
    let mut mng = AddrManager::new();
    let peer = IpV4::new(9, 9, 9, 9);
    let now = 2_000_000;
    let mut list: Vec<NetAddr> = Vec::new();
    for i in 0..60u8 {
        // spread over many /12 subnets so buckets stay roomy
        list.push(record(endpoint(i.wrapping_add(1), i.wrapping_mul(16), 7, 7, 8333), now));
    }
    mng.handle_add_addresses(peer, &list, now);
    assert_eq!(mng.peer_addresses(&peer), 50);
    assert_eq!(mng.address_count(), 50);
}

#[test]
fn one_subnet_fills_only_one_bucket() {
    let mut mng = AddrManager::new();
    let now = 3_000_000;
    // 45 endpoints inside one /12: same first octet, same top nibble of
    // the second; five peers so the per-peer quota does not interfere
    let mut offered = 0;
    for p in 0..5u8 {
        let peer = IpV4::new(100 + p, 0, 0, 1);
        let mut list: Vec<NetAddr> = Vec::new();
        for i in 0..9u8 {
            list.push(record(endpoint(77, 16, p, i, 8333), now));
            offered += 1;
        }
        mng.handle_add_addresses(peer, &list, now);
    }
    assert_eq!(offered, 45);
    // the bucket holds at most 40 of them
    assert!(mng.address_count() <= 40);
    assert!(mng.address_count() >= 40);
}

#[test]
fn cleanup_drops_aged_addresses() {
    let mut mng = AddrManager::new();
    let peer = IpV4::new(1, 2, 3, 4);
    let t = 1_000_000;
    let x = endpoint(50, 60, 70, 80, 8333);
    let y = endpoint(130, 140, 150, 160, 8333);
    mng.handle_add_addresses(peer, &vec![record(x, t), record(y, t + 5000)], t);
    assert_eq!(mng.address_count(), 2);
    // three hours and a second after t: x ages out, y stays
    let later = t + 10801;
    mng.periodic_cleanup(later);
    assert_eq!(mng.address_count(), 1);
    assert_eq!(mng.peer_addresses(&peer), 1);
    assert_eq!(mng.get_known_address_time(&x), None);
    assert_eq!(mng.get_known_address_time(&y), Some(t + 5000));
    // much later, everything ages out
    mng.periodic_cleanup(later + 10801);
    assert_eq!(mng.address_count(), 0);
    assert_eq!(mng.peer_addresses(&peer), 0);
}

#[test]
fn served_batches_are_bounded_and_valid() {
    let mut mng = AddrManager::new();
    let now = 4_000_000;
    for p in 0..10u8 {
        let peer = IpV4::new(200, p, 0, 1);
        let mut list: Vec<NetAddr> = Vec::new();
        for i in 0..10u8 {
            list.push(record(endpoint(p + 1, i.wrapping_mul(16), 3, 4, 8333), now));
        }
        mng.handle_add_addresses(peer, &list, now);
    }
    let some = mng.get_some_addresses();
    assert!(some.len() <= 25);
    for a in &some {
        assert!(a.is_valid_addr());
        // every served record is one the pool stores
        assert_eq!(a.time, Some(now));
        assert_eq!(a.addr.unwrap().port, 8333);
    }
    let many = mng.get_many_addresses();
    assert!(many.len() <= 500);
    for a in &many {
        assert!(a.is_valid_addr());
    }
}

#[test]
fn handle_request_dispatch() {
    let mut mng = AddrManager::new();
    let peer = IpV4::new(8, 8, 8, 8);
    let now = 5_000_000;
    let req = AddrManagerRequest::AddrMngAddAddresses(
        peer,
        vec![record(endpoint(11, 22, 33, 44, 8333), now)],
    );
    assert!(mng.handle_request(req, now).is_none());
    assert_eq!(mng.address_count(), 1);
    match mng.handle_request(AddrManagerRequest::AddrMngGetSomeAddresses, now) {
        Some(AddrManagerReply::AddrMngAddresses(v)) => assert!(v.len() <= 25),
        None => panic!("a batch was owed"),
    }
    match mng.handle_request(AddrManagerRequest::AddrMngGetManyAddresses, now) {
        Some(AddrManagerReply::AddrMngAddresses(v)) => assert!(v.len() <= 500),
        None => panic!("a batch was owed"),
    }
}
