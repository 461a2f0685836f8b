//! The address manager: the sole authority on the pool of known peer
//! endpoints. Addresses live in 64 buckets keyed by a secret-keyed hash of
//! their /12 subnet; admission enforces freshness, per-peer quotas and
//! bucket capacity, and a periodic sweep drops aged entries.

use vstd::prelude::*;

use crate::netaddr::IpV4;
use crate::netaddr::SockAddr;
use crate::netaddr::NetAddr;
use crate::crypto::checksum_of;

verus! {

/// Capacity of each peer-to-manager request channel.
pub const ADDRMNG_CHANNEL_BUF_CAP: usize = 8;

/// The most addresses the pool ever holds.
pub const MAX_ADDRESSES: usize = 2500;

/// The number of buckets.
pub const BUCKETS: usize = 64;

/// The most addresses any one announcing peer may have in the pool:
/// two percent of the pool.
pub const MAX_ADDRS_PER_PEER: usize = 50;

/// The most addresses one bucket may hold: the pool size divided by the
/// bucket count, rounded up.
pub const MAX_ADDRS_PER_BUCKET: usize = 40;

/// Lower bound of a small served batch.
pub const ANNOUNCE_SOME_ADDRS_MIN: usize = 5;

/// Upper bound of a small served batch.
pub const ANNOUNCE_SOME_ADDRS_MAX: usize = 25;

/// Lower bound of a large served batch.
pub const ANNOUNCE_MANY_ADDRS_MIN: usize = 200;

/// Upper bound of a large served batch.
pub const ANNOUNCE_MANY_ADDRS_MAX: usize = 500;

/// Minutes between cleanup sweeps.
pub const PERIODIC_CLEANUP_M: u64 = 20;

/// Age in seconds beyond which a stored address is dropped: three hours.
pub const OLD_ADDRESS_AGE_S: u64 = 10800;

/// A stored address: the endpoint record and the peer that announced it.
#[derive(Clone, Copy, Debug, PartialEq, Eq)]
pub struct Address {
    pub peer: IpV4,
    pub netaddr: NetAddr,
}

impl Address {
    /// A storable address: a valid endpoint with a timestamp.
    pub open spec fn wf(&self) -> bool {
        self.netaddr.spec_is_valid_addr() && self.netaddr.time is Some
    }

    /// The socket endpoint that identifies this address.
    pub open spec fn spec_key(&self) -> SockAddr {
        self.netaddr.addr->0
    }

    /// The stored timestamp.
    pub open spec fn spec_time(&self) -> u32 {
        self.netaddr.time->0
    }

    /// Pair an endpoint record with its announcer.
    pub fn new(netaddr: NetAddr, peer: IpV4) -> (r: Address)
        ensures
            r == (Address { peer, netaddr }),
    {
        Address { peer, netaddr }
    }

    /// Whether the stored timestamp lies more than the age bound before
    /// `now`.
    pub open spec fn spec_is_old(&self, now: u32) -> bool {
        now as int - self.spec_time() as int > OLD_ADDRESS_AGE_S as int
    }

    /// Whether the stored timestamp lies more than the age bound before
    /// `now`.
    pub fn is_old(&self, now: u32) -> (r: bool)
        requires
            self.wf(),
        ensures
            r == self.spec_is_old(now),
    {
        match self.netaddr.time {
            Some(t) => now as u64 > t as u64 + OLD_ADDRESS_AGE_S,
            None => false,
        }
    }
}

/// A request a peer sends the manager.
#[derive(Debug)]
pub enum AddrManagerRequest {
    AddrMngAddAddresses(IpV4, Vec<NetAddr>),
    AddrMngGetSomeAddresses,
    AddrMngGetManyAddresses,
}

/// A reply the manager sends a peer.
#[derive(Debug)]
pub enum AddrManagerReply {
    AddrMngAddresses(Vec<NetAddr>),
}

/// The bucket an endpoint belongs to: the first four bytes of the double
/// SHA-256 of `secret ∥ first octet ∥ (second octet & 0xF0) ∥ secret`,
/// read little-endian, modulo the bucket count. Grouping by /12 subnet
/// keeps an adversary inside one subnet confined to one bucket.
pub open spec fn bucket_of(secret: Seq<u8>, ip: IpV4) -> int {
    (checksum_of(secret + seq![ip.a, (ip.b & 0xf0) as u8] + secret) as int) % (BUCKETS as int)
}

/// How many addresses of a bucket were announced by `p`.
pub open spec fn count_peer_bucket(b: Seq<Address>, p: IpV4) -> int
    decreases b.len(),
{
    if b.len() == 0 {
        0int
    } else {
        count_peer_bucket(b.drop_last(), p) + if b.last().peer == p {
            1int
        } else {
            0int
        }
    }
}

/// How many addresses across all buckets were announced by `p`.
pub open spec fn count_peer_all(bs: Seq<Seq<Address>>, p: IpV4) -> int
    decreases bs.len(),
{
    if bs.len() == 0 {
        0int
    } else {
        count_peer_all(bs.drop_last(), p) + count_peer_bucket(bs.last(), p)
    }
}

/// The total number of stored addresses.
pub open spec fn sum_lens(bs: Seq<Seq<Address>>) -> int
    decreases bs.len(),
{
    if bs.len() == 0 {
        0int
    } else {
        sum_lens(bs.drop_last()) + bs.last().len()
    }
}

/// The count recorded for `p`, or zero where no entry exists.
pub open spec fn peer_count_of(m: Seq<(IpV4, usize)>, p: IpV4) -> int
    decreases m.len(),
{
    if m.len() == 0 {
        0int
    } else if m[0].0 == p {
        m[0].1 as int
    } else {
        peer_count_of(m.skip(1), p)
    }
}

/// Whether the count map holds an entry for `p`.
pub open spec fn peer_present(m: Seq<(IpV4, usize)>, p: IpV4) -> bool {
    exists|k: int| 0 <= k < m.len() && (#[trigger] m[k]).0 == p
}

/// A bucket's per-peer count never exceeds its length.
pub proof fn lemma_count_peer_bucket_le_len(b: Seq<Address>, p: IpV4)
    ensures
        0 <= count_peer_bucket(b, p) <= b.len(),
    decreases b.len(),
{
    if b.len() == 0 {
    } else {
        lemma_count_peer_bucket_le_len(b.drop_last(), p);
    }
}

/// Counting over a sequence with one element inserted: the insertion adds
/// that element's contribution.
pub proof fn lemma_count_pb_insert(x: Seq<Address>, e: Address, y: Seq<Address>, p: IpV4)
    ensures
        count_peer_bucket(x + seq![e] + y, p) == count_peer_bucket(x + y, p) + if e.peer == p {
            1int
        } else {
            0int
        },
    decreases y.len(),
{
    if y.len() == 0 {
        assert(x + seq![e] + y =~= x.push(e));
        assert(x + y =~= x);
        assert(x.push(e).drop_last() =~= x);
        assert(x.push(e).last() == e);
    } else {
        assert((x + seq![e] + y).drop_last() =~= x + seq![e] + y.drop_last());
        assert((x + y).drop_last() =~= x + y.drop_last());
        assert((x + seq![e] + y).last() == y.last());
        assert((x + y).last() == y.last());
        lemma_count_pb_insert(x, e, y.drop_last(), p);
    }
}

/// Counting over a sequence with one element replaced: the old
/// contribution leaves and the new one enters.
pub proof fn lemma_count_pb_update(b: Seq<Address>, k: int, a: Address, p: IpV4)
    requires
        0 <= k < b.len(),
    ensures
        count_peer_bucket(b.update(k, a), p) == count_peer_bucket(b, p) + (if a.peer == p {
            1int
        } else {
            0int
        }) - (if b[k].peer == p {
            1int
        } else {
            0int
        }),
    decreases b.len(),
{
    if k == b.len() - 1 {
        assert(b.update(k, a).drop_last() =~= b.drop_last());
        assert(b.update(k, a).last() == a);
        assert(b.last() == b[k]);
    } else {
        assert(b.update(k, a).drop_last() =~= b.drop_last().update(k, a));
        assert(b.update(k, a).last() == b.last());
        lemma_count_pb_update(b.drop_last(), k, a, p);
        assert(b.drop_last()[k] == b[k]);
    }
}

/// Counting across buckets with one bucket replaced.
pub proof fn lemma_count_all_update(bs: Seq<Seq<Address>>, i: int, b2: Seq<Address>, p: IpV4)
    requires
        0 <= i < bs.len(),
    ensures
        count_peer_all(bs.update(i, b2), p) == count_peer_all(bs, p) - count_peer_bucket(bs[i], p)
            + count_peer_bucket(b2, p),
    decreases bs.len(),
{
    if i == bs.len() - 1 {
        assert(bs.update(i, b2).drop_last() =~= bs.drop_last());
        assert(bs.update(i, b2).last() == b2);
        assert(bs.last() == bs[i]);
    } else {
        assert(bs.update(i, b2).drop_last() =~= bs.drop_last().update(i, b2));
        assert(bs.update(i, b2).last() == bs.last());
        lemma_count_all_update(bs.drop_last(), i, b2, p);
        assert(bs.drop_last()[i] == bs[i]);
    }
}

/// Total size with one bucket replaced.
pub proof fn lemma_sum_lens_update(bs: Seq<Seq<Address>>, i: int, b2: Seq<Address>)
    requires
        0 <= i < bs.len(),
    ensures
        sum_lens(bs.update(i, b2)) == sum_lens(bs) - bs[i].len() + b2.len(),
    decreases bs.len(),
{
    if i == bs.len() - 1 {
        assert(bs.update(i, b2).drop_last() =~= bs.drop_last());
        assert(bs.update(i, b2).last() == b2);
        assert(bs.last() == bs[i]);
    } else {
        assert(bs.update(i, b2).drop_last() =~= bs.drop_last().update(i, b2));
        assert(bs.update(i, b2).last() == bs.last());
        lemma_sum_lens_update(bs.drop_last(), i, b2);
        assert(bs.drop_last()[i] == bs[i]);
    }
}

/// The recorded count after a new entry is appended.
pub proof fn lemma_peer_count_push(m: Seq<(IpV4, usize)>, e: (IpV4, usize), q: IpV4)
    requires
        !peer_present(m, e.0),
    ensures
        peer_count_of(m.push(e), q) == if q == e.0 {
            e.1 as int
        } else {
            peer_count_of(m, q)
        },
    decreases m.len(),
{
    if m.len() == 0 {
        assert(m.push(e)[0] == e);
        assert(m.push(e).skip(1) =~= Seq::<(IpV4, usize)>::empty());
        assert(peer_count_of(Seq::<(IpV4, usize)>::empty(), q) == 0);
    } else {
        assert(m.push(e)[0] == m[0]);
        assert(m.push(e).skip(1) =~= m.skip(1).push(e));
        assert(m[0].0 != e.0);
        assert(!peer_present(m.skip(1), e.0)) by {
            assert(forall|k: int| 0 <= k < m.skip(1).len() ==> m.skip(1)[k] == m[k + 1]);
        }
        lemma_peer_count_push(m.skip(1), e, q);
    }
}

/// The recorded count after an entry is replaced in place.
pub proof fn lemma_peer_count_update(m: Seq<(IpV4, usize)>, k: int, e: (IpV4, usize), q: IpV4)
    requires
        0 <= k < m.len(),
        m[k].0 == e.0,
        forall|k1: int, k2: int|
            0 <= k1 < k2 < m.len() ==> (#[trigger] m[k1]).0 != (#[trigger] m[k2]).0,
    ensures
        peer_count_of(m.update(k, e), q) == if q == e.0 {
            e.1 as int
        } else {
            peer_count_of(m, q)
        },
    decreases m.len(),
{
    if k == 0 {
        assert(m.update(0, e)[0] == e);
        assert(m.update(0, e).skip(1) =~= m.skip(1));
        if q != e.0 {
        } else {
            assert(!peer_present(m.skip(1), e.0)) by {
                assert(forall|j: int| 0 <= j < m.skip(1).len() ==> m.skip(1)[j] == m[j + 1]);
            }
            lemma_peer_count_absent(m.skip(1), e.0);
        }
    } else {
        assert(m.update(k, e)[0] == m[0]);
        assert(m.update(k, e).skip(1) =~= m.skip(1).update(k - 1, e));
        assert(forall|j: int| 0 <= j < m.skip(1).len() ==> m.skip(1)[j] == m[j + 1]);
        assert(m[0].0 != m[k].0);
        lemma_peer_count_update(m.skip(1), k - 1, e, q);
    }
}

/// Without an entry the recorded count is zero.
pub proof fn lemma_peer_count_absent(m: Seq<(IpV4, usize)>, p: IpV4)
    requires
        !peer_present(m, p),
    ensures
        peer_count_of(m, p) == 0,
    decreases m.len(),
{
    if m.len() == 0 {
    } else {
        assert(m[0].0 != p);
        assert(!peer_present(m.skip(1), p)) by {
            assert(forall|j: int| 0 <= j < m.skip(1).len() ==> m.skip(1)[j] == m[j + 1]);
        }
        lemma_peer_count_absent(m.skip(1), p);
    }
}

/// The recorded counts after an entry is removed: its peer drops to zero,
/// others keep their counts.
pub proof fn lemma_peer_count_remove(m: Seq<(IpV4, usize)>, k: int, q: IpV4)
    requires
        0 <= k < m.len(),
        forall|k1: int, k2: int|
            0 <= k1 < k2 < m.len() ==> (#[trigger] m[k1]).0 != (#[trigger] m[k2]).0,
    ensures
        peer_count_of(m.remove(k), q) == if q == m[k].0 {
            0int
        } else {
            peer_count_of(m, q)
        },
    decreases m.len(),
{
    if k == 0 {
        assert(m.remove(0) =~= m.skip(1));
        if q == m[0].0 {
            assert(!peer_present(m.skip(1), q)) by {
                assert(forall|j: int| 0 <= j < m.skip(1).len() ==> m.skip(1)[j] == m[j + 1]);
            }
            lemma_peer_count_absent(m.skip(1), q);
        }
    } else {
        assert(m.remove(k)[0] == m[0]);
        assert(m.remove(k).skip(1) =~= m.skip(1).remove(k - 1));
        assert(forall|j: int| 0 <= j < m.skip(1).len() ==> m.skip(1)[j] == m[j + 1]);
        lemma_peer_count_remove(m.skip(1), k - 1, q);
    }
}


/// The first position of `key` in a bucket, or -1.
pub open spec fn find_key(b: Seq<Address>, key: SockAddr) -> int
    decreases b.len(),
{
    if b.len() == 0 {
        -1int
    } else if b[0].spec_key() == key {
        0int
    } else {
        let r = find_key(b.skip(1), key);
        if r < 0 {
            -1int
        } else {
            r + 1
        }
    }
}

/// A found position indexes a matching entry; -1 means no entry matches.
pub proof fn lemma_find_key_spec(b: Seq<Address>, key: SockAddr)
    ensures
        find_key(b, key) >= 0 ==> 0 <= find_key(b, key) < b.len() && b[find_key(
            b,
            key,
        )].spec_key() == key,
        find_key(b, key) < 0 ==> forall|j: int|
            0 <= j < b.len() ==> (#[trigger] b[j]).spec_key() != key,
    decreases b.len(),
{
    if b.len() == 0 {
    } else if b[0].spec_key() == key {
    } else {
        lemma_find_key_spec(b.skip(1), key);
        assert(forall|j: int| 0 <= j < b.skip(1).len() ==> b.skip(1)[j] == b[j + 1]);
        if find_key(b, key) < 0 {
            assert forall|j: int| 0 <= j < b.len() implies (#[trigger] b[j]).spec_key() != key by {
                if j > 0 {
                    assert(b.skip(1)[j - 1] == b[j]);
                }
            }
        }
    }
}

/// The position the searching loop stops at is the one `find_key` names.
pub proof fn lemma_find_key_first(b: Seq<Address>, key: SockAddr, i: int)
    requires
        0 <= i < b.len(),
        b[i].spec_key() == key,
        forall|j: int| 0 <= j < i ==> (#[trigger] b[j]).spec_key() != key,
    ensures
        find_key(b, key) == i,
    decreases i,
{
    if i == 0 {
    } else {
        assert(forall|j: int| 0 <= j < b.skip(1).len() ==> b.skip(1)[j] == b[j + 1]);
        lemma_find_key_first(b.skip(1), key, i - 1);
    }
}

/// A search that saw every entry without a match reports -1.
pub proof fn lemma_find_key_none(b: Seq<Address>, key: SockAddr)
    requires
        forall|j: int| 0 <= j < b.len() ==> (#[trigger] b[j]).spec_key() != key,
    ensures
        find_key(b, key) == -1,
    decreases b.len(),
{
    if b.len() == 0 {
    } else {
        assert(forall|j: int| 0 <= j < b.skip(1).len() ==> b.skip(1)[j] == b[j + 1]);
        lemma_find_key_none(b.skip(1), key);
    }
}

/// The first position of `p` in the count map, or -1.
pub open spec fn find_peer(m: Seq<(IpV4, usize)>, p: IpV4) -> int
    decreases m.len(),
{
    if m.len() == 0 {
        -1int
    } else if m[0].0 == p {
        0int
    } else {
        let r = find_peer(m.skip(1), p);
        if r < 0 {
            -1int
        } else {
            r + 1
        }
    }
}

/// What `find_peer` reports, and how it relates to presence and counts.
pub proof fn lemma_find_peer_spec(m: Seq<(IpV4, usize)>, p: IpV4)
    ensures
        find_peer(m, p) >= 0 ==> 0 <= find_peer(m, p) < m.len() && m[find_peer(m, p)].0 == p
            && peer_present(m, p),
        find_peer(m, p) < 0 ==> !peer_present(m, p) && peer_count_of(m, p) == 0,
    decreases m.len(),
{
    if m.len() == 0 {
    } else if m[0].0 == p {
    } else {
        lemma_find_peer_spec(m.skip(1), p);
        assert(forall|j: int| 0 <= j < m.skip(1).len() ==> m.skip(1)[j] == m[j + 1]);
        if find_peer(m.skip(1), p) < 0 {
            assert(!peer_present(m, p)) by {
                assert(forall|k: int| 1 <= k < m.len() ==> m[k] == m.skip(1)[k - 1]);
            }
        }
    }
}

/// The position the searching loop stops at is the one `find_peer` names.
pub proof fn lemma_find_peer_first(m: Seq<(IpV4, usize)>, p: IpV4, i: int)
    requires
        0 <= i < m.len(),
        m[i].0 == p,
        forall|j: int| 0 <= j < i ==> (#[trigger] m[j]).0 != p,
    ensures
        find_peer(m, p) == i,
    decreases i,
{
    if i == 0 {
    } else {
        assert(forall|j: int| 0 <= j < m.skip(1).len() ==> m.skip(1)[j] == m[j + 1]);
        lemma_find_peer_first(m.skip(1), p, i - 1);
    }
}

/// A search that saw every entry without a match reports -1.
pub proof fn lemma_find_peer_none(m: Seq<(IpV4, usize)>, p: IpV4)
    requires
        forall|j: int| 0 <= j < m.len() ==> (#[trigger] m[j]).0 != p,
    ensures
        find_peer(m, p) == -1,
    decreases m.len(),
{
    if m.len() == 0 {
    } else {
        assert(forall|j: int| 0 <= j < m.skip(1).len() ==> m.skip(1)[j] == m[j + 1]);
        lemma_find_peer_none(m.skip(1), p);
    }
}

/// With an entry present, the recorded count is that entry's value.
pub proof fn lemma_peer_count_at(m: Seq<(IpV4, usize)>, k: int, p: IpV4)
    requires
        0 <= k < m.len(),
        m[k].0 == p,
        forall|k1: int, k2: int|
            0 <= k1 < k2 < m.len() ==> (#[trigger] m[k1]).0 != (#[trigger] m[k2]).0,
    ensures
        peer_count_of(m, p) == m[k].1 as int,
    decreases k,
{
    if k == 0 {
    } else {
        assert(m[0].0 != p);
        assert(forall|j: int| 0 <= j < m.skip(1).len() ==> m.skip(1)[j] == m[j + 1]);
        lemma_peer_count_at(m.skip(1), k - 1, p);
    }
}

/// After removing the entry at `k`, no entry for its peer remains.
pub proof fn lemma_remove_unique(m: Seq<(IpV4, usize)>, k: int)
    requires
        0 <= k < m.len(),
        forall|k1: int, k2: int|
            0 <= k1 < k2 < m.len() ==> (#[trigger] m[k1]).0 != (#[trigger] m[k2]).0,
    ensures
        !peer_present(m.remove(k), m[k].0),
        forall|k1: int, k2: int|
            0 <= k1 < k2 < m.remove(k).len() ==> (#[trigger] m.remove(k)[k1]).0 != (
            #[trigger] m.remove(k)[k2]).0,
        forall|j: int|
            0 <= j < m.remove(k).len() ==> (#[trigger] m.remove(k)[j]) == if j < k {
                m[j]
            } else {
                m[j + 1]
            },
{
    assert(forall|j: int|
        0 <= j < m.remove(k).len() ==> (#[trigger] m.remove(k)[j]) == if j < k {
            m[j]
        } else {
            m[j + 1]
        });
}

/// The incremented count map: the entry for `p` grows by one, appearing
/// if it was absent.
pub open spec fn spec_inc(m: Seq<(IpV4, usize)>, p: IpV4) -> Seq<(IpV4, usize)> {
    let k = find_peer(m, p);
    if k < 0 {
        m.push((p, 1usize))
    } else {
        m.remove(k).push((p, (m[k].1 + 1) as usize))
    }
}

/// The decremented count map: the entry for `p` shrinks by one, leaving
/// when it reaches zero.
pub open spec fn spec_dec(m: Seq<(IpV4, usize)>, p: IpV4) -> Seq<(IpV4, usize)> {
    let k = find_peer(m, p);
    if k < 0 {
        m
    } else if m[k].1 <= 1 {
        m.remove(k)
    } else {
        m.remove(k).push((p, (m[k].1 - 1) as usize))
    }
}

/// The addresses a bucket keeps after an age sweep at time `now`.
pub open spec fn keep_fresh(b: Seq<Address>, now: u32) -> Seq<Address>
    decreases b.len(),
{
    if b.len() == 0 {
        Seq::empty()
    } else {
        keep_fresh(b.drop_last(), now) + if b.last().spec_is_old(now) {
            Seq::empty()
        } else {
            seq![b.last()]
        }
    }
}

/// Every kept address stood in the bucket.
pub proof fn lemma_keep_fresh_member(b: Seq<Address>, now: u32)
    ensures
        forall|j: int|
            0 <= j < keep_fresh(b, now).len() ==> b.contains(#[trigger] keep_fresh(b, now)[j])
                && !keep_fresh(b, now)[j].spec_is_old(now),
        keep_fresh(b, now).len() <= b.len(),
    decreases b.len(),
{
    if b.len() == 0 {
    } else {
        lemma_keep_fresh_member(b.drop_last(), now);
        let kf = keep_fresh(b, now);
        let kfd = keep_fresh(b.drop_last(), now);
        assert forall|j: int| 0 <= j < kf.len() implies b.contains(#[trigger] kf[j])
            && !kf[j].spec_is_old(now) by {
            if j < kfd.len() {
                assert(kf[j] == kfd[j]);
                let w = choose|w: int| 0 <= w < b.drop_last().len() && b.drop_last()[w] == kfd[j];
                assert(b[w] == kfd[j]);
            } else {
                assert(kf[j] == b.last());
                assert(b[b.len() - 1] == b.last());
            }
        }
    }
}

/// An age sweep keeps keys pairwise distinct.
pub proof fn lemma_keep_fresh_distinct(b: Seq<Address>, now: u32)
    requires
        forall|j1: int, j2: int|
            0 <= j1 < j2 < b.len() ==> (#[trigger] b[j1]).spec_key() != (
            #[trigger] b[j2]).spec_key(),
    ensures
        forall|j1: int, j2: int|
            0 <= j1 < j2 < keep_fresh(b, now).len() ==> (#[trigger] keep_fresh(b, now)[j1]).spec_key()
                != (#[trigger] keep_fresh(b, now)[j2]).spec_key(),
    decreases b.len(),
{
    if b.len() == 0 {
    } else {
        assert(forall|j1: int, j2: int|
            0 <= j1 < j2 < b.drop_last().len() ==> (#[trigger] b.drop_last()[j1]).spec_key() != (
            #[trigger] b.drop_last()[j2]).spec_key());
        lemma_keep_fresh_distinct(b.drop_last(), now);
        lemma_keep_fresh_member(b.drop_last(), now);
        let kf = keep_fresh(b, now);
        let kfd = keep_fresh(b.drop_last(), now);
        assert forall|j1: int, j2: int| 0 <= j1 < j2 < kf.len() implies (
        #[trigger] kf[j1]).spec_key() != (#[trigger] kf[j2]).spec_key() by {
            if j2 < kfd.len() {
            } else {
                assert(kf[j2] == b.last());
                assert(kf[j1] == kfd[j1]);
                let w = choose|w: int| 0 <= w < b.drop_last().len() && b.drop_last()[w] == kfd[j1];
                assert(b[w] == kfd[j1]);
                assert(b[w].spec_key() != b[b.len() - 1].spec_key());
            }
        }
    }
}


/// The abstract state of the manager: bucket contents and per-peer
/// counts.
pub struct AmState {
    pub buckets: Seq<Seq<Address>>,
    pub counts: Seq<(IpV4, usize)>,
}

/// One admission step for a storable, fresh address. The second component
/// reports that the announcer's quota stops the rest of the list.
pub open spec fn spec_add_one(st: AmState, secret: Seq<u8>, a: Address, now: u32) -> (
    AmState,
    bool,
) {
    let i = bucket_of(secret, a.spec_key().ip);
    let b = st.buckets[i];
    let k = find_key(b, a.spec_key());
    if k >= 0 {
        if b[k].spec_time() < a.spec_time() {
            if b[k].peer == a.peer {
                (AmState { buckets: st.buckets.update(i, b.update(k, a)), counts: st.counts },
                false)
            } else if peer_count_of(st.counts, a.peer) < MAX_ADDRS_PER_PEER as int {
                (
                    AmState {
                        buckets: st.buckets.update(i, b.update(k, a)),
                        counts: spec_inc(spec_dec(st.counts, b[k].peer), a.peer),
                    },
                    false,
                )
            } else {
                (st, false)
            }
        } else {
            (st, false)
        }
    } else if peer_count_of(st.counts, a.peer) >= MAX_ADDRS_PER_PEER as int {
        (st, true)
    } else if b.len() >= MAX_ADDRS_PER_BUCKET || sum_lens(st.buckets) >= MAX_ADDRESSES as int {
        (st, false)
    } else {
        (AmState { buckets: st.buckets.update(i, b.push(a)), counts: spec_inc(st.counts, a.peer) },
        false)
    }
}

/// Admission of a whole announced list, in order: records that are not
/// valid endpoints, lack a timestamp or are already old are skipped, and
/// the announcer's quota stops the rest of the list.
pub open spec fn spec_add_list(
    st: AmState,
    secret: Seq<u8>,
    peer: IpV4,
    addrs: Seq<NetAddr>,
    now: u32,
) -> AmState
    decreases addrs.len(),
{
    if addrs.len() == 0 {
        st
    } else {
        let na = addrs[0];
        let a = Address { peer, netaddr: na };
        if !na.spec_is_valid_addr() || !(na.time is Some) || a.spec_is_old(now) {
            spec_add_list(st, secret, peer, addrs.skip(1), now)
        } else {
            let (st2, stop) = spec_add_one(st, secret, a, now);
            if stop {
                st2
            } else {
                spec_add_list(st2, secret, peer, addrs.skip(1), now)
            }
        }
    }
}

/// A recorded count never exceeds the per-peer quota.
pub proof fn lemma_peer_count_bounded(m: Seq<(IpV4, usize)>, p: IpV4)
    requires
        forall|k: int| 0 <= k < m.len() ==> (#[trigger] m[k]).1 <= MAX_ADDRS_PER_PEER,
    ensures
        0 <= peer_count_of(m, p) <= MAX_ADDRS_PER_PEER as int,
    decreases m.len(),
{
    if m.len() == 0 {
    } else if m[0].0 == p {
    } else {
        assert(forall|j: int| 0 <= j < m.skip(1).len() ==> m.skip(1)[j] == m[j + 1]);
        lemma_peer_count_bounded(m.skip(1), p);
    }
}

/// The pool holds at least as many addresses as any one bucket.
pub proof fn lemma_sum_lens_at_least(bs: Seq<Seq<Address>>, i: int)
    requires
        0 <= i < bs.len(),
    ensures
        sum_lens(bs) >= bs[i].len(),
        sum_lens(bs) >= 0,
    decreases bs.len(),
{
    if bs.len() == 0 {
    } else if i == bs.len() - 1 {
        lemma_sum_lens_nonneg(bs.drop_last());
        assert(bs.last() == bs[i]);
    } else {
        lemma_sum_lens_at_least(bs.drop_last(), i);
        assert(bs.drop_last()[i] == bs[i]);
    }
}

/// The pool size is never negative.
pub proof fn lemma_sum_lens_nonneg(bs: Seq<Seq<Address>>)
    ensures
        sum_lens(bs) >= 0,
    decreases bs.len(),
{
    if bs.len() == 0 {
    } else {
        lemma_sum_lens_nonneg(bs.drop_last());
    }
}

/// The address manager's concrete state.
#[derive(Debug)]
pub struct AddrManager {
    buckets: Vec<Vec<Address>>,
    addrs_per_peer: Vec<(IpV4, usize)>,
    secret: Vec<u8>,
    total: usize,
}

impl AddrManager {
    /// The bucket contents, mathematically.
    pub closed spec fn spec_buckets(&self) -> Seq<Seq<Address>> {
        Seq::new(self.buckets@.len(), |i: int| self.buckets@[i]@)
    }

    /// The per-peer count map, mathematically.
    pub closed spec fn spec_counts(&self) -> Seq<(IpV4, usize)> {
        self.addrs_per_peer@
    }

    /// The bucket secret.
    pub closed spec fn spec_secret(&self) -> Seq<u8> {
        self.secret@
    }

    /// The cached total number of stored addresses.
    pub closed spec fn spec_total(&self) -> int {
        self.total as int
    }

    /// The abstract state.
    pub open spec fn st(&self) -> AmState {
        AmState { buckets: self.spec_buckets(), counts: self.spec_counts() }
    }

    /// Everything the pool promises, at every step:
    /// the pool never exceeds 2500 addresses; no bucket exceeds 40; every
    /// stored address is a valid timestamped endpoint, in the bucket its
    /// keyed hash names, with a unique endpoint; every recorded count lies
    /// in 1..=50, one entry per peer; and each peer's recorded count is
    /// exactly the number of stored addresses it announced.
    pub open spec fn wf(&self) -> bool {
        let bs = self.spec_buckets();
        let m = self.spec_counts();
        &&& bs.len() == BUCKETS
        &&& self.spec_secret().len() == 256
        &&& self.spec_total() == sum_lens(bs)
        &&& sum_lens(bs) <= MAX_ADDRESSES as int
        &&& forall|i: int| 0 <= i < bs.len() ==> (#[trigger] bs[i]).len() <= MAX_ADDRS_PER_BUCKET
        &&& forall|i: int, j: int|
            0 <= i < bs.len() && 0 <= j < bs[i].len() ==> (#[trigger] bs[i][j]).wf()
        &&& forall|i: int, j: int|
            0 <= i < bs.len() && 0 <= j < bs[i].len() ==> bucket_of(
                self.spec_secret(),
                (#[trigger] bs[i][j]).spec_key().ip,
            ) == i
        &&& forall|i: int, j1: int, j2: int|
            0 <= i < bs.len() && 0 <= j1 < j2 < bs[i].len() ==> (#[trigger] bs[i][j1]).spec_key()
                != (#[trigger] bs[i][j2]).spec_key()
        &&& forall|k: int|
            0 <= k < m.len() ==> 1 <= (#[trigger] m[k]).1 <= MAX_ADDRS_PER_PEER
        &&& forall|k1: int, k2: int|
            0 <= k1 < k2 < m.len() ==> (#[trigger] m[k1]).0 != (#[trigger] m[k2]).0
        &&& forall|p: IpV4| #[trigger] peer_count_of(m, p) == count_peer_all(bs, p)
    }

    /// The pool never holds more than 2500 addresses.
    pub proof fn lemma_total_bound(&self)
        requires
            self.wf(),
        ensures
            sum_lens(self.spec_buckets()) <= MAX_ADDRESSES as int,
    {
    }

    /// No bucket ever holds more than 40 addresses.
    pub proof fn lemma_bucket_bound(&self, i: int)
        requires
            self.wf(),
            0 <= i < BUCKETS,
        ensures
            self.spec_buckets()[i].len() <= MAX_ADDRS_PER_BUCKET,
    {
    }

    /// No announcing peer is ever recorded above its quota of 50.
    pub proof fn lemma_peer_quota(&self, p: IpV4)
        requires
            self.wf(),
        ensures
            0 <= peer_count_of(self.spec_counts(), p) <= MAX_ADDRS_PER_PEER as int,
    {
        lemma_peer_count_bounded(self.spec_counts(), p);
    }

    /// Each peer's recorded count is exactly the number of stored
    /// addresses it announced.
    pub proof fn lemma_counts_consistent(&self, p: IpV4)
        requires
            self.wf(),
        ensures
            peer_count_of(self.spec_counts(), p) == count_peer_all(self.spec_buckets(), p),
    {
    }

    /// A fresh manager: a new 256-byte secret, 64 empty buckets, no
    /// recorded counts.
    pub fn new() -> (r: AddrManager)
        ensures
            r.wf(),
            sum_lens(r.spec_buckets()) == 0,
            r.spec_counts() =~= Seq::<(IpV4, usize)>::empty(),
    {
        let secret = crate::crypto::new_secret();
        let mut buckets: Vec<Vec<Address>> = Vec::new();
        let mut i: usize = 0;
        while i < BUCKETS
            invariant
                i <= BUCKETS,
                buckets@.len() == i,
                forall|k: int| 0 <= k < i ==> (#[trigger] buckets@[k])@.len() == 0,
            decreases BUCKETS - i,
        {
            buckets.push(Vec::new());
            i += 1;
        }
        let r = AddrManager { buckets, addrs_per_peer: Vec::new(), secret, total: 0 };
        proof {
            let bs = r.spec_buckets();
            assert(bs.len() == BUCKETS);
            assert(forall|k: int| 0 <= k < bs.len() ==> (#[trigger] bs[k]).len() == 0);
            AddrManager::lemma_all_empty(bs);
            assert forall|p: IpV4| #[trigger] peer_count_of(r.spec_counts(), p) == count_peer_all(
                bs,
                p,
            ) by {
                assert(peer_count_of(r.spec_counts(), p) == 0);
            }
        }
        r
    }

    /// Empty buckets hold nothing, for any peer.
    proof fn lemma_all_empty(bs: Seq<Seq<Address>>)
        requires
            forall|k: int| 0 <= k < bs.len() ==> (#[trigger] bs[k]).len() == 0,
        ensures
            sum_lens(bs) == 0,
            forall|p: IpV4| #[trigger] count_peer_all(bs, p) == 0,
        decreases bs.len(),
    {
        if bs.len() == 0 {
        } else {
            assert(forall|k: int|
                0 <= k < bs.drop_last().len() ==> (#[trigger] bs.drop_last()[k]).len() == 0);
            AddrManager::lemma_all_empty(bs.drop_last());
            assert(bs.last() =~= Seq::<Address>::empty());
            assert forall|p: IpV4| #[trigger] count_peer_all(bs, p) == 0 by {
                assert(count_peer_all(bs.drop_last(), p) == 0);
                assert(count_peer_bucket(bs.last(), p) == 0);
            }
        }
    }

    /// The bucket an endpoint belongs to, computed with the secret-keyed
    /// hash of its /12 subnet.
    pub fn get_bucket_idx(&self, socketaddr: &SockAddr) -> (r: usize)
        requires
            self.wf(),
        ensures
            r < BUCKETS,
            r as int == bucket_of(self.spec_secret(), socketaddr.ip),
    {
        let mut data: Vec<u8> = Vec::new();
        let mut i: usize = 0;
        while i < self.secret.len()
            invariant
                i <= self.secret@.len(),
                data@ == self.secret@.take(i as int),
            decreases self.secret@.len() - i,
        {
            data.push(self.secret[i]);
            i += 1;
            proof {
                assert(data@ =~= self.secret@.take(i as int));
            }
        }
        data.push(socketaddr.ip.a);
        data.push(socketaddr.ip.b & 0xf0);
        let mut i: usize = 0;
        while i < self.secret.len()
            invariant
                i <= self.secret@.len(),
                data@ == self.secret@ + seq![socketaddr.ip.a, (socketaddr.ip.b & 0xf0) as u8]
                    + self.secret@.take(i as int),
            decreases self.secret@.len() - i,
        {
            proof {
                assert(self.secret@.take(self.secret@.len() as int) =~= self.secret@);
            }
            data.push(self.secret[i]);
            i += 1;
            proof {
                assert(self.secret@ + seq![socketaddr.ip.a, (socketaddr.ip.b & 0xf0) as u8]
                    + self.secret@.take(i - 1) + seq![self.secret@[i - 1]] =~= self.secret@ + seq![
                    socketaddr.ip.a,
                    (socketaddr.ip.b & 0xf0) as u8,
                ] + self.secret@.take(i as int));
            }
        }
        proof {
            assert(self.secret@.take(self.secret@.len() as int) =~= self.secret@);
        }
        let h = crate::crypto::hash_first_u32(data.as_slice());
        (h % (BUCKETS as u32)) as usize
    }

    /// The recorded count of one peer, or zero without an entry.
    fn peer_count(&self, peer: &IpV4) -> (r: usize)
        requires
            forall|k1: int, k2: int|
                0 <= k1 < k2 < self.spec_counts().len() ==> (#[trigger] self.spec_counts()[k1]).0
                    != (#[trigger] self.spec_counts()[k2]).0,
        ensures
            r as int == peer_count_of(self.spec_counts(), *peer),
    {
        let ghost m = self.spec_counts();
        let mut k: usize = 0;
        while k < self.addrs_per_peer.len()
            invariant
                m == self.spec_counts(),
                k <= m.len(),
                forall|j: int| 0 <= j < k ==> (#[trigger] m[j]).0 != *peer,
                forall|k1: int, k2: int|
                    0 <= k1 < k2 < m.len() ==> (#[trigger] m[k1]).0 != (#[trigger] m[k2]).0,
            decreases m.len() - k,
        {
            if self.addrs_per_peer[k].0.same(peer) {
                proof {
                    lemma_peer_count_at(m, k as int, *peer);
                }
                return self.addrs_per_peer[k].1;
            }
            k += 1;
        }
        proof {
            lemma_find_peer_none(m, *peer);
            lemma_find_peer_spec(m, *peer);
        }
        0
    }

    /// Record one more address for `peer`, which must be under quota.
    fn inc_peer_addresses(&mut self, peer: IpV4)
        requires
            forall|k: int|
                0 <= k < old(self).spec_counts().len() ==> 1 <= (
                #[trigger] old(self).spec_counts()[k]).1 <= MAX_ADDRS_PER_PEER,
            forall|k1: int, k2: int|
                0 <= k1 < k2 < old(self).spec_counts().len() ==> (#[trigger] old(self).spec_counts()[k1]).0 != (#[trigger] old(self).spec_counts()[k2]).0,
            peer_count_of(old(self).spec_counts(), peer) < MAX_ADDRS_PER_PEER as int,
        ensures
            final(self).spec_counts() == spec_inc(old(self).spec_counts(), peer),
            final(self).spec_buckets() == old(self).spec_buckets(),
            final(self).spec_secret() == old(self).spec_secret(),
            final(self).spec_total() == old(self).spec_total(),
            forall|k: int|
                0 <= k < final(self).spec_counts().len() ==> 1 <= (
                #[trigger] final(self).spec_counts()[k]).1 <= MAX_ADDRS_PER_PEER,
            forall|k1: int, k2: int|
                0 <= k1 < k2 < final(self).spec_counts().len() ==> (#[trigger] final(self).spec_counts()[k1]).0 != (#[trigger] final(self).spec_counts()[k2]).0,
            forall|q: IpV4|
                #[trigger] peer_count_of(final(self).spec_counts(), q) == peer_count_of(
                    old(self).spec_counts(),
                    q,
                ) + if q == peer {
                    1int
                } else {
                    0int
                },
    {
        let ghost m = self.spec_counts();
        let mut k: usize = 0;
        let n = self.addrs_per_peer.len();
        while k < n
            invariant
                n == m.len(),
                m == self.spec_counts(),
                m == old(self).spec_counts(),
                self.buckets == old(self).buckets,
                self.secret == old(self).secret,
                self.total == old(self).total,
                k <= m.len(),
                forall|j: int| 0 <= j < k ==> (#[trigger] m[j]).0 != peer,
                forall|k1: int, k2: int|
                    0 <= k1 < k2 < m.len() ==> (#[trigger] m[k1]).0 != (#[trigger] m[k2]).0,
                forall|j: int| 0 <= j < m.len() ==> 1 <= (#[trigger] m[j]).1 <= MAX_ADDRS_PER_PEER,
                peer_count_of(m, peer) < MAX_ADDRS_PER_PEER as int,
            decreases m.len() - k,
        {
            if self.addrs_per_peer[k].0.same(&peer) {
                proof {
                    lemma_peer_count_at(m, k as int, peer);
                    lemma_find_peer_first(m, peer, k as int);
                    lemma_remove_unique(m, k as int);
                }
                let c = self.addrs_per_peer[k].1;
                self.addrs_per_peer.remove(k);
                self.addrs_per_peer.push((peer, c + 1));
                proof {
                    let m2 = self.spec_counts();
                    assert(m2 == m.remove(k as int).push((peer, (c + 1) as usize)));
                    lemma_peer_count_push(m.remove(k as int), (peer, (c + 1) as usize), peer);
                    assert forall|q: IpV4|
                        #[trigger] peer_count_of(m2, q) == peer_count_of(m, q) + (if q == peer {
                            1int
                        } else {
                            0int
                        }) by {
                        lemma_peer_count_push(m.remove(k as int), (peer, (c + 1) as usize), q);
                        lemma_peer_count_remove(m, k as int, q);
                    }
                    assert forall|k1: int, k2: int|
                        0 <= k1 < k2 < m2.len() implies (#[trigger] m2[k1]).0 != (
                    #[trigger] m2[k2]).0 by {
                        if k2 < m2.len() - 1 {
                        } else {
                            assert(m2[k2].0 == peer);
                            assert(m2[k1] == m.remove(k as int)[k1]);
                        }
                    }
                }
                return ;
            }
            k += 1;
        }
        proof {
            lemma_find_peer_none(m, peer);
            lemma_find_peer_spec(m, peer);
        }
        self.addrs_per_peer.push((peer, 1));
        proof {
            let m2 = self.spec_counts();
            assert(m2 == m.push((peer, 1usize)));
            assert(!peer_present(m, peer));
            assert forall|q: IpV4|
                #[trigger] peer_count_of(m2, q) == peer_count_of(m, q) + (if q == peer {
                    1int
                } else {
                    0int
                }) by {
                lemma_peer_count_push(m, (peer, 1usize), q);
                if q == peer {
                    lemma_peer_count_absent(m, peer);
                }
            }
            assert forall|k1: int, k2: int|
                0 <= k1 < k2 < m2.len() implies (#[trigger] m2[k1]).0 != (#[trigger] m2[k2]).0 by {
                if k2 < m2.len() - 1 {
                } else {
                    assert(m2[k2].0 == peer);
                    assert(m2[k1] == m[k1]);
                }
            }
        }
    }

    /// Record one fewer address for `peer`, which must have a recorded
    /// count.
    fn dec_peer_addresses(&mut self, peer: IpV4)
        requires
            forall|k: int|
                0 <= k < old(self).spec_counts().len() ==> 1 <= (
                #[trigger] old(self).spec_counts()[k]).1 <= MAX_ADDRS_PER_PEER,
            forall|k1: int, k2: int|
                0 <= k1 < k2 < old(self).spec_counts().len() ==> (#[trigger] old(self).spec_counts()[k1]).0 != (#[trigger] old(self).spec_counts()[k2]).0,
            peer_count_of(old(self).spec_counts(), peer) > 0,
        ensures
            final(self).spec_counts() == spec_dec(old(self).spec_counts(), peer),
            final(self).spec_buckets() == old(self).spec_buckets(),
            final(self).spec_secret() == old(self).spec_secret(),
            final(self).spec_total() == old(self).spec_total(),
            forall|k: int|
                0 <= k < final(self).spec_counts().len() ==> 1 <= (
                #[trigger] final(self).spec_counts()[k]).1 <= MAX_ADDRS_PER_PEER,
            forall|k1: int, k2: int|
                0 <= k1 < k2 < final(self).spec_counts().len() ==> (#[trigger] final(self).spec_counts()[k1]).0 != (#[trigger] final(self).spec_counts()[k2]).0,
            forall|q: IpV4|
                #[trigger] peer_count_of(final(self).spec_counts(), q) == peer_count_of(
                    old(self).spec_counts(),
                    q,
                ) - if q == peer {
                    1int
                } else {
                    0int
                },
    {
        let ghost m = self.spec_counts();
        let mut k: usize = 0;
        let n = self.addrs_per_peer.len();
        while k < n
            invariant
                n == m.len(),
                m == self.spec_counts(),
                m == old(self).spec_counts(),
                self.buckets == old(self).buckets,
                self.secret == old(self).secret,
                self.total == old(self).total,
                k <= m.len(),
                forall|j: int| 0 <= j < k ==> (#[trigger] m[j]).0 != peer,
                forall|k1: int, k2: int|
                    0 <= k1 < k2 < m.len() ==> (#[trigger] m[k1]).0 != (#[trigger] m[k2]).0,
                forall|j: int| 0 <= j < m.len() ==> 1 <= (#[trigger] m[j]).1 <= MAX_ADDRS_PER_PEER,
                peer_count_of(m, peer) > 0,
            decreases m.len() - k,
        {
            if self.addrs_per_peer[k].0.same(&peer) {
                proof {
                    lemma_peer_count_at(m, k as int, peer);
                    lemma_find_peer_first(m, peer, k as int);
                    lemma_remove_unique(m, k as int);
                }
                let c = self.addrs_per_peer[k].1;
                self.addrs_per_peer.remove(k);
                if c > 1 {
                    self.addrs_per_peer.push((peer, c - 1));
                    proof {
                        let m2 = self.spec_counts();
                        assert(m2 == m.remove(k as int).push((peer, (c - 1) as usize)));
                        assert forall|q: IpV4|
                            #[trigger] peer_count_of(m2, q) == peer_count_of(m, q) - (if q
                                == peer {
                                1int
                            } else {
                                0int
                            }) by {
                            lemma_peer_count_push(
                                m.remove(k as int),
                                (peer, (c - 1) as usize),
                                q,
                            );
                            lemma_peer_count_remove(m, k as int, q);
                        }
                        assert forall|k1: int, k2: int|
                            0 <= k1 < k2 < m2.len() implies (#[trigger] m2[k1]).0 != (
                        #[trigger] m2[k2]).0 by {
                            if k2 < m2.len() - 1 {
                            } else {
                                assert(m2[k2].0 == peer);
                                assert(m2[k1] == m.remove(k as int)[k1]);
                            }
                        }
                    }
                } else {
                    proof {
                        let m2 = self.spec_counts();
                        assert(m2 == m.remove(k as int));
                        assert forall|q: IpV4|
                            #[trigger] peer_count_of(m2, q) == peer_count_of(m, q) - (if q
                                == peer {
                                1int
                            } else {
                                0int
                            }) by {
                            lemma_peer_count_remove(m, k as int, q);
                        }
                    }
                }
                return ;
            }
            k += 1;
        }
        proof {
            lemma_find_peer_none(m, peer);
            lemma_find_peer_spec(m, peer);
            assert(false);
        }
    }
}


/// A bucket holding an address announced by `p` counts at least one.
pub proof fn lemma_count_pb_at_least(b: Seq<Address>, j: int, p: IpV4)
    requires
        0 <= j < b.len(),
        b[j].peer == p,
    ensures
        count_peer_bucket(b, p) >= 1,
    decreases b.len(),
{
    lemma_count_peer_bucket_le_len(b.drop_last(), p);
    if j == b.len() - 1 {
        assert(b.last() == b[j]);
    } else {
        assert(b.drop_last()[j] == b[j]);
        lemma_count_pb_at_least(b.drop_last(), j, p);
    }
}

/// The pool counts at least as many of a peer's addresses as any one
/// bucket.
pub proof fn lemma_count_all_at_least(bs: Seq<Seq<Address>>, i: int, p: IpV4)
    requires
        0 <= i < bs.len(),
    ensures
        count_peer_all(bs, p) >= count_peer_bucket(bs[i], p),
    decreases bs.len(),
{
    lemma_count_peer_bucket_le_len(bs.last(), p);
    if i == bs.len() - 1 {
        assert(bs.last() == bs[i]);
        lemma_count_all_nonneg(bs.drop_last(), p);
    } else {
        assert(bs.drop_last()[i] == bs[i]);
        lemma_count_all_at_least(bs.drop_last(), i, p);
    }
}

/// The pool's count of a peer's addresses is never negative.
pub proof fn lemma_count_all_nonneg(bs: Seq<Seq<Address>>, p: IpV4)
    ensures
        count_peer_all(bs, p) >= 0,
    decreases bs.len(),
{
    if bs.len() == 0 {
    } else {
        lemma_count_all_nonneg(bs.drop_last(), p);
        lemma_count_peer_bucket_le_len(bs.last(), p);
    }
}

impl AddrManager {
    /// Admit one storable, fresh address: refresh a known endpoint on a
    /// strictly newer timestamp (changing announcers only within quota),
    /// otherwise insert it subject to the announcer quota, the bucket
    /// capacity and the pool bound. Reports whether the announcer's quota
    /// stops the rest of an announced list.
    #[verifier::rlimit(100)]
    pub fn add_address(&mut self, address: Address, now: u32) -> (stop: bool)
        requires
            old(self).wf(),
            address.wf(),
            !address.spec_is_old(now),
        ensures
            final(self).wf(),
            final(self).spec_secret() == old(self).spec_secret(),
            final(self).st() == spec_add_one(
                old(self).st(),
                old(self).spec_secret(),
                address,
                now,
            ).0,
            stop == spec_add_one(old(self).st(), old(self).spec_secret(), address, now).1,
    {
        let ghost bs0 = self.spec_buckets();
        let ghost m0 = self.spec_counts();
        let ghost secret = self.spec_secret();
        let key: SockAddr = match address.netaddr.addr {
            Some(sa) => sa,
            None => {
                proof {
                    assert(false);
                }
                SockAddr::new(IpV4::new(0, 0, 0, 0), 0)
            },
        };
        proof {
            assert(key == address.spec_key());
        }
        let i = self.get_bucket_idx(&key);
        let ghost bv = bs0[i as int];
        let blen = self.buckets[i].len();
        let mut k: usize = 0;
        let mut found: bool = false;
        while k < blen && !found
            invariant
                self == old(self),
                old(self).wf(),
                i < BUCKETS,
                bs0 == self.spec_buckets(),
                bs0.len() == BUCKETS,
                bv == bs0[i as int],
                blen == bv.len(),
                k <= bv.len(),
                found ==> k < bv.len() && bv[k as int].spec_key() == key,
                !found ==> forall|j: int| 0 <= j < k ==> (#[trigger] bv[j]).spec_key() != key,
                forall|j: int| 0 <= j < bv.len() ==> (#[trigger] bv[j]).wf(),
            decreases bv.len() - k + (if found {
                0int
            } else {
                1int
            }),
        {
            let hit = match self.buckets[i][k].netaddr.addr {
                Some(sa) => sa.same(&key),
                None => false,
            };
            proof {
                assert(self.buckets@[i as int]@[k as int] == bv[k as int]);
            }
            if hit {
                found = true;
            } else {
                k += 1;
            }
        }
        if found {
            proof {
                lemma_find_key_first(bv, key, k as int);
            }
            let stored = self.buckets[i][k];
            proof {
                assert(stored == bv[k as int]);
                assert(stored.wf());
            }
            let stored_time = match stored.netaddr.time {
                Some(t) => t,
                None => {
                    proof {
                        assert(false);
                    }
                    0
                },
            };
            let addr_time = match address.netaddr.time {
                Some(t) => t,
                None => {
                    proof {
                        assert(false);
                    }
                    0
                },
            };
            if stored_time >= addr_time {
                return false;
            }
            let same_peer = stored.peer.same(&address.peer);
            let cnew = self.peer_count(&address.peer);
            if !same_peer && cnew >= MAX_ADDRS_PER_PEER {
                return false;
            }
            if !same_peer {
                proof {
                    lemma_count_pb_at_least(bv, k as int, stored.peer);
                    lemma_count_all_at_least(bs0, i as int, stored.peer);
                }
                self.dec_peer_addresses(stored.peer);
                self.inc_peer_addresses(address.peer);
            }
            let ghost m2 = self.spec_counts();
            let mut b = self.buckets.remove(i);
            b.remove(k);
            b.insert(k, address);
            self.buckets.insert(i, b);
            proof {
                let bv2 = bv.update(k as int, address);
                assert(self.buckets@[i as int]@ =~= bv2);
                assert(self.spec_buckets() =~= bs0.update(i as int, bv2));
                let bs2 = self.spec_buckets();
                lemma_sum_lens_update(bs0, i as int, bv2);
                assert(sum_lens(bs2) == sum_lens(bs0));
                assert forall|q: IpV4| #[trigger] peer_count_of(m2, q) == count_peer_all(
                    bs2,
                    q,
                ) by {
                    lemma_count_pb_update(bv, k as int, address, q);
                    lemma_count_all_update(bs0, i as int, bv2, q);
                    assert(peer_count_of(m0, q) == count_peer_all(bs0, q));
                }
                assert forall|i2: int, j1: int, j2: int|
                    0 <= i2 < bs2.len() && 0 <= j1 < j2 < bs2[i2].len() implies (
                #[trigger] bs2[i2][j1]).spec_key() != (#[trigger] bs2[i2][j2]).spec_key() by {
                    if i2 == i as int {
                        assert(bv[j1].spec_key() != bv[j2].spec_key());
                        assert(bv2[k as int].spec_key() == bv[k as int].spec_key());
                    }
                }
                assert forall|i2: int, j: int|
                    0 <= i2 < bs2.len() && 0 <= j < bs2[i2].len() implies (
                #[trigger] bs2[i2][j]).wf() && bucket_of(secret, bs2[i2][j].spec_key().ip) == i2 by {
                    if i2 == i as int && j == k as int {
                    } else {
                        assert(bs2[i2][j] == bs0[i2][j]);
                    }
                }
            }
            return false;
        } else {
            proof {
                assert(k == blen);
                lemma_find_key_none(bv, key);
            }
            let c = self.peer_count(&address.peer);
            if c >= MAX_ADDRS_PER_PEER {
                return true;
            }
            if blen >= MAX_ADDRS_PER_BUCKET || self.total >= MAX_ADDRESSES {
                return false;
            }
            self.inc_peer_addresses(address.peer);
            let ghost m2 = self.spec_counts();
            let mut b = self.buckets.remove(i);
            b.push(address);
            self.buckets.insert(i, b);
            self.total = self.total + 1;
            proof {
                let bv2 = bv.push(address);
                assert(self.buckets@[i as int]@ =~= bv2);
                assert(self.spec_buckets() =~= bs0.update(i as int, bv2));
                let bs2 = self.spec_buckets();
                lemma_sum_lens_update(bs0, i as int, bv2);
                assert(sum_lens(bs2) == sum_lens(bs0) + 1);
                assert(bv2.drop_last() =~= bv);
                assert forall|q: IpV4| #[trigger] peer_count_of(m2, q) == count_peer_all(
                    bs2,
                    q,
                ) by {
                    assert(count_peer_bucket(bv2, q) == count_peer_bucket(bv, q) + (
                    if address.peer == q {
                        1int
                    } else {
                        0int
                    }));
                    lemma_count_all_update(bs0, i as int, bv2, q);
                    assert(peer_count_of(m0, q) == count_peer_all(bs0, q));
                }
                assert forall|i2: int, j1: int, j2: int|
                    0 <= i2 < bs2.len() && 0 <= j1 < j2 < bs2[i2].len() implies (
                #[trigger] bs2[i2][j1]).spec_key() != (#[trigger] bs2[i2][j2]).spec_key() by {
                    if i2 == i as int {
                        if j2 == bv.len() as int {
                            assert(bs2[i2][j1] == bv[j1]);
                            assert(bs2[i2][j2] == address);
                        } else {
                            assert(bs2[i2][j1] == bv[j1]);
                            assert(bs2[i2][j2] == bv[j2]);
                        }
                    }
                }
                assert forall|i2: int, j: int|
                    0 <= i2 < bs2.len() && 0 <= j < bs2[i2].len() implies (
                #[trigger] bs2[i2][j]).wf() && bucket_of(secret, bs2[i2][j].spec_key().ip) == i2 by {
                    if i2 == i as int && j == bv.len() as int {
                    } else {
                        assert(bs2[i2][j] == bs0[i2][j]);
                    }
                }
            }
            return false;
        }
    }
}


/// A list of records each storable as an address: valid endpoints with
/// timestamps.
pub open spec fn all_storable(v: Seq<NetAddr>) -> bool {
    forall|j: int|
        0 <= j < v.len() ==> (#[trigger] v[j]).spec_is_valid_addr() && (v[j].time is Some)
}

/// Whether a record is the endpoint record of some stored address.
pub open spec fn in_pool(bs: Seq<Seq<Address>>, na: NetAddr) -> bool {
    exists|i: int, j: int|
        0 <= i < bs.len() && 0 <= j < bs[i].len() && (#[trigger] bs[i][j]).netaddr == na
}

/// A batch served from the pool: every record is a valid timestamped
/// endpoint and stands in some bucket.
pub open spec fn from_pool(bs: Seq<Seq<Address>>, v: Seq<NetAddr>) -> bool {
    forall|j: int|
        0 <= j < v.len() ==> ((#[trigger] v[j]).spec_is_valid_addr() && (v[j].time is Some)
            && in_pool(bs, v[j]))
}

impl AddrManager {
    /// Admit an announced list in order, as `spec_add_list` describes:
    /// unusable records are skipped and the announcer's quota stops the
    /// rest of the list.
    pub fn handle_add_addresses(&mut self, peer: IpV4, addrs: &Vec<NetAddr>, now: u32)
        requires
            old(self).wf(),
        ensures
            final(self).wf(),
            final(self).spec_secret() == old(self).spec_secret(),
            final(self).st() == spec_add_list(
                old(self).st(),
                old(self).spec_secret(),
                peer,
                addrs@,
                now,
            ),
    {
        let ghost st0 = old(self).st();
        let ghost secret = old(self).spec_secret();
        let ghost full = addrs@;
        proof {
            assert(full.skip(0) =~= full);
        }
        let mut j: usize = 0;
        while j < addrs.len()
            invariant
                self.wf(),
                self.spec_secret() == secret,
                secret == old(self).spec_secret(),
                st0 == old(self).st(),
                full == addrs@,
                j <= full.len(),
                spec_add_list(st0, secret, peer, full, now) == spec_add_list(
                    self.st(),
                    secret,
                    peer,
                    full.skip(j as int),
                    now,
                ),
            decreases full.len() - j,
        {
            let na = addrs[j];
            let ghost rest = full.skip(j as int);
            proof {
                assert(rest[0] == na);
                assert(rest.skip(1) =~= full.skip(j + 1));
            }
            let a = Address::new(na, peer);
            let valid = na.is_valid_addr();
            let has_time = match na.time {
                Some(_) => true,
                None => false,
            };
            if valid && has_time && !a.is_old(now) {
                let stop = self.add_address(a, now);
                if stop {
                    return ;
                }
            }
            j += 1;
        }
        proof {
            assert(full.skip(full.len() as int) =~= Seq::<NetAddr>::empty());
        }
    }

    /// Collect up to `num` stored records: repeated random draws of a
    /// bucket, a few shuffled entries from it each time, and a final
    /// shuffle of the batch to hide the bucket structure. Every returned
    /// record is one the pool stores.
    fn get_addrs(&self, num: usize) -> (r: Vec<NetAddr>)
        requires
            self.wf(),
            num <= ANNOUNCE_MANY_ADDRS_MAX,
        ensures
            r@.len() <= num,
            all_storable(r@),
            from_pool(self.spec_buckets(), r@),
    {
        let ghost bs = self.spec_buckets();
        let mut addrs: Vec<NetAddr> = Vec::new();
        let mut attempt: usize = 0;
        let max_attempts = 5 * num;
        while attempt < max_attempts && addrs.len() < num
            invariant
                self.wf(),
                bs == self.spec_buckets(),
                num <= ANNOUNCE_MANY_ADDRS_MAX,
                addrs@.len() <= num,
                from_pool(bs, addrs@),
            decreases max_attempts - attempt,
        {
            let bucket = crate::crypto::rand_interval(0, BUCKETS - 1);
            let want = crate::crypto::rand_interval(2, 4);
            let left = num - addrs.len();
            let amount = if want < left {
                want
            } else {
                left
            };
            let mut candidates: Vec<NetAddr> = Vec::new();
            let mut c: usize = 0;
            let blen = self.buckets[bucket].len();
            while c < blen
                invariant
                    self.wf(),
                    bs == self.spec_buckets(),
                    bucket < BUCKETS,
                    blen == bs[bucket as int].len(),
                    c <= blen,
                    candidates@.len() == c,
                    from_pool(bs, candidates@),
                decreases blen - c,
            {
                let ghost e = bs[bucket as int][c as int];
                proof {
                    assert(e.wf());
                    assert(in_pool(bs, e.netaddr)) by {
                        assert((bucket as int) < bs.len() && (c as int) < bs[bucket as int].len()
                            && bs[bucket as int][c as int].netaddr == e.netaddr);
                    }
                }
                candidates.push(self.buckets[bucket][c].netaddr);
                c += 1;
                proof {
                    assert forall|j: int|
                        0 <= j < candidates@.len() implies ((
                    #[trigger] candidates@[j]).spec_is_valid_addr() && (candidates@[j].time
                        is Some) && in_pool(bs, candidates@[j])) by {
                        if j == candidates@.len() - 1 {
                            assert(candidates@[j] == e.netaddr);
                        }
                    }
                }
            }
            let ghost before = candidates@;
            crate::crypto::shuffle(&mut candidates);
            proof {
                assert forall|j: int|
                    0 <= j < candidates@.len() implies ((
                #[trigger] candidates@[j]).spec_is_valid_addr() && (candidates@[j].time is Some)
                    && in_pool(bs, candidates@[j])) by {
                    assert(candidates@.contains(candidates@[j]));
                    assert(before.contains(candidates@[j]));
                    let w = choose|w: int| 0 <= w < before.len() && before[w] == candidates@[j];
                    assert(before[w].spec_is_valid_addr() && (before[w].time is Some) && in_pool(
                        bs,
                        before[w],
                    ));
                }
            }
            let mut t: usize = 0;
            while t < amount && t < candidates.len()
                invariant
                    bs == self.spec_buckets(),
                    t <= amount,
                    amount <= num - (addrs@.len() - t),
                    addrs@.len() <= num,
                    from_pool(bs, addrs@),
                    from_pool(bs, candidates@),
                decreases amount - t,
            {
                proof {
                    assert(candidates@[t as int].spec_is_valid_addr());
                }
                addrs.push(candidates[t]);
                t += 1;
                proof {
                    assert forall|j: int|
                        0 <= j < addrs@.len() implies ((#[trigger] addrs@[j]).spec_is_valid_addr()
                        && (addrs@[j].time is Some) && in_pool(bs, addrs@[j])) by {}
                }
            }
            attempt += 1;
        }
        let ghost before = addrs@;
        crate::crypto::shuffle(&mut addrs);
        proof {
            assert forall|j: int|
                0 <= j < addrs@.len() implies ((#[trigger] addrs@[j]).spec_is_valid_addr() && (
                addrs@[j].time is Some) && in_pool(bs, addrs@[j])) by {
                assert(addrs@.contains(addrs@[j]));
                assert(before.contains(addrs@[j]));
                let w = choose|w: int| 0 <= w < before.len() && before[w] == addrs@[j];
                assert(before[w].spec_is_valid_addr() && (before[w].time is Some) && in_pool(
                    bs,
                    before[w],
                ));
            }
        }
        addrs
    }

    /// Serve a small batch: between 5 and 25 stored records.
    pub fn get_some_addresses(&self) -> (r: Vec<NetAddr>)
        requires
            self.wf(),
        ensures
            r@.len() <= ANNOUNCE_SOME_ADDRS_MAX,
            r@.len() <= 1000,
            all_storable(r@),
            from_pool(self.spec_buckets(), r@),
    {
        let num = crate::crypto::rand_interval(ANNOUNCE_SOME_ADDRS_MIN, ANNOUNCE_SOME_ADDRS_MAX);
        self.get_addrs(num)
    }

    /// Serve a large batch: between 200 and 500 stored records.
    pub fn get_many_addresses(&self) -> (r: Vec<NetAddr>)
        requires
            self.wf(),
        ensures
            r@.len() <= ANNOUNCE_MANY_ADDRS_MAX,
            r@.len() <= 1000,
            all_storable(r@),
            from_pool(self.spec_buckets(), r@),
    {
        let num = crate::crypto::rand_interval(ANNOUNCE_MANY_ADDRS_MIN, ANNOUNCE_MANY_ADDRS_MAX);
        self.get_addrs(num)
    }

    /// Dispatch one request: admissions mutate the pool and need no
    /// reply; address queries leave the pool unchanged and reply with a
    /// batch of stored records.
    pub fn handle_request(&mut self, request: AddrManagerRequest, now: u32) -> (r: Option<
        AddrManagerReply,
    >)
        requires
            old(self).wf(),
        ensures
            final(self).wf(),
            final(self).spec_secret() == old(self).spec_secret(),
            match request {
                AddrManagerRequest::AddrMngAddAddresses(peer, addrs) => final(self).st()
                    == spec_add_list(
                    old(self).st(),
                    old(self).spec_secret(),
                    peer,
                    addrs@,
                    now,
                ) && r is None,
                AddrManagerRequest::AddrMngGetSomeAddresses => *final(self) == *old(self) && (
                r matches Some(rep) && rep matches AddrManagerReply::AddrMngAddresses(v) && v@.len()
                    <= ANNOUNCE_SOME_ADDRS_MAX && all_storable(v@) && from_pool(
                    old(self).spec_buckets(),
                    v@,
                )),
                AddrManagerRequest::AddrMngGetManyAddresses => *final(self) == *old(self) && (
                r matches Some(rep) && rep matches AddrManagerReply::AddrMngAddresses(v) && v@.len()
                    <= ANNOUNCE_MANY_ADDRS_MAX && all_storable(v@) && from_pool(
                    old(self).spec_buckets(),
                    v@,
                )),
            },
    {
        match request {
            AddrManagerRequest::AddrMngAddAddresses(peer, addrs) => {
                self.handle_add_addresses(peer, &addrs, now);
                None
            },
            AddrManagerRequest::AddrMngGetSomeAddresses => {
                let v = self.get_some_addresses();
                Some(AddrManagerReply::AddrMngAddresses(v))
            },
            AddrManagerRequest::AddrMngGetManyAddresses => {
                let v = self.get_many_addresses();
                Some(AddrManagerReply::AddrMngAddresses(v))
            },
        }
    }
}


impl AddrManager {
    /// Sweep one bucket: drop every aged address and release its
    /// announcer's count; fresh addresses stay, in order.
    #[verifier::rlimit(100)]
    fn bucket_cleanup(&mut self, i: usize, now: u32)
        requires
            old(self).wf(),
            i < BUCKETS,
        ensures
            final(self).wf(),
            final(self).spec_secret() == old(self).spec_secret(),
            final(self).spec_buckets() == old(self).spec_buckets().update(
                i as int,
                keep_fresh(old(self).spec_buckets()[i as int], now),
            ),
    {
        let ghost bs0 = old(self).spec_buckets();
        let ghost m0 = old(self).spec_counts();
        let ghost secret = old(self).spec_secret();
        let ghost bv = bs0[i as int];
        let mut b: Vec<Address> = Vec::new();
        let mut c: usize = 0;
        let blen = self.buckets[i].len();
        while c < blen
            invariant
                self == old(self),
                old(self).wf(),
                i < BUCKETS,
                bs0 == self.spec_buckets(),
                bv == bs0[i as int],
                blen == bv.len(),
                c <= blen,
                b@ == bv.take(c as int),
            decreases blen - c,
        {
            b.push(self.buckets[i][c]);
            c += 1;
            proof {
                assert(b@ =~= bv.take(c as int));
            }
        }
        proof {
            assert(b@ =~= bv);
        }
        let mut nb: Vec<Address> = Vec::new();
        let mut j: usize = 0;
        proof {
            assert(bv.take(0) =~= Seq::<Address>::empty());
            assert(bv.skip(0) =~= bv);
            assert(nb@ + bv.skip(0) =~= bv);
            assert(bs0.update(i as int, nb@ + bv.skip(0)) =~= bs0);
        }
        while j < blen
            invariant
                i < BUCKETS,
                b@ == bv,
                blen == bv.len(),
                secret == self.spec_secret(),
                secret == old(self).spec_secret(),
                self.spec_buckets() == bs0,
                self.spec_total() == old(self).spec_total(),
                bs0 == old(self).spec_buckets(),
                bs0.len() == BUCKETS,
                bv == bs0[i as int],
                old(self).wf(),
                j <= bv.len(),
                nb@ == keep_fresh(bv.take(j as int), now),
                nb@.len() <= j,
                forall|k: int|
                    0 <= k < self.spec_counts().len() ==> 1 <= (
                    #[trigger] self.spec_counts()[k]).1 <= MAX_ADDRS_PER_PEER,
                forall|k1: int, k2: int|
                    0 <= k1 < k2 < self.spec_counts().len() ==> (
                    #[trigger] self.spec_counts()[k1]).0 != (#[trigger] self.spec_counts()[k2]).0,
                forall|q: IpV4|
                    #[trigger] peer_count_of(self.spec_counts(), q) == count_peer_all(
                        bs0.update(i as int, nb@ + bv.skip(j as int)),
                        q,
                    ),
            decreases blen - j,
        {
            let a = b[j];
            let ghost nbprev = nb@;
            proof {
                assert(a == bv[j as int]);
                assert(a.wf());
                assert(bv.take(j + 1).drop_last() =~= bv.take(j as int));
                assert(bv.take(j + 1).last() == a);
                assert(bv.skip(j as int)[0] == a);
                assert(bv.skip(j as int).skip(1) =~= bv.skip(j + 1));
            }
            if a.is_old(now) {
                proof {
                    let curb = nbprev + bv.skip(j as int);
                    let cur = bs0.update(i as int, curb);
                    assert(curb[nbprev.len() as int] == a);
                    lemma_count_pb_at_least(curb, nbprev.len() as int, a.peer);
                    lemma_count_all_at_least(cur, i as int, a.peer);
                    assert(cur[i as int] == curb);
                }
                self.dec_peer_addresses(a.peer);
                proof {
                    assert(nbprev + bv.skip(j as int) =~= nbprev + seq![a] + bv.skip(j + 1));
                    assert(nb@ =~= keep_fresh(bv.take(j + 1), now));
                    assert forall|q: IpV4|
                        #[trigger] peer_count_of(self.spec_counts(), q) == count_peer_all(
                            bs0.update(i as int, nb@ + bv.skip(j + 1)),
                            q,
                        ) by {
                        lemma_count_pb_insert(nbprev, a, bv.skip(j + 1), q);
                        lemma_count_all_update(bs0, i as int, nbprev + bv.skip(j as int), q);
                        lemma_count_all_update(bs0, i as int, nbprev + bv.skip(j + 1), q);
                    }
                }
            } else {
                nb.push(a);
                proof {
                    assert(nb@ =~= keep_fresh(bv.take(j + 1), now));
                    assert(nbprev + bv.skip(j as int) =~= nb@ + bv.skip(j + 1));
                }
            }
            j += 1;
        }
        proof {
            assert(bv.take(blen as int) =~= bv);
            assert(bv.skip(blen as int) =~= Seq::<Address>::empty());
            assert(nb@ + bv.skip(blen as int) =~= nb@);
        }
        let ghost nbv = nb@;
        let ghost mfin = self.spec_counts();
        let nblen = nb.len();
        let removed = blen - nblen;
        let _discarded = self.buckets.remove(i);
        self.buckets.insert(i, nb);
        proof {
            assert(self.total as int == sum_lens(bs0));
            lemma_sum_lens_at_least(bs0, i as int);
        }
        self.total = self.total - removed;
        proof {
            assert(self.spec_buckets() =~= bs0.update(i as int, nbv));
            let bs2 = self.spec_buckets();
            lemma_sum_lens_update(bs0, i as int, nbv);
            assert(sum_lens(bs2) == sum_lens(bs0) - removed);
            lemma_keep_fresh_member(bv, now);
            lemma_keep_fresh_distinct(bv, now);
            assert(self.spec_counts() == mfin);
            assert forall|q: IpV4| #[trigger] peer_count_of(self.spec_counts(), q)
                == count_peer_all(bs2, q) by {
                assert(peer_count_of(mfin, q) == count_peer_all(
                    bs0.update(i as int, nbv + bv.skip(blen as int)),
                    q,
                ));
                assert(nbv + bv.skip(blen as int) =~= nbv);
            }
            assert forall|i2: int, j2: int|
                0 <= i2 < bs2.len() && 0 <= j2 < bs2[i2].len() implies (
            #[trigger] bs2[i2][j2]).wf() && bucket_of(secret, bs2[i2][j2].spec_key().ip) == i2 by {
                if i2 == i as int {
                    assert(bv.contains(nbv[j2]));
                    let w = choose|w: int| 0 <= w < bv.len() && bv[w] == nbv[j2];
                    assert(bs0[i as int][w] == nbv[j2]);
                } else {
                    assert(bs2[i2][j2] == bs0[i2][j2]);
                }
            }
            assert forall|i2: int, j1: int, j2: int|
                0 <= i2 < bs2.len() && 0 <= j1 < j2 < bs2[i2].len() implies (
            #[trigger] bs2[i2][j1]).spec_key() != (#[trigger] bs2[i2][j2]).spec_key() by {
                if i2 == i as int {
                } else {
                    assert(bs2[i2][j1] == bs0[i2][j1]);
                    assert(bs2[i2][j2] == bs0[i2][j2]);
                }
            }
        }
    }

    /// The periodic age sweep: after it, no stored address is older than
    /// the age bound, and each bucket keeps exactly its fresh addresses,
    /// in order.
    pub fn periodic_cleanup(&mut self, now: u32)
        requires
            old(self).wf(),
        ensures
            final(self).wf(),
            final(self).spec_secret() == old(self).spec_secret(),
            forall|i: int|
                0 <= i < BUCKETS ==> final(self).spec_buckets()[i] == keep_fresh(
                    #[trigger] old(self).spec_buckets()[i],
                    now,
                ),
            forall|i: int, j: int|
                0 <= i < BUCKETS && 0 <= j < final(self).spec_buckets()[i].len() ==> !(
                #[trigger] final(self).spec_buckets()[i][j]).spec_is_old(now),
    {
        let mut i: usize = 0;
        while i < BUCKETS
            invariant
                self.wf(),
                old(self).wf(),
                self.spec_secret() == old(self).spec_secret(),
                i <= BUCKETS,
                forall|i2: int|
                    0 <= i2 < i ==> self.spec_buckets()[i2] == keep_fresh(
                        #[trigger] old(self).spec_buckets()[i2],
                        now,
                    ),
                forall|i2: int|
                    i <= i2 < BUCKETS ==> #[trigger] self.spec_buckets()[i2] == old(
                        self,
                    ).spec_buckets()[i2],
            decreases BUCKETS - i,
        {
            self.bucket_cleanup(i, now);
            i += 1;
        }
        proof {
            assert forall|i: int, j: int|
                0 <= i < BUCKETS && 0 <= j < self.spec_buckets()[i].len() implies !(
            #[trigger] self.spec_buckets()[i][j]).spec_is_old(now) by {
                lemma_keep_fresh_member(old(self).spec_buckets()[i], now);
            }
        }
    }
}


impl AddrManager {
    /// How many addresses the pool holds.
    pub fn address_count(&self) -> (r: usize)
        requires
            self.wf(),
        ensures
            r as int == sum_lens(self.spec_buckets()),
            r <= MAX_ADDRESSES,
    {
        self.total
    }

    /// The recorded count of one announcing peer.
    pub fn peer_addresses(&self, peer: &IpV4) -> (r: usize)
        requires
            self.wf(),
        ensures
            r as int == peer_count_of(self.spec_counts(), *peer),
            r <= MAX_ADDRS_PER_PEER,
    {
        proof {
            lemma_peer_count_bounded(self.spec_counts(), *peer);
        }
        self.peer_count(peer)
    }

    /// The stored timestamp of a known endpoint, if the pool holds it.
    pub fn get_known_address_time(&self, socketaddr: &SockAddr) -> (r: Option<u32>)
        requires
            self.wf(),
        ensures
            ({
                let b = self.spec_buckets()[bucket_of(self.spec_secret(), socketaddr.ip)];
                let k = find_key(b, *socketaddr);
                match r {
                    Some(t) => k >= 0 && b[k].spec_time() == t,
                    None => k < 0,
                }
            }),
    {
        let i = self.get_bucket_idx(socketaddr);
        let ghost bv = self.spec_buckets()[i as int];
        let blen = self.buckets[i].len();
        let mut k: usize = 0;
        while k < blen
            invariant
                self.wf(),
                i < BUCKETS,
                bv == self.spec_buckets()[i as int],
                blen == bv.len(),
                k <= bv.len(),
                forall|j: int| 0 <= j < k ==> (#[trigger] bv[j]).spec_key() != *socketaddr,
            decreases blen - k,
        {
            let e = self.buckets[i][k];
            proof {
                assert(e == bv[k as int]);
                assert(e.wf());
            }
            let hit = match e.netaddr.addr {
                Some(sa) => sa.same(socketaddr),
                None => false,
            };
            if hit {
                proof {
                    lemma_find_key_first(bv, *socketaddr, k as int);
                }
                return match e.netaddr.time {
                    Some(t) => Some(t),
                    None => {
                        proof {
                            assert(false);
                        }
                        None
                    },
                };
            }
            k += 1;
        }
        proof {
            lemma_find_key_none(bv, *socketaddr);
        }
        None
    }
}

} // verus!
