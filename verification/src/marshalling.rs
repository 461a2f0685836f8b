//! The wire codec: little-endian primitive encoders and decoders, and the
//! composite forms (varint, padded strings, hashes, network addresses,
//! inventory vectors, transactions) built from them.
//!
//! Every encoder has a spec-level mirror `enc_*` giving the exact bytes
//! produced, and every decoder a mirror `dec_*` giving the exact value and
//! the number of bytes consumed, or `None` where the bytes are rejected.
//! Failed decodes leave the reader's position untouched.

use vstd::prelude::*;

use crate::invvect::InvEntryV;
use crate::invvect::InvEntryType;
use crate::invvect::InvEntry;
use crate::invvect::InvVect;
use crate::invvect::spec_entry_type_code;
use crate::invvect::entry_type_code;
use crate::invvect::INV_VECT_MAX;
use crate::netaddr::IpV4;
use crate::netaddr::SockAddr;
use crate::netaddr::NetAddr;
use crate::value::Value;
use crate::transaction::Script;
use crate::transaction::OutPoint;
use crate::transaction::OutPointV;
use crate::transaction::TxIn;
use crate::transaction::TxInV;
use crate::transaction::TxOut;
use crate::transaction::TxOutV;
use crate::transaction::TxLock;
use crate::transaction::Transaction;
use crate::transaction::TransactionV;

verus! {

/// The longest var-string a decoder accepts.
pub const VARSTR_MAX_LENGTH: usize = 256;

/// A malformed or truncated wire value. Decoding fails deterministically
/// and without observable mutation of the reader.
#[derive(Clone, Copy, Debug, PartialEq, Eq, Structural)]
pub struct DecodeError;

// ---------------------------------------------------------------------------
// Spec-level byte images of the primitive encoders.
// ---------------------------------------------------------------------------
/// The single byte of a u8.
pub open spec fn enc_u8(v: u8) -> Seq<u8> {
    seq![v]
}

/// The two little-endian bytes of a u16.
pub open spec fn enc_u16(v: u16) -> Seq<u8> {
    seq![(v & 0xff) as u8, ((v >> 8) & 0xff) as u8]
}

/// The four little-endian bytes of a u32.
pub open spec fn enc_u32(v: u32) -> Seq<u8> {
    seq![
        (v & 0xff) as u8,
        ((v >> 8) & 0xff) as u8,
        ((v >> 16) & 0xff) as u8,
        ((v >> 24) & 0xff) as u8,
    ]
}

/// The eight little-endian bytes of a u64.
pub open spec fn enc_u64(v: u64) -> Seq<u8> {
    seq![
        (v & 0xff) as u8,
        ((v >> 8) & 0xff) as u8,
        ((v >> 16) & 0xff) as u8,
        ((v >> 24) & 0xff) as u8,
        ((v >> 32) & 0xff) as u8,
        ((v >> 40) & 0xff) as u8,
        ((v >> 48) & 0xff) as u8,
        ((v >> 56) & 0xff) as u8,
    ]
}

/// The single byte of a bool: 1 for true, 0 for false.
pub open spec fn enc_bool(b: bool) -> Seq<u8> {
    seq![if b { 1u8 } else { 0u8 }]
}

/// The self-delimiting variable-length integer encoding: one byte up to
/// 252, otherwise a marker byte followed by the value in 2, 4 or 8 bytes.
pub open spec fn enc_varint(v: u64) -> Seq<u8> {
    if v <= 252 {
        seq![v as u8]
    } else if v <= 0xffff {
        seq![253u8] + enc_u16(v as u16)
    } else if v <= 0xffffffff {
        seq![254u8] + enc_u32(v as u32)
    } else {
        seq![255u8] + enc_u64(v)
    }
}

/// Whether a byte belongs to the sanitized string alphabet
/// `[A-Za-z0-9 .,;_/:?@]`.
pub open spec fn is_safe_byte(b: u8) -> bool {
    (65 <= b <= 90) || (97 <= b <= 122) || (48 <= b <= 57) || b == 32 || b == 46 || b == 44 || b
        == 59 || b == 95 || b == 47 || b == 58 || b == 63 || b == 64
}

/// A sequence made only of bytes from the sanitized alphabet.
pub open spec fn all_safe(s: Seq<u8>) -> bool {
    forall|i: int| 0 <= i < s.len() ==> is_safe_byte(s[i])
}

/// The subsequence of bytes from the sanitized alphabet, in order.
pub open spec fn sanitize(s: Seq<u8>) -> Seq<u8>
    decreases s.len(),
{
    if s.len() == 0 {
        Seq::empty()
    } else {
        sanitize(s.drop_last()) + if is_safe_byte(s.last()) {
            seq![s.last()]
        } else {
            Seq::empty()
        }
    }
}

/// `n` zero bytes.
pub open spec fn zero_pad(n: nat) -> Seq<u8> {
    Seq::new(n, |i: int| 0u8)
}

/// A command string zero-padded to 12 bytes (meaningful for `s` of at most
/// 12 bytes).
pub open spec fn enc_str12(s: Seq<u8>) -> Seq<u8> {
    s + zero_pad((12 - s.len()) as nat)
}

/// A var-string: the length as a varint, then the raw bytes.
pub open spec fn enc_varstr(s: Seq<u8>) -> Seq<u8> {
    enc_varint(s.len() as u64) + s
}

// ---------------------------------------------------------------------------
// Spec-level decoders. Each reads at the head of `s` and yields the value
// and the number of bytes consumed, or `None` where the bytes are rejected.
// ---------------------------------------------------------------------------
/// The u16 named by two little-endian bytes.
pub open spec fn le16(b0: u8, b1: u8) -> u16 {
    (b0 as u16) | ((b1 as u16) << 8)
}

/// The u32 named by four little-endian bytes.
pub open spec fn le32(b0: u8, b1: u8, b2: u8, b3: u8) -> u32 {
    (b0 as u32) | ((b1 as u32) << 8) | ((b2 as u32) << 16) | ((b3 as u32) << 24)
}

/// The u64 named by eight little-endian bytes.
pub open spec fn le64(b0: u8, b1: u8, b2: u8, b3: u8, b4: u8, b5: u8, b6: u8, b7: u8) -> u64 {
    (b0 as u64) | ((b1 as u64) << 8) | ((b2 as u64) << 16) | ((b3 as u64) << 24) | ((b4 as u64)
        << 32) | ((b5 as u64) << 40) | ((b6 as u64) << 48) | ((b7 as u64) << 56)
}

/// The u16 named by two big-endian bytes (ports on the wire).
pub open spec fn be16(b0: u8, b1: u8) -> u16 {
    ((b0 as u16) << 8) | (b1 as u16)
}

/// Decode a u8.
pub open spec fn dec_u8(s: Seq<u8>) -> Option<(u8, int)> {
    if s.len() >= 1 {
        Some((s[0], 1int))
    } else {
        None
    }
}

/// Decode a little-endian u16.
pub open spec fn dec_u16(s: Seq<u8>) -> Option<(u16, int)> {
    if s.len() >= 2 {
        Some((le16(s[0], s[1]), 2int))
    } else {
        None
    }
}

/// Decode a little-endian u32.
pub open spec fn dec_u32(s: Seq<u8>) -> Option<(u32, int)> {
    if s.len() >= 4 {
        Some((le32(s[0], s[1], s[2], s[3]), 4int))
    } else {
        None
    }
}

/// Decode a little-endian u64.
pub open spec fn dec_u64(s: Seq<u8>) -> Option<(u64, int)> {
    if s.len() >= 8 {
        Some((le64(s[0], s[1], s[2], s[3], s[4], s[5], s[6], s[7]), 8int))
    } else {
        None
    }
}

/// Decode a bool: any non-zero byte reads as true.
pub open spec fn dec_bool(s: Seq<u8>) -> Option<(bool, int)> {
    if s.len() >= 1 {
        Some((s[0] != 0, 1int))
    } else {
        None
    }
}

/// Decode a varint by its first byte.
pub open spec fn dec_varint(s: Seq<u8>) -> Option<(u64, int)> {
    if s.len() < 1 {
        None
    } else if s[0] <= 252 {
        Some((s[0] as u64, 1int))
    } else if s[0] == 253 {
        match dec_u16(s.skip(1)) {
            Some((v, n)) => Some((v as u64, 1 + n)),
            None => None,
        }
    } else if s[0] == 254 {
        match dec_u32(s.skip(1)) {
            Some((v, n)) => Some((v as u64, 1 + n)),
            None => None,
        }
    } else {
        match dec_u64(s.skip(1)) {
            Some((v, n)) => Some((v, 1 + n)),
            None => None,
        }
    }
}

/// The bytes of `s` before its first NUL.
pub open spec fn prefix_until_nul(s: Seq<u8>) -> Seq<u8>
    decreases s.len(),
{
    if s.len() == 0 || s[0] == 0 {
        Seq::empty()
    } else {
        seq![s[0]] + prefix_until_nul(s.skip(1))
    }
}

/// Decode a 12-byte command field: the bytes before the first NUL,
/// sanitized.
pub open spec fn dec_str12(s: Seq<u8>) -> Option<(Seq<u8>, int)> {
    if s.len() >= 12 {
        Some((sanitize(prefix_until_nul(s.take(12))), 12int))
    } else {
        None
    }
}

/// Decode a var-string: a varint length of at most 256, then that many
/// bytes, sanitized.
pub open spec fn dec_varstr(s: Seq<u8>) -> Option<(Seq<u8>, int)> {
    match dec_varint(s) {
        Some((len, n)) => if len > VARSTR_MAX_LENGTH as u64 {
            None
        } else if s.len() < n + len {
            None
        } else {
            Some((sanitize(s.subrange(n, n + len as int)), n + len as int))
        },
        None => None,
    }
}

// ---------------------------------------------------------------------------
// The encoder.
// ---------------------------------------------------------------------------
/// An append-only byte buffer holding an encoded message in progress.
#[derive(Debug)]
pub struct Marshalling {
    buf: Vec<u8>,
}

impl View for Marshalling {
    type V = Seq<u8>;

    closed spec fn view(&self) -> Seq<u8> {
        self.buf@
    }
}

impl Marshalling {
    /// An empty buffer.
    pub fn new() -> (r: Marshalling)
        ensures
            r@ =~= Seq::<u8>::empty(),
    {
        Marshalling { buf: Vec::new() }
    }

    /// Append raw bytes.
    pub fn write(&mut self, d: &[u8])
        ensures
            final(self)@ == old(self)@ + d@,
    {
        let mut i: usize = 0;
        while i < d.len()
            invariant
                i <= d@.len(),
                self@ == old(self)@ + d@.take(i as int),
            decreases d@.len() - i,
        {
            self.buf.push(d[i]);
            i += 1;
            proof {
                assert(old(self)@ + d@.take(i - 1) + seq![d@[i - 1]] =~= old(self)@ + d@.take(
                    i as int,
                ));
            }
        }
        proof {
            assert(old(self)@ + d@.take(d@.len() as int) =~= old(self)@ + d@);
        }
    }

    /// Append one byte.
    pub fn write_uint8(&mut self, v: u8)
        ensures
            final(self)@ == old(self)@ + enc_u8(v),
    {
        self.buf.push(v);
        proof {
            assert(self@ =~= old(self)@ + enc_u8(v));
        }
    }

    /// Append a u16, little-endian.
    pub fn write_uint16(&mut self, v: u16)
        ensures
            final(self)@ == old(self)@ + enc_u16(v),
    {
        self.buf.push((v & 0xff) as u8);
        self.buf.push(((v >> 8) & 0xff) as u8);
        proof {
            assert(self@ =~= old(self)@ + enc_u16(v));
        }
    }

    /// Append a u32, little-endian.
    pub fn write_uint32(&mut self, v: u32)
        ensures
            final(self)@ == old(self)@ + enc_u32(v),
    {
        self.buf.push((v & 0xff) as u8);
        self.buf.push(((v >> 8) & 0xff) as u8);
        self.buf.push(((v >> 16) & 0xff) as u8);
        self.buf.push(((v >> 24) & 0xff) as u8);
        proof {
            assert(self@ =~= old(self)@ + enc_u32(v));
        }
    }

    /// Append a u64, little-endian.
    pub fn write_uint64(&mut self, v: u64)
        ensures
            final(self)@ == old(self)@ + enc_u64(v),
    {
        self.buf.push((v & 0xff) as u8);
        self.buf.push(((v >> 8) & 0xff) as u8);
        self.buf.push(((v >> 16) & 0xff) as u8);
        self.buf.push(((v >> 24) & 0xff) as u8);
        self.buf.push(((v >> 32) & 0xff) as u8);
        self.buf.push(((v >> 40) & 0xff) as u8);
        self.buf.push(((v >> 48) & 0xff) as u8);
        self.buf.push(((v >> 56) & 0xff) as u8);
        proof {
            assert(self@ =~= old(self)@ + enc_u64(v));
        }
    }

    /// Append a non-negative i32 as its u32 image.
    pub fn write_int32(&mut self, v: i32)
        requires
            v >= 0,
        ensures
            final(self)@ == old(self)@ + enc_u32(v as u32),
    {
        self.write_uint32(v as u32);
    }

    /// Append a non-negative i64 as its u64 image.
    pub fn write_int64(&mut self, v: i64)
        requires
            v >= 0,
        ensures
            final(self)@ == old(self)@ + enc_u64(v as u64),
    {
        self.write_uint64(v as u64);
    }

    /// Append a bool as one byte.
    pub fn write_bool(&mut self, b: bool)
        ensures
            final(self)@ == old(self)@ + enc_bool(b),
    {
        self.buf.push(if b { 1u8 } else { 0u8 });
        proof {
            assert(self@ =~= old(self)@ + enc_bool(b));
        }
    }

    /// Append a varint.
    pub fn write_varint(&mut self, v: u64)
        ensures
            final(self)@ == old(self)@ + enc_varint(v),
    {
        if v <= 252 {
            self.buf.push(v as u8);
            proof {
                assert(self@ =~= old(self)@ + enc_varint(v));
            }
        } else if v <= 0xffff {
            self.buf.push(253u8);
            self.write_uint16(v as u16);
            proof {
                assert(old(self)@.push(253u8) + enc_u16(v as u16) =~= old(self)@ + enc_varint(v));
            }
        } else if v <= 0xffffffff {
            self.buf.push(254u8);
            self.write_uint32(v as u32);
            proof {
                assert(old(self)@.push(254u8) + enc_u32(v as u32) =~= old(self)@ + enc_varint(v));
            }
        } else {
            self.buf.push(255u8);
            self.write_uint64(v);
            proof {
                assert(old(self)@.push(255u8) + enc_u64(v) =~= old(self)@ + enc_varint(v));
            }
        }
    }

    /// Append a sanitized command of at most 12 bytes, zero-padded to 12.
    pub fn write_str12(&mut self, s: &Vec<u8>)
        requires
            s@.len() <= 12,
            all_safe(s@),
        ensures
            final(self)@ == old(self)@ + enc_str12(s@),
    {
        self.write(s.as_slice());
        let mut i: usize = s.len();
        while i < 12
            invariant
                s@.len() <= i <= 12,
                self@ == old(self)@ + s@ + zero_pad((i - s@.len()) as nat),
            decreases 12 - i,
        {
            self.buf.push(0u8);
            i += 1;
            proof {
                assert(old(self)@ + s@ + zero_pad((i - 1 - s@.len()) as nat) + seq![0u8] =~= old(self)@ + s@ + zero_pad((i - s@.len()) as nat));
            }
        }
        proof {
            assert(old(self)@ + s@ + zero_pad((12 - s@.len()) as nat) =~= old(self)@ + enc_str12(
                s@,
            ));
        }
    }

    /// Append a sanitized var-string: varint length, then the bytes.
    pub fn write_varstr(&mut self, s: &Vec<u8>)
        requires
            all_safe(s@),
        ensures
            final(self)@ == old(self)@ + enc_varstr(s@),
    {
        self.write_varint(s.len() as u64);
        self.write(s.as_slice());
        proof {
            assert(old(self)@ + enc_varint(s@.len() as u64) + s@ =~= old(self)@ + enc_varstr(s@));
        }
    }

    /// A copy of the bytes encoded so far.
    pub fn get(&self) -> (r: Vec<u8>)
        ensures
            r@ == self@,
    {
        let mut r: Vec<u8> = Vec::new();
        let mut i: usize = 0;
        while i < self.buf.len()
            invariant
                i <= self.buf@.len(),
                r@ == self.buf@.take(i as int),
            decreases self.buf@.len() - i,
        {
            r.push(self.buf[i]);
            i += 1;
            proof {
                assert(r@ =~= self.buf@.take(i as int));
            }
        }
        proof {
            assert(r@ =~= self@);
        }
        r
    }

    /// A borrowed slice of the bytes encoded so far.
    pub fn as_slice(&self) -> (r: &[u8])
        ensures
            r@ == self@,
    {
        self.buf.as_slice()
    }

    /// The number of bytes encoded so far.
    pub fn len(&self) -> (r: usize)
        ensures
            r == self@.len(),
    {
        self.buf.len()
    }
}

// ---------------------------------------------------------------------------
// The decoder.
// ---------------------------------------------------------------------------
/// A byte buffer with a read position. Reads never mutate the position on
/// failure.
#[derive(Debug)]
#[verifier::ext_equal]
pub struct Unmarshalling {
    buf: Vec<u8>,
    pos: usize,
}

impl Unmarshalling {
    /// The position never passes the end of the buffer.
    pub open spec fn wf(&self) -> bool {
        0 <= self.spec_consumed() <= self.bytes().len()
    }

    /// The whole underlying buffer.
    pub closed spec fn bytes(&self) -> Seq<u8> {
        self.buf@
    }

    /// The bytes not yet consumed.
    pub open spec fn rest(&self) -> Seq<u8> {
        self.bytes().skip(self.spec_consumed())
    }

    /// The number of bytes consumed so far.
    pub closed spec fn spec_consumed(&self) -> int {
        self.pos as int
    }

    /// The two readers hold the very same underlying buffer.
    pub closed spec fn same_buffer(&self, o: &Unmarshalling) -> bool {
        self.buf == o.buf
    }

    /// A reader over a copy of `data`, positioned at the start.
    pub fn new(data: &Vec<u8>) -> (r: Unmarshalling)
        ensures
            r.wf(),
            r.bytes() == data@,
            r.rest() == data@,
            r.spec_consumed() == 0,
    {
        let mut buf: Vec<u8> = Vec::new();
        let mut i: usize = 0;
        while i < data.len()
            invariant
                i <= data@.len(),
                buf@ == data@.take(i as int),
            decreases data@.len() - i,
        {
            buf.push(data[i]);
            i += 1;
            proof {
                assert(buf@ =~= data@.take(i as int));
            }
        }
        proof {
            assert(buf@ =~= data@);
            assert(buf@.skip(0) =~= data@);
        }
        Unmarshalling { buf, pos: 0 }
    }

    /// The number of bytes consumed so far.
    pub fn consumed(&self) -> (r: usize)
        ensures
            r == self.spec_consumed(),
    {
        self.pos
    }

    /// The number of bytes still unread.
    pub fn remaining(&self) -> (r: usize)
        requires
            self.wf(),
        ensures
            r == self.rest().len(),
    {
        self.buf.len() - self.pos
    }

    /// Advance the position without reading.
    pub fn skip(&mut self, s: usize)
        requires
            old(self).wf(),
            s <= old(self).rest().len(),
        ensures
            final(self).wf(),
            final(self).bytes() == old(self).bytes(),
            final(self).same_buffer(&*old(self)),
            final(self).spec_consumed() == old(self).spec_consumed() + s,
            final(self).rest() == old(self).rest().skip(s as int),
    {
        proof {
            assert(self.buf@.len() == self.buf.len());
        }
        self.pos = self.pos + s;
        proof {
            assert(self.rest() =~= old(self).rest().skip(s as int));
        }
    }

    /// Read `n` raw bytes.
    pub fn read(&mut self, n: usize) -> (r: Result<Vec<u8>, DecodeError>)
        requires
            old(self).wf(),
        ensures
            final(self).wf(),
            final(self).bytes() == old(self).bytes(),
            final(self).same_buffer(&*old(self)),
            n <= old(self).rest().len() ==> (r matches Ok(d) && d@ == old(self).rest().take(
                n as int,
            ) && final(self).spec_consumed() == old(self).spec_consumed() + n),
            n > old(self).rest().len() ==> r == Err::<Vec<u8>, DecodeError>(DecodeError) && *final(self) == *old(self),
    {
        if self.buf.len() - self.pos < n {
            return Err(DecodeError);
        }
        let mut d: Vec<u8> = Vec::new();
        let mut i: usize = 0;
        while i < n
            invariant
                i <= n,
                n <= self.buf@.len() - self.pos,
                self.buf@.len() == self.buf.len(),
                d@ == self.buf@.skip(self.pos as int).take(i as int),
                self.pos == old(self).pos,
                self.buf@ == old(self).buf@,
            decreases n - i,
        {
            d.push(self.buf[self.pos + i]);
            i += 1;
            proof {
                assert(d@ =~= self.buf@.skip(self.pos as int).take(i as int));
            }
        }
        self.pos = self.pos + n;
        Ok(d)
    }

    /// Read one byte.
    pub fn read_uint8(&mut self) -> (r: Result<u8, DecodeError>)
        requires
            old(self).wf(),
        ensures
            final(self).wf(),
            final(self).bytes() == old(self).bytes(),
            final(self).same_buffer(&*old(self)),
            match dec_u8(old(self).rest()) {
                Some((v, n)) => r == Ok::<u8, DecodeError>(v) && final(self).spec_consumed() == old(self).spec_consumed() + n,
                None => r == Err::<u8, DecodeError>(DecodeError) && *final(self) == *old(self),
            },
    {
        if self.buf.len() - self.pos < 1 {
            return Err(DecodeError);
        }
        let v = self.buf[self.pos];
        self.pos = self.pos + 1;
        Ok(v)
    }

    /// Read a little-endian u16.
    pub fn read_uint16(&mut self) -> (r: Result<u16, DecodeError>)
        requires
            old(self).wf(),
        ensures
            final(self).wf(),
            final(self).bytes() == old(self).bytes(),
            final(self).same_buffer(&*old(self)),
            match dec_u16(old(self).rest()) {
                Some((v, n)) => r == Ok::<u16, DecodeError>(v) && final(self).spec_consumed()
                    == old(self).spec_consumed() + n,
                None => r == Err::<u16, DecodeError>(DecodeError) && *final(self) == *old(self),
            },
    {
        if self.buf.len() - self.pos < 2 {
            return Err(DecodeError);
        }
        let b0 = self.buf[self.pos];
        let b1 = self.buf[self.pos + 1];
        self.pos = self.pos + 2;
        Ok((b0 as u16) | ((b1 as u16) << 8))
    }

    /// Read a little-endian u32.
    pub fn read_uint32(&mut self) -> (r: Result<u32, DecodeError>)
        requires
            old(self).wf(),
        ensures
            final(self).wf(),
            final(self).bytes() == old(self).bytes(),
            final(self).same_buffer(&*old(self)),
            match dec_u32(old(self).rest()) {
                Some((v, n)) => r == Ok::<u32, DecodeError>(v) && final(self).spec_consumed()
                    == old(self).spec_consumed() + n,
                None => r == Err::<u32, DecodeError>(DecodeError) && *final(self) == *old(self),
            },
    {
        if self.buf.len() - self.pos < 4 {
            return Err(DecodeError);
        }
        let b0 = self.buf[self.pos];
        let b1 = self.buf[self.pos + 1];
        let b2 = self.buf[self.pos + 2];
        let b3 = self.buf[self.pos + 3];
        self.pos = self.pos + 4;
        Ok((b0 as u32) | ((b1 as u32) << 8) | ((b2 as u32) << 16) | ((b3 as u32) << 24))
    }

    /// Read a little-endian u64.
    pub fn read_uint64(&mut self) -> (r: Result<u64, DecodeError>)
        requires
            old(self).wf(),
        ensures
            final(self).wf(),
            final(self).bytes() == old(self).bytes(),
            final(self).same_buffer(&*old(self)),
            match dec_u64(old(self).rest()) {
                Some((v, n)) => r == Ok::<u64, DecodeError>(v) && final(self).spec_consumed()
                    == old(self).spec_consumed() + n,
                None => r == Err::<u64, DecodeError>(DecodeError) && *final(self) == *old(self),
            },
    {
        if self.buf.len() - self.pos < 8 {
            return Err(DecodeError);
        }
        let b0 = self.buf[self.pos];
        let b1 = self.buf[self.pos + 1];
        let b2 = self.buf[self.pos + 2];
        let b3 = self.buf[self.pos + 3];
        let b4 = self.buf[self.pos + 4];
        let b5 = self.buf[self.pos + 5];
        let b6 = self.buf[self.pos + 6];
        let b7 = self.buf[self.pos + 7];
        self.pos = self.pos + 8;
        Ok(
            (b0 as u64) | ((b1 as u64) << 8) | ((b2 as u64) << 16) | ((b3 as u64) << 24) | ((
            b4 as u64) << 32) | ((b5 as u64) << 40) | ((b6 as u64) << 48) | ((b7 as u64) << 56),
        )
    }

    /// Read a u32 image of a non-negative i32.
    pub fn read_int32(&mut self) -> (r: Result<i32, DecodeError>)
        requires
            old(self).wf(),
        ensures
            final(self).wf(),
            final(self).bytes() == old(self).bytes(),
            final(self).same_buffer(&*old(self)),
            match dec_u32(old(self).rest()) {
                Some((v, n)) => r == Ok::<i32, DecodeError>(v as i32) && final(self).spec_consumed()
                    == old(self).spec_consumed() + n,
                None => r == Err::<i32, DecodeError>(DecodeError) && *final(self) == *old(self),
            },
    {
        match self.read_uint32() {
            Ok(v) => Ok(v as i32),
            Err(e) => Err(e),
        }
    }

    /// Read a u64 image of a non-negative i64.
    pub fn read_int64(&mut self) -> (r: Result<i64, DecodeError>)
        requires
            old(self).wf(),
        ensures
            final(self).wf(),
            final(self).bytes() == old(self).bytes(),
            final(self).same_buffer(&*old(self)),
            match dec_u64(old(self).rest()) {
                Some((v, n)) => r == Ok::<i64, DecodeError>(v as i64) && final(self).spec_consumed()
                    == old(self).spec_consumed() + n,
                None => r == Err::<i64, DecodeError>(DecodeError) && *final(self) == *old(self),
            },
    {
        match self.read_uint64() {
            Ok(v) => Ok(v as i64),
            Err(e) => Err(e),
        }
    }

    /// Read a bool.
    pub fn read_bool(&mut self) -> (r: Result<bool, DecodeError>)
        requires
            old(self).wf(),
        ensures
            final(self).wf(),
            final(self).bytes() == old(self).bytes(),
            final(self).same_buffer(&*old(self)),
            match dec_bool(old(self).rest()) {
                Some((v, n)) => r == Ok::<bool, DecodeError>(v) && final(self).spec_consumed()
                    == old(self).spec_consumed() + n,
                None => r == Err::<bool, DecodeError>(DecodeError) && *final(self) == *old(self),
            },
    {
        if self.buf.len() - self.pos < 1 {
            return Err(DecodeError);
        }
        let b = self.buf[self.pos];
        self.pos = self.pos + 1;
        Ok(b != 0)
    }

    /// Read a varint.
    pub fn read_varint(&mut self) -> (r: Result<u64, DecodeError>)
        requires
            old(self).wf(),
        ensures
            final(self).wf(),
            final(self).bytes() == old(self).bytes(),
            final(self).same_buffer(&*old(self)),
            match dec_varint(old(self).rest()) {
                Some((v, n)) => r == Ok::<u64, DecodeError>(v) && final(self).spec_consumed()
                    == old(self).spec_consumed() + n,
                None => r == Err::<u64, DecodeError>(DecodeError) && *final(self) == *old(self),
            },
    {
        match self.peek_varint() {
            Some((v, n)) => {
                proof {
                    assert(self.buf@.len() == self.buf.len());
                    assert(self.rest().len() == self.buf@.len() - self.pos);
                }
                self.pos = self.pos + n;
                Ok(v)
            },
            None => Err(DecodeError),
        }
    }

    /// Decode a varint at the current position without consuming it,
    /// yielding the value and its encoded width.
    pub fn peek_varint(&self) -> (r: Option<(u64, usize)>)
        requires
            self.wf(),
        ensures
            match dec_varint(self.rest()) {
                Some((v, n)) => r matches Some(p) && p.0 == v && p.1 == n && n
                    <= self.rest().len(),
                None => r is None,
            },
    {
        if self.buf.len() - self.pos < 1 {
            return None;
        }
        let first = self.buf[self.pos];
        proof {
            assert(self.rest()[0] == first);
            assert(self.rest().skip(1) =~= self.buf@.skip(self.pos + 1));
        }
        if first <= 252 {
            Some((first as u64, 1))
        } else if first == 253 {
            if self.buf.len() - self.pos < 3 {
                return None;
            }
            let b0 = self.buf[self.pos + 1];
            let b1 = self.buf[self.pos + 2];
            let v: u16 = (b0 as u16) | ((b1 as u16) << 8);
            Some((v as u64, 3))
        } else if first == 254 {
            if self.buf.len() - self.pos < 5 {
                return None;
            }
            let b0 = self.buf[self.pos + 1];
            let b1 = self.buf[self.pos + 2];
            let b2 = self.buf[self.pos + 3];
            let b3 = self.buf[self.pos + 4];
            let v: u32 = (b0 as u32) | ((b1 as u32) << 8) | ((b2 as u32) << 16) | ((b3 as u32)
                << 24);
            Some((v as u64, 5))
        } else {
            if self.buf.len() - self.pos < 9 {
                return None;
            }
            let b0 = self.buf[self.pos + 1];
            let b1 = self.buf[self.pos + 2];
            let b2 = self.buf[self.pos + 3];
            let b3 = self.buf[self.pos + 4];
            let b4 = self.buf[self.pos + 5];
            let b5 = self.buf[self.pos + 6];
            let b6 = self.buf[self.pos + 7];
            let b7 = self.buf[self.pos + 8];
            let v: u64 = (b0 as u64) | ((b1 as u64) << 8) | ((b2 as u64) << 16) | ((b3 as u64)
                << 24) | ((b4 as u64) << 32) | ((b5 as u64) << 40) | ((b6 as u64) << 48) | ((
            b7 as u64) << 56);
            Some((v, 9))
        }
    }

    /// Drop every byte outside the sanitized alphabet, keeping order.
    pub fn sanitize_string(data: &Vec<u8>) -> (r: Vec<u8>)
        ensures
            r@ == sanitize(data@),
    {
        let mut r: Vec<u8> = Vec::new();
        let mut i: usize = 0;
        while i < data.len()
            invariant
                i <= data@.len(),
                r@ == sanitize(data@.take(i as int)),
            decreases data@.len() - i,
        {
            let b = data[i];
            let safe = (65 <= b && b <= 90) || (97 <= b && b <= 122) || (48 <= b && b <= 57) || b
                == 32 || b == 46 || b == 44 || b == 59 || b == 95 || b == 47 || b == 58 || b == 63
                || b == 64;
            if safe {
                r.push(b);
            }
            i += 1;
            proof {
                assert(data@.take(i as int).drop_last() =~= data@.take(i - 1));
                assert(data@.take(i as int).last() == b);
                if is_safe_byte(b) {
                    assert(r@ =~= sanitize(data@.take(i as int)));
                } else {
                    assert(r@ =~= sanitize(data@.take(i as int)));
                }
            }
        }
        proof {
            assert(data@.take(data@.len() as int) =~= data@);
        }
        r
    }

    /// Read a 12-byte command field: bytes before the first NUL, sanitized.
    pub fn read_str12(&mut self) -> (r: Result<Vec<u8>, DecodeError>)
        requires
            old(self).wf(),
        ensures
            final(self).wf(),
            final(self).bytes() == old(self).bytes(),
            final(self).same_buffer(&*old(self)),
            match dec_str12(old(self).rest()) {
                Some((v, n)) => r matches Ok(d) && d@ == v && final(self).spec_consumed() == old(self).spec_consumed() + n,
                None => r == Err::<Vec<u8>, DecodeError>(DecodeError) && *final(self) == *old(self),
            },
    {
        if self.buf.len() - self.pos < 12 {
            return Err(DecodeError);
        }
        let ghost t = old(self).rest().take(12);
        proof {
            assert(self.buf@.len() == self.buf.len());
            assert(t.skip(0) =~= t);
            assert(t.take(0) =~= Seq::<u8>::empty());
            assert(Seq::<u8>::empty() + prefix_until_nul(t) =~= prefix_until_nul(t));
        }
        let mut raw: Vec<u8> = Vec::new();
        let mut j: usize = 0;
        while j < 12 && self.buf[self.pos + j] != 0
            invariant
                old(self).wf(),
                self.pos == old(self).pos,
                self.buf@ == old(self).buf@,
                self.pos + 12 <= self.buf@.len(),
                self.buf@.len() == self.buf.len(),
                12 <= old(self).rest().len(),
                t == old(self).rest().take(12),
                j <= 12,
                raw@ == t.take(j as int),
                forall|k: int| 0 <= k < j ==> t[k] != 0,
                prefix_until_nul(t) == t.take(j as int) + prefix_until_nul(t.skip(j as int)),
            decreases 12 - j,
        {
            let b = self.buf[self.pos + j];
            raw.push(b);
            j += 1;
            proof {
                assert(t[j - 1] == b);
                assert(raw@ =~= t.take(j as int));
                assert(t.skip(j - 1)[0] == b);
                assert(t.skip(j - 1).skip(1) =~= t.skip(j as int));
                assert(t.take(j - 1) + seq![b] =~= t.take(j as int));
                assert(prefix_until_nul(t.skip(j - 1)) == seq![b] + prefix_until_nul(
                    t.skip(j as int),
                ));
                assert(t.take(j - 1) + (seq![b] + prefix_until_nul(t.skip(j as int))) =~= t.take(
                    j as int,
                ) + prefix_until_nul(t.skip(j as int)));
            }
        }
        proof {
            if j < 12 {
                assert(t.skip(j as int)[0] == 0);
                assert(prefix_until_nul(t.skip(j as int)) =~= Seq::<u8>::empty());
            } else {
                assert(t.skip(12).len() == 0);
                assert(prefix_until_nul(t.skip(j as int)) =~= Seq::<u8>::empty());
            }
            assert(t.take(j as int) + Seq::<u8>::empty() =~= t.take(j as int));
            assert(prefix_until_nul(t) == raw@);
        }
        let clean = Unmarshalling::sanitize_string(&raw);
        self.pos = self.pos + 12;
        Ok(clean)
    }

    /// Read a var-string: a varint length of at most 256, then that many
    /// bytes, sanitized.
    pub fn read_varstr(&mut self) -> (r: Result<Vec<u8>, DecodeError>)
        requires
            old(self).wf(),
        ensures
            final(self).wf(),
            final(self).bytes() == old(self).bytes(),
            final(self).same_buffer(&*old(self)),
            match dec_varstr(old(self).rest()) {
                Some((v, n)) => r matches Ok(d) && d@ == v && final(self).spec_consumed() == old(self).spec_consumed() + n,
                None => r == Err::<Vec<u8>, DecodeError>(DecodeError) && *final(self) == *old(self),
            },
    {
        let (len64, n0) = match self.peek_varint() {
            Some(p) => p,
            None => {
                return Err(DecodeError);
            },
        };
        if len64 > VARSTR_MAX_LENGTH as u64 {
            return Err(DecodeError);
        }
        let len: usize = len64 as usize;
        if self.buf.len() - self.pos - n0 < len {
            return Err(DecodeError);
        }
        let start = self.pos + n0;
        let mut raw: Vec<u8> = Vec::new();
        let mut i: usize = 0;
        while i < len
            invariant
                start + len <= self.buf@.len(),
                self.buf@.len() == self.buf.len(),
                i <= len,
                raw@ == self.buf@.skip(start as int).take(i as int),
                self.pos == old(self).pos,
                self.buf@ == old(self).buf@,
            decreases len - i,
        {
            raw.push(self.buf[start + i]);
            i += 1;
            proof {
                assert(raw@ =~= self.buf@.skip(start as int).take(i as int));
            }
        }
        let clean = Unmarshalling::sanitize_string(&raw);
        self.pos = start + len;
        proof {
            let s = old(self).rest();
            assert(s.subrange(n0 as int, n0 + len as int) =~= old(self).buf@.skip(
                start as int,
            ).take(len as int));
        }
        Ok(clean)
    }
}


// ---------------------------------------------------------------------------
// Composite forms: hashes, network addresses, inventory vectors, scripts,
// values and transactions.
// ---------------------------------------------------------------------------
/// The byte-reverse of a sequence.
pub open spec fn rev_bytes(s: Seq<u8>) -> Seq<u8> {
    Seq::new(s.len(), |i: int| s[s.len() - 1 - i])
}

/// The wire image of a 32-byte hash: its byte-reverse.
pub open spec fn enc_hash(h: Seq<u8>) -> Seq<u8> {
    rev_bytes(h)
}

/// Decode a 32-byte hash: reverse the next 32 bytes.
pub open spec fn dec_hash(s: Seq<u8>) -> Option<(Seq<u8>, int)> {
    if s.len() >= 32 {
        Some((rev_bytes(s.take(32)), 32int))
    } else {
        None
    }
}

/// A sequence of zero bytes only.
pub open spec fn all_zero(s: Seq<u8>) -> bool {
    forall|i: int| 0 <= i < s.len() ==> s[i] == 0
}

/// The timestamp of a record, with zero for a missing one.
pub open spec fn spec_time_or_zero(n: NetAddr) -> u32 {
    match n.time {
        Some(t) => t,
        None => 0,
    }
}

/// The 16-byte IPv6-mapped address block plus the big-endian port.
pub open spec fn enc_ip_bytes(addr: Option<SockAddr>) -> Seq<u8> {
    match addr {
        Some(sa) => zero_pad(10) + seq![0xffu8, 0xffu8]
            + seq![sa.ip.a, sa.ip.b, sa.ip.c, sa.ip.d]
            + seq![(sa.port >> 8) as u8, (sa.port & 0xff) as u8],
        None => zero_pad(10) + seq![0xffu8, 0xffu8] + zero_pad(4) + seq![0u8, 0u8],
    }
}

/// The wire image of a network address record: optional 4-byte timestamp,
/// services, mapped address block, big-endian port.
pub open spec fn enc_netaddr(n: NetAddr, with_time: bool) -> Seq<u8> {
    (if with_time {
        enc_u32(spec_time_or_zero(n))
    } else {
        Seq::<u8>::empty()
    }) + enc_u64(n.services) + enc_ip_bytes(n.addr)
}

/// The wire size of a network address record.
pub open spec fn netaddr_wire_len(with_time: bool) -> int {
    if with_time {
        30int
    } else {
        26int
    }
}

/// Decode a network address record. A block that is not IPv4-mapped reads
/// as a record with no endpoint; a mapped block without the 0xffff marker
/// is rejected; the zero host reads as no endpoint.
pub open spec fn dec_netaddr(s: Seq<u8>, with_time: bool) -> Option<(NetAddr, int)> {
    let base = if with_time { 4int } else { 0int };
    let total = netaddr_wire_len(with_time);
    if s.len() < total {
        None
    } else {
        let time = if with_time {
            Some(le32(s[0], s[1], s[2], s[3]))
        } else {
            None
        };
        let services = le64(
            s[base],
            s[base + 1],
            s[base + 2],
            s[base + 3],
            s[base + 4],
            s[base + 5],
            s[base + 6],
            s[base + 7],
        );
        let ip0 = base + 8;
        if !all_zero(s.subrange(ip0, ip0 + 10)) {
            Some((NetAddr { time, services, addr: None }, total))
        } else if s[ip0 + 10] != 0xff || s[ip0 + 11] != 0xff {
            None
        } else {
            let ip = IpV4 { a: s[ip0 + 12], b: s[ip0 + 13], c: s[ip0 + 14], d: s[ip0 + 15] };
            let port = be16(s[ip0 + 16], s[ip0 + 17]);
            let addr = if ip.spec_is_zero() {
                None
            } else {
                Some(SockAddr { ip, port })
            };
            Some((NetAddr { time, services, addr }, total))
        }
    }
}

/// The concatenated images of a list of elements under an element encoder.
pub open spec fn enc_list<T>(es: Seq<T>, fe: spec_fn(T) -> Seq<u8>) -> Seq<u8>
    decreases es.len(),
{
    if es.len() == 0 {
        Seq::empty()
    } else {
        fe(es[0]) + enc_list(es.skip(1), fe)
    }
}

/// Appending one element appends its image.
pub proof fn lemma_enc_list_push<T>(es: Seq<T>, fe: spec_fn(T) -> Seq<u8>, e: T)
    ensures
        enc_list(es.push(e), fe) == enc_list(es, fe) + fe(e),
    decreases es.len(),
{
    if es.len() == 0 {
        assert(es.push(e)[0] == e);
        assert(es.push(e).skip(1) =~= Seq::<T>::empty());
        assert(enc_list(es.push(e).skip(1), fe) == Seq::<u8>::empty());
        assert(enc_list(es.push(e), fe) =~= fe(e));
        assert(enc_list(es, fe) + fe(e) =~= fe(e));
    } else {
        assert(es.push(e).skip(1) =~= es.skip(1).push(e));
        lemma_enc_list_push(es.skip(1), fe, e);
        assert(es.push(e)[0] == es[0]);
        assert(fe(es[0]) + (enc_list(es.skip(1), fe) + fe(e)) =~= (fe(es[0]) + enc_list(
            es.skip(1),
            fe,
        )) + fe(e));
    }
}

/// Decode `count` successive elements under an element decoder.
pub open spec fn dec_list<T>(
    s: Seq<u8>,
    count: nat,
    fd: spec_fn(Seq<u8>) -> Option<(T, int)>,
) -> Option<(Seq<T>, int)>
    decreases count,
{
    if count == 0 {
        Some((Seq::<T>::empty(), 0int))
    } else {
        match fd(s) {
            None => None,
            Some((v, n)) => match dec_list(s.skip(n), (count - 1) as nat, fd) {
                None => None,
                Some((vs, m)) => Some((seq![v] + vs, n + m)),
            },
        }
    }
}

/// A list decode over the images of encoded elements gives the elements
/// back, provided each element round-trips in any byte context.
pub proof fn lemma_dec_enc_list<T>(
    es: Seq<T>,
    fe: spec_fn(T) -> Seq<u8>,
    fd: spec_fn(Seq<u8>) -> Option<(T, int)>,
    rest: Seq<u8>,
)
    requires
        forall|e: T, r: Seq<u8>|
            #![trigger fd(fe(e) + r)]
            es.contains(e) ==> fd(fe(e) + r) == Some((e, fe(e).len() as int)),
    ensures
        dec_list(enc_list(es, fe) + rest, es.len(), fd) == Some(
            (es, enc_list(es, fe).len() as int),
        ),
    decreases es.len(),
{
    if es.len() == 0 {
        assert(enc_list(es, fe) + rest =~= rest);
        assert(dec_list(rest, 0, fd) == Some((Seq::<T>::empty(), 0int)));
        assert(es =~= Seq::<T>::empty());
    } else {
        let e0 = es[0];
        let tail = es.skip(1);
        let etail = enc_list(tail, fe);
        assert(es.contains(e0)) by {
            assert(es[0] == e0);
        }
        assert(enc_list(es, fe) + rest =~= fe(e0) + (etail + rest));
        assert(fd(fe(e0) + (etail + rest)) == Some((e0, fe(e0).len() as int)));
        assert((fe(e0) + (etail + rest)).skip(fe(e0).len() as int) =~= etail + rest);
        assert(forall|e: T, r: Seq<u8>|
            #![trigger fd(fe(e) + r)]
            tail.contains(e) ==> fd(fe(e) + r) == Some((e, fe(e).len() as int))) by {
            assert(forall|e: T| tail.contains(e) ==> es.contains(e));
        }
        lemma_dec_enc_list(tail, fe, fd, rest);
        assert(seq![e0] + tail =~= es);
    }
}

/// The wire image of one inventory entry: type code, then the hash.
pub open spec fn enc_inventry(e: InvEntryV) -> Seq<u8> {
    enc_u32(spec_entry_type_code(e.typ)) + enc_hash(e.hash)
}

/// Decode one inventory entry; type codes above 2 are rejected.
pub open spec fn dec_inventry(s: Seq<u8>) -> Option<(InvEntryV, int)> {
    match dec_u32(s) {
        None => None,
        Some((code, n)) => if code > 2 {
            None
        } else {
            match dec_hash(s.skip(n)) {
                None => None,
                Some((h, m)) => Some(
                    (
                        InvEntryV {
                            typ: if code == 0 {
                                InvEntryType::Error
                            } else if code == 1 {
                                InvEntryType::MsgTx
                            } else {
                                InvEntryType::MsgBlock
                            },
                            hash: h,
                        },
                        n + m,
                    ),
                ),
            }
        },
    }
}

/// The wire image of an inventory vector: varint count, then the entries.
pub open spec fn enc_invvect(es: Seq<InvEntryV>) -> Seq<u8> {
    enc_varint(es.len() as u64) + enc_list(es, |e: InvEntryV| enc_inventry(e))
}

/// Decode an inventory vector; counts above 50000 are rejected.
pub open spec fn dec_invvect(s: Seq<u8>) -> Option<(Seq<InvEntryV>, int)> {
    match dec_varint(s) {
        None => None,
        Some((count, n)) => if count > INV_VECT_MAX as u64 {
            None
        } else {
            match dec_list(s.skip(n), count as nat, |t: Seq<u8>| dec_inventry(t)) {
                None => None,
                Some((es, m)) => Some((es, n + m)),
            }
        },
    }
}

/// The wire image of a script blob: varint length, then the raw bytes.
pub open spec fn enc_script(s: Seq<u8>) -> Seq<u8> {
    enc_varint(s.len() as u64) + s
}

/// Decode a script blob: varint length, then that many raw bytes.
pub open spec fn dec_script(s: Seq<u8>) -> Option<(Seq<u8>, int)> {
    match dec_varint(s) {
        None => None,
        Some((len, n)) => if s.len() < n + len {
            None
        } else {
            Some((s.subrange(n, n + len as int), n + len as int))
        },
    }
}

/// The wire image of an amount: its satoshi count, little-endian.
pub open spec fn enc_value(v: Value) -> Seq<u8> {
    enc_u64(v.spec_satoshi())
}

/// Decode an amount.
pub open spec fn dec_value(s: Seq<u8>) -> Option<(Value, int)> {
    match dec_u64(s) {
        None => None,
        Some((v, n)) => Some((Value::Satoshi(v), n)),
    }
}

/// The wire image of an out-point: hash, then output index.
pub open spec fn enc_outpoint(o: OutPointV) -> Seq<u8> {
    enc_hash(o.hash) + enc_u32(o.index)
}

/// The wire image of a transaction input.
pub open spec fn enc_txin(t: TxInV) -> Seq<u8> {
    enc_outpoint(t.prev_out) + enc_script(t.sig_script) + enc_u32(t.sequence)
}

/// Decode a transaction input.
#[verifier::opaque]
pub open spec fn dec_txin(s: Seq<u8>) -> Option<(TxInV, int)> {
    match dec_hash(s) {
        None => None,
        Some((h, n1)) => match dec_u32(s.skip(n1)) {
            None => None,
            Some((idx, n2)) => match dec_script(s.skip(n1 + n2)) {
                None => None,
                Some((sc, n3)) => match dec_u32(s.skip(n1 + n2 + n3)) {
                    None => None,
                    Some((sq, n4)) => Some(
                        (
                            TxInV {
                                prev_out: OutPointV { hash: h, index: idx },
                                sig_script: sc,
                                sequence: sq,
                            },
                            n1 + n2 + n3 + n4,
                        ),
                    ),
                },
            },
        },
    }
}

/// The wire image of a transaction output.
pub open spec fn enc_txout(t: TxOutV) -> Seq<u8> {
    enc_value(t.value) + enc_script(t.script)
}

/// Decode a transaction output.
#[verifier::opaque]
pub open spec fn dec_txout(s: Seq<u8>) -> Option<(TxOutV, int)> {
    match dec_value(s) {
        None => None,
        Some((v, n1)) => match dec_script(s.skip(n1)) {
            None => None,
            Some((sc, n2)) => Some((TxOutV { value: v, script: sc }, n1 + n2)),
        },
    }
}

/// The input encoder as a function value, for list encoding.
pub open spec fn fe_txin() -> spec_fn(TxInV) -> Seq<u8> {
    |x: TxInV| enc_txin(x)
}

/// The output encoder as a function value, for list encoding.
pub open spec fn fe_txout() -> spec_fn(TxOutV) -> Seq<u8> {
    |x: TxOutV| enc_txout(x)
}

/// The input decoder as a function value, for list decoding.
pub open spec fn fd_txin() -> spec_fn(Seq<u8>) -> Option<(TxInV, int)> {
    |t: Seq<u8>| dec_txin(t)
}

/// The output decoder as a function value, for list decoding.
pub open spec fn fd_txout() -> spec_fn(Seq<u8>) -> Option<(TxOutV, int)> {
    |t: Seq<u8>| dec_txout(t)
}

/// The wire image of a transaction skeleton.
pub open spec fn enc_transaction(t: TransactionV) -> Seq<u8> {
    enc_u32(t.version) + enc_varint(t.txs_in.len() as u64) + enc_list(
        t.txs_in,
        |x: TxInV| enc_txin(x),
    ) + enc_varint(t.txs_out.len() as u64) + enc_list(t.txs_out, |x: TxOutV| enc_txout(x))
        + enc_u32(t.lock.spec_to_u32())
}


/// Staged views of a transaction decode, for the reader's proofs: each
/// failure of a stage fails the whole decode, and six successful stages
/// compose into the decoded value.
pub proof fn lemma_dec_tx_fail_version(s0: Seq<u8>)
    requires
        dec_u32(s0) is None,
    ensures
        dec_transaction(s0) is None,
{
    reveal(dec_transaction);
}

/// See `lemma_dec_tx_fail_version`.
pub proof fn lemma_dec_tx_fail_nin(s0: Seq<u8>, version: u32, a: int)
    requires
        dec_u32(s0) == Some((version, a)),
        dec_varint(s0.skip(a)) is None,
    ensures
        dec_transaction(s0) is None,
{
    reveal(dec_transaction);
}

/// See `lemma_dec_tx_fail_version`.
pub proof fn lemma_dec_tx_fail_ins(s0: Seq<u8>, version: u32, a: int, nin: u64, b: int)
    requires
        dec_u32(s0) == Some((version, a)),
        dec_varint(s0.skip(a)) == Some((nin, b)),
        dec_list(s0.skip(a + b), nin as nat, fd_txin()) is None,
    ensures
        dec_transaction(s0) is None,
{
    reveal(dec_transaction);
}

/// See `lemma_dec_tx_fail_version`.
pub proof fn lemma_dec_tx_fail_nout(
    s0: Seq<u8>,
    version: u32,
    a: int,
    nin: u64,
    b: int,
    insv: Seq<TxInV>,
    c: int,
)
    requires
        dec_u32(s0) == Some((version, a)),
        dec_varint(s0.skip(a)) == Some((nin, b)),
        dec_list(s0.skip(a + b), nin as nat, fd_txin()) == Some((insv, c)),
        dec_varint(s0.skip(a + b + c)) is None,
    ensures
        dec_transaction(s0) is None,
{
    reveal(dec_transaction);
}

/// See `lemma_dec_tx_fail_version`.
pub proof fn lemma_dec_tx_fail_outs(
    s0: Seq<u8>,
    version: u32,
    a: int,
    nin: u64,
    b: int,
    insv: Seq<TxInV>,
    c: int,
    nout: u64,
    d: int,
)
    requires
        dec_u32(s0) == Some((version, a)),
        dec_varint(s0.skip(a)) == Some((nin, b)),
        dec_list(s0.skip(a + b), nin as nat, fd_txin()) == Some((insv, c)),
        dec_varint(s0.skip(a + b + c)) == Some((nout, d)),
        dec_list(s0.skip(a + b + c + d), nout as nat, fd_txout()) is None,
    ensures
        dec_transaction(s0) is None,
{
    reveal(dec_transaction);
}

/// See `lemma_dec_tx_fail_version`.
pub proof fn lemma_dec_tx_fail_lock(
    s0: Seq<u8>,
    version: u32,
    a: int,
    nin: u64,
    b: int,
    insv: Seq<TxInV>,
    c: int,
    nout: u64,
    d: int,
    outsv: Seq<TxOutV>,
    e: int,
)
    requires
        dec_u32(s0) == Some((version, a)),
        dec_varint(s0.skip(a)) == Some((nin, b)),
        dec_list(s0.skip(a + b), nin as nat, fd_txin()) == Some((insv, c)),
        dec_varint(s0.skip(a + b + c)) == Some((nout, d)),
        dec_list(s0.skip(a + b + c + d), nout as nat, fd_txout()) == Some((outsv, e)),
        dec_u32(s0.skip(a + b + c + d + e)) is None,
    ensures
        dec_transaction(s0) is None,
{
    reveal(dec_transaction);
}

/// See `lemma_dec_tx_fail_version`.
pub proof fn lemma_dec_tx_ok(
    s0: Seq<u8>,
    version: u32,
    a: int,
    nin: u64,
    b: int,
    insv: Seq<TxInV>,
    c: int,
    nout: u64,
    d: int,
    outsv: Seq<TxOutV>,
    e: int,
    lockv: u32,
    f: int,
)
    requires
        dec_u32(s0) == Some((version, a)),
        dec_varint(s0.skip(a)) == Some((nin, b)),
        dec_list(s0.skip(a + b), nin as nat, fd_txin()) == Some((insv, c)),
        dec_varint(s0.skip(a + b + c)) == Some((nout, d)),
        dec_list(s0.skip(a + b + c + d), nout as nat, fd_txout()) == Some((outsv, e)),
        dec_u32(s0.skip(a + b + c + d + e)) == Some((lockv, f)),
    ensures
        dec_transaction(s0) == Some(
            (
                TransactionV {
                    version,
                    txs_in: insv,
                    txs_out: outsv,
                    lock: TxLock::spec_from_u32(lockv),
                },
                a + b + c + d + e + f,
            ),
        ),
{
    reveal(dec_transaction);
}

/// Decode a transaction skeleton.
#[verifier::opaque]
pub open spec fn dec_transaction(s: Seq<u8>) -> Option<(TransactionV, int)> {
    match dec_u32(s) {
        None => None,
        Some((ver, a)) => match dec_varint(s.skip(a)) {
            None => None,
            Some((nin, b)) => match dec_list(s.skip(a + b), nin as nat, fd_txin()) {
                None => None,
                Some((ins, c)) => match dec_varint(s.skip(a + b + c)) {
                    None => None,
                    Some((nout, d)) => match dec_list(s.skip(a + b + c + d), nout as nat, fd_txout()) {
                        None => None,
                        Some((outs, e)) => match dec_u32(s.skip(a + b + c + d + e)) {
                            None => None,
                            Some((lk, f)) => Some(
                                (
                                    TransactionV {
                                        version: ver,
                                        txs_in: ins,
                                        txs_out: outs,
                                        lock: TxLock::spec_from_u32(lk),
                                    },
                                    a + b + c + d + e + f,
                                ),
                            ),
                        },
                    },
                },
            },
        },
    }
}


/// Prefix a decoded list and its consumed count onto a partial decode.
pub open spec fn prepend<T>(done: Seq<T>, c: int, o: Option<(Seq<T>, int)>) -> Option<
    (Seq<T>, int),
> {
    match o {
        None => None,
        Some((vs, m)) => Some((done + vs, c + m)),
    }
}

/// One step of a list decode, phrased for a reading loop: consuming one
/// element moves it from the pending decode to the finished prefix.
pub proof fn lemma_dec_list_step<T>(
    s: Seq<u8>,
    count: nat,
    fd: spec_fn(Seq<u8>) -> Option<(T, int)>,
    done: Seq<T>,
    c: int,
    v: T,
    n: int,
)
    requires
        count > 0,
        fd(s) == Some((v, n)),
    ensures
        prepend(done, c, dec_list(s, count, fd)) == prepend(
            done.push(v),
            c + n,
            dec_list(s.skip(n), (count - 1) as nat, fd),
        ),
{
    let o = dec_list(s.skip(n), (count - 1) as nat, fd);
    match o {
        None => {},
        Some((vs, m)) => {
            assert(done + (seq![v] + vs) =~= done.push(v) + vs);
        },
    }
}

impl Marshalling {
    /// Append a 32-byte hash in wire order (byte-reversed).
    pub fn write_hash(&mut self, h: &crate::hash::Hash)
        requires
            h.wf(),
        ensures
            final(self)@ == old(self)@ + enc_hash(h@),
    {
        let mut i: usize = 0;
        while i < 32
            invariant
                h.wf(),
                i <= 32,
                self@ == old(self)@ + rev_bytes(h@).take(i as int),
            decreases 32 - i,
        {
            let b = h.get(31 - i);
            self.buf.push(b);
            i += 1;
            proof {
                assert(rev_bytes(h@)[i - 1] == h@[31 - (i - 1)]);
                assert(old(self)@ + rev_bytes(h@).take(i - 1) + seq![b] =~= old(self)@ + rev_bytes(
                    h@,
                ).take(i as int));
            }
        }
        proof {
            assert(old(self)@ + rev_bytes(h@).take(32) =~= old(self)@ + enc_hash(h@));
        }
    }

    /// Append a network address record, with or without its timestamp.
    pub fn write_netaddr(&mut self, n: &NetAddr, with_time: bool)
        ensures
            final(self)@ == old(self)@ + enc_netaddr(*n, with_time),
    {
        if with_time {
            match n.time {
                Some(t) => self.write_uint32(t),
                None => self.write_uint32(0),
            }
        }
        self.write_uint64(n.services);
        let ghost pre = old(self)@ + (if with_time {
            enc_u32(spec_time_or_zero(*n))
        } else {
            Seq::<u8>::empty()
        }) + enc_u64(n.services);
        proof {
            assert(self@ =~= pre);
        }
        let mut k: usize = 0;
        while k < 10
            invariant
                k <= 10,
                self@ == pre + zero_pad(k as nat),
            decreases 10 - k,
        {
            self.buf.push(0u8);
            k += 1;
            proof {
                assert(pre + zero_pad((k - 1) as nat) + seq![0u8] =~= pre + zero_pad(k as nat));
            }
        }
        self.write_uint8(0xff);
        self.write_uint8(0xff);
        match n.addr {
            Some(sa) => {
                self.write_uint8(sa.ip.a);
                self.write_uint8(sa.ip.b);
                self.write_uint8(sa.ip.c);
                self.write_uint8(sa.ip.d);
                self.write_uint8((sa.port >> 8) as u8);
                self.write_uint8((sa.port & 0xff) as u8);
            },
            None => {
                self.write_uint8(0);
                self.write_uint8(0);
                self.write_uint8(0);
                self.write_uint8(0);
                self.write_uint8(0);
                self.write_uint8(0);
            },
        }
        proof {
            assert(self@ =~= old(self)@ + enc_netaddr(*n, with_time));
        }
    }

    /// Append an inventory vector: varint count, then each entry.
    pub fn write_invvect(&mut self, v: &InvVect)
        requires
            v.wf(),
        ensures
            final(self)@ == old(self)@ + enc_invvect(v@),
    {
        let ghost fe = |e: InvEntryV| enc_inventry(e);
        self.write_varint(v.len() as u64);
        let ghost pre = old(self)@ + enc_varint(v@.len() as u64);
        proof {
            assert(enc_list(v@.take(0), fe) == Seq::<u8>::empty());
            assert(self@ =~= pre + enc_list(v@.take(0), fe));
        }
        let mut i: usize = 0;
        while i < v.len()
            invariant
                v.wf(),
                i <= v@.len(),
                self@ == pre + enc_list(v@.take(i as int), fe),
                fe == (|e: InvEntryV| enc_inventry(e)),
                pre == old(self)@ + enc_varint(v@.len() as u64),
            decreases v@.len() - i,
        {
            let entry = v.get(i);
            self.write_uint32(entry_type_code(entry.typ));
            self.write_hash(&entry.hash);
            i += 1;
            proof {
                lemma_enc_list_push(v@.take(i - 1), fe, v@[i - 1]);
                assert(v@.take(i - 1).push(v@[i - 1]) =~= v@.take(i as int));
                assert(pre + enc_list(v@.take(i - 1), fe) + enc_u32(
                    spec_entry_type_code(v@[i - 1].typ),
                ) + enc_hash(v@[i - 1].hash) =~= pre + (enc_list(v@.take(i - 1), fe) + fe(
                    v@[i - 1],
                )));
            }
        }
        proof {
            assert(v@.take(v@.len() as int) =~= v@);
            assert(pre + enc_list(v@, fe) =~= old(self)@ + enc_invvect(v@));
        }
    }

    /// Append a script blob: varint length, then the raw bytes.
    pub fn write_script(&mut self, sc: &Script)
        ensures
            final(self)@ == old(self)@ + enc_script(sc@),
    {
        self.write_varint(sc.bytes.len() as u64);
        self.write(sc.bytes.as_slice());
        proof {
            assert(old(self)@ + enc_varint(sc@.len() as u64) + sc@ =~= old(self)@ + enc_script(
                sc@,
            ));
        }
    }

    /// Append an amount.
    pub fn write_value(&mut self, v: &Value)
        ensures
            final(self)@ == old(self)@ + enc_value(*v),
    {
        self.write_uint64(v.satoshi());
    }

    /// Append a transaction skeleton.
    pub fn write_transaction(&mut self, tx: &Transaction)
        requires
            tx@.wf(),
        ensures
            final(self)@ == old(self)@ + enc_transaction(tx@),
    {
        let ghost fin = |x: TxInV| enc_txin(x);
        let ghost fout = |x: TxOutV| enc_txout(x);
        self.write_uint32(tx.get_version());
        let ins = tx.get_in_txs();
        self.write_varint(ins.len() as u64);
        let ghost pre1 = old(self)@ + enc_u32(tx@.version) + enc_varint(tx@.txs_in.len() as u64);
        proof {
            assert(enc_list(tx@.txs_in.take(0), fin) == Seq::<u8>::empty());
            assert(self@ =~= pre1 + enc_list(tx@.txs_in.take(0), fin));
        }
        let mut i: usize = 0;
        while i < ins.len()
            invariant
                tx@.wf(),
                ins@.len() == tx@.txs_in.len(),
                forall|j: int| 0 <= j < ins@.len() ==> ins@[j]@ == tx@.txs_in[j],
                i <= ins@.len(),
                self@ == pre1 + enc_list(tx@.txs_in.take(i as int), fin),
                fin == (|x: TxInV| enc_txin(x)),
                pre1 == old(self)@ + enc_u32(tx@.version) + enc_varint(tx@.txs_in.len() as u64),
            decreases ins@.len() - i,
        {
            let tin = &ins[i];
            let prev = tin.get_prev_out();
            proof {
                assert(ins@[i as int]@ == tx@.txs_in[i as int]);
                assert(tx@.txs_in[i as int].prev_out.hash.len() == 32);
            }
            self.write_hash(prev.get_hash());
            self.write_uint32(prev.get_index());
            self.write_script(tin.get_script());
            self.write_uint32(tin.get_sequence());
            i += 1;
            proof {
                lemma_enc_list_push(tx@.txs_in.take(i - 1), fin, tx@.txs_in[i - 1]);
                assert(tx@.txs_in.take(i - 1).push(tx@.txs_in[i - 1]) =~= tx@.txs_in.take(
                    i as int,
                ));
                let tv = tx@.txs_in[i - 1];
                assert(pre1 + enc_list(tx@.txs_in.take(i - 1), fin) + enc_hash(tv.prev_out.hash)
                    + enc_u32(tv.prev_out.index) + enc_script(tv.sig_script) + enc_u32(tv.sequence)
                    =~= pre1 + (enc_list(tx@.txs_in.take(i - 1), fin) + fin(tv)));
            }
        }
        proof {
            assert(tx@.txs_in.take(tx@.txs_in.len() as int) =~= tx@.txs_in);
        }
        let outs = tx.get_out_txs();
        self.write_varint(outs.len() as u64);
        let ghost pre2 = pre1 + enc_list(tx@.txs_in, fin) + enc_varint(tx@.txs_out.len() as u64);
        proof {
            assert(enc_list(tx@.txs_out.take(0), fout) == Seq::<u8>::empty());
            assert(self@ =~= pre2 + enc_list(tx@.txs_out.take(0), fout));
        }
        let mut i: usize = 0;
        while i < outs.len()
            invariant
                outs@.len() == tx@.txs_out.len(),
                forall|j: int| 0 <= j < outs@.len() ==> outs@[j]@ == tx@.txs_out[j],
                i <= outs@.len(),
                self@ == pre2 + enc_list(tx@.txs_out.take(i as int), fout),
                fout == (|x: TxOutV| enc_txout(x)),
                pre2 == pre1 + enc_list(tx@.txs_in, fin) + enc_varint(tx@.txs_out.len() as u64),
            decreases outs@.len() - i,
        {
            let tout = &outs[i];
            self.write_value(tout.get_value());
            self.write_script(tout.get_script());
            i += 1;
            proof {
                lemma_enc_list_push(tx@.txs_out.take(i - 1), fout, tx@.txs_out[i - 1]);
                assert(tx@.txs_out.take(i - 1).push(tx@.txs_out[i - 1]) =~= tx@.txs_out.take(
                    i as int,
                ));
                let tv = tx@.txs_out[i - 1];
                assert(pre2 + enc_list(tx@.txs_out.take(i - 1), fout) + enc_value(tv.value)
                    + enc_script(tv.script) =~= pre2 + (enc_list(tx@.txs_out.take(i - 1), fout)
                    + fout(tv)));
            }
        }
        proof {
            assert(tx@.txs_out.take(tx@.txs_out.len() as int) =~= tx@.txs_out);
        }
        self.write_uint32(tx.get_lock().to_u32());
        proof {
            assert(self@ =~= old(self)@ + enc_transaction(tx@));
        }
    }
}


impl Unmarshalling {
    /// Read a 32-byte hash, reversing wire order into logical order.
    pub fn read_hash(&mut self) -> (r: Result<crate::hash::Hash, DecodeError>)
        requires
            old(self).wf(),
        ensures
            final(self).wf(),
            final(self).bytes() == old(self).bytes(),
            final(self).same_buffer(&*old(self)),
            match dec_hash(old(self).rest()) {
                Some((v, n)) => (r matches Ok(h) && h@ == v && h.wf() && final(self).spec_consumed() == old(self).spec_consumed() + n),
                None => r == Err::<crate::hash::Hash, DecodeError>(DecodeError) && *final(self)
                    == *old(self),
            },
    {
        proof {
            assert(self.buf@.len() == self.buf.len());
        }
        if self.buf.len() - self.pos < 32 {
            return Err(DecodeError);
        }
        let mut h: Vec<u8> = Vec::new();
        let mut i: usize = 0;
        while i < 32
            invariant
                self.pos + 32 <= self.buf@.len(),
                self.buf@.len() == self.buf.len(),
                self.pos == old(self).pos,
                self.buf@ == old(self).buf@,
                i <= 32,
                h@.len() == i,
                forall|k: int| 0 <= k < i ==> h@[k] == self.buf@[self.pos + 31 - k],
            decreases 32 - i,
        {
            h.push(self.buf[self.pos + 31 - i]);
            i += 1;
        }
        proof {
            let t = old(self).rest().take(32);
            assert(h@ =~= rev_bytes(t));
        }
        let hash = crate::hash::Hash::new(h);
        self.pos = self.pos + 32;
        Ok(hash)
    }

    /// Read a network address record, with or without its timestamp.
    pub fn read_netaddr(&mut self, with_time: bool) -> (r: Result<NetAddr, DecodeError>)
        requires
            old(self).wf(),
        ensures
            final(self).wf(),
            final(self).bytes() == old(self).bytes(),
            final(self).same_buffer(&*old(self)),
            match dec_netaddr(old(self).rest(), with_time) {
                Some((v, n)) => r == Ok::<NetAddr, DecodeError>(v) && final(self).spec_consumed()
                    == old(self).spec_consumed() + n,
                None => r == Err::<NetAddr, DecodeError>(DecodeError) && *final(self) == *old(self),
            },
    {
        proof {
            assert(self.buf@.len() == self.buf.len());
        }
        let total: usize = if with_time {
            30
        } else {
            26
        };
        if self.buf.len() - self.pos < total {
            return Err(DecodeError);
        }
        let ghost s = old(self).rest();
        let base: usize = if with_time {
            self.pos + 4
        } else {
            self.pos
        };
        let time: Option<u32> = if with_time {
            Some(
                (self.buf[self.pos] as u32) | ((self.buf[self.pos + 1] as u32) << 8) | ((
                self.buf[self.pos + 2] as u32) << 16) | ((self.buf[self.pos + 3] as u32) << 24),
            )
        } else {
            None
        };
        let services: u64 = (self.buf[base] as u64) | ((self.buf[base + 1] as u64) << 8) | ((
        self.buf[base + 2] as u64) << 16) | ((self.buf[base + 3] as u64) << 24) | ((self.buf[base
            + 4] as u64) << 32) | ((self.buf[base + 5] as u64) << 40) | ((self.buf[base + 6] as u64)
            << 48) | ((self.buf[base + 7] as u64) << 56);
        let ip0: usize = base + 8;
        let ghost rel = if with_time { 12int } else { 8int };
        let mut allz = true;
        let mut k: usize = 0;
        while k < 10
            invariant
                old(self).wf(),
                self.pos == old(self).pos,
                self.buf@ == old(self).buf@,
                self.buf@.len() == self.buf.len(),
                self.pos + total <= self.buf@.len(),
                total == netaddr_wire_len(with_time),
                ip0 == self.pos + rel,
                rel + 18 == total,
                k <= 10,
                allz <==> (forall|j: int| 0 <= j < k ==> #[trigger] self.buf@[ip0 + j] == 0),
            decreases 10 - k,
        {
            if self.buf[ip0 + k] != 0 {
                allz = false;
            }
            k += 1;
        }
        proof {
            let sub = s.subrange(rel, rel + 10);
            assert(forall|j: int| 0 <= j < 10 ==> sub[j] == self.buf@[ip0 + j]);
            if allz {
                assert forall|j: int| 0 <= j < sub.len() implies sub[j] == 0 by {
                    assert(self.buf@[ip0 + j] == 0);
                }
                assert(all_zero(sub));
            } else {
                let j = choose|j: int| 0 <= j < 10 && #[trigger] self.buf@[ip0 + j] != 0;
                assert(sub[j] != 0);
                assert(!all_zero(sub));
            }
        }
        if !allz {
            self.pos = self.pos + total;
            return Ok(NetAddr { time, services, addr: None });
        }
        if self.buf[ip0 + 10] != 0xff || self.buf[ip0 + 11] != 0xff {
            return Err(DecodeError);
        }
        let ip = IpV4::new(
            self.buf[ip0 + 12],
            self.buf[ip0 + 13],
            self.buf[ip0 + 14],
            self.buf[ip0 + 15],
        );
        let port: u16 = ((self.buf[ip0 + 16] as u16) << 8) | (self.buf[ip0 + 17] as u16);
        let addr: Option<SockAddr> = if ip.is_zero() {
            None
        } else {
            Some(SockAddr::new(ip, port))
        };
        self.pos = self.pos + total;
        Ok(NetAddr { time, services, addr })
    }

    /// Read an amount.
    pub fn read_value(&mut self) -> (r: Result<Value, DecodeError>)
        requires
            old(self).wf(),
        ensures
            final(self).wf(),
            final(self).bytes() == old(self).bytes(),
            final(self).same_buffer(&*old(self)),
            match dec_value(old(self).rest()) {
                Some((v, n)) => r == Ok::<Value, DecodeError>(v) && final(self).spec_consumed()
                    == old(self).spec_consumed() + n,
                None => r == Err::<Value, DecodeError>(DecodeError) && *final(self) == *old(self),
            },
    {
        match self.read_uint64() {
            Ok(v) => Ok(Value::Satoshi(v)),
            Err(e) => Err(e),
        }
    }

    /// Read a script blob: varint length, then that many raw bytes.
    pub fn read_script(&mut self) -> (r: Result<Script, DecodeError>)
        requires
            old(self).wf(),
        ensures
            final(self).wf(),
            final(self).bytes() == old(self).bytes(),
            final(self).same_buffer(&*old(self)),
            match dec_script(old(self).rest()) {
                Some((v, n)) => (r matches Ok(sc) && sc@ == v && final(self).spec_consumed() == old(self).spec_consumed() + n),
                None => r == Err::<Script, DecodeError>(DecodeError) && *final(self) == *old(self),
            },
    {
        proof {
            assert(self.buf@.len() == self.buf.len());
        }
        let (len64, n0) = match self.peek_varint() {
            Some(p) => p,
            None => {
                return Err(DecodeError);
            },
        };
        let rem: usize = self.buf.len() - self.pos - n0;
        if len64 > rem as u64 {
            return Err(DecodeError);
        }
        let len: usize = len64 as usize;
        let start = self.pos + n0;
        let mut raw: Vec<u8> = Vec::new();
        let mut i: usize = 0;
        while i < len
            invariant
                start + len <= self.buf@.len(),
                self.buf@.len() == self.buf.len(),
                i <= len,
                raw@ == self.buf@.skip(start as int).take(i as int),
                self.pos == old(self).pos,
                self.buf@ == old(self).buf@,
            decreases len - i,
        {
            raw.push(self.buf[start + i]);
            i += 1;
            proof {
                assert(raw@ =~= self.buf@.skip(start as int).take(i as int));
            }
        }
        self.pos = start + len;
        proof {
            let s = old(self).rest();
            assert(s.subrange(n0 as int, n0 + len as int) =~= old(self).buf@.skip(
                start as int,
            ).take(len as int));
        }
        Ok(Script::from_bytes(raw))
    }

    /// Read an inventory vector: varint count (at most 50000), then the
    /// entries.
    pub fn read_invvect(&mut self) -> (r: Result<InvVect, DecodeError>)
        requires
            old(self).wf(),
        ensures
            final(self).wf(),
            final(self).bytes() == old(self).bytes(),
            final(self).same_buffer(&*old(self)),
            match dec_invvect(old(self).rest()) {
                Some((v, n)) => (r matches Ok(iv) && iv@ == v && iv.wf() && final(self).spec_consumed() == old(self).spec_consumed() + n),
                None => r == Err::<InvVect, DecodeError>(DecodeError) && *final(self) == *old(self),
            },
    {
        proof {
            assert(self.buf@.len() == self.buf.len());
        }
        let ghost s0 = old(self).rest();
        let ghost fd = |t: Seq<u8>| dec_inventry(t);
        let start = self.pos;
        let (count, n0) = match self.peek_varint() {
            Some(p) => p,
            None => {
                return Err(DecodeError);
            },
        };
        if count > INV_VECT_MAX as u64 {
            return Err(DecodeError);
        }
        self.pos = self.pos + n0;
        let ghost slist = self.rest();
        proof {
            assert(slist =~= s0.skip(n0 as int));
        }
        let mut iv = InvVect::new();
        let mut i: u64 = 0;
        let ghost mut consumed: int = 0;
        while i < count
            invariant
                old(self).wf(),
                self.wf(),
                self.buf == old(self).buf,
                self.buf@.len() == self.buf.len(),
                start == old(self).pos,
                s0 == old(self).rest(),
                fd == (|t: Seq<u8>| dec_inventry(t)),
                dec_varint(s0) == Some((count, n0 as int)),
                count <= INV_VECT_MAX as u64,
                slist == s0.skip(n0 as int),
                i <= count,
                iv@.len() == i as int,
                iv.wf(),
                consumed >= 0,
                self.spec_consumed() == old(self).spec_consumed() + n0 + consumed,
                self.rest() == slist.skip(consumed),
                dec_list(slist, count as nat, fd) == prepend(
                    iv@,
                    consumed,
                    dec_list(self.rest(), (count - i) as nat, fd),
                ),
            decreases count - i,
        {
            let ghost rcur = self.rest();
            let ghost ivprev = iv@;
            let code = match self.read_uint32() {
                Ok(c) => c,
                Err(_) => {
                    proof {
                        assert(dec_inventry(rcur) is None);
                        assert(dec_list(rcur, (count - i) as nat, fd) is None);
                        assert(dec_invvect(s0) is None);
                    }
                    self.pos = start;
                    proof {
                        assert(*self =~= *old(self));
                    }
                    return Err(DecodeError);
                },
            };
            if code > 2 {
                proof {
                    assert(dec_inventry(rcur) is None);
                    assert(dec_list(rcur, (count - i) as nat, fd) is None);
                    assert(dec_invvect(s0) is None);
                }
                self.pos = start;
                proof {
                    assert(*self =~= *old(self));
                }
                return Err(DecodeError);
            }
            proof {
                assert(self.rest() =~= rcur.skip(4));
            }
            let h = match self.read_hash() {
                Ok(h) => h,
                Err(_) => {
                    proof {
                        assert(dec_hash(rcur.skip(4)) is None);
                        assert(dec_inventry(rcur) is None);
                        assert(dec_list(rcur, (count - i) as nat, fd) is None);
                        assert(dec_invvect(s0) is None);
                    }
                    self.pos = start;
                    proof {
                        assert(*self =~= *old(self));
                    }
                    return Err(DecodeError);
                },
            };
            let typ = if code == 0 {
                InvEntryType::Error
            } else if code == 1 {
                InvEntryType::MsgTx
            } else {
                InvEntryType::MsgBlock
            };
            let entry = InvEntry::new(typ, h);
            let ghost ev = entry@;
            iv.add(entry);
            proof {
                assert(self.rest() =~= rcur.skip(36));
                assert(fd(rcur) == Some((ev, 36int)));
                lemma_dec_list_step(rcur, (count - i) as nat, fd, ivprev, consumed, ev, 36int);
                assert(iv@ =~= ivprev.push(ev));
                consumed = consumed + 36;
                assert(self.rest() =~= slist.skip(consumed));
            }
            i += 1;
        }
        proof {
            assert(dec_list(self.rest(), 0nat, fd) == Some((Seq::<InvEntryV>::empty(), 0int)));
            assert(iv@ + Seq::<InvEntryV>::empty() =~= iv@);
            assert(dec_list(slist, count as nat, fd) == Some((iv@, consumed)));
        }
        Ok(iv)
    }

    /// Read one transaction input: previous out-point, script, sequence.
    pub fn read_txin(&mut self) -> (r: Result<TxIn, DecodeError>)
        requires
            old(self).wf(),
        ensures
            final(self).wf(),
            final(self).bytes() == old(self).bytes(),
            final(self).same_buffer(&*old(self)),
            final(self).spec_consumed() >= old(self).spec_consumed(),
            match dec_txin(old(self).rest()) {
                Some((v, n)) => (r matches Ok(t) && t@ == v && t@.prev_out.hash.len() == 32
                    && final(self).spec_consumed() == old(self).spec_consumed() + n),
                None => r == Err::<TxIn, DecodeError>(DecodeError) && *final(self) == *old(self),
            },
    {
        proof {
            reveal(dec_txin);
        }
        let ghost s = old(self).rest();
        let start = self.pos;
        let p0 = self.consumed();
        let h = match self.read_hash() {
            Ok(h) => h,
            Err(_) => {
                proof {
                    assert(dec_txin(s) is None);
                }
                return Err(DecodeError);
            },
        };
        proof {
            assert(self.rest() =~= s.skip(32));
        }
        let idx = match self.read_uint32() {
            Ok(v) => v,
            Err(_) => {
                proof {
                    assert(dec_txin(s) is None);
                }
                self.pos = start;
                proof {
                    assert(*self =~= *old(self));
                }
                return Err(DecodeError);
            },
        };
        proof {
            assert(self.rest() =~= s.skip(36));
        }
        let sc = match self.read_script() {
            Ok(sc) => sc,
            Err(_) => {
                proof {
                    assert(dec_txin(s) is None);
                }
                self.pos = start;
                proof {
                    assert(*self =~= *old(self));
                }
                return Err(DecodeError);
            },
        };
        let ghost n3 = self.spec_consumed() - p0 - 36;
        proof {
            assert(self.rest() =~= s.skip(36 + n3));
        }
        let sq = match self.read_uint32() {
            Ok(v) => v,
            Err(_) => {
                proof {
                    assert(dec_txin(s) is None);
                }
                self.pos = start;
                proof {
                    assert(*self =~= *old(self));
                }
                return Err(DecodeError);
            },
        };
        let tin = TxIn::new(OutPoint::new(h, idx), sc, sq);
        proof {
            assert(dec_txin(s) == Some((tin@, 40 + n3)));
        }
        Ok(tin)
    }

    /// Read one transaction output: amount, then script.
    pub fn read_txout(&mut self) -> (r: Result<TxOut, DecodeError>)
        requires
            old(self).wf(),
        ensures
            final(self).wf(),
            final(self).bytes() == old(self).bytes(),
            final(self).same_buffer(&*old(self)),
            final(self).spec_consumed() >= old(self).spec_consumed(),
            match dec_txout(old(self).rest()) {
                Some((v, n)) => (r matches Ok(t) && t@ == v && final(self).spec_consumed() == old(self).spec_consumed() + n),
                None => r == Err::<TxOut, DecodeError>(DecodeError) && *final(self) == *old(self),
            },
    {
        proof {
            reveal(dec_txout);
        }
        let ghost s = old(self).rest();
        let start = self.pos;
        let p0 = self.consumed();
        let v = match self.read_value() {
            Ok(v) => v,
            Err(_) => {
                proof {
                    assert(dec_txout(s) is None);
                }
                return Err(DecodeError);
            },
        };
        proof {
            assert(self.rest() =~= s.skip(8));
        }
        let sc = match self.read_script() {
            Ok(sc) => sc,
            Err(_) => {
                proof {
                    assert(dec_txout(s) is None);
                }
                self.pos = start;
                proof {
                    assert(*self =~= *old(self));
                }
                return Err(DecodeError);
            },
        };
        let ghost n2 = self.spec_consumed() - p0 - 8;
        let tout = TxOut::new(v, sc);
        proof {
            assert(dec_txout(s) == Some((tout@, 8 + n2)));
        }
        Ok(tout)
    }

    /// Read a transaction skeleton.
    #[verifier::rlimit(100)]
    pub fn read_transaction(&mut self) -> (r: Result<Transaction, DecodeError>)
        requires
            old(self).wf(),
        ensures
            final(self).wf(),
            final(self).bytes() == old(self).bytes(),
            final(self).same_buffer(&*old(self)),
            match dec_transaction(old(self).rest()) {
                Some((v, n)) => (r matches Ok(tx) && tx@ == v && tx@.wf() && final(self).spec_consumed() == old(self).spec_consumed() + n),
                None => r == Err::<Transaction, DecodeError>(DecodeError) && *final(self) == *old(self),
            },
    {
        proof {
            assert(self.buf@.len() == self.buf.len());
        }
        let ghost s0 = old(self).rest();
        let ghost fdin = fd_txin();
        let ghost fdout = fd_txout();
        let start = self.pos;
        let version = match self.read_uint32() {
            Ok(v) => v,
            Err(_) => {
                proof {
                    lemma_dec_tx_fail_version(s0);
                }
                return Err(DecodeError);
            },
        };
        let ghost a = self.spec_consumed() - start;
        proof {
            assert(self.rest() =~= s0.skip(a));
        }
        let (nin, bn) = match self.peek_varint() {
            Some(p) => p,
            None => {
                proof {
                    lemma_dec_tx_fail_nin(s0, version, a);
                }
                self.pos = start;
                proof {
                    assert(*self =~= *old(self));
                }
                return Err(DecodeError);
            },
        };
        self.pos = self.pos + bn;
        let ghost b = bn as int;
        let ghost sins = self.rest();
        proof {
            assert(sins =~= s0.skip(a + b));
        }
        let mut txs_in: Vec<TxIn> = Vec::new();
        let mut i: u64 = 0;
        let ghost mut consumed: int = 0;
        while i < nin
            invariant
                old(self).wf(),
                self.wf(),
                self.buf == old(self).buf,
                self.buf@.len() == self.buf.len(),
                start == old(self).pos,
                s0 == old(self).rest(),
                fdin == fd_txin(),
                dec_u32(s0) == Some((version, a)),
                dec_varint(s0.skip(a)) == Some((nin, b)),
                sins == s0.skip(a + b),
                i <= nin,
                txs_in@.len() == i as int,
                forall|k: int|
                    0 <= k < txs_in@.len() ==> (#[trigger] txs_in@[k]@).prev_out.hash.len() == 32,
                consumed >= 0,
                self.spec_consumed() == start + a + b + consumed,
                dec_list(sins, nin as nat, fdin) == prepend(
                    Seq::new(txs_in@.len(), |k: int| txs_in@[k]@),
                    consumed,
                    dec_list(self.rest(), (nin - i) as nat, fdin),
                ),
            decreases nin - i,
        {
            let ghost rcur = self.rest();
            let ghost ivprev = Seq::new(txs_in@.len(), |k: int| txs_in@[k]@);
            let p0 = self.consumed();
            let tin = match self.read_txin() {
                Ok(t) => t,
                Err(_) => {
                    proof {
                        assert(dec_list(rcur, (nin - i) as nat, fdin) is None);
                        assert(dec_list(sins, nin as nat, fdin) is None);
                        lemma_dec_tx_fail_ins(s0, version, a, nin, b);
                    }
                    self.pos = start;
                    proof {
                        assert(*self =~= *old(self));
                    }
                    return Err(DecodeError);
                },
            };
            let ghost ev = tin@;
            let ghost ne = self.spec_consumed() - p0;
            txs_in.push(tin);
            proof {
                assert(fdin(rcur) == Some((ev, ne)));
                assert(self.rest() =~= rcur.skip(ne));
                lemma_dec_list_step(rcur, (nin - i) as nat, fdin, ivprev, consumed, ev, ne);
                assert(Seq::new(txs_in@.len(), |k: int| txs_in@[k]@) =~= ivprev.push(ev));
                consumed = consumed + ne;
            }
            i += 1;
        }
        let ghost insv2 = Seq::new(txs_in@.len(), |k: int| txs_in@[k]@);
        let ghost c = consumed;
        proof {
            assert(dec_list(self.rest(), 0nat, fdin) == Some((Seq::<TxInV>::empty(), 0int)));
            assert(insv2 + Seq::<TxInV>::empty() =~= insv2);
            assert(dec_list(sins, nin as nat, fdin) == Some((insv2, c)));
            assert(self.rest() =~= s0.skip(a + b + c));
        }
        let (nout, dn) = match self.peek_varint() {
            Some(p) => p,
            None => {
                proof {
                    lemma_dec_tx_fail_nout(s0, version, a, nin, b, insv2, c);
                }
                self.pos = start;
                proof {
                    assert(*self =~= *old(self));
                }
                return Err(DecodeError);
            },
        };
        self.pos = self.pos + dn;
        let ghost d = dn as int;
        let ghost souts = self.rest();
        proof {
            assert(souts =~= s0.skip(a + b + c + d));
        }
        let mut txs_out: Vec<TxOut> = Vec::new();
        let mut i: u64 = 0;
        let ghost mut consumed2: int = 0;
        while i < nout
            invariant
                old(self).wf(),
                self.wf(),
                self.buf == old(self).buf,
                self.buf@.len() == self.buf.len(),
                start == old(self).pos,
                s0 == old(self).rest(),
                fdin == fd_txin(),
                fdout == fd_txout(),
                dec_u32(s0) == Some((version, a)),
                dec_varint(s0.skip(a)) == Some((nin, b)),
                dec_list(s0.skip(a + b), nin as nat, fdin) == Some((insv2, c)),
                dec_varint(s0.skip(a + b + c)) == Some((nout, d)),
                souts == s0.skip(a + b + c + d),
                i <= nout,
                txs_out@.len() == i as int,
                consumed2 >= 0,
                self.spec_consumed() == start + a + b + c + d + consumed2,
                dec_list(souts, nout as nat, fdout) == prepend(
                    Seq::new(txs_out@.len(), |k: int| txs_out@[k]@),
                    consumed2,
                    dec_list(self.rest(), (nout - i) as nat, fdout),
                ),
            decreases nout - i,
        {
            let ghost rcur = self.rest();
            let ghost ivprev = Seq::new(txs_out@.len(), |k: int| txs_out@[k]@);
            let p0 = self.consumed();
            let tout = match self.read_txout() {
                Ok(t) => t,
                Err(_) => {
                    proof {
                        assert(dec_list(rcur, (nout - i) as nat, fdout) is None);
                        assert(dec_list(souts, nout as nat, fdout) is None);
                        lemma_dec_tx_fail_outs(s0, version, a, nin, b, insv2, c, nout, d);
                    }
                    self.pos = start;
                    proof {
                        assert(*self =~= *old(self));
                    }
                    return Err(DecodeError);
                },
            };
            let ghost ev = tout@;
            let ghost ne = self.spec_consumed() - p0;
            txs_out.push(tout);
            proof {
                assert(fdout(rcur) == Some((ev, ne)));
                assert(self.rest() =~= rcur.skip(ne));
                lemma_dec_list_step(rcur, (nout - i) as nat, fdout, ivprev, consumed2, ev, ne);
                assert(Seq::new(txs_out@.len(), |k: int| txs_out@[k]@) =~= ivprev.push(ev));
                consumed2 = consumed2 + ne;
            }
            i += 1;
        }
        let ghost outsv2 = Seq::new(txs_out@.len(), |k: int| txs_out@[k]@);
        let ghost e = consumed2;
        proof {
            assert(dec_list(self.rest(), 0nat, fdout) == Some((Seq::<TxOutV>::empty(), 0int)));
            assert(outsv2 + Seq::<TxOutV>::empty() =~= outsv2);
            assert(dec_list(souts, nout as nat, fdout) == Some((outsv2, e)));
            assert(self.rest() =~= s0.skip(a + b + c + d + e));
        }
        let lockv = match self.read_uint32() {
            Ok(v) => v,
            Err(_) => {
                proof {
                    assert(dec_u32(s0.skip(a + b + c + d + e)) is None);
                    lemma_dec_tx_fail_lock(s0, version, a, nin, b, insv2, c, nout, d, outsv2, e);
                }
                self.pos = start;
                proof {
                    assert(*self =~= *old(self));
                }
                return Err(DecodeError);
            },
        };
        let lock = TxLock::from_u32(lockv);
        let tx = Transaction::new(version, txs_in, txs_out, lock);
        proof {
            lemma_dec_tx_ok(s0, version, a, nin, b, insv2, c, nout, d, outsv2, e, lockv, 4int);
            assert(tx@.txs_in =~= insv2);
            assert(tx@.txs_out =~= outsv2);
        }
        Ok(tx)
    }
}


impl Transaction {
    /// The transaction id: the double SHA-256 of the wire serialization,
    /// byte-reversed into logical (display) order.
    pub fn get_hash(&self) -> (r: crate::hash::Hash)
        requires
            self@.wf(),
        ensures
            r@ == rev_bytes(crate::crypto::dsha256_of(enc_transaction(self@))),
            r.wf(),
    {
        let mut m = Marshalling::new();
        m.write_transaction(self);
        let bytes = m.get();
        let digest = crate::crypto::dsha256(bytes.as_slice());
        let mut h: Vec<u8> = Vec::new();
        let mut i: usize = 0;
        while i < 32
            invariant
                digest@.len() == 32,
                i <= 32,
                h@.len() == i,
                forall|k: int| 0 <= k < i ==> h@[k] == digest@[31 - k],
            decreases 32 - i,
        {
            h.push(digest[31 - i]);
            i += 1;
        }
        proof {
            assert(h@ =~= rev_bytes(digest@));
        }
        crate::hash::Hash::new(h)
    }
}

// ---------------------------------------------------------------------------
// Round-trip laws: decoding the encoding of a well-formed value, in any
// byte context, gives the value back.
// ---------------------------------------------------------------------------
/// Decoding the single encoded byte of a u8 gives it back.
pub proof fn lemma_dec_enc_u8(v: u8, rest: Seq<u8>)
    ensures
        dec_u8(enc_u8(v) + rest) == Some((v, 1int)),
{
    assert((enc_u8(v) + rest)[0] == v);
}

/// Decoding the two encoded bytes of a u16 gives it back.
pub proof fn lemma_dec_enc_u16(v: u16, rest: Seq<u8>)
    ensures
        dec_u16(enc_u16(v) + rest) == Some((v, 2int)),
{
    let s = enc_u16(v) + rest;
    assert(s[0] == (v & 0xff) as u8 && s[1] == ((v >> 8) & 0xff) as u8);
    assert((((v & 0xff) as u8) as u16) | (((((v >> 8) & 0xff) as u8) as u16) << 8) == v)
        by (bit_vector);
}

/// Decoding the four encoded bytes of a u32 gives it back.
pub proof fn lemma_dec_enc_u32(v: u32, rest: Seq<u8>)
    ensures
        dec_u32(enc_u32(v) + rest) == Some((v, 4int)),
{
    let s = enc_u32(v) + rest;
    assert(s[0] == (v & 0xff) as u8 && s[1] == ((v >> 8) & 0xff) as u8 && s[2] == ((v >> 16)
        & 0xff) as u8 && s[3] == ((v >> 24) & 0xff) as u8);
    assert((((v & 0xff) as u8) as u32) | (((((v >> 8) & 0xff) as u8) as u32) << 8) | (((((v >> 16)
        & 0xff) as u8) as u32) << 16) | (((((v >> 24) & 0xff) as u8) as u32) << 24) == v)
        by (bit_vector);
}

/// Decoding the eight encoded bytes of a u64 gives it back.
pub proof fn lemma_dec_enc_u64(v: u64, rest: Seq<u8>)
    ensures
        dec_u64(enc_u64(v) + rest) == Some((v, 8int)),
{
    let s = enc_u64(v) + rest;
    assert(s[0] == (v & 0xff) as u8 && s[1] == ((v >> 8) & 0xff) as u8 && s[2] == ((v >> 16)
        & 0xff) as u8 && s[3] == ((v >> 24) & 0xff) as u8 && s[4] == ((v >> 32) & 0xff) as u8
        && s[5] == ((v >> 40) & 0xff) as u8 && s[6] == ((v >> 48) & 0xff) as u8 && s[7] == ((v
        >> 56) & 0xff) as u8);
    assert((((v & 0xff) as u8) as u64) | (((((v >> 8) & 0xff) as u8) as u64) << 8) | (((((v >> 16)
        & 0xff) as u8) as u64) << 16) | (((((v >> 24) & 0xff) as u8) as u64) << 24) | (((((v >> 32)
        & 0xff) as u8) as u64) << 32) | (((((v >> 40) & 0xff) as u8) as u64) << 40) | (((((v >> 48)
        & 0xff) as u8) as u64) << 48) | (((((v >> 56) & 0xff) as u8) as u64) << 56) == v)
        by (bit_vector);
}

/// Decoding the encoded byte of a bool gives it back.
pub proof fn lemma_dec_enc_bool(b: bool, rest: Seq<u8>)
    ensures
        dec_bool(enc_bool(b) + rest) == Some((b, 1int)),
{
    assert((enc_bool(b) + rest)[0] == if b {
        1u8
    } else {
        0u8
    });
}

/// Decoding an encoded varint gives it back, in 1, 3, 5 or 9 bytes.
pub proof fn lemma_dec_enc_varint(v: u64, rest: Seq<u8>)
    ensures
        dec_varint(enc_varint(v) + rest) == Some((v, enc_varint(v).len() as int)),
{
    let s = enc_varint(v) + rest;
    if v <= 252 {
        assert(s[0] == v as u8);
        assert((v as u8) as u64 == v) by (bit_vector)
            requires
                v <= 252,
        ;
    } else if v <= 0xffff {
        assert(s[0] == 253);
        assert(s.skip(1) =~= enc_u16(v as u16) + rest);
        lemma_dec_enc_u16(v as u16, rest);
        assert((v as u16) as u64 == v) by (bit_vector)
            requires
                v <= 0xffff,
        ;
    } else if v <= 0xffffffff {
        assert(s[0] == 254);
        assert(s.skip(1) =~= enc_u32(v as u32) + rest);
        lemma_dec_enc_u32(v as u32, rest);
        assert((v as u32) as u64 == v) by (bit_vector)
            requires
                v <= 0xffffffff,
        ;
    } else {
        assert(s[0] == 255);
        assert(s.skip(1) =~= enc_u64(v) + rest);
        lemma_dec_enc_u64(v, rest);
    }
}

/// Sanitizing a sequence of safe bytes leaves it unchanged.
pub proof fn lemma_sanitize_all_safe(s: Seq<u8>)
    requires
        all_safe(s),
    ensures
        sanitize(s) == s,
    decreases s.len(),
{
    if s.len() == 0 {
        assert(sanitize(s) =~= s);
    } else {
        assert(all_safe(s.drop_last()));
        lemma_sanitize_all_safe(s.drop_last());
        assert(is_safe_byte(s.last()));
        assert(s.drop_last() + seq![s.last()] =~= s);
    }
}

/// The prefix before the first NUL of a NUL-free sequence plus zero
/// padding is the sequence itself.
pub proof fn lemma_prefix_until_nul_pad(s: Seq<u8>, n: nat)
    requires
        forall|i: int| 0 <= i < s.len() ==> s[i] != 0,
    ensures
        prefix_until_nul(s + zero_pad(n)) == s,
    decreases s.len(),
{
    let t = s + zero_pad(n);
    if s.len() == 0 {
        if n == 0 {
            assert(t.len() == 0);
            assert(prefix_until_nul(t) =~= s);
        } else {
            assert(t[0] == 0);
            assert(prefix_until_nul(t) =~= s);
        }
    } else {
        assert(t[0] == s[0]);
        assert(t.skip(1) =~= s.skip(1) + zero_pad(n));
        lemma_prefix_until_nul_pad(s.skip(1), n);
        assert(seq![s[0]] + s.skip(1) =~= s);
    }
}

/// Decoding an encoded 12-byte command field of safe bytes gives it back.
pub proof fn lemma_dec_enc_str12(cmd: Seq<u8>, rest: Seq<u8>)
    requires
        cmd.len() <= 12,
        all_safe(cmd),
    ensures
        dec_str12(enc_str12(cmd) + rest) == Some((cmd, 12int)),
{
    let s = enc_str12(cmd) + rest;
    assert(s.len() >= 12);
    assert(s.take(12) =~= cmd + zero_pad((12 - cmd.len()) as nat));
    lemma_prefix_until_nul_pad(cmd, (12 - cmd.len()) as nat);
    lemma_sanitize_all_safe(cmd);
}

/// Decoding an encoded var-string of at most 256 safe bytes gives it back.
pub proof fn lemma_dec_enc_varstr(v: Seq<u8>, rest: Seq<u8>)
    requires
        v.len() <= VARSTR_MAX_LENGTH,
        all_safe(v),
    ensures
        dec_varstr(enc_varstr(v) + rest) == Some((v, enc_varstr(v).len() as int)),
{
    let s = enc_varstr(v) + rest;
    assert(s =~= enc_varint(v.len() as u64) + (v + rest));
    lemma_dec_enc_varint(v.len() as u64, v + rest);
    let n = enc_varint(v.len() as u64).len() as int;
    assert(s.subrange(n, n + v.len() as int) =~= v);
    lemma_sanitize_all_safe(v);
}

/// Decoding an encoded 32-byte hash gives it back.
pub proof fn lemma_dec_enc_hash(h: Seq<u8>, rest: Seq<u8>)
    requires
        h.len() == 32,
    ensures
        dec_hash(enc_hash(h) + rest) == Some((h, 32int)),
{
    let s = enc_hash(h) + rest;
    assert(s.take(32) =~= rev_bytes(h));
    assert(rev_bytes(rev_bytes(h)) =~= h);
}

/// Decoding an encoded script blob gives it back.
pub proof fn lemma_dec_enc_script(v: Seq<u8>, rest: Seq<u8>)
    requires
        v.len() <= u64::MAX,
    ensures
        dec_script(enc_script(v) + rest) == Some((v, enc_script(v).len() as int)),
{
    let s = enc_script(v) + rest;
    assert(s =~= enc_varint(v.len() as u64) + (v + rest));
    lemma_dec_enc_varint(v.len() as u64, v + rest);
    let n = enc_varint(v.len() as u64).len() as int;
    assert(s.subrange(n, n + v.len() as int) =~= v);
}

/// Decoding an encoded amount gives it back.
pub proof fn lemma_dec_enc_value(v: Value, rest: Seq<u8>)
    ensures
        dec_value(enc_value(v) + rest) == Some((v, 8int)),
{
    lemma_dec_enc_u64(v.spec_satoshi(), rest);
}

/// A network address record that can round-trip: its timestamp is present
/// exactly when one is on the wire, and its endpoint, if any, has a
/// non-zero host.
pub open spec fn netaddr_round_trippable(n: NetAddr, with_time: bool) -> bool {
    &&& (with_time <==> n.time is Some)
    &&& match n.addr {
        Some(sa) => !sa.ip.spec_is_zero(),
        None => true,
    }
}

/// Decoding an encoded network address record gives it back.
pub proof fn lemma_dec_enc_netaddr(n: NetAddr, with_time: bool, rest: Seq<u8>)
    requires
        netaddr_round_trippable(n, with_time),
    ensures
        dec_netaddr(enc_netaddr(n, with_time) + rest, with_time) == Some((n, netaddr_wire_len(with_time))),
{
    let s = enc_netaddr(n, with_time) + rest;
    let base = if with_time { 4int } else { 0int };
    let ip0 = base + 8;
    if with_time {
        let t = spec_time_or_zero(n);
        assert(s.take(4) =~= enc_u32(t).take(4));
        lemma_dec_enc_u32(t, s.skip(4));
        assert(enc_u32(t) + s.skip(4) =~= s);
        assert(le32(s[0], s[1], s[2], s[3]) == t);
    }
    let sv = n.services;
    assert(s.subrange(base, base + 8) =~= enc_u64(sv));
    lemma_dec_enc_u64(sv, s.skip(base + 8));
    assert(enc_u64(sv) + s.skip(base + 8) =~= s.skip(base));
    assert(le64(
        s[base],
        s[base + 1],
        s[base + 2],
        s[base + 3],
        s[base + 4],
        s[base + 5],
        s[base + 6],
        s[base + 7],
    ) == sv) by {
        assert(s.skip(base)[0] == s[base]);
        assert(s.skip(base)[1] == s[base + 1]);
        assert(s.skip(base)[2] == s[base + 2]);
        assert(s.skip(base)[3] == s[base + 3]);
        assert(s.skip(base)[4] == s[base + 4]);
        assert(s.skip(base)[5] == s[base + 5]);
        assert(s.skip(base)[6] == s[base + 6]);
        assert(s.skip(base)[7] == s[base + 7]);
    }
    assert(all_zero(s.subrange(ip0, ip0 + 10))) by {
        assert(forall|j: int| 0 <= j < 10 ==> #[trigger] s.subrange(ip0, ip0 + 10)[j] == 0);
    }
    assert(s[ip0 + 10] == 0xff && s[ip0 + 11] == 0xff);
    match n.addr {
        Some(sa) => {
            assert(s[ip0 + 12] == sa.ip.a && s[ip0 + 13] == sa.ip.b && s[ip0 + 14] == sa.ip.c
                && s[ip0 + 15] == sa.ip.d);
            assert(s[ip0 + 16] == (sa.port >> 8) as u8 && s[ip0 + 17] == (sa.port & 0xff) as u8);
            let p = sa.port;
            assert(((((p >> 8) as u8) as u16) << 8) | (((p & 0xff) as u8) as u16) == p)
                by (bit_vector);
        },
        None => {
            assert(s[ip0 + 12] == 0 && s[ip0 + 13] == 0 && s[ip0 + 14] == 0 && s[ip0 + 15] == 0);
        },
    }
}

/// Decoding an encoded inventory entry with a well-formed hash gives it
/// back.
pub proof fn lemma_dec_enc_inventry(e: InvEntryV, rest: Seq<u8>)
    requires
        e.hash.len() == 32,
    ensures
        dec_inventry(enc_inventry(e) + rest) == Some((e, 36int)),
{
    let s = enc_inventry(e) + rest;
    let code = spec_entry_type_code(e.typ);
    assert(s =~= enc_u32(code) + (enc_hash(e.hash) + rest));
    lemma_dec_enc_u32(code, enc_hash(e.hash) + rest);
    assert(s.skip(4) =~= enc_hash(e.hash) + rest);
    lemma_dec_enc_hash(e.hash, rest);
}

/// Decoding an encoded inventory vector of well-formed entries gives it
/// back.
pub proof fn lemma_dec_enc_invvect(es: Seq<InvEntryV>, rest: Seq<u8>)
    requires
        es.len() <= INV_VECT_MAX,
        forall|i: int| 0 <= i < es.len() ==> (#[trigger] es[i]).hash.len() == 32,
    ensures
        dec_invvect(enc_invvect(es) + rest) == Some((es, enc_invvect(es).len() as int)),
{
    let fe = |e: InvEntryV| enc_inventry(e);
    let fd = |t: Seq<u8>| dec_inventry(t);
    let s = enc_invvect(es) + rest;
    let body = enc_list(es, fe);
    assert(s =~= enc_varint(es.len() as u64) + (body + rest));
    lemma_dec_enc_varint(es.len() as u64, body + rest);
    let n = enc_varint(es.len() as u64).len() as int;
    assert(s.skip(n) =~= body + rest);
    assert(forall|e: InvEntryV, r: Seq<u8>|
        #![trigger fd(fe(e) + r)]
        es.contains(e) ==> fd(fe(e) + r) == Some((e, fe(e).len() as int))) by {
        assert forall|e: InvEntryV, r: Seq<u8>|
            #![trigger fd(fe(e) + r)]
            es.contains(e) implies fd(fe(e) + r) == Some((e, fe(e).len() as int)) by {
            lemma_dec_enc_inventry(e, r);
            assert(fe(e).len() == 36);
        }
    }
    lemma_dec_enc_list(es, fe, fd, rest);
}

/// Decoding an encoded transaction input with a well-formed hash gives it
/// back.
pub proof fn lemma_dec_enc_txin(t: TxInV, rest: Seq<u8>)
    requires
        t.prev_out.hash.len() == 32,
        t.sig_script.len() <= u64::MAX,
    ensures
        dec_txin(enc_txin(t) + rest) == Some((t, enc_txin(t).len() as int)),
{
    reveal(dec_txin);
    let s = enc_txin(t) + rest;
    let r1 = enc_u32(t.prev_out.index) + (enc_script(t.sig_script) + (enc_u32(t.sequence) + rest));
    assert(s =~= enc_hash(t.prev_out.hash) + r1);
    lemma_dec_enc_hash(t.prev_out.hash, r1);
    assert(s.skip(32) =~= r1);
    let r2 = enc_script(t.sig_script) + (enc_u32(t.sequence) + rest);
    lemma_dec_enc_u32(t.prev_out.index, r2);
    assert(s.skip(36) =~= r2);
    let r3 = enc_u32(t.sequence) + rest;
    lemma_dec_enc_script(t.sig_script, r3);
    let n3 = enc_script(t.sig_script).len() as int;
    assert(s.skip(36 + n3) =~= r3);
    lemma_dec_enc_u32(t.sequence, rest);
}

/// Decoding an encoded transaction output gives it back.
pub proof fn lemma_dec_enc_txout(t: TxOutV, rest: Seq<u8>)
    requires
        t.script.len() <= u64::MAX,
    ensures
        dec_txout(enc_txout(t) + rest) == Some((t, enc_txout(t).len() as int)),
{
    reveal(dec_txout);
    let s = enc_txout(t) + rest;
    let r1 = enc_script(t.script) + rest;
    assert(s =~= enc_value(t.value) + r1);
    lemma_dec_enc_value(t.value, r1);
    assert(s.skip(8) =~= r1);
    lemma_dec_enc_script(t.script, rest);
}


/// Every well-formed input round-trips in any byte context.
pub proof fn lemma_txins_round_trip_all(ins: Seq<TxInV>)
    requires
        forall|i: int| 0 <= i < ins.len() ==> (#[trigger] ins[i]).prev_out.hash.len() == 32,
        forall|i: int| 0 <= i < ins.len() ==> (#[trigger] ins[i]).sig_script.len() <= u64::MAX,
    ensures
        forall|e: TxInV, r: Seq<u8>|
            #![trigger fd_txin()(fe_txin()(e) + r)]
            ins.contains(e) ==> fd_txin()(fe_txin()(e) + r) == Some(
                (e, fe_txin()(e).len() as int),
            ),
{
    let fein = fe_txin();
    assert forall|e: TxInV, r: Seq<u8>|
        #![trigger fd_txin()(fein(e) + r)]
        ins.contains(e) implies fd_txin()(fein(e) + r) == Some((e, fein(e).len() as int)) by {
        lemma_dec_enc_txin(e, r);
    }
}

/// Every output with a bounded script round-trips in any byte context.
pub proof fn lemma_txouts_round_trip_all(outs: Seq<TxOutV>)
    requires
        forall|i: int| 0 <= i < outs.len() ==> (#[trigger] outs[i]).script.len() <= u64::MAX,
    ensures
        forall|e: TxOutV, r: Seq<u8>|
            #![trigger fd_txout()(fe_txout()(e) + r)]
            outs.contains(e) ==> fd_txout()(fe_txout()(e) + r) == Some(
                (e, fe_txout()(e).len() as int),
            ),
{
    let feout = fe_txout();
    assert forall|e: TxOutV, r: Seq<u8>|
        #![trigger fd_txout()(feout(e) + r)]
        outs.contains(e) implies fd_txout()(feout(e) + r) == Some((e, feout(e).len() as int)) by {
        lemma_dec_enc_txout(e, r);
    }
}

/// A transaction whose encoding can round-trip: hashes are well-formed,
/// the lock's payload is in range, and the list and script sizes fit.
pub open spec fn tx_round_trippable(t: TransactionV) -> bool {
    &&& t.wf()
    &&& t.lock.wf()
    &&& t.txs_in.len() <= u64::MAX
    &&& t.txs_out.len() <= u64::MAX
    &&& forall|i: int| 0 <= i < t.txs_in.len() ==> (#[trigger] t.txs_in[i]).sig_script.len()
        <= u64::MAX
    &&& forall|i: int| 0 <= i < t.txs_out.len() ==> (#[trigger] t.txs_out[i]).script.len()
        <= u64::MAX
}

/// The first half of a transaction round trip: version, input count and
/// the inputs decode from the encoding, in any byte context.
#[verifier::rlimit(100)]
pub proof fn lemma_dec_enc_tx_head(t: TransactionV, rest: Seq<u8>)
    requires
        tx_round_trippable(t),
    ensures
        ({
            let s = enc_transaction(t) + rest;
            let b = enc_varint(t.txs_in.len() as u64).len() as int;
            let c = enc_list(t.txs_in, fe_txin()).len() as int;
            &&& dec_u32(s) == Some((t.version, 4int))
            &&& dec_varint(s.skip(4)) == Some((t.txs_in.len() as u64, b))
            &&& dec_list(s.skip(4 + b), t.txs_in.len(), fd_txin()) == Some((t.txs_in, c))
        }),
{
    let fein = fe_txin();
    let feout = fe_txout();
    let s = enc_transaction(t) + rest;
    let ebody_in = enc_list(t.txs_in, fein);
    let ebody_out = enc_list(t.txs_out, feout);
    let r1 = enc_varint(t.txs_in.len() as u64) + (ebody_in + (enc_varint(t.txs_out.len() as u64)
        + (ebody_out + (enc_u32(t.lock.spec_to_u32()) + rest))));
    assert(s =~= enc_u32(t.version) + r1);
    lemma_dec_enc_u32(t.version, r1);
    let r2 = ebody_in + (enc_varint(t.txs_out.len() as u64) + (ebody_out + (enc_u32(
        t.lock.spec_to_u32(),
    ) + rest)));
    lemma_dec_enc_varint(t.txs_in.len() as u64, r2);
    let b = enc_varint(t.txs_in.len() as u64).len() as int;
    assert(s.skip(4) =~= r1);
    assert(s.skip(4 + b) =~= r2);
    let r3 = enc_varint(t.txs_out.len() as u64) + (ebody_out + (enc_u32(t.lock.spec_to_u32())
        + rest));
    assert(r2 =~= ebody_in + r3);
    lemma_txins_round_trip_all(t.txs_in);
    lemma_dec_enc_list(t.txs_in, fein, fd_txin(), r3);
}

/// The second half of a transaction round trip: output count, outputs and
/// the lock decode from the encoding, after the inputs.
#[verifier::rlimit(100)]
pub proof fn lemma_dec_enc_tx_tail(t: TransactionV, rest: Seq<u8>)
    requires
        tx_round_trippable(t),
    ensures
        ({
            let s = enc_transaction(t) + rest;
            let b = enc_varint(t.txs_in.len() as u64).len() as int;
            let c = enc_list(t.txs_in, fe_txin()).len() as int;
            let d = enc_varint(t.txs_out.len() as u64).len() as int;
            let e = enc_list(t.txs_out, fe_txout()).len() as int;
            &&& dec_varint(s.skip(4 + b + c)) == Some((t.txs_out.len() as u64, d))
            &&& dec_list(s.skip(4 + b + c + d), t.txs_out.len(), fd_txout()) == Some(
                (t.txs_out, e),
            )
            &&& dec_u32(s.skip(4 + b + c + d + e)) == Some((t.lock.spec_to_u32(), 4int))
        }),
{
    let fein = fe_txin();
    let feout = fe_txout();
    let s = enc_transaction(t) + rest;
    let ebody_in = enc_list(t.txs_in, fein);
    let ebody_out = enc_list(t.txs_out, feout);
    let b = enc_varint(t.txs_in.len() as u64).len() as int;
    let c = ebody_in.len() as int;
    let r4 = ebody_out + (enc_u32(t.lock.spec_to_u32()) + rest);
    let r3 = enc_varint(t.txs_out.len() as u64) + r4;
    assert(s.skip(4 + b + c) =~= r3);
    lemma_dec_enc_varint(t.txs_out.len() as u64, r4);
    let d = enc_varint(t.txs_out.len() as u64).len() as int;
    assert(s.skip(4 + b + c + d) =~= r4);
    let r5 = enc_u32(t.lock.spec_to_u32()) + rest;
    lemma_txouts_round_trip_all(t.txs_out);
    lemma_dec_enc_list(t.txs_out, feout, fd_txout(), r5);
    let e = ebody_out.len() as int;
    assert(s.skip(4 + b + c + d + e) =~= r5);
    lemma_dec_enc_u32(t.lock.spec_to_u32(), rest);
}

/// Decoding an encoded well-formed transaction gives it back.
#[verifier::rlimit(100)]
pub proof fn lemma_dec_enc_transaction(t: TransactionV, rest: Seq<u8>)
    requires
        tx_round_trippable(t),
    ensures
        dec_transaction(enc_transaction(t) + rest) == Some((t, enc_transaction(t).len() as int)),
{
    let s = enc_transaction(t) + rest;
    let b = enc_varint(t.txs_in.len() as u64).len() as int;
    let c = enc_list(t.txs_in, fe_txin()).len() as int;
    let d = enc_varint(t.txs_out.len() as u64).len() as int;
    let e = enc_list(t.txs_out, fe_txout()).len() as int;
    lemma_dec_enc_tx_head(t, rest);
    lemma_dec_enc_tx_tail(t, rest);
    TxLock::lemma_round_trip(t.lock);
    lemma_dec_tx_ok(
        s,
        t.version,
        4int,
        t.txs_in.len() as u64,
        b,
        t.txs_in,
        c,
        t.txs_out.len() as u64,
        d,
        t.txs_out,
        e,
        t.lock.spec_to_u32(),
        4int,
    );
    assert(enc_transaction(t).len() == 4 + b + c + d + e + 4);
}


/// Sanitizing yields only bytes of the safe alphabet.
pub proof fn lemma_sanitize_safe(s: Seq<u8>)
    ensures
        all_safe(sanitize(s)),
    decreases s.len(),
{
    if s.len() == 0 {
    } else {
        lemma_sanitize_safe(s.drop_last());
        let p = sanitize(s.drop_last());
        let t = if is_safe_byte(s.last()) {
            seq![s.last()]
        } else {
            Seq::<u8>::empty()
        };
        assert forall|i: int| 0 <= i < (p + t).len() implies is_safe_byte((p + t)[i]) by {
            if i < p.len() {
                assert((p + t)[i] == p[i]);
            } else {
                assert((p + t)[i] == t[i - p.len()]);
            }
        }
    }
}

/// Sanitizing never lengthens a sequence.
pub proof fn lemma_sanitize_len(s: Seq<u8>)
    ensures
        sanitize(s).len() <= s.len(),
    decreases s.len(),
{
    if s.len() == 0 {
    } else {
        lemma_sanitize_len(s.drop_last());
    }
}

/// The prefix before the first NUL never lengthens a sequence.
pub proof fn lemma_prefix_until_nul_len(s: Seq<u8>)
    ensures
        prefix_until_nul(s).len() <= s.len(),
    decreases s.len(),
{
    if s.len() == 0 || s[0] == 0 {
    } else {
        lemma_prefix_until_nul_len(s.skip(1));
    }
}


/// The image of a list whose element images are bounded is itself
/// bounded, by the element bound times the count.
pub proof fn lemma_enc_list_len_bound<T>(es: Seq<T>, fe: spec_fn(T) -> Seq<u8>, bound: int)
    requires
        bound >= 0,
        forall|i: int| 0 <= i < es.len() ==> (#[trigger] fe(es[i])).len() <= bound,
    ensures
        enc_list(es, fe).len() <= bound * es.len(),
    decreases es.len(),
{
    if es.len() == 0 {
    } else {
        assert(forall|i: int|
            0 <= i < es.skip(1).len() ==> (#[trigger] fe(es.skip(1)[i])).len() <= bound) by {
            assert(forall|i: int| 0 <= i < es.skip(1).len() ==> es.skip(1)[i] == es[i + 1]);
        }
        lemma_enc_list_len_bound(es.skip(1), fe, bound);
        assert(fe(es[0]).len() <= bound);
        assert(bound + bound * (es.len() - 1) == bound * es.len()) by (nonlinear_arith);
    }
}

} // verus!
