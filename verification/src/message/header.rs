//! The fixed 24-byte message header: network magic, padded command name,
//! payload length and payload checksum.

use vstd::prelude::*;

use crate::marshalling::Marshalling;
use crate::marshalling::Unmarshalling;
use crate::marshalling::DecodeError;
use crate::marshalling::all_safe;
use crate::marshalling::sanitize;
use crate::marshalling::prefix_until_nul;
use crate::marshalling::enc_u32;
use crate::marshalling::enc_str12;
use crate::marshalling::dec_u32;
use crate::marshalling::dec_str12;
use crate::marshalling::le32;
use crate::marshalling::lemma_dec_enc_u32;
use crate::marshalling::lemma_dec_enc_str12;

verus! {

/// The wire size of a message header.
pub const HEADER_SIZE: usize = 24;

/// A message header.
#[derive(Debug)]
pub struct Header {
    network: u32,
    command: Vec<u8>,
    len: u32,
    checksum: u32,
}

/// The mathematical value of a header.
pub struct HeaderV {
    pub network: u32,
    pub command: Seq<u8>,
    pub len: u32,
    pub checksum: u32,
}

impl View for Header {
    type V = HeaderV;

    closed spec fn view(&self) -> HeaderV {
        HeaderV {
            network: self.network,
            command: self.command@,
            len: self.len,
            checksum: self.checksum,
        }
    }
}

/// The wire image of a header.
pub open spec fn enc_header(h: HeaderV) -> Seq<u8> {
    enc_u32(h.network) + enc_str12(h.command) + enc_u32(h.len) + enc_u32(h.checksum)
}

/// Decode a header: magic, sanitized command, length, checksum.
pub open spec fn dec_header(s: Seq<u8>) -> Option<(HeaderV, int)> {
    if s.len() < 24 {
        None
    } else {
        let network = le32(s[0], s[1], s[2], s[3]);
        let command = sanitize(prefix_until_nul(s.subrange(4, 16)));
        let len = le32(s[16], s[17], s[18], s[19]);
        let checksum = le32(s[20], s[21], s[22], s[23]);
        Some((HeaderV { network, command, len, checksum }, 24int))
    }
}

impl Header {
    /// The command is a sanitized name of at most 12 bytes.
    pub open spec fn wf(&self) -> bool {
        self@.command.len() <= 12 && all_safe(self@.command)
    }

    /// Build a header from its four fields.
    pub fn new(network: u32, command: Vec<u8>, len: u32, checksum: u32) -> (r: Header)
        requires
            command@.len() <= 12,
            all_safe(command@),
        ensures
            r@ == (HeaderV { network, command: command@, len, checksum }),
            r.wf(),
    {
        Header { network, command, len, checksum }
    }

    /// The payload checksum field.
    pub fn get_checksum(&self) -> (r: u32)
        ensures
            r == self@.checksum,
    {
        self.checksum
    }

    /// The command name.
    pub fn get_command(&self) -> (r: &Vec<u8>)
        ensures
            r@ == self@.command,
    {
        &self.command
    }

    /// The payload length in bytes.
    pub fn get_payload_size(&self) -> (r: usize)
        ensures
            r == self@.len as usize,
    {
        self.len as usize
    }

    /// The network magic field.
    pub fn get_network(&self) -> (r: u32)
        ensures
            r == self@.network,
    {
        self.network
    }

    /// Encode the header to its 24 wire bytes.
    pub fn serialize(&self) -> (r: Vec<u8>)
        requires
            self.wf(),
        ensures
            r@ == enc_header(self@),
            r@.len() == 24,
    {
        let mut m = Marshalling::new();
        m.write_uint32(self.network);
        m.write_str12(&self.command);
        m.write_uint32(self.len);
        m.write_uint32(self.checksum);
        proof {
            assert(m@ =~= enc_header(self@));
        }
        m.get()
    }

    /// Decode a header from the first 24 bytes of `data`.
    pub fn unserialize(data: &Vec<u8>) -> (r: Result<Header, DecodeError>)
        ensures
            match dec_header(data@) {
                Some((v, n)) => r matches Ok(h) && h@ == v && h.wf(),
                None => r == Err::<Header, DecodeError>(DecodeError),
            },
    {
        let mut u = Unmarshalling::new(data);
        let network = match u.read_uint32() {
            Ok(v) => v,
            Err(e) => {
                return Err(e);
            },
        };
        proof {
            assert(u.rest() =~= data@.skip(4));
        }
        let command = match u.read_str12() {
            Ok(v) => v,
            Err(e) => {
                return Err(e);
            },
        };
        proof {
            assert(u.rest() =~= data@.skip(16));
            assert(data@.skip(4).take(12) =~= data@.subrange(4, 16));
        }
        let len = match u.read_uint32() {
            Ok(v) => v,
            Err(e) => {
                return Err(e);
            },
        };
        proof {
            assert(u.rest() =~= data@.skip(20));
        }
        let checksum = match u.read_uint32() {
            Ok(v) => v,
            Err(e) => {
                return Err(e);
            },
        };
        proof {
            assert(all_safe(command@)) by {
                crate::marshalling::lemma_sanitize_safe(prefix_until_nul(data@.subrange(4, 16)));
            }
            assert(command@.len() <= 12) by {
                crate::marshalling::lemma_sanitize_len(prefix_until_nul(data@.subrange(4, 16)));
                crate::marshalling::lemma_prefix_until_nul_len(data@.subrange(4, 16));
            }
        }
        Ok(Header { network, command, len, checksum })
    }

    /// Decoding an encoded well-formed header gives it back.
    pub proof fn lemma_round_trip(h: HeaderV, rest: Seq<u8>)
        requires
            h.command.len() <= 12,
            all_safe(h.command),
        ensures
            dec_header(enc_header(h) + rest) == Some((h, 24int)),
    {
        let s = enc_header(h) + rest;
        let r1 = enc_str12(h.command) + (enc_u32(h.len) + (enc_u32(h.checksum) + rest));
        assert(s =~= enc_u32(h.network) + r1);
        lemma_dec_enc_u32(h.network, r1);
        assert(le32(s[0], s[1], s[2], s[3]) == h.network);
        let r2 = enc_u32(h.len) + (enc_u32(h.checksum) + rest);
        lemma_dec_enc_str12(h.command, r2);
        assert(s.skip(4) =~= enc_str12(h.command) + r2);
        assert(s.subrange(4, 16) =~= (enc_str12(h.command) + r2).take(12));
        assert(dec_str12(s.skip(4)) == Some((h.command, 12int)));
        assert(sanitize(prefix_until_nul(s.subrange(4, 16))) == h.command);
        let r3 = enc_u32(h.checksum) + rest;
        lemma_dec_enc_u32(h.len, r3);
        assert(s.skip(16) =~= enc_u32(h.len) + r3);
        assert(le32(s[16], s[17], s[18], s[19]) == h.len) by {
            assert(s.skip(16)[0] == s[16]);
            assert(s.skip(16)[1] == s[17]);
            assert(s.skip(16)[2] == s[18]);
            assert(s.skip(16)[3] == s[19]);
        }
        lemma_dec_enc_u32(h.checksum, rest);
        assert(s.skip(20) =~= enc_u32(h.checksum) + rest);
        assert(le32(s[20], s[21], s[22], s[23]) == h.checksum) by {
            assert(s.skip(20)[0] == s[20]);
            assert(s.skip(20)[1] == s[21]);
            assert(s.skip(20)[2] == s[22]);
            assert(s.skip(20)[3] == s[23]);
        }
    }
}

} // verus!
