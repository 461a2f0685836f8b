//! The framing buffer: bytes fed from the socket accumulate here until
//! they hold one complete message, which is then checked and decoded.
//! After a processed message the consumed bytes leave the buffer; an
//! unknown command clears it whole.

use vstd::prelude::*;

use crate::message::Message;
use crate::message::MessageV;
use crate::message::msg_wf;
use crate::message::bytes_eq;
use crate::message::spec_cmd_version;
use crate::message::spec_cmd_verack;
use crate::message::spec_cmd_ping;
use crate::message::spec_cmd_pong;
use crate::message::spec_cmd_addr;
use crate::message::spec_cmd_inv;
use crate::message::spec_cmd_getdata;
use crate::message::spec_cmd_reject;
use crate::message::spec_cmd_tx;
use crate::message::spec_cmd_getaddr;
use crate::message::cmd_version;
use crate::message::cmd_verack;
use crate::message::cmd_ping;
use crate::message::cmd_pong;
use crate::message::cmd_addr;
use crate::message::cmd_inv;
use crate::message::cmd_getdata;
use crate::message::cmd_reject;
use crate::message::cmd_tx;
use crate::message::cmd_getaddr;
use crate::message::header::Header;
use crate::message::header::HeaderV;
use crate::message::header::HEADER_SIZE;
use crate::message::header::dec_header;
use crate::message::version::Version;
use crate::message::version::dec_version_payload;
use crate::message::verack::VerAck;
use crate::message::ping::Ping;
use crate::message::ping::dec_ping_payload;
use crate::message::pong::Pong;
use crate::message::pong::dec_pong_payload;
use crate::message::addr::Addr;
use crate::message::addr::dec_addr_payload;
use crate::message::inv::Inv;
use crate::message::getdata::GetData;
use crate::message::reject::Reject;
use crate::message::reject::dec_reject_payload;
use crate::message::tx::Tx;
use crate::message::getaddr::GetAddr;
use crate::marshalling::dec_invvect;
use crate::marshalling::dec_transaction;
use crate::crypto::checksum_of;
use crate::peer::PeerError;

verus! {

/// The largest payload a message may carry: 4 MiB.
pub const PAYLOAD_MAX_SIZE: usize = 4194304;

/// Milliseconds one socket read may take before the caller runs its
/// periodic work.
pub const TIMEOUT_READ_MS: u64 = 500;

/// The header the buffer starts with (meaningful once 24 bytes are in).
pub open spec fn header_val(buf: Seq<u8>) -> HeaderV {
    match dec_header(buf) {
        Some((h, n)) => h,
        None => HeaderV { network: 0, command: Seq::empty(), len: 0, checksum: 0 },
    }
}

/// The payload the buffer holds after the header.
pub open spec fn payload_val(buf: Seq<u8>) -> Seq<u8> {
    buf.subrange(24, 24 + header_val(buf).len as int)
}

/// Whether the buffer holds a whole message: a header, an admissible
/// payload length, and that many payload bytes.
pub open spec fn buf_complete(buf: Seq<u8>) -> bool {
    buf.len() >= 24 && header_val(buf).len as int <= PAYLOAD_MAX_SIZE as int && buf.len() >= 24
        + header_val(buf).len as int
}

/// Whether a command names one of the ten recognized messages.
pub open spec fn known_command(cmd: Seq<u8>) -> bool {
    ||| cmd == spec_cmd_version()
    ||| cmd == spec_cmd_verack()
    ||| cmd == spec_cmd_ping()
    ||| cmd == spec_cmd_pong()
    ||| cmd == spec_cmd_addr()
    ||| cmd == spec_cmd_inv()
    ||| cmd == spec_cmd_getdata()
    ||| cmd == spec_cmd_reject()
    ||| cmd == spec_cmd_tx()
    ||| cmd == spec_cmd_getaddr()
}

/// The message a recognized command's payload decodes to, if it does.
pub open spec fn dec_payload_msg(cmd: Seq<u8>, payload: Seq<u8>) -> Option<MessageV> {
    if cmd == spec_cmd_version() {
        match dec_version_payload(payload, payload.len() as int) {
            Some(v) => Some(MessageV::Version(v)),
            None => None,
        }
    } else if cmd == spec_cmd_verack() {
        Some(MessageV::VerAck)
    } else if cmd == spec_cmd_ping() {
        match dec_ping_payload(payload) {
            Some(n) => Some(MessageV::Ping(n)),
            None => None,
        }
    } else if cmd == spec_cmd_pong() {
        match dec_pong_payload(payload) {
            Some(n) => Some(MessageV::Pong(n)),
            None => None,
        }
    } else if cmd == spec_cmd_addr() {
        match dec_addr_payload(payload) {
            Some(v) => Some(MessageV::Addr(v)),
            None => None,
        }
    } else if cmd == spec_cmd_inv() {
        match dec_invvect(payload) {
            Some((v, n)) => Some(MessageV::Inv(v)),
            None => None,
        }
    } else if cmd == spec_cmd_getdata() {
        match dec_invvect(payload) {
            Some((v, n)) => Some(MessageV::GetData(v)),
            None => None,
        }
    } else if cmd == spec_cmd_reject() {
        match dec_reject_payload(payload) {
            Some(v) => Some(MessageV::Reject(v)),
            None => None,
        }
    } else if cmd == spec_cmd_tx() {
        match dec_transaction(payload) {
            Some((v, n)) => Some(MessageV::Tx(v)),
            None => None,
        }
    } else if cmd == spec_cmd_getaddr() {
        Some(MessageV::GetAddr)
    } else {
        None
    }
}

/// The framing law: a buffer holding the wire image of any payload reads
/// back exactly the frame's parts — the configured magic, the command,
/// the payload's length, the first four bytes of the payload's double
/// SHA-256 as the checksum, and the payload itself.
pub proof fn lemma_wire_frames(cmd: Seq<u8>, payload: Seq<u8>)
    requires
        cmd.len() <= 12,
        crate::marshalling::all_safe(cmd),
        payload.len() <= u32::MAX,
    ensures
        ({
            let w = crate::message::wire_of(cmd, payload);
            &&& w.len() == 24 + payload.len()
            &&& buf_complete(w) <==> payload.len() <= PAYLOAD_MAX_SIZE as int
            &&& header_val(w).network == crate::config::NETWORK
            &&& header_val(w).command == cmd
            &&& header_val(w).len == payload.len() as u32
            &&& header_val(w).checksum == checksum_of(payload)
            &&& payload_val(w) == payload
        }),
{
    let w = crate::message::wire_of(cmd, payload);
    let h = HeaderV {
        network: crate::config::NETWORK,
        command: cmd,
        len: payload.len() as u32,
        checksum: checksum_of(payload),
    };
    assert(w =~= crate::message::header::enc_header(h) + payload);
    Header::lemma_round_trip(h, payload);
    assert(dec_header(w) == Some((h, 24int)));
    assert(payload_val(w) =~= payload);
}

/// The framing buffer.
#[derive(Debug)]
pub struct MsgBuffer {
    buf: Vec<u8>,
}

impl View for MsgBuffer {
    type V = Seq<u8>;

    closed spec fn view(&self) -> Seq<u8> {
        self.buf@
    }
}

impl MsgBuffer {
    /// An empty buffer.
    pub fn new() -> (r: MsgBuffer)
        ensures
            r@ =~= Seq::<u8>::empty(),
    {
        MsgBuffer { buf: Vec::new() }
    }

    /// How many bytes wait in the buffer.
    pub fn len(&self) -> (r: usize)
        ensures
            r == self@.len(),
    {
        self.buf.len()
    }

    /// Append bytes read from the socket; the buffer stays within one
    /// header plus the largest payload.
    pub fn feed(&mut self, data: &[u8])
        requires
            old(self)@.len() + data@.len() <= HEADER_SIZE + PAYLOAD_MAX_SIZE,
        ensures
            final(self)@ == old(self)@ + data@,
    {
        let mut i: usize = 0;
        proof {
            assert(self.buf@.len() == self.buf.len());
        }
        while i < data.len()
            invariant
                i <= data@.len(),
                self.buf@ == old(self).buf@ + data@.take(i as int),
            decreases data@.len() - i,
        {
            self.buf.push(data[i]);
            i += 1;
            proof {
                assert(old(self).buf@ + data@.take(i - 1) + seq![data@[i - 1]] =~= old(self).buf@
                    + data@.take(i as int));
            }
        }
        proof {
            assert(old(self).buf@ + data@.take(data@.len() as int) =~= old(self).buf@ + data@);
        }
    }

    /// Discard the first `n` bytes.
    fn drop(&mut self, n: usize)
        requires
            n <= old(self)@.len(),
        ensures
            final(self)@ == old(self)@.skip(n as int),
    {
        proof {
            assert(self.buf@.len() == self.buf.len());
        }
        let mut nb: Vec<u8> = Vec::new();
        let mut i: usize = n;
        while i < self.buf.len()
            invariant
                n <= i <= self.buf@.len(),
                self.buf@.len() == self.buf.len(),
                self.buf == old(self).buf,
                nb@ == self.buf@.subrange(n as int, i as int),
            decreases self.buf@.len() - i,
        {
            nb.push(self.buf[i]);
            i += 1;
            proof {
                assert(nb@ =~= self.buf@.subrange(n as int, i as int));
            }
        }
        proof {
            assert(nb@ =~= self.buf@.skip(n as int));
        }
        self.buf = nb;
    }

    /// Drop everything.
    fn clear(&mut self)
        ensures
            final(self)@ =~= Seq::<u8>::empty(),
    {
        self.buf.clear();
    }

    /// Process the buffered bytes into one message, if they hold one:
    /// a complete frame has its checksum and network magic checked and
    /// its payload decoded by command; the consumed bytes leave the
    /// buffer, and an unknown command clears it whole. Too few bytes ask
    /// the caller to read more.
    #[verifier::rlimit(100)]
    pub fn read_message(&mut self) -> (r: Result<Message, PeerError>)
        ensures
            ({
                let buf0 = old(self)@;
                let h = header_val(buf0);
                let plen = h.len as int;
                let pl = payload_val(buf0);
                &&& buf0.len() < 24 ==> r == Err::<Message, PeerError>(PeerError::ReadIncomplete)
                    && final(self)@ == buf0
                &&& buf0.len() >= 24 && plen > PAYLOAD_MAX_SIZE as int ==> r == Err::<
                    Message,
                    PeerError,
                >(PeerError::ReadMsgPayloadTooBig) && final(self)@ == buf0
                &&& buf0.len() >= 24 && plen <= PAYLOAD_MAX_SIZE as int && buf0.len() < 24 + plen
                    ==> r == Err::<Message, PeerError>(PeerError::ReadIncomplete) && final(self)@
                    == buf0
                &&& buf_complete(buf0) && checksum_of(pl) != h.checksum ==> r == Err::<
                    Message,
                    PeerError,
                >(PeerError::ReadMsgInvalidChecksum) && final(self)@ == buf0.skip(24 + plen)
                &&& buf_complete(buf0) && checksum_of(pl) == h.checksum && h.network
                    != crate::config::NETWORK ==> r == Err::<Message, PeerError>(
                    PeerError::ReadMsgWrongNetwork,
                ) && final(self)@ == buf0.skip(24 + plen)
                &&& buf_complete(buf0) && checksum_of(pl) == h.checksum && h.network
                    == crate::config::NETWORK && !known_command(h.command) ==> r == Err::<
                    Message,
                    PeerError,
                >(PeerError::ReadMsgUnknownCommand) && final(self)@ == Seq::<u8>::empty()
                &&& buf_complete(buf0) && checksum_of(pl) == h.checksum && h.network
                    == crate::config::NETWORK && known_command(h.command) ==> match dec_payload_msg(
                    h.command,
                    pl,
                ) {
                    Some(mv) => (r matches Ok(m) && m@ == mv && msg_wf(&m) && final(self)@
                        == buf0.skip(24 + plen)),
                    None => r == Err::<Message, PeerError>(PeerError::ReadMsgInvalidPayload)
                        && final(self)@ == buf0.skip(24 + plen),
                }
            }),
    {
        proof {
            assert(self.buf@.len() == self.buf.len());
        }
        let ghost buf0 = self@;
        if self.buf.len() < HEADER_SIZE {
            return Err(PeerError::ReadIncomplete);
        }
        let header = match Header::unserialize(&self.buf) {
            Ok(h) => h,
            Err(_) => {
                proof {
                    assert(false);
                }
                return Err(PeerError::ReadIncomplete);
            },
        };
        proof {
            assert(header@ == header_val(buf0));
        }
        let plen = header.get_payload_size();
        if plen > PAYLOAD_MAX_SIZE {
            return Err(PeerError::ReadMsgPayloadTooBig);
        }
        if self.buf.len() - HEADER_SIZE < plen {
            return Err(PeerError::ReadIncomplete);
        }
        let mut payload: Vec<u8> = Vec::new();
        let mut i: usize = 0;
        while i < plen
            invariant
                HEADER_SIZE + plen <= self.buf@.len(),
                self.buf@.len() == self.buf.len(),
                self.buf == old(self).buf,
                i <= plen,
                payload@ == self.buf@.subrange(24, 24 + i as int),
            decreases plen - i,
        {
            payload.push(self.buf[HEADER_SIZE + i]);
            i += 1;
            proof {
                assert(payload@ =~= self.buf@.subrange(24, 24 + i as int));
            }
        }
        proof {
            assert(payload@ =~= payload_val(buf0));
        }
        self.drop(HEADER_SIZE + plen);
        let cks = crate::crypto::checksum(payload.as_slice());
        if cks != header.get_checksum() {
            return Err(PeerError::ReadMsgInvalidChecksum);
        }
        if header.get_network() != crate::config::NETWORK {
            return Err(PeerError::ReadMsgWrongNetwork);
        }
        let cmd = header.get_command();
        if bytes_eq(cmd, &cmd_version()) {
            match Version::unserialize(&payload, plen) {
                Ok(v) => Ok(Message::MsgVersion(v)),
                Err(_) => Err(PeerError::ReadMsgInvalidPayload),
            }
        } else if bytes_eq(cmd, &cmd_verack()) {
            match VerAck::unserialize(&payload) {
                Ok(v) => Ok(Message::MsgVerAck(v)),
                Err(_) => Err(PeerError::ReadMsgInvalidPayload),
            }
        } else if bytes_eq(cmd, &cmd_ping()) {
            match Ping::unserialize(&payload) {
                Ok(v) => Ok(Message::MsgPing(v)),
                Err(_) => Err(PeerError::ReadMsgInvalidPayload),
            }
        } else if bytes_eq(cmd, &cmd_pong()) {
            match Pong::unserialize(&payload) {
                Ok(v) => Ok(Message::MsgPong(v)),
                Err(_) => Err(PeerError::ReadMsgInvalidPayload),
            }
        } else if bytes_eq(cmd, &cmd_addr()) {
            match Addr::unserialize(&payload) {
                Ok(v) => Ok(Message::MsgAddr(v)),
                Err(_) => Err(PeerError::ReadMsgInvalidPayload),
            }
        } else if bytes_eq(cmd, &cmd_inv()) {
            match Inv::unserialize(&payload) {
                Ok(v) => Ok(Message::MsgInv(v)),
                Err(_) => Err(PeerError::ReadMsgInvalidPayload),
            }
        } else if bytes_eq(cmd, &cmd_getdata()) {
            match GetData::unserialize(&payload) {
                Ok(v) => Ok(Message::MsgGetData(v)),
                Err(_) => Err(PeerError::ReadMsgInvalidPayload),
            }
        } else if bytes_eq(cmd, &cmd_reject()) {
            match Reject::unserialize(&payload) {
                Ok(v) => Ok(Message::MsgReject(v)),
                Err(_) => Err(PeerError::ReadMsgInvalidPayload),
            }
        } else if bytes_eq(cmd, &cmd_tx()) {
            match Tx::unserialize(&payload) {
                Ok(v) => Ok(Message::MsgTx(v)),
                Err(_) => Err(PeerError::ReadMsgInvalidPayload),
            }
        } else if bytes_eq(cmd, &cmd_getaddr()) {
            match GetAddr::unserialize(&payload) {
                Ok(v) => Ok(Message::MsgGetAddr(v)),
                Err(_) => Err(PeerError::ReadMsgInvalidPayload),
            }
        } else {
            self.clear();
            Err(PeerError::ReadMsgUnknownCommand)
        }
    }
}

} // verus!
