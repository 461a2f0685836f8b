//! Typed protocol messages: the closed set of message kinds, their wire
//! command names, and the common framing image.

use vstd::prelude::*;

pub mod addr;
pub mod getaddr;
pub mod getdata;
pub mod header;
pub mod inv;
pub mod ping;
pub mod pong;
pub mod reject;
pub mod tx;
pub mod verack;
pub mod version;

use crate::config::NETWORK;
use crate::crypto::checksum_of;
use crate::marshalling::enc_u32;
use crate::marshalling::enc_str12;

verus! {

/// The bytes of the command name "version".
pub open spec fn spec_cmd_version() -> Seq<u8> {
    seq![118u8, 101u8, 114u8, 115u8, 105u8, 111u8, 110u8]
}

/// The bytes of the command name "verack".
pub open spec fn spec_cmd_verack() -> Seq<u8> {
    seq![118u8, 101u8, 114u8, 97u8, 99u8, 107u8]
}

/// The bytes of the command name "ping".
pub open spec fn spec_cmd_ping() -> Seq<u8> {
    seq![112u8, 105u8, 110u8, 103u8]
}

/// The bytes of the command name "pong".
pub open spec fn spec_cmd_pong() -> Seq<u8> {
    seq![112u8, 111u8, 110u8, 103u8]
}

/// The bytes of the command name "addr".
pub open spec fn spec_cmd_addr() -> Seq<u8> {
    seq![97u8, 100u8, 100u8, 114u8]
}

/// The bytes of the command name "inv".
pub open spec fn spec_cmd_inv() -> Seq<u8> {
    seq![105u8, 110u8, 118u8]
}

/// The bytes of the command name "getdata".
pub open spec fn spec_cmd_getdata() -> Seq<u8> {
    seq![103u8, 101u8, 116u8, 100u8, 97u8, 116u8, 97u8]
}

/// The bytes of the command name "reject".
pub open spec fn spec_cmd_reject() -> Seq<u8> {
    seq![114u8, 101u8, 106u8, 101u8, 99u8, 116u8]
}

/// The bytes of the command name "tx".
pub open spec fn spec_cmd_tx() -> Seq<u8> {
    seq![116u8, 120u8]
}

/// The bytes of the command name "getaddr".
pub open spec fn spec_cmd_getaddr() -> Seq<u8> {
    seq![103u8, 101u8, 116u8, 97u8, 100u8, 100u8, 114u8]
}

/// The command name "version" as bytes.
pub fn cmd_version() -> (r: Vec<u8>)
    ensures
        r@ == spec_cmd_version(),
{
    let r: Vec<u8> = vec![118u8, 101u8, 114u8, 115u8, 105u8, 111u8, 110u8];
    proof {
        assert(r@ =~= spec_cmd_version());
    }
    r
}

/// The command name "verack" as bytes.
pub fn cmd_verack() -> (r: Vec<u8>)
    ensures
        r@ == spec_cmd_verack(),
{
    let r: Vec<u8> = vec![118u8, 101u8, 114u8, 97u8, 99u8, 107u8];
    proof {
        assert(r@ =~= spec_cmd_verack());
    }
    r
}

/// The command name "ping" as bytes.
pub fn cmd_ping() -> (r: Vec<u8>)
    ensures
        r@ == spec_cmd_ping(),
{
    let r: Vec<u8> = vec![112u8, 105u8, 110u8, 103u8];
    proof {
        assert(r@ =~= spec_cmd_ping());
    }
    r
}

/// The command name "pong" as bytes.
pub fn cmd_pong() -> (r: Vec<u8>)
    ensures
        r@ == spec_cmd_pong(),
{
    let r: Vec<u8> = vec![112u8, 111u8, 110u8, 103u8];
    proof {
        assert(r@ =~= spec_cmd_pong());
    }
    r
}

/// The command name "addr" as bytes.
pub fn cmd_addr() -> (r: Vec<u8>)
    ensures
        r@ == spec_cmd_addr(),
{
    let r: Vec<u8> = vec![97u8, 100u8, 100u8, 114u8];
    proof {
        assert(r@ =~= spec_cmd_addr());
    }
    r
}

/// The command name "inv" as bytes.
pub fn cmd_inv() -> (r: Vec<u8>)
    ensures
        r@ == spec_cmd_inv(),
{
    let r: Vec<u8> = vec![105u8, 110u8, 118u8];
    proof {
        assert(r@ =~= spec_cmd_inv());
    }
    r
}

/// The command name "getdata" as bytes.
pub fn cmd_getdata() -> (r: Vec<u8>)
    ensures
        r@ == spec_cmd_getdata(),
{
    let r: Vec<u8> = vec![103u8, 101u8, 116u8, 100u8, 97u8, 116u8, 97u8];
    proof {
        assert(r@ =~= spec_cmd_getdata());
    }
    r
}

/// The command name "reject" as bytes.
pub fn cmd_reject() -> (r: Vec<u8>)
    ensures
        r@ == spec_cmd_reject(),
{
    let r: Vec<u8> = vec![114u8, 101u8, 106u8, 101u8, 99u8, 116u8];
    proof {
        assert(r@ =~= spec_cmd_reject());
    }
    r
}

/// The command name "tx" as bytes.
pub fn cmd_tx() -> (r: Vec<u8>)
    ensures
        r@ == spec_cmd_tx(),
{
    let r: Vec<u8> = vec![116u8, 120u8];
    proof {
        assert(r@ =~= spec_cmd_tx());
    }
    r
}

/// The command name "getaddr" as bytes.
pub fn cmd_getaddr() -> (r: Vec<u8>)
    ensures
        r@ == spec_cmd_getaddr(),
{
    let r: Vec<u8> = vec![103u8, 101u8, 116u8, 97u8, 100u8, 100u8, 114u8];
    proof {
        assert(r@ =~= spec_cmd_getaddr());
    }
    r
}

/// The full wire image of a message: 24-byte header (network magic,
/// padded command, payload length, payload checksum), then the payload.
pub open spec fn wire_of(cmd: Seq<u8>, payload: Seq<u8>) -> Seq<u8> {
    enc_u32(NETWORK) + enc_str12(cmd) + enc_u32(payload.len() as u32) + enc_u32(
        checksum_of(payload),
    ) + payload
}

/// Byte-wise equality of two byte vectors.
pub fn bytes_eq(a: &Vec<u8>, b: &Vec<u8>) -> (r: bool)
    ensures
        r == (a@ == b@),
{
    if a.len() != b.len() {
        proof {
            assert(a@.len() != b@.len());
        }
        return false;
    }
    let mut i: usize = 0;
    while i < a.len()
        invariant
            a@.len() == b@.len(),
            i <= a@.len(),
            forall|j: int| 0 <= j < i ==> a@[j] == b@[j],
        decreases a@.len() - i,
    {
        if a[i] != b[i] {
            return false;
        }
        i += 1;
    }
    proof {
        assert(a@ =~= b@);
    }
    true
}

/// One decoded protocol message.
#[derive(Debug)]
pub enum Message {
    MsgVersion(version::Version),
    MsgVerAck(verack::VerAck),
    MsgPing(ping::Ping),
    MsgPong(pong::Pong),
    MsgAddr(addr::Addr),
    MsgInv(inv::Inv),
    MsgGetData(getdata::GetData),
    MsgReject(reject::Reject),
    MsgTx(tx::Tx),
    MsgGetAddr(getaddr::GetAddr),
}

/// The mathematical value of a message.
pub enum MessageV {
    Version(version::VersionV),
    VerAck,
    Ping(u64),
    Pong(u64),
    Addr(Seq<crate::netaddr::NetAddr>),
    Inv(Seq<crate::invvect::InvEntryV>),
    GetData(Seq<crate::invvect::InvEntryV>),
    Reject(reject::RejectV),
    Tx(crate::transaction::TransactionV),
    GetAddr,
}

impl View for Message {
    type V = MessageV;

    open spec fn view(&self) -> MessageV {
        match self {
            Message::MsgVersion(v) => MessageV::Version(v@),
            Message::MsgVerAck(_) => MessageV::VerAck,
            Message::MsgPing(p) => MessageV::Ping(p.spec_nounce()),
            Message::MsgPong(p) => MessageV::Pong(p.spec_nounce()),
            Message::MsgAddr(a) => MessageV::Addr(a@),
            Message::MsgInv(i) => MessageV::Inv(i@),
            Message::MsgGetData(g) => MessageV::GetData(g@),
            Message::MsgReject(r) => MessageV::Reject(r@),
            Message::MsgTx(t) => MessageV::Tx(t@),
            Message::MsgGetAddr(_) => MessageV::GetAddr,
        }
    }
}

/// The bounds a freshly decoded message satisfies, by kind.
pub open spec fn msg_wf(m: &Message) -> bool {
    match m {
        Message::MsgVersion(v) => v.wf(),
        Message::MsgAddr(a) => a.wf(),
        Message::MsgInv(i) => i.wf(),
        Message::MsgGetData(g) => g.wf(),
        Message::MsgReject(r) => r.wf(),
        Message::MsgTx(t) => t@.wf(),
        _ => true,
    }
}

} // verus!
