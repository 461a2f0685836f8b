//! The reject message: a peer's report that it refused one of ours.

use vstd::prelude::*;

use crate::marshalling::Marshalling;
use crate::marshalling::DecodeError;
use crate::marshalling::Unmarshalling;
use crate::marshalling::all_safe;
use crate::marshalling::enc_varstr;
use crate::marshalling::enc_u8;
use crate::marshalling::dec_varstr;
use crate::marshalling::dec_u8;
use crate::marshalling::lemma_dec_enc_varstr;
use crate::marshalling::lemma_dec_enc_u8;
use crate::marshalling::VARSTR_MAX_LENGTH;
use crate::message::wire_of;
use crate::message::spec_cmd_reject;
use crate::message::cmd_reject;

verus! {

/// Why a message was rejected.
#[derive(Clone, Copy, Debug, PartialEq, Eq)]
pub enum RejectType {
    RejectMalformed,
    RejectInvalid,
    RejectObsolete,
    RejectDuplicate,
    RejectNonstandard,
    RejectDust,
    RejectInsufficientFee,
    RejectCheckpoint,
}

/// The wire code of a reject reason.
pub open spec fn spec_reject_code(t: RejectType) -> u8 {
    match t {
        RejectType::RejectMalformed => 0x01,
        RejectType::RejectInvalid => 0x10,
        RejectType::RejectObsolete => 0x11,
        RejectType::RejectDuplicate => 0x12,
        RejectType::RejectNonstandard => 0x40,
        RejectType::RejectDust => 0x41,
        RejectType::RejectInsufficientFee => 0x42,
        RejectType::RejectCheckpoint => 0x43,
    }
}

impl RejectType {
    /// The wire code of this reason.
    pub fn code(&self) -> (r: u8)
        ensures
            r == spec_reject_code(*self),
    {
        match *self {
            RejectType::RejectMalformed => 0x01,
            RejectType::RejectInvalid => 0x10,
            RejectType::RejectObsolete => 0x11,
            RejectType::RejectDuplicate => 0x12,
            RejectType::RejectNonstandard => 0x40,
            RejectType::RejectDust => 0x41,
            RejectType::RejectInsufficientFee => 0x42,
            RejectType::RejectCheckpoint => 0x43,
        }
    }

    /// The reason a wire code names, if any.
    pub open spec fn spec_from_u8(v: u8) -> Option<RejectType> {
        if v == 0x01 {
            Some(RejectType::RejectMalformed)
        } else if v == 0x10 {
            Some(RejectType::RejectInvalid)
        } else if v == 0x11 {
            Some(RejectType::RejectObsolete)
        } else if v == 0x12 {
            Some(RejectType::RejectDuplicate)
        } else if v == 0x40 {
            Some(RejectType::RejectNonstandard)
        } else if v == 0x41 {
            Some(RejectType::RejectDust)
        } else if v == 0x42 {
            Some(RejectType::RejectInsufficientFee)
        } else if v == 0x43 {
            Some(RejectType::RejectCheckpoint)
        } else {
            None
        }
    }

    /// Decode a wire code into a reason; unknown codes are refused.
    pub fn from_u8(v: u8) -> (r: Option<RejectType>)
        ensures
            r == RejectType::spec_from_u8(v),
    {
        if v == 0x01 {
            Some(RejectType::RejectMalformed)
        } else if v == 0x10 {
            Some(RejectType::RejectInvalid)
        } else if v == 0x11 {
            Some(RejectType::RejectObsolete)
        } else if v == 0x12 {
            Some(RejectType::RejectDuplicate)
        } else if v == 0x40 {
            Some(RejectType::RejectNonstandard)
        } else if v == 0x41 {
            Some(RejectType::RejectDust)
        } else if v == 0x42 {
            Some(RejectType::RejectInsufficientFee)
        } else if v == 0x43 {
            Some(RejectType::RejectCheckpoint)
        } else {
            None
        }
    }

    /// The code of every reason decodes back to it.
    pub proof fn lemma_code_round_trip(t: RejectType)
        ensures
            RejectType::spec_from_u8(spec_reject_code(t)) == Some(t),
    {
    }
}

/// A rejection notice: the offending command, the reason kind, and a
/// human-readable reason.
#[derive(Debug)]
pub struct Reject {
    msg: Vec<u8>,
    typ: RejectType,
    reason: Vec<u8>,
}

/// The mathematical value of a rejection notice.
pub struct RejectV {
    pub msg: Seq<u8>,
    pub typ: RejectType,
    pub reason: Seq<u8>,
}

impl View for Reject {
    type V = RejectV;

    closed spec fn view(&self) -> RejectV {
        RejectV { msg: self.msg@, typ: self.typ, reason: self.reason@ }
    }
}

/// The payload of a rejection notice.
pub open spec fn enc_reject_payload(v: RejectV) -> Seq<u8> {
    enc_varstr(v.msg) + enc_u8(spec_reject_code(v.typ)) + enc_varstr(v.reason)
}

/// Decode a rejection payload; an unknown reason code is refused.
pub open spec fn dec_reject_payload(s: Seq<u8>) -> Option<RejectV> {
    match dec_varstr(s) {
        None => None,
        Some((m, a)) => match dec_u8(s.skip(a)) {
            None => None,
            Some((code, b)) => match RejectType::spec_from_u8(code) {
                None => None,
                Some(t) => match dec_varstr(s.skip(a + b)) {
                    None => None,
                    Some((rs, c)) => Some(RejectV { msg: m, typ: t, reason: rs }),
                },
            },
        },
    }
}

impl Reject {
    /// Both strings are sanitized and within the var-string bound.
    pub open spec fn wf(&self) -> bool {
        &&& all_safe(self@.msg)
        &&& self@.msg.len() <= VARSTR_MAX_LENGTH
        &&& all_safe(self@.reason)
        &&& self@.reason.len() <= VARSTR_MAX_LENGTH
    }

    /// Build a notice from its parts.
    pub fn new(msg: Vec<u8>, typ: RejectType, reason: Vec<u8>) -> (r: Reject)
        requires
            all_safe(msg@),
            msg@.len() <= VARSTR_MAX_LENGTH,
            all_safe(reason@),
            reason@.len() <= VARSTR_MAX_LENGTH,
        ensures
            r@ == (RejectV { msg: msg@, typ, reason: reason@ }),
            r.wf(),
    {
        Reject { msg, typ, reason }
    }

    /// Encode the full wire message.
    pub fn serialize(&self) -> (r: Vec<u8>)
        requires
            self.wf(),
        ensures
            r@ == wire_of(spec_cmd_reject(), enc_reject_payload(self@)),
    {
        let mut m = Marshalling::new();
        m.write_varstr(&self.msg);
        m.write_uint8(self.typ.code());
        m.write_varstr(&self.reason);
        proof {
            assert(m@ =~= enc_reject_payload(self@));
        }
        let payload = m.get();
        let cks = crate::crypto::checksum(payload.as_slice());
        let cmd = cmd_reject();
        proof {
            assert(crate::marshalling::all_safe(cmd@));
        }
        let mut w = Marshalling::new();
        w.write_uint32(crate::config::NETWORK);
        w.write_str12(&cmd);
        w.write_uint32(payload.len() as u32);
        w.write_uint32(cks);
        w.write(payload.as_slice());
        proof {
            assert(w@ =~= wire_of(spec_cmd_reject(), enc_reject_payload(self@)));
        }
        w.get()
    }

    /// Decode a rejection notice from a payload.
    pub fn unserialize(data: &Vec<u8>) -> (r: Result<Reject, DecodeError>)
        ensures
            match dec_reject_payload(data@) {
                Some(v) => (r matches Ok(m) && m@ == v && m.wf()),
                None => r == Err::<Reject, DecodeError>(DecodeError),
            },
    {
        let ghost s = data@;
        let mut u = Unmarshalling::new(data);
        let msg = match u.read_varstr() {
            Ok(v) => v,
            Err(e) => {
                return Err(e);
            },
        };
        let ghost a = u.spec_consumed();
        proof {
            assert(u.rest() =~= s.skip(a));
        }
        let code = match u.read_uint8() {
            Ok(v) => v,
            Err(e) => {
                return Err(e);
            },
        };
        proof {
            assert(u.rest() =~= s.skip(a + 1));
        }
        let typ = match RejectType::from_u8(code) {
            Some(t) => t,
            None => {
                return Err(DecodeError);
            },
        };
        let reason = match u.read_varstr() {
            Ok(v) => v,
            Err(e) => {
                return Err(e);
            },
        };
        proof {
            assert(all_safe(msg@) && msg@.len() <= VARSTR_MAX_LENGTH) by {
                lemma_varstr_result_wf(s);
            }
            assert(all_safe(reason@) && reason@.len() <= VARSTR_MAX_LENGTH) by {
                lemma_varstr_result_wf(s.skip(a + 1));
            }
        }
        Ok(Reject { msg, typ, reason })
    }

    /// Decoding an encoded well-formed rejection payload gives it back.
    pub proof fn lemma_round_trip(v: RejectV)
        requires
            all_safe(v.msg),
            v.msg.len() <= VARSTR_MAX_LENGTH,
            all_safe(v.reason),
            v.reason.len() <= VARSTR_MAX_LENGTH,
        ensures
            dec_reject_payload(enc_reject_payload(v)) == Some(v),
    {
        let s = enc_reject_payload(v);
        let r1 = enc_u8(spec_reject_code(v.typ)) + enc_varstr(v.reason);
        assert(s =~= enc_varstr(v.msg) + r1);
        lemma_dec_enc_varstr(v.msg, r1);
        let a = enc_varstr(v.msg).len() as int;
        assert(s.skip(a) =~= r1);
        lemma_dec_enc_u8(spec_reject_code(v.typ), enc_varstr(v.reason));
        RejectType::lemma_code_round_trip(v.typ);
        assert(s.skip(a + 1) =~= enc_varstr(v.reason));
        lemma_dec_enc_varstr(v.reason, Seq::<u8>::empty());
        assert(enc_varstr(v.reason) + Seq::<u8>::empty() =~= enc_varstr(v.reason));
    }
}

/// What any decoded var-string satisfies: sanitized, and no longer than
/// the bound.
pub proof fn lemma_varstr_result_wf(s: Seq<u8>)
    ensures
        match dec_varstr(s) {
            Some((v, n)) => all_safe(v) && v.len() <= VARSTR_MAX_LENGTH,
            None => true,
        },
{
    match dec_varstr(s) {
        Some((v, n)) => {
            match crate::marshalling::dec_varint(s) {
                Some((len, m)) => {
                    crate::marshalling::lemma_sanitize_safe(s.subrange(m, m + len as int));
                    crate::marshalling::lemma_sanitize_len(s.subrange(m, m + len as int));
                },
                None => {},
            }
        },
        None => {},
    }
}

} // verus!
