//! The rules of a synchronous exchange, without the socket: which request
//! goes out under which request-id, and what a datagram that comes back is
//! taken for.

use crate::buf::{Buf, BufState};
use crate::error::Error;
use crate::oid::Oid;
use crate::pdu::{
    build_get, build_getbulk, build_getnext, build_set, built, message_bytes, names_view,
    parse_message, spec_build, spec_validate, values_view, Pdu, SpecPdu,
};
use crate::snmp;
use crate::value::{MessageType, SpecValue, Value, Version};
use vstd::prelude::*;

verus! {

/// The request-id that follows `id`: one more, and the least after the
/// greatest.
pub open spec fn next_req_id(id: i32) -> i32 {
    if id == i32::MAX {
        i32::MIN
    } else {
        (id + 1) as i32
    }
}

/// The request-id of a session that started with `start` and has completed
/// `n` exchanges.
pub open spec fn req_id_after(start: i32, n: nat) -> i32
    decreases n,
{
    if n == 0 {
        start
    } else {
        next_req_id(req_id_after(start, (n - 1) as nat))
    }
}

/// The request-id after `n` exchanges is `start + n`, wrapped into 32 bits.
pub proof fn lemma_req_id_after(start: i32, n: nat)
    ensures
        req_id_after(start, n) == (start - i32::MIN + n) % 0x1_0000_0000 + i32::MIN,
    decreases n,
{
    if n > 0 {
        lemma_req_id_after(start, (n - 1) as nat);
    }
}

/// The request-id is back at its starting value after `n` exchanges exactly
/// when `n` is a multiple of 2^32.
pub proof fn lemma_req_id_wraps(start: i32, n: nat)
    ensures
        req_id_after(start, n) == start <==> n % 0x1_0000_0000 == 0,
        req_id_after(start, 0x1_0000_0000) == start,
        req_id_after(start, 0x8000_0000) != start,
{
    lemma_req_id_after(start, n);
    lemma_req_id_after(start, 0x1_0000_0000);
    lemma_req_id_after(start, 0x8000_0000);
}

/// What a session stands for.
pub struct SpecSession {
    pub version: Version,
    pub community: Seq<u8>,
    pub req_id: i32,
    pub request: BufState,
}

/// The state of a synchronous session with one peer: protocol version,
/// community, the request-id of the next request, and the buffer that holds
/// the request to send. Whoever owns the socket sends `request()` as one
/// datagram and hands the datagram that comes back to `complete`.
pub struct Session {
    version: Version,
    community: Vec<u8>,
    req_id: i32,
    send_pdu: Buf,
}

impl View for Session {
    type V = SpecSession;

    closed spec fn view(&self) -> SpecSession {
        SpecSession {
            version: self.version,
            community: self.community@,
            req_id: self.req_id,
            request: self.send_pdu@,
        }
    }
}

impl Session {
    /// A session that speaks `version`.
    pub fn new(version: Version, community: &[u8], starting_req_id: i32) -> (session: Session)
        ensures
            session@.version == version,
            session@.community == community@,
            session@.req_id == starting_req_id,
            session@.request == (BufState { bytes: Seq::empty(), overflow: false }),
    {
        Session {
            version,
            community: vstd::slice::slice_to_vec(community),
            req_id: starting_req_id,
            send_pdu: Buf::new(),
        }
    }

    /// A session that speaks SNMPv1.
    pub fn new_v1(community: &[u8], starting_req_id: i32) -> (session: Session)
        ensures
            session@.version == Version::V1,
            session@.community == community@,
            session@.req_id == starting_req_id,
            session@.request == (BufState { bytes: Seq::empty(), overflow: false }),
    {
        Session::new(Version::V1, community, starting_req_id)
    }

    /// A session that speaks SNMPv2c.
    pub fn new_v2c(community: &[u8], starting_req_id: i32) -> (session: Session)
        ensures
            session@.version == Version::V2C,
            session@.community == community@,
            session@.req_id == starting_req_id,
            session@.request == (BufState { bytes: Seq::empty(), overflow: false }),
    {
        Session::new(Version::V2C, community, starting_req_id)
    }

    /// The request-id of the next request.
    pub fn req_id(&self) -> (id: i32)
        ensures
            id == self@.req_id,
    {
        self.req_id
    }

    /// The protocol version of the session.
    pub fn version(&self) -> (version: Version)
        ensures
            version == self@.version,
    {
        self.version
    }

    /// The community of the session.
    pub fn community(&self) -> (community: &[u8])
        ensures
            community@ == self@.community,
    {
        self.community.as_slice()
    }

    /// The request that was built last: the datagram to send.
    pub fn request(&self) -> (bytes: &[u8])
        ensures
            bytes@ == self@.request.bytes,
    {
        self.send_pdu.as_bytes()
    }

    /// What a session is after it has tried to build `message`: the same
    /// but for the request buffer.
    pub open spec fn with_request(before: SpecSession, message: Seq<u8>) -> SpecSession {
        SpecSession { request: built(before.request, before.version, message), ..before }
    }

    /// Builds a GET request for `oid` under the session's request-id.
    pub fn get(&mut self, oid: &Oid) -> (r: Result<(), Error>)
        ensures
            r == spec_build(
                old(self)@.version,
                message_bytes(
                    old(self)@.version,
                    old(self)@.community,
                    snmp::MSG_GET,
                    old(self)@.req_id,
                    0,
                    0,
                    seq![(oid@, SpecValue::Null)],
                ),
            ),
            final(self)@ == Session::with_request(
                old(self)@,
                message_bytes(
                    old(self)@.version,
                    old(self)@.community,
                    snmp::MSG_GET,
                    old(self)@.req_id,
                    0,
                    0,
                    seq![(oid@, SpecValue::Null)],
                ),
            ),
    {
        build_get(self.version, self.community.as_slice(), self.req_id, oid, &mut self.send_pdu)
    }

    /// Builds a GET-NEXT request for `oid` under the session's request-id.
    pub fn getnext(&mut self, oid: &Oid) -> (r: Result<(), Error>)
        ensures
            r == spec_build(
                old(self)@.version,
                message_bytes(
                    old(self)@.version,
                    old(self)@.community,
                    snmp::MSG_GET_NEXT,
                    old(self)@.req_id,
                    0,
                    0,
                    seq![(oid@, SpecValue::Null)],
                ),
            ),
            final(self)@ == Session::with_request(
                old(self)@,
                message_bytes(
                    old(self)@.version,
                    old(self)@.community,
                    snmp::MSG_GET_NEXT,
                    old(self)@.req_id,
                    0,
                    0,
                    seq![(oid@, SpecValue::Null)],
                ),
            ),
    {
        build_getnext(
            self.version,
            self.community.as_slice(),
            self.req_id,
            oid,
            &mut self.send_pdu,
        )
    }

    /// Builds a GET-BULK request for `oids` under the session's request-id.
    pub fn getbulk(&mut self, oids: &[&Oid], non_repeaters: u32, max_repetitions: u32) -> (r:
        Result<(), Error>)
        ensures
            r == spec_build(
                old(self)@.version,
                message_bytes(
                    old(self)@.version,
                    old(self)@.community,
                    snmp::MSG_GET_BULK,
                    old(self)@.req_id,
                    non_repeaters,
                    max_repetitions,
                    names_view(oids@),
                ),
            ),
            final(self)@ == Session::with_request(
                old(self)@,
                message_bytes(
                    old(self)@.version,
                    old(self)@.community,
                    snmp::MSG_GET_BULK,
                    old(self)@.req_id,
                    non_repeaters,
                    max_repetitions,
                    names_view(oids@),
                ),
            ),
    {
        build_getbulk(
            self.version,
            self.community.as_slice(),
            self.req_id,
            oids,
            non_repeaters,
            max_repetitions,
            &mut self.send_pdu,
        )
    }

    /// Builds a SET request for `values` under the session's request-id.
    pub fn set(&mut self, values: &[(&Oid, Value)]) -> (r: Result<(), Error>)
        ensures
            r == spec_build(
                old(self)@.version,
                message_bytes(
                    old(self)@.version,
                    old(self)@.community,
                    snmp::MSG_SET,
                    old(self)@.req_id,
                    0,
                    0,
                    values_view(values@),
                ),
            ),
            final(self)@ == Session::with_request(
                old(self)@,
                message_bytes(
                    old(self)@.version,
                    old(self)@.community,
                    snmp::MSG_SET,
                    old(self)@.req_id,
                    0,
                    0,
                    values_view(values@),
                ),
            ),
    {
        build_set(self.version, self.community.as_slice(), self.req_id, values, &mut self.send_pdu)
    }

    /// What is handed back for a datagram that decodes to `message`, in a
    /// session whose request went out under `req_id`.
    pub open spec fn spec_reply(message: SpecPdu, req_id: i32, community: Seq<u8>) -> Result<
        SpecPdu,
        Error,
    > {
        match spec_validate(message, MessageType::Response, req_id, community) {
            Ok(_) => Ok(message),
            Err(e) => Err(e),
        }
    }

    /// Takes the datagram that came back for the request built last. A
    /// datagram that does not decode is reported and changes nothing. One
    /// that decodes ends the exchange: the request-id moves on, wrapping
    /// around, and the message is handed out if it is a Response with the
    /// request-id and community of the request.
    pub fn complete<'a>(&mut self, datagram: &'a [u8]) -> (r: Result<Pdu<'a>, Error>)
        ensures
            match parse_message(datagram@) {
                Err(e) => r matches Err(x) && x == e && final(self)@ == old(self)@,
                Ok(message) => final(self)@ == (SpecSession {
                    req_id: next_req_id(old(self)@.req_id),
                    ..old(self)@
                }) && match Session::spec_reply(message, old(self)@.req_id, old(self)@.community) {
                    Ok(m) => r matches Ok(pdu) && pdu@ == m,
                    Err(e) => r matches Err(x) && x == e,
                },
            },
    {
        let resp = match Pdu::from_bytes(datagram) {
            Ok(p) => p,
            Err(e) => {
                return Err(e);
            },
        };
        let req_id = self.req_id;
        self.req_id = self.req_id.wrapping_add(1);
        match resp.validate(MessageType::Response, req_id, self.community.as_slice()) {
            Ok(_) => Ok(resp),
            Err(e) => Err(e),
        }
    }
}

} // verus!
