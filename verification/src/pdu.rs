//! Building request messages and decoding and validating replies.

use crate::asn1;
use crate::asn1::{parse_ipaddress, AsnReader};
use crate::ber::{int_content, parse_int, parse_tlv, parse_u32, tlv};
use crate::buf::{
    lemma_grew_close, lemma_grew_nothing, lemma_grew_prepend, lemma_prepend_grew, Buf, BufState,
    BUFFER_SIZE,
};
use crate::error::{AuthErrorKind, Error, ReportError};
use crate::oid::{asn1_oid_arc, same_bytes, Oid};
use crate::snmp;
use crate::value::{parse_varbind, value_bytes, MessageType, SpecValue, Value, Varbinds, Version};
use vstd::prelude::*;

verus! {

/// What the pairs handed to a builder stand for: the content octets of each
/// name, and each value.
pub open spec fn values_view(values: Seq<(&Oid, Value)>) -> Seq<(Seq<u8>, SpecValue)> {
    Seq::new(values.len(), |i: int| (values[i].0@, values[i].1@))
}

/// What the names handed to a builder stand for: each with a NULL value.
pub open spec fn names_view(oids: Seq<&Oid>) -> Seq<(Seq<u8>, SpecValue)> {
    Seq::new(oids.len(), |i: int| (oids[i]@, SpecValue::Null))
}

/// One varbind on the wire: a SEQUENCE of name and value.
pub open spec fn varbind_bytes(item: (Seq<u8>, SpecValue)) -> Seq<u8> {
    tlv(asn1::TYPE_SEQUENCE, tlv(asn1::TYPE_OBJECTIDENTIFIER, item.0) + value_bytes(item.1))
}

/// Varbinds on the wire, first varbind first.
pub open spec fn varbinds_bytes(items: Seq<(Seq<u8>, SpecValue)>) -> Seq<u8>
    decreases items.len(),
{
    if items.len() == 0 {
        Seq::empty()
    } else {
        varbind_bytes(items[0]) + varbinds_bytes(items.drop_first())
    }
}

/// An INTEGER on the wire.
pub open spec fn integer_bytes(n: int) -> Seq<u8> {
    tlv(asn1::TYPE_INTEGER, int_content(n))
}

/// A PDU on the wire: request-id, then error-status and error-index (for
/// GET-BULK: non-repeaters and max-repetitions), then the varbind list.
pub open spec fn pdu_bytes(
    ident: u8,
    req_id: i32,
    non_repeaters: u32,
    max_repetitions: u32,
    items: Seq<(Seq<u8>, SpecValue)>,
) -> Seq<u8> {
    tlv(
        ident,
        integer_bytes(req_id as int) + integer_bytes(non_repeaters as int) + integer_bytes(
            max_repetitions as int,
        ) + tlv(asn1::TYPE_SEQUENCE, varbinds_bytes(items)),
    )
}

/// A community-based message on the wire: version, community, PDU.
pub open spec fn message_bytes(
    version: Version,
    community: Seq<u8>,
    ident: u8,
    req_id: i32,
    non_repeaters: u32,
    max_repetitions: u32,
    items: Seq<(Seq<u8>, SpecValue)>,
) -> Seq<u8> {
    tlv(
        asn1::TYPE_SEQUENCE,
        integer_bytes(version.spec_number() as int) + tlv(asn1::TYPE_OCTETSTRING, community)
            + pdu_bytes(ident, req_id, non_repeaters, max_repetitions, items),
    )
}

/// Prepends the element that encodes `value`.
pub fn push_value(buf: &mut Buf, value: &Value)
    ensures
        final(buf)@ == old(buf)@.prepend(value_bytes(value@)),
{
    match value {
        Value::Boolean(b) => buf.push_boolean(*b),
        Value::Null => buf.push_null(),
        Value::Integer(i) => buf.push_integer(*i),
        Value::OctetString(s) => buf.push_octet_string(s),
        Value::ObjectIdentifier(oid) => buf.push_object_identifier_raw(oid.as_bytes()),
        Value::IpAddress(ip) => buf.push_ipaddress(*ip),
        Value::Counter32(n) => buf.push_counter32(*n),
        Value::Unsigned32(n) => buf.push_unsigned32(*n),
        Value::Timeticks(n) => buf.push_timeticks(*n),
        Value::Opaque(s) => buf.push_opaque(s),
        Value::Counter64(n) => buf.push_counter64(*n),
        Value::EndOfMibView => buf.push_endofmibview(),
        Value::NoSuchObject => buf.push_nosuchobject(),
        Value::NoSuchInstance => buf.push_nosuchinstance(),
    }
}

/// Prepends one varbind.
fn push_varbind(buf: &mut Buf, oid: &Oid, value: &Value)
    ensures
        final(buf)@ == old(buf)@.prepend(varbind_bytes((oid@, value@))),
{
    let ghost base = buf@;
    let ghost children = tlv(asn1::TYPE_OBJECTIDENTIFIER, oid@) + value_bytes(value@);
    buf.push_sequence(
        |b: &mut Buf|
            ensures
                final(b)@.grew_by(old(b)@, children),
            {
                let ghost start = b@;
                push_value(b, value);
                let ghost mid = b@;
                b.push_object_identifier_raw(oid.as_bytes());
                proof {
                    lemma_prepend_grew(start, value_bytes(value@));
                    lemma_grew_prepend(
                        start,
                        mid,
                        value_bytes(value@),
                        tlv(asn1::TYPE_OBJECTIDENTIFIER, oid@),
                    );
                }
            }
    );
    proof {
        let a = choose|a: &mut Buf|
            *a == *old(buf) && final(buf)@ == final(a)@.close(base, asn1::TYPE_SEQUENCE)
                && final(a)@.grew_by(a@, children);
        lemma_grew_close(base, final(a)@, asn1::TYPE_SEQUENCE, children);
    }
}

/// The varbinds that a request is built from.
enum Bindings<'a> {
    /// Names with the values to write.
    Values(&'a [(&'a Oid<'a>, Value<'a>)]),
    /// Names alone; each goes out with a NULL value.
    Names(&'a [&'a Oid<'a>]),
}

impl<'a> View for Bindings<'a> {
    type V = Seq<(Seq<u8>, SpecValue)>;

    closed spec fn view(&self) -> Seq<(Seq<u8>, SpecValue)> {
        match *self {
            Bindings::Values(values) => values_view(values@),
            Bindings::Names(oids) => names_view(oids@),
        }
    }
}

impl<'a> Bindings<'a> {
    /// Number of varbinds.
    fn len(&self) -> (n: usize)
        ensures
            n == self@.len(),
    {
        match self {
            Bindings::Values(values) => values.len(),
            Bindings::Names(oids) => oids.len(),
        }
    }

    /// Prepends the varbind with index `i`.
    fn push(&self, i: usize, buf: &mut Buf)
        requires
            i < self@.len(),
        ensures
            final(buf)@ == old(buf)@.prepend(varbind_bytes(self@[i as int])),
    {
        match self {
            Bindings::Values(values) => push_varbind(buf, values[i].0, &values[i].1),
            Bindings::Names(oids) => push_varbind(buf, oids[i], &Value::Null),
        }
    }
}

/// Prepends the varbind list: a SEQUENCE of the varbinds, first one first.
/// The varbinds are written last one first, as the buffer grows backwards.
fn push_varbind_list(buf: &mut Buf, bindings: &Bindings)
    ensures
        final(buf)@ == old(buf)@.prepend(tlv(asn1::TYPE_SEQUENCE, varbinds_bytes(bindings@))),
{
    let ghost base = buf@;
    let ghost items = bindings@;
    buf.push_sequence(
        |b: &mut Buf|
            ensures
                final(b)@.grew_by(old(b)@, varbinds_bytes(items)),
            {
                let ghost start = b@;
                let _ = b.len();
                let mut i: usize = bindings.len();
                proof {
                    lemma_grew_nothing(start);
                    assert(items.skip(i as int) =~= Seq::empty());
                }
                while i > 0
                    invariant
                        i <= items.len(),
                        items == bindings@,
                        b@.grew_by(start, varbinds_bytes(items.skip(i as int))),
                    decreases i,
                {
                    i = i - 1;
                    let ghost before = b@;
                    bindings.push(i, b);
                    proof {
                        let rest = items.skip(i as int);
                        assert(rest.drop_first() =~= items.skip(i + 1));
                        lemma_grew_prepend(
                            start,
                            before,
                            varbinds_bytes(items.skip(i + 1)),
                            varbind_bytes(items[i as int]),
                        );
                    }
                }
                proof {
                    assert(items.skip(0) =~= items);
                }
            }
    );
    proof {
        let a = choose|a: &mut Buf|
            *a == *old(buf) && final(buf)@ == final(a)@.close(base, asn1::TYPE_SEQUENCE)
                && final(a)@.grew_by(a@, varbinds_bytes(items));
        lemma_grew_close(base, final(a)@, asn1::TYPE_SEQUENCE, varbinds_bytes(items));
    }
}

/// Prepends a PDU with identifier `ident`.
fn push_pdu(
    req_id: i32,
    ident: u8,
    bindings: &Bindings,
    non_repeaters: u32,
    max_repetitions: u32,
    buf: &mut Buf,
)
    ensures
        final(buf)@ == old(buf)@.prepend(
            pdu_bytes(ident, req_id, non_repeaters, max_repetitions, bindings@),
        ),
{
    let ghost base = buf@;
    let ghost list = tlv(asn1::TYPE_SEQUENCE, varbinds_bytes(bindings@));
    let ghost body = integer_bytes(req_id as int) + integer_bytes(non_repeaters as int)
        + integer_bytes(max_repetitions as int) + list;
    buf.push_constructed(
        ident,
        |b: &mut Buf|
            ensures
                final(b)@.grew_by(old(b)@, body),
            {
                let ghost start = b@;
                push_varbind_list(b, bindings);
                let ghost with_list = b@;
                b.push_integer(max_repetitions as i64);
                let ghost with_max = b@;
                b.push_integer(non_repeaters as i64);
                let ghost with_non = b@;
                b.push_integer(req_id as i64);
                proof {
                    let from_max = integer_bytes(max_repetitions as int) + list;
                    let from_non = integer_bytes(non_repeaters as int) + from_max;
                    lemma_prepend_grew(start, list);
                    lemma_grew_prepend(
                        start,
                        with_list,
                        list,
                        integer_bytes(max_repetitions as int),
                    );
                    lemma_grew_prepend(
                        start,
                        with_max,
                        from_max,
                        integer_bytes(non_repeaters as int),
                    );
                    lemma_grew_prepend(start, with_non, from_non, integer_bytes(req_id as int));
                    assert(integer_bytes(req_id as int) + from_non =~= body);
                }
            }
    );
    proof {
        let a = choose|a: &mut Buf|
            *a == *old(buf) && final(buf)@ == final(a)@.close(base, ident)
                && final(a)@.grew_by(a@, body);
        lemma_grew_close(base, final(a)@, ident, body);
    }
}

/// Writes a whole community-based message into `buf`, which is emptied
/// first.
fn build_message(
    version: Version,
    community: &[u8],
    ident: u8,
    req_id: i32,
    bindings: &Bindings,
    non_repeaters: u32,
    max_repetitions: u32,
    buf: &mut Buf,
) -> (r: Result<(), Error>)
    ensures
        r == spec_build(
            version,
            message_bytes(
                version,
                community@,
                ident,
                req_id,
                non_repeaters,
                max_repetitions,
                bindings@,
            ),
        ),
        final(buf)@ == built(
            old(buf)@,
            version,
            message_bytes(
                version,
                community@,
                ident,
                req_id,
                non_repeaters,
                max_repetitions,
                bindings@,
            ),
        ),
{
    if version == Version::V3 {
        return Err(Error::AuthFailure(AuthErrorKind::SecurityNotProvided));
    }
    buf.reset();
    let ghost emptied = *buf;
    let ghost base = buf@;
    let ghost pdu = pdu_bytes(ident, req_id, non_repeaters, max_repetitions, bindings@);
    let ghost body = integer_bytes(version.spec_number() as int) + tlv(
        asn1::TYPE_OCTETSTRING,
        community@,
    ) + pdu;
    buf.push_sequence(
        |b: &mut Buf|
            ensures
                final(b)@.grew_by(old(b)@, body),
            {
                let ghost start = b@;
                push_pdu(req_id, ident, bindings, non_repeaters, max_repetitions, b);
                let ghost with_pdu = b@;
                b.push_octet_string(community);
                let ghost with_community = b@;
                b.push_integer(version.number());
                proof {
                    let name = tlv(asn1::TYPE_OCTETSTRING, community@);
                    lemma_prepend_grew(start, pdu);
                    lemma_grew_prepend(start, with_pdu, pdu, name);
                    lemma_grew_prepend(
                        start,
                        with_community,
                        name + pdu,
                        integer_bytes(version.spec_number() as int),
                    );
                    assert(integer_bytes(version.spec_number() as int) + (name + pdu) =~= body);
                }
            }
    );
    proof {
        let a = choose|a: &mut Buf|
            *a == emptied && buf@ == final(a)@.close(base, asn1::TYPE_SEQUENCE)
                && final(a)@.grew_by(a@, body);
        lemma_grew_close(base, final(a)@, asn1::TYPE_SEQUENCE, body);
        assert(tlv(asn1::TYPE_SEQUENCE, body) + Seq::<u8>::empty() =~= tlv(
            asn1::TYPE_SEQUENCE,
            body,
        ));
    }
    if buf.overflowed() {
        buf.reset();
        Err(Error::EncodeOverflow)
    } else {
        Ok(())
    }
}

/// Prepends a PDU with identifier `ident`: request-id, the two integers
/// that are error-status and error-index in a reply and non-repeaters and
/// max-repetitions in a GET-BULK request, and the varbinds.
pub fn build_inner(
    req_id: i32,
    ident: u8,
    values: &[(&Oid, Value)],
    non_repeaters: u32,
    max_repetitions: u32,
    buf: &mut Buf,
)
    ensures
        final(buf)@ == old(buf)@.prepend(
            pdu_bytes(ident, req_id, non_repeaters, max_repetitions, values_view(values@)),
        ),
{
    push_pdu(req_id, ident, &Bindings::Values(values), non_repeaters, max_repetitions, buf);
}

/// Writes a whole community-based request into `buf`, which is emptied
/// first. A message that does not fit leaves the buffer empty and is
/// reported as `EncodeOverflow`; version 3 needs a security context that
/// this codec does not have, and leaves the buffer as it is.
pub fn build(
    version: Version,
    community: &[u8],
    ident: u8,
    req_id: i32,
    values: &[(&Oid, Value)],
    non_repeaters: u32,
    max_repetitions: u32,
    buf: &mut Buf,
) -> (r: Result<(), Error>)
    ensures
        r == spec_build(
            version,
            message_bytes(
                version,
                community@,
                ident,
                req_id,
                non_repeaters,
                max_repetitions,
                values_view(values@),
            ),
        ),
        final(buf)@ == built(
            old(buf)@,
            version,
            message_bytes(
                version,
                community@,
                ident,
                req_id,
                non_repeaters,
                max_repetitions,
                values_view(values@),
            ),
        ),
{
    build_message(
        version,
        community,
        ident,
        req_id,
        &Bindings::Values(values),
        non_repeaters,
        max_repetitions,
        buf,
    )
}

/// The outcome of building `message` for `version`.
pub open spec fn spec_build(version: Version, message: Seq<u8>) -> Result<(), Error> {
    if version == Version::V3 {
        Err(Error::AuthFailure(AuthErrorKind::SecurityNotProvided))
    } else if message.len() > BUFFER_SIZE {
        Err(Error::EncodeOverflow)
    } else {
        Ok(())
    }
}

/// What a buffer holds after building `message` for `version`: the message
/// if it was built, nothing if it does not fit, and what it held before if
/// the version cannot be built.
pub open spec fn built(before: BufState, version: Version, message: Seq<u8>) -> BufState {
    if version == Version::V3 {
        before
    } else if message.len() > BUFFER_SIZE {
        BufState { bytes: Seq::empty(), overflow: false }
    } else {
        BufState { bytes: message, overflow: false }
    }
}

/// Writes a GET request for one name into `buf`.
pub fn build_get(version: Version, community: &[u8], req_id: i32, oid: &Oid, buf: &mut Buf) -> (r:
    Result<(), Error>)
    ensures
        r == spec_build(
            version,
            message_bytes(
                version,
                community@,
                snmp::MSG_GET,
                req_id,
                0,
                0,
                seq![(oid@, SpecValue::Null)],
            ),
        ),
        final(buf)@ == built(
            old(buf)@,
            version,
            message_bytes(
                version,
                community@,
                snmp::MSG_GET,
                req_id,
                0,
                0,
                seq![(oid@, SpecValue::Null)],
            ),
        ),
{
    let values = [(oid, Value::Null)];
    proof {
        assert(values_view(values@) =~= seq![(oid@, SpecValue::Null)]);
    }
    build(version, community, snmp::MSG_GET, req_id, values.as_slice(), 0, 0, buf)
}

/// Writes a GET-NEXT request for one name into `buf`.
pub fn build_getnext(
    version: Version,
    community: &[u8],
    req_id: i32,
    oid: &Oid,
    buf: &mut Buf,
) -> (r: Result<(), Error>)
    ensures
        r == spec_build(
            version,
            message_bytes(
                version,
                community@,
                snmp::MSG_GET_NEXT,
                req_id,
                0,
                0,
                seq![(oid@, SpecValue::Null)],
            ),
        ),
        final(buf)@ == built(
            old(buf)@,
            version,
            message_bytes(
                version,
                community@,
                snmp::MSG_GET_NEXT,
                req_id,
                0,
                0,
                seq![(oid@, SpecValue::Null)],
            ),
        ),
{
    let values = [(oid, Value::Null)];
    proof {
        assert(values_view(values@) =~= seq![(oid@, SpecValue::Null)]);
    }
    build(version, community, snmp::MSG_GET_NEXT, req_id, values.as_slice(), 0, 0, buf)
}

/// Writes a GET-BULK request into `buf`: the names with NULL values, and
/// non-repeaters and max-repetitions where a reply has error-status and
/// error-index.
pub fn build_getbulk(
    version: Version,
    community: &[u8],
    req_id: i32,
    oids: &[&Oid],
    non_repeaters: u32,
    max_repetitions: u32,
    buf: &mut Buf,
) -> (r: Result<(), Error>)
    ensures
        r == spec_build(
            version,
            message_bytes(
                version,
                community@,
                snmp::MSG_GET_BULK,
                req_id,
                non_repeaters,
                max_repetitions,
                names_view(oids@),
            ),
        ),
        final(buf)@ == built(
            old(buf)@,
            version,
            message_bytes(
                version,
                community@,
                snmp::MSG_GET_BULK,
                req_id,
                non_repeaters,
                max_repetitions,
                names_view(oids@),
            ),
        ),
{
    build_message(
        version,
        community,
        snmp::MSG_GET_BULK,
        req_id,
        &Bindings::Names(oids),
        non_repeaters,
        max_repetitions,
        buf,
    )
}

/// Writes a SET request for the given names and values into `buf`.
pub fn build_set(
    version: Version,
    community: &[u8],
    req_id: i32,
    values: &[(&Oid, Value)],
    buf: &mut Buf,
) -> (r: Result<(), Error>)
    ensures
        r == spec_build(
            version,
            message_bytes(version, community@, snmp::MSG_SET, req_id, 0, 0, values_view(values@)),
        ),
        final(buf)@ == built(
            old(buf)@,
            version,
            message_bytes(version, community@, snmp::MSG_SET, req_id, 0, 0, values_view(values@)),
        ),
{
    build(version, community, snmp::MSG_SET, req_id, values, 0, 0, buf)
}

/// What the trap header of a decoded SNMPv1 trap stands for.
pub struct SpecTrapInfo {
    pub enterprise: Seq<u8>,
    pub agent_addr: Seq<u8>,
    pub generic_trap: i64,
    pub specific_trap: i64,
    pub timestamp: u32,
}

/// What a decoded message stands for. `varbinds` holds the content octets
/// of the varbind list.
pub struct SpecPdu {
    pub version: i64,
    pub community: Seq<u8>,
    pub message_type: MessageType,
    pub req_id: i32,
    pub error_status: u32,
    pub error_index: u32,
    pub varbinds: Seq<u8>,
    pub v1_trap_info: Option<SpecTrapInfo>,
}

/// The trap header of an SNMPv1 trap.
#[derive(Debug, Clone)]
pub struct V1TrapInfo<'a> {
    pub enterprise: Oid<'a>,
    pub agent_addr: [u8; 4],
    pub generic_trap: i64,
    pub specific_trap: i64,
    pub timestamp: u32,
}

impl<'a> View for V1TrapInfo<'a> {
    type V = SpecTrapInfo;

    open spec fn view(&self) -> SpecTrapInfo {
        SpecTrapInfo {
            enterprise: self.enterprise@,
            agent_addr: self.agent_addr@,
            generic_trap: self.generic_trap,
            specific_trap: self.specific_trap,
            timestamp: self.timestamp,
        }
    }
}

/// A decoded message. Community, varbinds and trap header borrow from the
/// octets it was decoded from.
#[derive(Debug, Clone)]
pub struct Pdu<'a> {
    pub version: i64,
    pub community: &'a [u8],
    pub message_type: MessageType,
    pub req_id: i32,
    pub error_status: u32,
    pub error_index: u32,
    pub varbinds: Varbinds<'a>,
    pub v1_trap_info: Option<V1TrapInfo<'a>>,
}

impl<'a> View for Pdu<'a> {
    type V = SpecPdu;

    open spec fn view(&self) -> SpecPdu {
        SpecPdu {
            version: self.version,
            community: self.community@,
            message_type: self.message_type,
            req_id: self.req_id,
            error_status: self.error_status,
            error_index: self.error_index,
            varbinds: self.varbinds@,
            v1_trap_info: match self.v1_trap_info {
                Some(info) => Some(info@),
                None => None,
            },
        }
    }
}

/// Reads the body of an SNMPv1 trap PDU: enterprise, agent address,
/// generic and specific trap, timestamp, varbind list. Only version 0
/// carries such a PDU.
pub open spec fn parse_trap_body(body: Seq<u8>, version: i64, community: Seq<u8>) -> Result<
    SpecPdu,
    Error,
> {
    if version != 0 {
        Err(Error::AsnWrongType)
    } else {
        match parse_tlv(body, asn1::TYPE_OBJECTIDENTIFIER) {
            Err(e) => Err(e),
            Ok((enterprise, r1)) => match parse_ipaddress(r1) {
                Err(e) => Err(e),
                Ok((addr, r2)) => match parse_int(r2, asn1::TYPE_INTEGER) {
                    Err(e) => Err(e),
                    Ok((generic, r3)) => match parse_int(r3, asn1::TYPE_INTEGER) {
                        Err(e) => Err(e),
                        Ok((specific, r4)) => match parse_u32(r4, snmp::TYPE_TIMETICKS) {
                            Err(e) => Err(e),
                            Ok((timestamp, r5)) => match parse_tlv(r5, asn1::TYPE_SEQUENCE) {
                                Err(e) => Err(e),
                                Ok((varbinds, _)) => Ok(
                                    SpecPdu {
                                        version,
                                        community,
                                        message_type: MessageType::TrapV1,
                                        req_id: 0,
                                        error_status: 0,
                                        error_index: 0,
                                        varbinds,
                                        v1_trap_info: Some(
                                            SpecTrapInfo {
                                                enterprise,
                                                agent_addr: addr@,
                                                generic_trap: generic,
                                                specific_trap: specific,
                                                timestamp,
                                            },
                                        ),
                                    },
                                ),
                            },
                        },
                    },
                },
            },
        }
    }
}

/// Reads an INTEGER that must lie between `low` and `high`.
pub open spec fn parse_ranged(s: Seq<u8>, low: int, high: int) -> Result<(i64, Seq<u8>), Error> {
    match parse_int(s, asn1::TYPE_INTEGER) {
        Err(e) => Err(e),
        Ok((v, rest)) => if v < low || v > high {
            Err(Error::ValueOutOfRange)
        } else {
            Ok((v, rest))
        },
    }
}

/// Reads the body of any PDU but an SNMPv1 trap: request-id within 32
/// bits, error-status and error-index between 0 and 2^31 - 1, varbind list.
pub open spec fn parse_pdu_body(
    body: Seq<u8>,
    version: i64,
    community: Seq<u8>,
    message_type: MessageType,
) -> Result<SpecPdu, Error> {
    match parse_ranged(body, i32::MIN as int, i32::MAX as int) {
        Err(e) => Err(e),
        Ok((req_id, r1)) => match parse_ranged(r1, 0, i32::MAX as int) {
            Err(e) => Err(e),
            Ok((error_status, r2)) => match parse_ranged(r2, 0, i32::MAX as int) {
                Err(e) => Err(e),
                Ok((error_index, r3)) => match parse_tlv(r3, asn1::TYPE_SEQUENCE) {
                    Err(e) => Err(e),
                    Ok((varbinds, _)) => Ok(
                        SpecPdu {
                            version,
                            community,
                            message_type,
                            req_id: req_id as i32,
                            error_status: error_status as u32,
                            error_index: error_index as u32,
                            varbinds,
                            v1_trap_info: None,
                        },
                    ),
                },
            },
        }
    }
}

/// Reads what follows the version of a community-based message:
/// community, then the PDU, told apart by its identifier octet.
pub open spec fn parse_community_frame(s: Seq<u8>, version: i64) -> Result<SpecPdu, Error> {
    match parse_tlv(s, asn1::TYPE_OCTETSTRING) {
        Err(e) => Err(e),
        Ok((community, r)) => if r.len() == 0 {
            Err(Error::AsnEof)
        } else {
            match MessageType::spec_from_ident(r[0]) {
                Err(e) => Err(e),
                Ok(message_type) => match parse_tlv(r, r[0]) {
                    Err(e) => Err(e),
                    Ok((body, _)) => if message_type == MessageType::TrapV1 {
                        parse_trap_body(body, version, community)
                    } else {
                        parse_pdu_body(body, version, community, message_type)
                    },
                },
            }
        },
    }
}

/// Reads a whole message: a SEQUENCE of version and frame. Versions other
/// than 0, 1 and 3 are unsupported; version 3 needs a security context
/// that this codec does not have.
pub open spec fn parse_message(bytes: Seq<u8>) -> Result<SpecPdu, Error> {
    match parse_tlv(bytes, asn1::TYPE_SEQUENCE) {
        Err(e) => Err(e),
        Ok((frame, _)) => match parse_int(frame, asn1::TYPE_INTEGER) {
            Err(e) => Err(e),
            Ok((version, r)) => if version != 0 && version != 1 && version != 3 {
                Err(Error::UnsupportedVersion)
            } else if version == 3 {
                Err(Error::AuthFailure(AuthErrorKind::SecurityNotProvided))
            } else {
                parse_community_frame(r, version)
            },
        },
    }
}

/// Content octets of the object identifier 1.3.6.1.6.3.11.2.1, under which
/// the message processing counters live.
pub const SNMP_MPD_STATS: [u8; 8] = [0x2b, 0x06, 0x01, 0x06, 0x03, 0x0b, 0x02, 0x01];

/// Number of sub-identifiers of `SNMP_MPD_STATS`.
pub const SNMP_MPD_STATS_OID_LEN: usize = 9;

/// Content octets of the object identifier 1.3.6.1.6.3.15.1.1, under which
/// the user-based security counters live.
pub const USM_STATS: [u8; 8] = [0x2b, 0x06, 0x01, 0x06, 0x03, 0x0f, 0x01, 0x01];

/// Number of sub-identifiers of `USM_STATS`.
pub const USM_STATS_OID_LEN: usize = 9;

/// Content octets of the object identifier 1.3.6.1.6.3.12.1, under which
/// the target counters live.
pub const TARGET_STATS: [u8; 7] = [0x2b, 0x06, 0x01, 0x06, 0x03, 0x0c, 0x01];

/// Number of sub-identifiers of `TARGET_STATS`.
pub const TARGET_STATS_OID_LEN: usize = 8;

/// The report kind that a message processing counter stands for.
pub open spec fn spec_mpd_report(arc: Option<u64>) -> ReportError {
    match arc {
        None => ReportError::NoVarbindOid,
        Some(n) => if n == 1 {
            ReportError::UnknownSecurityModel
        } else if n == 2 {
            ReportError::InvalidMessage
        } else if n == 3 {
            ReportError::BadVersion
        } else {
            ReportError::UnknownReport
        },
    }
}

/// The report kind that a user-based security counter stands for.
pub open spec fn spec_usm_report(arc: Option<u64>) -> ReportError {
    match arc {
        None => ReportError::NoVarbindOid,
        Some(n) => if n == 1 {
            ReportError::UnsupportedSecurityLevel
        } else if n == 2 {
            ReportError::NotInTimeWindow
        } else if n == 3 {
            ReportError::UnknownUserName
        } else if n == 4 {
            ReportError::UnknownEngineId
        } else if n == 5 {
            ReportError::AuthenticationFailure
        } else if n == 6 {
            ReportError::DecryptionError
        } else {
            ReportError::UnknownReport
        },
    }
}

/// The report kind that a target counter stands for.
pub open spec fn spec_target_report(arc: Option<u64>) -> ReportError {
    match arc {
        None => ReportError::NoVarbindOid,
        Some(n) => if n == 4 || n == 5 {
            ReportError::BadContext
        } else {
            ReportError::UnknownReport
        },
    }
}

/// The report kind of a Report PDU whose first varbind has the name `oid`:
/// the name is held against the three counter groups in turn, and the
/// sub-identifier that follows the group's own selects the kind.
pub open spec fn spec_report_kind(oid: Seq<u8>) -> ReportError {
    if SNMP_MPD_STATS@.is_prefix_of(oid) {
        spec_mpd_report(asn1_oid_arc(oid, SNMP_MPD_STATS_OID_LEN))
    } else if USM_STATS@.is_prefix_of(oid) {
        spec_usm_report(asn1_oid_arc(oid, USM_STATS_OID_LEN))
    } else if TARGET_STATS@.is_prefix_of(oid) {
        spec_target_report(asn1_oid_arc(oid, TARGET_STATS_OID_LEN))
    } else {
        ReportError::UnknownReport
    }
}

/// What validation of a decoded message against the expected type,
/// request-id and community gives. A Report PDU is never a success.
pub open spec fn spec_validate(
    pdu: SpecPdu,
    expected_type: MessageType,
    expected_req_id: i32,
    expected_community: Seq<u8>,
) -> Result<(), Error> {
    if pdu.message_type == MessageType::Report {
        match parse_varbind(pdu.varbinds) {
            Err(_) => Err(Error::UnexpectedReport(ReportError::NoVarbind)),
            Ok(((name, _), _)) => Err(Error::UnexpectedReport(spec_report_kind(name))),
        }
    } else if pdu.message_type != expected_type {
        Err(Error::AsnWrongType)
    } else if pdu.req_id != expected_req_id {
        Err(Error::RequestIdMismatch)
    } else if pdu.community != expected_community {
        Err(Error::CommunityMismatch)
    } else {
        Ok(())
    }
}

/// The report kind for the sub-identifier that follows `SNMP_MPD_STATS`.
pub fn mpd_report(arc: Option<u64>) -> (kind: ReportError)
    ensures
        kind == spec_mpd_report(arc),
{
    match arc {
        None => ReportError::NoVarbindOid,
        Some(1) => ReportError::UnknownSecurityModel,
        Some(2) => ReportError::InvalidMessage,
        Some(3) => ReportError::BadVersion,
        Some(_) => ReportError::UnknownReport,
    }
}

/// The report kind for the sub-identifier that follows `USM_STATS`.
pub fn usm_report(arc: Option<u64>) -> (kind: ReportError)
    ensures
        kind == spec_usm_report(arc),
{
    match arc {
        None => ReportError::NoVarbindOid,
        Some(1) => ReportError::UnsupportedSecurityLevel,
        Some(2) => ReportError::NotInTimeWindow,
        Some(3) => ReportError::UnknownUserName,
        Some(4) => ReportError::UnknownEngineId,
        Some(5) => ReportError::AuthenticationFailure,
        Some(6) => ReportError::DecryptionError,
        Some(_) => ReportError::UnknownReport,
    }
}

/// The report kind for the sub-identifier that follows `TARGET_STATS`.
pub fn target_report(arc: Option<u64>) -> (kind: ReportError)
    ensures
        kind == spec_target_report(arc),
{
    match arc {
        None => ReportError::NoVarbindOid,
        Some(4) => ReportError::BadContext,
        Some(5) => ReportError::BadContext,
        Some(_) => ReportError::UnknownReport,
    }
}

/// The report kind of a Report PDU whose first varbind is named `oid`.
pub fn report_kind(oid: &Oid) -> (kind: ReportError)
    ensures
        kind == spec_report_kind(oid@),
{
    let mpd = SNMP_MPD_STATS;
    let usm = USM_STATS;
    let target = TARGET_STATS;
    if oid.starts_with(&Oid::new(mpd.as_slice())) {
        mpd_report(oid.nth(SNMP_MPD_STATS_OID_LEN))
    } else if oid.starts_with(&Oid::new(usm.as_slice())) {
        usm_report(oid.nth(USM_STATS_OID_LEN))
    } else if oid.starts_with(&Oid::new(target.as_slice())) {
        target_report(oid.nth(TARGET_STATS_OID_LEN))
    } else {
        ReportError::UnknownReport
    }
}

/// Reads an INTEGER that must lie between `low` and `high`.
fn read_ranged(reader: &mut AsnReader, low: i64, high: i64) -> (r: Result<i64, Error>)
    ensures
        match parse_ranged(old(reader)@, low as int, high as int) {
            Ok((v, rest)) => r == Ok::<i64, Error>(v) && final(reader)@ == rest,
            Err(e) => r == Err::<i64, Error>(e),
        },
{
    match reader.read_asn_integer() {
        Err(e) => Err(e),
        Ok(v) => if v < low || v > high {
            Err(Error::ValueOutOfRange)
        } else {
            Ok(v)
        },
    }
}

impl<'a> Pdu<'a> {
    /// The protocol version of the message.
    pub fn version(&self) -> (r: Result<Version, Error>)
        ensures
            r == Version::spec_try_from(self.version),
    {
        Version::try_from(self.version)
    }

    /// Reads the body of an SNMPv1 trap PDU.
    fn parse_trap_v1(rdr: AsnReader<'a>, version: i64, community: &'a [u8]) -> (r: Result<
        Pdu<'a>,
        Error,
    >)
        ensures
            match parse_trap_body(rdr@, version, community@) {
                Ok(m) => r matches Ok(pdu) && pdu@ == m,
                Err(e) => r matches Err(x) && x == e,
            },
    {
        let mut rdr = rdr;
        if version != 0 {
            return Err(Error::AsnWrongType);
        }
        let oid = match rdr.read_asn_objectidentifier() {
            Ok(v) => v,
            Err(e) => {
                return Err(e);
            },
        };
        let addr = match rdr.read_snmp_ipaddress() {
            Ok(v) => v,
            Err(e) => {
                return Err(e);
            },
        };
        let generic_type = match rdr.read_asn_integer() {
            Ok(v) => v,
            Err(e) => {
                return Err(e);
            },
        };
        let specific_code = match rdr.read_asn_integer() {
            Ok(v) => v,
            Err(e) => {
                return Err(e);
            },
        };
        let timestamp = match rdr.read_snmp_timeticks() {
            Ok(v) => v,
            Err(e) => {
                return Err(e);
            },
        };
        let varbind_bytes = match rdr.read_raw(asn1::TYPE_SEQUENCE) {
            Ok(v) => v,
            Err(e) => {
                return Err(e);
            },
        };
        let varbinds = Varbinds::from_bytes(varbind_bytes);
        Ok(
            Pdu {
                version,
                community,
                message_type: MessageType::TrapV1,
                req_id: 0,
                error_status: 0,
                error_index: 0,
                varbinds,
                v1_trap_info: Some(
                    V1TrapInfo {
                        enterprise: oid,
                        agent_addr: addr,
                        generic_trap: generic_type,
                        specific_trap: specific_code,
                        timestamp,
                    },
                ),
            },
        )
    }

    /// Decodes a message. Community, varbinds and trap header of the result
    /// borrow from `bytes`.
    pub fn from_bytes(bytes: &'a [u8]) -> (r: Result<Pdu<'a>, Error>)
        ensures
            match parse_message(bytes@) {
                Ok(m) => r matches Ok(pdu) && pdu@ == m,
                Err(e) => r matches Err(x) && x == e,
            },
    {
        let mut outer = AsnReader::from_bytes(bytes);
        let seq = match outer.read_raw(asn1::TYPE_SEQUENCE) {
            Ok(v) => v,
            Err(e) => {
                return Err(e);
            },
        };
        let mut rdr = AsnReader::from_bytes(seq);
        let version = match rdr.read_asn_integer() {
            Ok(v) => v,
            Err(e) => {
                return Err(e);
            },
        };
        if version != 0 && version != 1 && version != 3 {
            return Err(Error::UnsupportedVersion);
        }
        if version == 3 {
            return Err(Error::AuthFailure(AuthErrorKind::SecurityNotProvided));
        }
        let community = match rdr.read_asn_octetstring() {
            Ok(v) => v,
            Err(e) => {
                return Err(e);
            },
        };
        let ident = match rdr.peek_byte() {
            Ok(v) => v,
            Err(e) => {
                return Err(e);
            },
        };
        let message_type = match MessageType::from_ident(ident) {
            Ok(v) => v,
            Err(e) => {
                return Err(e);
            },
        };
        let body = match rdr.read_raw(ident) {
            Ok(v) => v,
            Err(e) => {
                return Err(e);
            },
        };
        let mut response_pdu = AsnReader::from_bytes(body);
        if message_type == MessageType::TrapV1 {
            return Pdu::parse_trap_v1(response_pdu, version, community);
        }
        let req_id = match read_ranged(&mut response_pdu, -0x8000_0000, 0x7FFF_FFFF) {
            Ok(v) => v,
            Err(e) => {
                return Err(e);
            },
        };
        let error_status = match read_ranged(&mut response_pdu, 0, 0x7FFF_FFFF) {
            Ok(v) => v,
            Err(e) => {
                return Err(e);
            },
        };
        let error_index = match read_ranged(&mut response_pdu, 0, 0x7FFF_FFFF) {
            Ok(v) => v,
            Err(e) => {
                return Err(e);
            },
        };
        let varbind_bytes = match response_pdu.read_raw(asn1::TYPE_SEQUENCE) {
            Ok(v) => v,
            Err(e) => {
                return Err(e);
            },
        };
        let varbinds = Varbinds::from_bytes(varbind_bytes);
        Ok(
            Pdu {
                version,
                community,
                message_type,
                req_id: req_id as i32,
                error_status: error_status as u32,
                error_index: error_index as u32,
                varbinds,
                v1_trap_info: None,
            },
        )
    }

    /// Holds the message against what a reply is expected to be. A Report
    /// PDU is turned into the error it reports; else type, request-id and
    /// community are compared in this order.
    pub fn validate(
        &self,
        expected_type: MessageType,
        expected_req_id: i32,
        expected_community: &[u8],
    ) -> (r: Result<(), Error>)
        ensures
            r == spec_validate(self@, expected_type, expected_req_id, expected_community@),
    {
        if self.message_type == MessageType::Report {
            let mut varbinds = self.varbinds;
            return match varbinds.next() {
                None => Err(Error::UnexpectedReport(ReportError::NoVarbind)),
                Some((oid, _)) => Err(Error::UnexpectedReport(report_kind(&oid))),
            };
        }
        if self.message_type != expected_type {
            return Err(Error::AsnWrongType);
        }
        if self.req_id != expected_req_id {
            return Err(Error::RequestIdMismatch);
        }
        if !same_bytes(self.community, expected_community) {
            return Err(Error::CommunityMismatch);
        }
        Ok(())
    }
}

/// A message that is no Report passes validation exactly when type,
/// request-id and community are the expected ones; the first of them that
/// differs decides the error.
pub proof fn lemma_validate(
    pdu: SpecPdu,
    expected_type: MessageType,
    expected_req_id: i32,
    expected_community: Seq<u8>,
)
    requires
        pdu.message_type != MessageType::Report,
    ensures
        spec_validate(pdu, expected_type, expected_req_id, expected_community) is Ok <==> (
        pdu.message_type == expected_type && pdu.req_id == expected_req_id && pdu.community
            == expected_community),
        pdu.message_type != expected_type ==> spec_validate(
            pdu,
            expected_type,
            expected_req_id,
            expected_community,
        ) == Err::<(), Error>(Error::AsnWrongType),
        pdu.message_type == expected_type && pdu.req_id != expected_req_id ==> spec_validate(
            pdu,
            expected_type,
            expected_req_id,
            expected_community,
        ) == Err::<(), Error>(Error::RequestIdMismatch),
        pdu.message_type == expected_type && pdu.req_id == expected_req_id && pdu.community
            != expected_community ==> spec_validate(
            pdu,
            expected_type,
            expected_req_id,
            expected_community,
        ) == Err::<(), Error>(Error::CommunityMismatch),
{
}

/// A Report never passes validation, whatever is expected.
pub proof fn lemma_report_never_passes(
    pdu: SpecPdu,
    expected_type: MessageType,
    expected_req_id: i32,
    expected_community: Seq<u8>,
)
    requires
        pdu.message_type == MessageType::Report,
    ensures
        spec_validate(pdu, expected_type, expected_req_id, expected_community) matches Err(
            Error::UnexpectedReport(_),
        ),
{
}

} // verus!
