//! Decoding undoes encoding: what a builder writes is read back as the
//! fields it was built from.

use crate::asn1;
use crate::asn1::{parse_boolean, parse_counter64, parse_ipaddress, parse_null};
use crate::ber::{
    counter64_as_int, int_content, lemma_int_tlv_roundtrip, lemma_tlv_roundtrip, length_bytes,
    parse_int, parse_tlv, parse_u32, tlv,
};
use crate::buf::BUFFER_SIZE;
use crate::error::Error;
use crate::pdu::{
    integer_bytes, message_bytes, parse_community_frame, parse_message, parse_pdu_body,
    parse_ranged, pdu_bytes, varbind_bytes, varbinds_bytes, SpecPdu,
};
use crate::snmp;
use crate::value::{
    lemma_ident_roundtrip, parse_value, parse_varbind, value_bytes, varbind_items, MessageType,
    SpecValue, Version,
};
use vstd::prelude::*;

verus! {

/// An element starts with its identifier octet and is longer than its
/// content.
pub proof fn lemma_tlv_shape(tag: u8, content: Seq<u8>, rest: Seq<u8>)
    ensures
        (tlv(tag, content) + rest)[0] == tag,
        tlv(tag, content).len() >= content.len() + 2,
        (tlv(tag, content) + rest).len() == tlv(tag, content).len() + rest.len(),
{
    crate::ber::lemma_uint_content_minimal(content.len());
    assert(length_bytes(content.len()).len() >= 1);
}

/// Reading a written value gives the value back.
pub proof fn lemma_value_roundtrip(v: SpecValue, rest: Seq<u8>)
    requires
        v.wf(),
    ensures
        parse_value(value_bytes(v) + rest) == Ok::<(SpecValue, Seq<u8>), Error>((v, rest)),
{
    let s = value_bytes(v) + rest;
    match v {
        SpecValue::Boolean(b) => {
            let c = seq![if b { 1u8 } else { 0u8 }];
            lemma_tlv_shape(asn1::TYPE_BOOLEAN, c, rest);
            lemma_tlv_roundtrip(asn1::TYPE_BOOLEAN, c, rest);
        },
        SpecValue::Null => {
            lemma_tlv_shape(asn1::TYPE_NULL, Seq::empty(), rest);
            lemma_tlv_roundtrip(asn1::TYPE_NULL, Seq::empty(), rest);
        },
        SpecValue::Integer(i) => {
            lemma_tlv_shape(asn1::TYPE_INTEGER, int_content(i as int), rest);
            lemma_int_tlv_roundtrip(asn1::TYPE_INTEGER, i, rest);
        },
        SpecValue::OctetString(c) => {
            lemma_tlv_shape(asn1::TYPE_OCTETSTRING, c, rest);
            lemma_tlv_roundtrip(asn1::TYPE_OCTETSTRING, c, rest);
        },
        SpecValue::ObjectIdentifier(c) => {
            lemma_tlv_shape(asn1::TYPE_OBJECTIDENTIFIER, c, rest);
            lemma_tlv_roundtrip(asn1::TYPE_OBJECTIDENTIFIER, c, rest);
        },
        SpecValue::IpAddress(c) => {
            lemma_tlv_shape(snmp::TYPE_IPADDRESS, c, rest);
            lemma_tlv_roundtrip(snmp::TYPE_IPADDRESS, c, rest);
            let ip = [c[0], c[1], c[2], c[3]];
            assert(ip@ =~= c);
        },
        SpecValue::Counter32(n) => {
            lemma_tlv_shape(snmp::TYPE_COUNTER32, int_content(n as int), rest);
            lemma_int_tlv_roundtrip(snmp::TYPE_COUNTER32, n as i64, rest);
        },
        SpecValue::Unsigned32(n) => {
            lemma_tlv_shape(snmp::TYPE_UNSIGNED32, int_content(n as int), rest);
            lemma_int_tlv_roundtrip(snmp::TYPE_UNSIGNED32, n as i64, rest);
        },
        SpecValue::Timeticks(n) => {
            lemma_tlv_shape(snmp::TYPE_TIMETICKS, int_content(n as int), rest);
            lemma_int_tlv_roundtrip(snmp::TYPE_TIMETICKS, n as i64, rest);
        },
        SpecValue::Opaque(c) => {
            lemma_tlv_shape(snmp::TYPE_OPAQUE, c, rest);
            lemma_tlv_roundtrip(snmp::TYPE_OPAQUE, c, rest);
        },
        SpecValue::Counter64(n) => {
            lemma_tlv_shape(snmp::TYPE_COUNTER64, int_content(counter64_as_int(n)), rest);
            lemma_int_tlv_roundtrip(snmp::TYPE_COUNTER64, counter64_as_int(n) as i64, rest);
        },
        SpecValue::EndOfMibView => {
            lemma_tlv_shape(snmp::SNMP_ENDOFMIBVIEW, Seq::empty(), rest);
            lemma_tlv_roundtrip(snmp::SNMP_ENDOFMIBVIEW, Seq::empty(), rest);
        },
        SpecValue::NoSuchObject => {
            lemma_tlv_shape(snmp::SNMP_NOSUCHOBJECT, Seq::empty(), rest);
            lemma_tlv_roundtrip(snmp::SNMP_NOSUCHOBJECT, Seq::empty(), rest);
        },
        SpecValue::NoSuchInstance => {
            lemma_tlv_shape(snmp::SNMP_NOSUCHINSTANCE, Seq::empty(), rest);
            lemma_tlv_roundtrip(snmp::SNMP_NOSUCHINSTANCE, Seq::empty(), rest);
        },
    }
}

/// Whether a varbind can appear in a message: name and value fit.
pub open spec fn item_wf(item: (Seq<u8>, SpecValue)) -> bool {
    &&& item.1.wf()
    &&& varbind_bytes(item).len() <= usize::MAX
}

/// Reading a written varbind gives name and value back.
pub proof fn lemma_varbind_roundtrip(item: (Seq<u8>, SpecValue), rest: Seq<u8>)
    requires
        item_wf(item),
    ensures
        parse_varbind(varbind_bytes(item) + rest) == Ok::<
            ((Seq<u8>, SpecValue), Seq<u8>),
            Error,
        >((item, rest)),
        varbind_bytes(item).len() >= 2,
{
    let name = tlv(asn1::TYPE_OBJECTIDENTIFIER, item.0);
    let pair = name + value_bytes(item.1);
    lemma_tlv_shape(asn1::TYPE_SEQUENCE, pair, rest);
    lemma_tlv_shape(asn1::TYPE_OBJECTIDENTIFIER, item.0, value_bytes(item.1));
    lemma_tlv_roundtrip(asn1::TYPE_SEQUENCE, pair, rest);
    lemma_tlv_roundtrip(asn1::TYPE_OBJECTIDENTIFIER, item.0, value_bytes(item.1));
    lemma_value_roundtrip(item.1, Seq::empty());
    assert(value_bytes(item.1) + Seq::<u8>::empty() =~= value_bytes(item.1));
}

/// Whether varbinds can appear in a message.
pub open spec fn items_wf(items: Seq<(Seq<u8>, SpecValue)>) -> bool {
    forall|i: int| 0 <= i < items.len() ==> item_wf(#[trigger] items[i])
}

/// A list of written varbinds yields those varbinds, in order, and no
/// others.
pub proof fn lemma_varbinds_roundtrip(items: Seq<(Seq<u8>, SpecValue)>)
    requires
        items_wf(items),
    ensures
        varbind_items(varbinds_bytes(items)) == items,
    decreases items.len(),
{
    if items.len() == 0 {
        assert(varbind_items(Seq::<u8>::empty()) =~= items);
    } else {
        let rest = varbinds_bytes(items.drop_first());
        assert(item_wf(items[0]));
        assert forall|i: int| 0 <= i < items.drop_first().len() implies item_wf(
            #[trigger] items.drop_first()[i],
        ) by {
            assert(items.drop_first()[i] == items[i + 1]);
        }
        lemma_varbind_roundtrip(items[0], rest);
        lemma_varbinds_roundtrip(items.drop_first());
        assert(seq![items[0]] + items.drop_first() =~= items);
    }
}

/// Reading a written INTEGER within bounds gives it back.
proof fn lemma_ranged_roundtrip(n: i64, low: int, high: int, rest: Seq<u8>)
    requires
        low <= n <= high,
    ensures
        parse_ranged(integer_bytes(n as int) + rest, low, high) == Ok::<(i64, Seq<u8>), Error>(
            (n, rest),
        ),
{
    lemma_int_tlv_roundtrip(asn1::TYPE_INTEGER, n, rest);
}

/// The content of a PDU on the wire.
pub open spec fn body_bytes(
    req_id: i32,
    error_status: u32,
    error_index: u32,
    items: Seq<(Seq<u8>, SpecValue)>,
) -> Seq<u8> {
    integer_bytes(req_id as int) + integer_bytes(error_status as int) + integer_bytes(
        error_index as int,
    ) + tlv(asn1::TYPE_SEQUENCE, varbinds_bytes(items))
}

/// What a built message decodes to.
pub open spec fn decoded(
    version: Version,
    community: Seq<u8>,
    message_type: MessageType,
    req_id: i32,
    error_status: u32,
    error_index: u32,
    items: Seq<(Seq<u8>, SpecValue)>,
) -> SpecPdu {
    SpecPdu {
        version: version.spec_number(),
        community,
        message_type,
        req_id,
        error_status,
        error_index,
        varbinds: varbinds_bytes(items),
        v1_trap_info: None,
    }
}

/// Reading the written content of a PDU gives its fields back.
proof fn lemma_body_roundtrip(
    version: Version,
    community: Seq<u8>,
    message_type: MessageType,
    req_id: i32,
    error_status: u32,
    error_index: u32,
    items: Seq<(Seq<u8>, SpecValue)>,
)
    requires
        error_status <= i32::MAX,
        error_index <= i32::MAX,
        varbinds_bytes(items).len() <= usize::MAX,
    ensures
        parse_pdu_body(
            body_bytes(req_id, error_status, error_index, items),
            version.spec_number(),
            community,
            message_type,
        ) == Ok::<SpecPdu, Error>(
            decoded(version, community, message_type, req_id, error_status, error_index, items),
        ),
{
    let empty = Seq::<u8>::empty();
    let list = tlv(asn1::TYPE_SEQUENCE, varbinds_bytes(items));
    let i3 = integer_bytes(error_index as int);
    let i2 = integer_bytes(error_status as int);
    let i1 = integer_bytes(req_id as int);
    let body = body_bytes(req_id, error_status, error_index, items);
    assert(body =~= i1 + (i2 + (i3 + list)));
    lemma_ranged_roundtrip(req_id as i64, i32::MIN as int, i32::MAX as int, i2 + (i3 + list));
    lemma_ranged_roundtrip(error_status as i64, 0, i32::MAX as int, i3 + list);
    lemma_ranged_roundtrip(error_index as i64, 0, i32::MAX as int, list);
    assert(list + empty =~= list);
    lemma_tlv_roundtrip(asn1::TYPE_SEQUENCE, varbinds_bytes(items), empty);
}

/// Reading written community and PDU gives the PDU's fields back.
proof fn lemma_frame_roundtrip(
    version: Version,
    community: Seq<u8>,
    message_type: MessageType,
    body: Seq<u8>,
    expected: SpecPdu,
)
    requires
        message_type != MessageType::TrapV1,
        community.len() <= usize::MAX,
        body.len() <= usize::MAX,
        parse_pdu_body(body, version.spec_number(), community, message_type) == Ok::<
            SpecPdu,
            Error,
        >(expected),
    ensures
        parse_community_frame(
            tlv(asn1::TYPE_OCTETSTRING, community) + tlv(message_type.spec_ident(), body),
            version.spec_number(),
        ) == Ok::<SpecPdu, Error>(expected),
{
    let empty = Seq::<u8>::empty();
    let ident = message_type.spec_ident();
    let pdu = tlv(ident, body);
    lemma_tlv_roundtrip(asn1::TYPE_OCTETSTRING, community, pdu);
    lemma_tlv_shape(ident, body, empty);
    assert(pdu + empty =~= pdu);
    lemma_tlv_roundtrip(ident, body, empty);
    lemma_ident_roundtrip(message_type);
}

/// Reading a written message gives the fields of its frame back.
proof fn lemma_outer_roundtrip(version: Version, rest: Seq<u8>, expected: SpecPdu)
    requires
        version != Version::V3,
        (integer_bytes(version.spec_number() as int) + rest).len() <= usize::MAX,
        parse_community_frame(rest, version.spec_number()) == Ok::<SpecPdu, Error>(expected),
    ensures
        parse_message(
            tlv(asn1::TYPE_SEQUENCE, integer_bytes(version.spec_number() as int) + rest),
        ) == Ok::<SpecPdu, Error>(expected),
{
    let empty = Seq::<u8>::empty();
    let frame = integer_bytes(version.spec_number() as int) + rest;
    let message = tlv(asn1::TYPE_SEQUENCE, frame);
    assert(message + empty =~= message);
    lemma_tlv_roundtrip(asn1::TYPE_SEQUENCE, frame, empty);
    lemma_int_tlv_roundtrip(asn1::TYPE_INTEGER, version.spec_number(), rest);
}

/// Decoding a built message gives back the fields it was built from, and
/// its varbind list yields the varbinds it was built from: for every
/// message of a community-based version that fits the encode buffer, whose
/// PDU is no SNMPv1 trap, whose two integers are within the range of a
/// reply's error-status and error-index, and whose values can be encoded.
pub proof fn lemma_message_roundtrip(
    version: Version,
    community: Seq<u8>,
    message_type: MessageType,
    req_id: i32,
    error_status: u32,
    error_index: u32,
    items: Seq<(Seq<u8>, SpecValue)>,
)
    requires
        version != Version::V3,
        message_type != MessageType::TrapV1,
        error_status <= i32::MAX,
        error_index <= i32::MAX,
        forall|i: int| 0 <= i < items.len() ==> (#[trigger] items[i]).1.wf(),
        message_bytes(
            version,
            community,
            message_type.spec_ident(),
            req_id,
            error_status,
            error_index,
            items,
        ).len() <= BUFFER_SIZE,
    ensures
        parse_message(
            message_bytes(
                version,
                community,
                message_type.spec_ident(),
                req_id,
                error_status,
                error_index,
                items,
            ),
        ) == Ok::<SpecPdu, Error>(
            decoded(version, community, message_type, req_id, error_status, error_index, items),
        ),
        varbind_items(varbinds_bytes(items)) == items,
{
    let ident = message_type.spec_ident();
    let body = body_bytes(req_id, error_status, error_index, items);
    let pdu = tlv(ident, body);
    let comm = tlv(asn1::TYPE_OCTETSTRING, community);
    let ver = integer_bytes(version.spec_number() as int);
    let frame = ver + comm + pdu;
    let empty = Seq::<u8>::empty();
    let expected = decoded(
        version,
        community,
        message_type,
        req_id,
        error_status,
        error_index,
        items,
    );
    assert(pdu == pdu_bytes(ident, req_id, error_status, error_index, items));
    // Every part is shorter than the whole.
    lemma_tlv_shape(asn1::TYPE_SEQUENCE, frame, empty);
    lemma_tlv_shape(ident, body, empty);
    lemma_tlv_shape(asn1::TYPE_OCTETSTRING, community, pdu);
    lemma_tlv_shape(asn1::TYPE_SEQUENCE, varbinds_bytes(items), empty);
    assert(frame.len() == ver.len() + comm.len() + pdu.len());
    assert(body.len() >= tlv(asn1::TYPE_SEQUENCE, varbinds_bytes(items)).len());
    assert forall|i: int| 0 <= i < items.len() implies item_wf(#[trigger] items[i]) by {
        lemma_varbind_within(items, i);
    }
    lemma_varbinds_roundtrip(items);
    lemma_body_roundtrip(
        version,
        community,
        message_type,
        req_id,
        error_status,
        error_index,
        items,
    );
    lemma_frame_roundtrip(version, community, message_type, body, expected);
    assert(frame =~= ver + (comm + pdu));
    lemma_outer_roundtrip(version, comm + pdu, expected);
}

/// A list of varbinds is at least as long as each of its varbinds.
proof fn lemma_varbind_within(items: Seq<(Seq<u8>, SpecValue)>, i: int)
    requires
        0 <= i < items.len(),
    ensures
        varbind_bytes(items[i]).len() <= varbinds_bytes(items).len(),
    decreases items.len(),
{
    if i > 0 {
        lemma_varbind_within(items.drop_first(), i - 1);
    }
}

} // verus!
