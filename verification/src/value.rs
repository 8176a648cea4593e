//! Protocol versions, PDU types, the values a varbind can carry, and the
//! lazy list of varbinds.

use crate::asn1;
use crate::asn1::{parse_boolean, parse_counter64, parse_ipaddress, parse_null, AsnReader};
use crate::ber::{counter64_as_int, int_content, parse_int, parse_tlv, parse_u32, tlv};
use crate::error::Error;
use crate::oid::Oid;
use crate::snmp;
use vstd::prelude::*;

verus! {

/// Protocol version of a message.
#[derive(Debug, Clone, Copy, PartialEq, Eq, Structural)]
pub enum Version {
    V1,
    V2C,
    V3,
}

impl Version {
    /// The version number on the wire: 0, 1 or 3.
    pub open spec fn spec_number(self) -> i64 {
        match self {
            Version::V1 => 0,
            Version::V2C => 1,
            Version::V3 => 3,
        }
    }

    /// The version number on the wire: 0, 1 or 3.
    #[verifier::when_used_as_spec(spec_number)]
    pub fn number(self) -> (n: i64)
        ensures
            n == self.spec_number(),
    {
        match self {
            Version::V1 => 0,
            Version::V2C => 1,
            Version::V3 => 3,
        }
    }

    /// The version with the given number on the wire.
    pub fn try_from(value: i64) -> (r: Result<Version, Error>)
        ensures
            r == Version::spec_try_from(value),
    {
        if value == 0 {
            Ok(Version::V1)
        } else if value == 1 {
            Ok(Version::V2C)
        } else if value == 3 {
            Ok(Version::V3)
        } else {
            Err(Error::UnsupportedVersion)
        }
    }

    /// The version with the given number on the wire.
    pub open spec fn spec_try_from(value: i64) -> Result<Version, Error> {
        if value == 0 {
            Ok(Version::V1)
        } else if value == 1 {
            Ok(Version::V2C)
        } else if value == 3 {
            Ok(Version::V3)
        } else {
            Err(Error::UnsupportedVersion)
        }
    }
}

/// Type of a PDU.
#[derive(Debug, Clone, Copy, PartialEq, Eq, Structural)]
pub enum MessageType {
    Get,
    GetNext,
    GetBulk,
    SetRequest,
    Response,
    TrapV1,
    TrapV2,
    InformRequest,
    Report,
}

impl MessageType {
    /// The identifier octet of the PDU type.
    pub open spec fn spec_ident(self) -> u8 {
        match self {
            MessageType::Get => snmp::MSG_GET,
            MessageType::GetNext => snmp::MSG_GET_NEXT,
            MessageType::Response => snmp::MSG_RESPONSE,
            MessageType::SetRequest => snmp::MSG_SET,
            MessageType::TrapV1 => snmp::MSG_TRAP_V1,
            MessageType::GetBulk => snmp::MSG_GET_BULK,
            MessageType::InformRequest => snmp::MSG_INFORM,
            MessageType::TrapV2 => snmp::MSG_TRAP_V2,
            MessageType::Report => snmp::MSG_REPORT,
        }
    }

    /// The identifier octet of the PDU type.
    #[verifier::when_used_as_spec(spec_ident)]
    pub fn ident(self) -> (ident: u8)
        ensures
            ident == self.spec_ident(),
    {
        match self {
            MessageType::Get => snmp::MSG_GET,
            MessageType::GetNext => snmp::MSG_GET_NEXT,
            MessageType::Response => snmp::MSG_RESPONSE,
            MessageType::SetRequest => snmp::MSG_SET,
            MessageType::TrapV1 => snmp::MSG_TRAP_V1,
            MessageType::GetBulk => snmp::MSG_GET_BULK,
            MessageType::InformRequest => snmp::MSG_INFORM,
            MessageType::TrapV2 => snmp::MSG_TRAP_V2,
            MessageType::Report => snmp::MSG_REPORT,
        }
    }

    /// The PDU type with the given identifier octet.
    pub open spec fn spec_from_ident(ident: u8) -> Result<MessageType, Error> {
        if ident == snmp::MSG_GET {
            Ok(MessageType::Get)
        } else if ident == snmp::MSG_GET_NEXT {
            Ok(MessageType::GetNext)
        } else if ident == snmp::MSG_RESPONSE {
            Ok(MessageType::Response)
        } else if ident == snmp::MSG_SET {
            Ok(MessageType::SetRequest)
        } else if ident == snmp::MSG_TRAP_V1 {
            Ok(MessageType::TrapV1)
        } else if ident == snmp::MSG_GET_BULK {
            Ok(MessageType::GetBulk)
        } else if ident == snmp::MSG_INFORM {
            Ok(MessageType::InformRequest)
        } else if ident == snmp::MSG_TRAP_V2 {
            Ok(MessageType::TrapV2)
        } else if ident == snmp::MSG_REPORT {
            Ok(MessageType::Report)
        } else {
            Err(Error::AsnWrongType)
        }
    }

    /// The PDU type with the given identifier octet.
    pub fn from_ident(ident: u8) -> (r: Result<MessageType, Error>)
        ensures
            r == MessageType::spec_from_ident(ident),
    {
        if ident == snmp::MSG_GET {
            Ok(MessageType::Get)
        } else if ident == snmp::MSG_GET_NEXT {
            Ok(MessageType::GetNext)
        } else if ident == snmp::MSG_RESPONSE {
            Ok(MessageType::Response)
        } else if ident == snmp::MSG_SET {
            Ok(MessageType::SetRequest)
        } else if ident == snmp::MSG_TRAP_V1 {
            Ok(MessageType::TrapV1)
        } else if ident == snmp::MSG_GET_BULK {
            Ok(MessageType::GetBulk)
        } else if ident == snmp::MSG_INFORM {
            Ok(MessageType::InformRequest)
        } else if ident == snmp::MSG_TRAP_V2 {
            Ok(MessageType::TrapV2)
        } else if ident == snmp::MSG_REPORT {
            Ok(MessageType::Report)
        } else {
            Err(Error::AsnWrongType)
        }
    }
}

/// Identifier octet and PDU type determine each other.
pub proof fn lemma_ident_roundtrip(t: MessageType)
    ensures
        MessageType::spec_from_ident(t.spec_ident()) == Ok::<MessageType, Error>(t),
{
}

/// A value that a varbind carries. Octet strings, opaque values and object
/// identifiers of a decoded message borrow from it.
#[derive(Debug, Clone, PartialEq, Eq)]
pub enum Value<'a> {
    Boolean(bool),
    Null,
    Integer(i64),
    OctetString(&'a [u8]),
    ObjectIdentifier(Oid<'a>),
    IpAddress([u8; 4]),
    Counter32(u32),
    Unsigned32(u32),
    Timeticks(u32),
    Opaque(&'a [u8]),
    Counter64(u64),
    EndOfMibView,
    NoSuchObject,
    NoSuchInstance,
}

/// What a `Value` stands for, with octets in place of borrowed slices.
pub enum SpecValue {
    Boolean(bool),
    Null,
    Integer(i64),
    OctetString(Seq<u8>),
    ObjectIdentifier(Seq<u8>),
    IpAddress(Seq<u8>),
    Counter32(u32),
    Unsigned32(u32),
    Timeticks(u32),
    Opaque(Seq<u8>),
    Counter64(u64),
    EndOfMibView,
    NoSuchObject,
    NoSuchInstance,
}

impl<'a> View for Value<'a> {
    type V = SpecValue;

    open spec fn view(&self) -> SpecValue {
        match *self {
            Value::Boolean(b) => SpecValue::Boolean(b),
            Value::Null => SpecValue::Null,
            Value::Integer(i) => SpecValue::Integer(i),
            Value::OctetString(s) => SpecValue::OctetString(s@),
            Value::ObjectIdentifier(oid) => SpecValue::ObjectIdentifier(oid@),
            Value::IpAddress(ip) => SpecValue::IpAddress(ip@),
            Value::Counter32(n) => SpecValue::Counter32(n),
            Value::Unsigned32(n) => SpecValue::Unsigned32(n),
            Value::Timeticks(n) => SpecValue::Timeticks(n),
            Value::Opaque(s) => SpecValue::Opaque(s@),
            Value::Counter64(n) => SpecValue::Counter64(n),
            Value::EndOfMibView => SpecValue::EndOfMibView,
            Value::NoSuchObject => SpecValue::NoSuchObject,
            Value::NoSuchInstance => SpecValue::NoSuchInstance,
        }
    }
}

impl SpecValue {
    /// Whether the value can appear in a message: an IpAddress has four
    /// octets, and content fits the machine word.
    pub open spec fn wf(self) -> bool {
        match self {
            SpecValue::OctetString(s) => s.len() <= usize::MAX,
            SpecValue::ObjectIdentifier(s) => s.len() <= usize::MAX,
            SpecValue::Opaque(s) => s.len() <= usize::MAX,
            SpecValue::IpAddress(s) => s.len() == 4,
            _ => true,
        }
    }
}

/// The element that encodes a value.
pub open spec fn value_bytes(v: SpecValue) -> Seq<u8> {
    match v {
        SpecValue::Boolean(b) => tlv(asn1::TYPE_BOOLEAN, seq![if b { 1u8 } else { 0u8 }]),
        SpecValue::Null => tlv(asn1::TYPE_NULL, Seq::empty()),
        SpecValue::Integer(i) => tlv(asn1::TYPE_INTEGER, int_content(i as int)),
        SpecValue::OctetString(s) => tlv(asn1::TYPE_OCTETSTRING, s),
        SpecValue::ObjectIdentifier(s) => tlv(asn1::TYPE_OBJECTIDENTIFIER, s),
        SpecValue::IpAddress(s) => tlv(snmp::TYPE_IPADDRESS, s),
        SpecValue::Counter32(n) => tlv(snmp::TYPE_COUNTER32, int_content(n as int)),
        SpecValue::Unsigned32(n) => tlv(snmp::TYPE_UNSIGNED32, int_content(n as int)),
        SpecValue::Timeticks(n) => tlv(snmp::TYPE_TIMETICKS, int_content(n as int)),
        SpecValue::Opaque(s) => tlv(snmp::TYPE_OPAQUE, s),
        SpecValue::Counter64(n) => tlv(snmp::TYPE_COUNTER64, int_content(counter64_as_int(n))),
        SpecValue::EndOfMibView => tlv(snmp::SNMP_ENDOFMIBVIEW, Seq::empty()),
        SpecValue::NoSuchObject => tlv(snmp::SNMP_NOSUCHOBJECT, Seq::empty()),
        SpecValue::NoSuchInstance => tlv(snmp::SNMP_NOSUCHINSTANCE, Seq::empty()),
    }
}

/// Pairs a successful read with a value.
pub open spec fn with_value<T>(
    r: Result<(T, Seq<u8>), Error>,
    f: spec_fn(T) -> SpecValue,
) -> Result<(SpecValue, Seq<u8>), Error> {
    match r {
        Ok((x, rest)) => Ok((f(x), rest)),
        Err(e) => Err(e),
    }
}

/// Reads one value from the front of `s`, told apart by its identifier
/// octet: the value and what follows it.
pub open spec fn parse_value(s: Seq<u8>) -> Result<(SpecValue, Seq<u8>), Error> {
    if s.len() == 0 {
        Err(Error::AsnEof)
    } else if s[0] == asn1::TYPE_BOOLEAN {
        with_value(parse_boolean(s), |b: bool| SpecValue::Boolean(b))
    } else if s[0] == asn1::TYPE_NULL {
        match parse_null(s) {
            Ok(rest) => Ok((SpecValue::Null, rest)),
            Err(e) => Err(e),
        }
    } else if s[0] == asn1::TYPE_INTEGER {
        with_value(parse_int(s, asn1::TYPE_INTEGER), |i: i64| SpecValue::Integer(i))
    } else if s[0] == asn1::TYPE_OCTETSTRING {
        with_value(parse_tlv(s, asn1::TYPE_OCTETSTRING), |c: Seq<u8>| SpecValue::OctetString(c))
    } else if s[0] == asn1::TYPE_OBJECTIDENTIFIER {
        with_value(
            parse_tlv(s, asn1::TYPE_OBJECTIDENTIFIER),
            |c: Seq<u8>| SpecValue::ObjectIdentifier(c),
        )
    } else if s[0] == snmp::TYPE_IPADDRESS {
        with_value(parse_ipaddress(s), |ip: [u8; 4]| SpecValue::IpAddress(ip@))
    } else if s[0] == snmp::TYPE_COUNTER32 {
        with_value(parse_u32(s, snmp::TYPE_COUNTER32), |n: u32| SpecValue::Counter32(n))
    } else if s[0] == snmp::TYPE_UNSIGNED32 {
        with_value(parse_u32(s, snmp::TYPE_UNSIGNED32), |n: u32| SpecValue::Unsigned32(n))
    } else if s[0] == snmp::TYPE_TIMETICKS {
        with_value(parse_u32(s, snmp::TYPE_TIMETICKS), |n: u32| SpecValue::Timeticks(n))
    } else if s[0] == snmp::TYPE_OPAQUE {
        with_value(parse_tlv(s, snmp::TYPE_OPAQUE), |c: Seq<u8>| SpecValue::Opaque(c))
    } else if s[0] == snmp::TYPE_COUNTER64 {
        with_value(parse_counter64(s), |n: u64| SpecValue::Counter64(n))
    } else if s[0] == snmp::SNMP_NOSUCHOBJECT {
        with_value(parse_tlv(s, snmp::SNMP_NOSUCHOBJECT), |c: Seq<u8>| SpecValue::NoSuchObject)
    } else if s[0] == snmp::SNMP_NOSUCHINSTANCE {
        with_value(
            parse_tlv(s, snmp::SNMP_NOSUCHINSTANCE),
            |c: Seq<u8>| SpecValue::NoSuchInstance,
        )
    } else if s[0] == snmp::SNMP_ENDOFMIBVIEW {
        with_value(parse_tlv(s, snmp::SNMP_ENDOFMIBVIEW), |c: Seq<u8>| SpecValue::EndOfMibView)
    } else {
        Err(Error::AsnUnexpectedType)
    }
}

/// Reads one varbind from the front of `s`: a SEQUENCE of an object
/// identifier and a value. Gives the identifier's content, the value, and
/// what follows the SEQUENCE.
pub open spec fn parse_varbind(s: Seq<u8>) -> Result<((Seq<u8>, SpecValue), Seq<u8>), Error> {
    match parse_tlv(s, asn1::TYPE_SEQUENCE) {
        Err(e) => Err(e),
        Ok((pair, rest)) => match parse_tlv(pair, asn1::TYPE_OBJECTIDENTIFIER) {
            Err(e) => Err(e),
            Ok((name, after_name)) => match parse_value(after_name) {
                Err(e) => Err(e),
                Ok((value, _)) => Ok(((name, value), rest)),
            },
        },
    }
}

/// The varbinds that a list yields: those read from the front of `s` up to
/// its end or the first one that cannot be read.
pub open spec fn varbind_items(s: Seq<u8>) -> Seq<(Seq<u8>, SpecValue)>
    decreases s.len(),
{
    match parse_varbind(s) {
        Err(_) => Seq::empty(),
        Ok((item, rest)) => if rest.len() < s.len() {
            seq![item] + varbind_items(rest)
        } else {
            Seq::empty()
        },
    }
}

impl<'a> AsnReader<'a> {
    /// Consumes one value, told apart by its identifier octet.
    pub fn read_value(&mut self) -> (r: Result<Value<'a>, Error>)
        ensures
            match parse_value(old(self)@) {
                Ok((v, rest)) => r matches Ok(x) && x@ == v && final(self)@ == rest,
                Err(e) => r matches Err(x) && x == e && final(self)@ == old(self)@,
            },
    {
        let ident = match self.peek_byte() {
            Ok(b) => b,
            Err(e) => {
                return Err(e);
            },
        };
        if ident == asn1::TYPE_BOOLEAN {
            match self.read_asn_boolean() {
                Ok(b) => Ok(Value::Boolean(b)),
                Err(e) => Err(e),
            }
        } else if ident == asn1::TYPE_NULL {
            match self.read_asn_null() {
                Ok(_) => Ok(Value::Null),
                Err(e) => Err(e),
            }
        } else if ident == asn1::TYPE_INTEGER {
            match self.read_asn_integer() {
                Ok(i) => Ok(Value::Integer(i)),
                Err(e) => Err(e),
            }
        } else if ident == asn1::TYPE_OCTETSTRING {
            match self.read_asn_octetstring() {
                Ok(s) => Ok(Value::OctetString(s)),
                Err(e) => Err(e),
            }
        } else if ident == asn1::TYPE_OBJECTIDENTIFIER {
            match self.read_asn_objectidentifier() {
                Ok(oid) => Ok(Value::ObjectIdentifier(oid)),
                Err(e) => Err(e),
            }
        } else if ident == snmp::TYPE_IPADDRESS {
            match self.read_snmp_ipaddress() {
                Ok(ip) => Ok(Value::IpAddress(ip)),
                Err(e) => Err(e),
            }
        } else if ident == snmp::TYPE_COUNTER32 {
            match self.read_snmp_counter32() {
                Ok(n) => Ok(Value::Counter32(n)),
                Err(e) => Err(e),
            }
        } else if ident == snmp::TYPE_UNSIGNED32 {
            match self.read_snmp_unsigned32() {
                Ok(n) => Ok(Value::Unsigned32(n)),
                Err(e) => Err(e),
            }
        } else if ident == snmp::TYPE_TIMETICKS {
            match self.read_snmp_timeticks() {
                Ok(n) => Ok(Value::Timeticks(n)),
                Err(e) => Err(e),
            }
        } else if ident == snmp::TYPE_OPAQUE {
            match self.read_snmp_opaque() {
                Ok(s) => Ok(Value::Opaque(s)),
                Err(e) => Err(e),
            }
        } else if ident == snmp::TYPE_COUNTER64 {
            match self.read_snmp_counter64() {
                Ok(n) => Ok(Value::Counter64(n)),
                Err(e) => Err(e),
            }
        } else if ident == snmp::SNMP_NOSUCHOBJECT {
            match self.read_raw(ident) {
                Ok(_) => Ok(Value::NoSuchObject),
                Err(e) => Err(e),
            }
        } else if ident == snmp::SNMP_NOSUCHINSTANCE {
            match self.read_raw(ident) {
                Ok(_) => Ok(Value::NoSuchInstance),
                Err(e) => Err(e),
            }
        } else if ident == snmp::SNMP_ENDOFMIBVIEW {
            match self.read_raw(ident) {
                Ok(_) => Ok(Value::EndOfMibView),
                Err(e) => Err(e),
            }
        } else {
            Err(Error::AsnUnexpectedType)
        }
    }
}

/// The varbinds of a PDU: a cursor over the content of its varbind list.
/// Nothing is decoded until it is asked for, and a copy of the cursor reads
/// the same varbinds again.
#[derive(Debug, Clone, Copy)]
pub struct Varbinds<'a> {
    inner: AsnReader<'a>,
}

impl<'a> View for Varbinds<'a> {
    type V = Seq<u8>;

    closed spec fn view(&self) -> Seq<u8> {
        self.inner@
    }
}

impl<'a> Varbinds<'a> {
    /// The varbinds in the content octets of a varbind list.
    pub fn from_bytes(bytes: &'a [u8]) -> (varbinds: Varbinds<'a>)
        ensures
            varbinds@ == bytes@,
    {
        Varbinds { inner: AsnReader::from_bytes(bytes) }
    }

    /// The octets of the list that are still unread.
    pub fn remaining(&self) -> (bytes: &'a [u8])
        ensures
            bytes@ == self@,
    {
        self.inner.remaining()
    }

    /// Reads the next varbind: exactly one SEQUENCE is consumed. A failure
    /// says why and leaves the cursor where it was.
    pub fn read_varbind(&mut self) -> (r: Result<(Oid<'a>, Value<'a>), Error>)
        ensures
            match parse_varbind(old(self)@) {
                Ok(((name, value), rest)) => r matches Ok((oid, v)) && oid@ == name && v@ == value
                    && final(self)@ == rest,
                Err(e) => r matches Err(x) && x == e && final(self)@ == old(self)@,
            },
    {
        let mut cursor = AsnReader::from_bytes(self.inner.remaining());
        let pair = match cursor.read_raw(asn1::TYPE_SEQUENCE) {
            Ok(p) => p,
            Err(e) => {
                return Err(e);
            },
        };
        let mut pair_reader = AsnReader::from_bytes(pair);
        let name = match pair_reader.read_asn_objectidentifier() {
            Ok(oid) => oid,
            Err(e) => {
                return Err(e);
            },
        };
        let value = match pair_reader.read_value() {
            Ok(v) => v,
            Err(e) => {
                return Err(e);
            },
        };
        self.inner = cursor;
        Ok((name, value))
    }

    /// All varbinds from the cursor on, in order. The cursor itself does
    /// not move.
    pub fn to_vec(&self) -> (items: Vec<(Oid<'a>, Value<'a>)>)
        ensures
            items@.len() == varbind_items(self@).len(),
            forall|i: int|
                0 <= i < items@.len() ==> (items@[i].0@, items@[i].1@) == varbind_items(self@)[i],
    {
        let mut cursor = Varbinds { inner: self.inner };
        let mut items: Vec<(Oid<'a>, Value<'a>)> = Vec::new();
        loop
            invariant
                varbind_items(self@).len() == items@.len() + varbind_items(cursor@).len(),
                forall|i: int|
                    0 <= i < items@.len() ==> (items@[i].0@, items@[i].1@) == varbind_items(
                        self@,
                    )[i],
                forall|i: int|
                    0 <= i < varbind_items(cursor@).len() ==> varbind_items(cursor@)[i]
                        == varbind_items(self@)[items@.len() + i],
            ensures
                items@.len() == varbind_items(self@).len(),
                forall|i: int|
                    0 <= i < items@.len() ==> (items@[i].0@, items@[i].1@) == varbind_items(
                        self@,
                    )[i],
            decreases cursor@.len(),
        {
            let ghost before = cursor@;
            proof {
                lemma_step_takes_first(before);
            }
            match cursor.next() {
                None => {
                    break;
                },
                Some(item) => {
                    proof {
                        let rest = varbind_items(cursor@);
                        let all = varbind_items(before);
                        assert(all[0] == (item.0@, item.1@));
                        assert forall|i: int| 0 <= i < rest.len() implies rest[i] == varbind_items(
                            self@,
                        )[items@.len() + 1 + i] by {
                            assert(rest[i] == all[i + 1]);
                        }
                    }
                    items.push(item);
                },
            }
        }
        items
    }

    /// The next varbind, or `None` at the end of the list and at a varbind
    /// that cannot be read; the cursor then stays where it is.
    pub fn next(&mut self) -> (r: Option<(Oid<'a>, Value<'a>)>)
        ensures
            match parse_varbind(old(self)@) {
                Ok(((name, value), rest)) => r matches Some((oid, v)) && oid@ == name && v@
                    == value && final(self)@ == rest,
                Err(_) => r is None && final(self)@ == old(self)@,
            },
    {
        match self.read_varbind() {
            Ok(item) => Some(item),
            Err(_) => None,
        }
    }
}

/// Two cursors over the same octets yield the same varbinds from there on:
/// a copy of a cursor, taken at any step, reads the same tail.
pub proof fn lemma_copy_reads_same_tail(a: Varbinds, b: Varbinds)
    requires
        a@ == b@,
    ensures
        parse_varbind(a@) == parse_varbind(b@),
        varbind_items(a@) == varbind_items(b@),
{
}

/// A step of the cursor takes the first of the varbinds it yields and
/// leaves the others: one SEQUENCE is consumed, neither more nor less.
pub proof fn lemma_step_takes_first(s: Seq<u8>)
    ensures
        match parse_varbind(s) {
            Ok((item, rest)) => {
                &&& varbind_items(s) == seq![item] + varbind_items(rest)
                &&& rest.len() < s.len()
                &&& parse_tlv(s, asn1::TYPE_SEQUENCE) matches Ok((_, after)) && after == rest
            },
            Err(_) => varbind_items(s) == Seq::<(Seq<u8>, SpecValue)>::empty(),
        },
{
    if let Ok((pair, rest)) = parse_tlv(s, asn1::TYPE_SEQUENCE) {
        assert(rest.len() < s.len());
    }
}

} // verus!
