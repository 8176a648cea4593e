//! Varbinds as `rasn_snmp` values, for callers that work with the `rasn`
//! family of crates.

use crate::asn1;
use crate::asn1::AsnReader;
use crate::ber::{parse_length, parse_tlv};
use crate::error::Error;
use crate::oid::{arcs_accepted, asn1_oid_bytes, Oid, MAX_OID_LEN};
use crate::value::Varbinds;
use vstd::prelude::*;
use vstd::slice::slice_subrange;

verus! {

/// `rasn::types::ObjectIdentifier`, the name of a `rasn_snmp` varbind. It
/// is carried through; nothing is read from it.
#[verifier::external_type_specification]
#[verifier::external_body]
pub struct ExObjectIdentifier(rasn::types::ObjectIdentifier);

/// `rasn_snmp::v2::VarBindValue`, the value of a `rasn_snmp` varbind. It is
/// carried through; nothing is read from it.
#[verifier::external_type_specification]
#[verifier::external_body]
pub struct ExVarBindValue(rasn_snmp::v2::VarBindValue);

/// `rasn_snmp::v2::VarBind`, with its two public fields `name` and `value`
/// as the crate declares them, so that a varbind can be put together here.
#[verifier::external_type_specification]
pub struct ExVarBind(rasn_snmp::v2::VarBind);

/// What `rasn::ber::decode` reads as an object name from the front of
/// octets, if it reads one.
pub uninterp spec fn rasn_name(input: Seq<u8>) -> Option<rasn::types::ObjectIdentifier>;

/// What `rasn::ber::decode` reads as a varbind value from the front of
/// octets, if it reads one.
pub uninterp spec fn rasn_value(input: Seq<u8>) -> Option<rasn_snmp::v2::VarBindValue>;

/// Calls `rasn::ber::decode` for an object name. It reads one element from
/// the front of `input` and ignores what follows.
#[verifier::external_body]
fn rasn_decode_name(input: &[u8]) -> (r: Option<rasn::types::ObjectIdentifier>)
    ensures
        r == rasn_name(input@),
{
    rasn::ber::decode::<rasn_snmp::v2::ObjectName>(input).ok()
}

/// Calls `rasn::ber::decode` for a varbind value. It reads one element
/// from the front of `input` and ignores what follows.
#[verifier::external_body]
fn rasn_decode_value(input: &[u8]) -> (r: Option<rasn_snmp::v2::VarBindValue>)
    ensures
        r == rasn_value(input@),
{
    rasn::ber::decode::<rasn_snmp::v2::VarBindValue>(input).ok()
}

/// Where the value of a varbind starts in the content of its SEQUENCE:
/// behind the name, whose header is taken to have two octets for a length
/// below 128 and three otherwise.
pub open spec fn value_offset(pair: Seq<u8>) -> Option<int> {
    if pair.len() == 0 {
        None
    } else {
        match parse_length(pair.skip(1)) {
            Err(_) => None,
            Ok((n, _)) => {
                let offset = 1 + (if n < 128 { 1int } else { 2int }) + n;
                if offset <= pair.len() {
                    Some(offset)
                } else {
                    None
                }
            },
        }
    }
}

/// The `rasn_snmp` varbind in the content of a varbind's SEQUENCE.
pub open spec fn rasn_varbind(pair: Seq<u8>) -> Option<rasn_snmp::v2::VarBind> {
    match (rasn_name(pair), value_offset(pair)) {
        (Some(name), Some(offset)) => match rasn_value(pair.skip(offset)) {
            Some(value) => Some(rasn_snmp::v2::VarBind { name, value }),
            None => None,
        },
        _ => None,
    }
}

/// Varbinds of a message, read as `rasn_snmp` values.
pub struct RasnInterator<'a> {
    inner: AsnReader<'a>,
}

impl<'a> View for RasnInterator<'a> {
    type V = Seq<u8>;

    closed spec fn view(&self) -> Seq<u8> {
        self.inner@
    }
}

/// Turns a list of varbinds into one that yields `rasn_snmp` values.
pub trait IntoRasnIterator<'a>: Sized {
    /// The octets of the list.
    spec fn list_bytes(self) -> Seq<u8>;

    fn into_rasn_iter(self) -> (iter: RasnInterator<'a>)
        ensures
            iter@ == self.list_bytes(),
    ;
}

impl<'a> IntoRasnIterator<'a> for Varbinds<'a> {
    open spec fn list_bytes(self) -> Seq<u8> {
        self@
    }

    fn into_rasn_iter(self) -> (iter: RasnInterator<'a>) {
        RasnInterator { inner: AsnReader::from_bytes(self.remaining()) }
    }
}

impl<'a> RasnInterator<'a> {
    /// The next varbind. One SEQUENCE is consumed if it holds a name and a
    /// value that `rasn` can read; else the result is `None` and the cursor
    /// stays where it is.
    pub fn next(&mut self) -> (r: Option<rasn_snmp::v2::VarBind>)
        ensures
            match parse_tlv(old(self)@, asn1::TYPE_SEQUENCE) {
                Err(_) => r is None && final(self)@ == old(self)@,
                Ok((pair, rest)) => r == rasn_varbind(pair) && final(self)@ == (if r is Some {
                    rest
                } else {
                    old(self)@
                }),
            },
    {
        let mut cursor = AsnReader::from_bytes(self.inner.remaining());
        let pair = match cursor.read_raw(asn1::TYPE_SEQUENCE) {
            Ok(p) => p,
            Err(_) => {
                return None;
            },
        };
        let name = match rasn_decode_name(pair) {
            Some(n) => n,
            None => {
                return None;
            },
        };
        let mut tmp_reader = AsnReader::from_bytes(pair);
        if tmp_reader.read_byte().is_err() {
            return None;
        }
        let payload_len = match tmp_reader.read_length() {
            Ok(n) => n,
            Err(_) => {
                return None;
            },
        };
        let header_len: usize = if payload_len < 128 {
            2
        } else {
            3
        };
        if payload_len > pair.len() || header_len > pair.len() - payload_len {
            return None;
        }
        let value = match rasn_decode_value(
            slice_subrange(pair, header_len + payload_len, pair.len()),
        ) {
            Some(v) => v,
            None => {
                return None;
            },
        };
        self.inner = cursor;
        Some(rasn_snmp::v2::VarBind { name, value })
    }
}

/// The object identifier with the given 32-bit sub-identifiers, as
/// `asn1_rs` encodes them.
pub fn try_as_oid(arcs: &[u32]) -> (r: Result<Oid<'static>, Error>)
    ensures
        r is Ok <==> arcs_accepted(widen(arcs@)) && arcs@.len() <= MAX_OID_LEN,
        r matches Ok(oid) ==> oid@ == asn1_oid_bytes(widen(arcs@)),
        r matches Err(e) ==> e == (if arcs_accepted(widen(arcs@)) {
            Error::OidTooLong
        } else {
            Error::ValueUnrepresentable
        }),
{
    let mut owned: Vec<u64> = Vec::new();
    let mut i: usize = 0;
    while i < arcs.len()
        invariant
            i <= arcs@.len(),
            owned@.len() == i,
            forall|j: int| 0 <= j < i ==> owned@[j] == arcs@[j] as u64,
        decreases arcs@.len() - i,
    {
        owned.push(arcs[i] as u64);
        i = i + 1;
    }
    proof {
        assert(owned@ =~= widen(arcs@));
    }
    Oid::from(owned.as_slice())
}

/// The same sub-identifiers in 64 bits.
pub open spec fn widen(arcs: Seq<u32>) -> Seq<u64> {
    Seq::new(arcs.len(), |i: int| arcs[i] as u64)
}

} // verus!
