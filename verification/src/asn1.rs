//! ASN.1 universal tags and the forward BER reader.

use crate::ber::{
    be_signed, be_unsigned, int_as_counter64, lemma_be_signed_bounds, lemma_be_unsigned_prefix,
    parse_int, parse_length, parse_tlv, parse_u32,
};
use crate::error::Error;
use crate::oid::Oid;
use crate::snmp;
use vstd::prelude::*;
use vstd::slice::slice_subrange;

verus! {

pub const TYPE_BOOLEAN: u8 = 0x01;

pub const TYPE_INTEGER: u8 = 0x02;

pub const TYPE_OCTETSTRING: u8 = 0x04;

pub const TYPE_NULL: u8 = 0x05;

pub const TYPE_OBJECTIDENTIFIER: u8 = 0x06;

pub const TYPE_SEQUENCE: u8 = 0x30;

/// Reads a BOOLEAN from the front of `s`: one content octet, true unless 0.
pub open spec fn parse_boolean(s: Seq<u8>) -> Result<(bool, Seq<u8>), Error> {
    match parse_tlv(s, TYPE_BOOLEAN) {
        Err(e) => Err(e),
        Ok((content, rest)) => if content.len() != 1 {
            Err(Error::AsnInvalidLen)
        } else {
            Ok((content[0] != 0, rest))
        },
    }
}

/// Reads a NULL from the front of `s`: what follows it.
pub open spec fn parse_null(s: Seq<u8>) -> Result<Seq<u8>, Error> {
    match parse_tlv(s, TYPE_NULL) {
        Err(e) => Err(e),
        Ok((content, rest)) => if content.len() != 0 {
            Err(Error::AsnInvalidLen)
        } else {
            Ok(rest)
        },
    }
}

/// Reads an IpAddress from the front of `s`: four content octets.
pub open spec fn parse_ipaddress(s: Seq<u8>) -> Result<([u8; 4], Seq<u8>), Error> {
    match parse_tlv(s, snmp::TYPE_IPADDRESS) {
        Err(e) => Err(e),
        Ok((content, rest)) => if content.len() != 4 {
            Err(Error::AsnInvalidLen)
        } else {
            Ok(([content[0], content[1], content[2], content[3]], rest))
        },
    }
}

/// Reads a Counter64 from the front of `s`: the counter with the 64 bits of
/// the integer that the content stands for.
pub open spec fn parse_counter64(s: Seq<u8>) -> Result<(u64, Seq<u8>), Error> {
    match parse_int(s, snmp::TYPE_COUNTER64) {
        Err(e) => Err(e),
        Ok((v, rest)) => Ok((int_as_counter64(v as int) as u64, rest)),
    }
}

/// Forward reader over borrowed octets. It holds what is still unread;
/// what it hands out is borrowed from the input, never copied. A read that
/// fails leaves the reader where it was.
#[derive(Debug, Clone, Copy)]
pub struct AsnReader<'a> {
    inner: &'a [u8],
}

impl<'a> View for AsnReader<'a> {
    type V = Seq<u8>;

    closed spec fn view(&self) -> Seq<u8> {
        self.inner@
    }
}

/// The integer that one to eight octets stand for in two's complement.
fn decode_i64(content: &[u8]) -> (v: i64)
    requires
        1 <= content@.len() <= 8,
    ensures
        v == be_signed(content@),
{
    let first = content[0];
    let mut acc: i64 = if first < 128 {
        first as i64
    } else {
        first as i64 - 256
    };
    let mut i: usize = 1;
    proof {
        assert(content@.take(1) =~= seq![first]);
    }
    while i < content.len()
        invariant
            1 <= i <= content@.len() <= 8,
            acc == be_signed(content@.take(i as int)),
        decreases content@.len() - i,
    {
        proof {
            assert(content@.take(i + 1).drop_last() =~= content@.take(i as int));
            lemma_be_signed_bounds(content@.take(i + 1));
        }
        acc = acc * 256 + content[i] as i64;
        i = i + 1;
    }
    proof {
        assert(content@.take(i as int) =~= content@);
    }
    acc
}

impl<'a> AsnReader<'a> {
    /// A reader at the start of `bytes`.
    pub fn from_bytes(bytes: &'a [u8]) -> (reader: AsnReader<'a>)
        ensures
            reader@ == bytes@,
    {
        AsnReader { inner: bytes }
    }

    /// What is still unread.
    pub fn remaining(&self) -> (bytes: &'a [u8])
        ensures
            bytes@ == self@,
    {
        self.inner
    }

    /// The next octet, without moving.
    pub fn peek_byte(&self) -> (r: Result<u8, Error>)
        ensures
            r == (if self@.len() == 0 {
                Err::<u8, Error>(Error::AsnEof)
            } else {
                Ok(self@[0])
            }),
    {
        if self.inner.len() == 0 {
            Err(Error::AsnEof)
        } else {
            Ok(self.inner[0])
        }
    }

    /// Consumes one octet.
    pub fn read_byte(&mut self) -> (r: Result<u8, Error>)
        ensures
            old(self)@.len() == 0 ==> r == Err::<u8, Error>(Error::AsnEof) && final(self)@
                == old(self)@,
            old(self)@.len() > 0 ==> r == Ok::<u8, Error>(old(self)@[0]) && final(self)@
                == old(self)@.skip(1),
    {
        if self.inner.len() == 0 {
            Err(Error::AsnEof)
        } else {
            let byte = self.inner[0];
            self.inner = slice_subrange(self.inner, 1, self.inner.len());
            Ok(byte)
        }
    }

    /// Consumes a definite length, short or long form.
    #[verifier::loop_isolation(false)]
    pub fn read_length(&mut self) -> (r: Result<usize, Error>)
        ensures
            match parse_length(old(self)@) {
                Ok((n, rest)) => r == Ok::<usize, Error>(n) && final(self)@ == rest,
                Err(e) => r == Err::<usize, Error>(e) && final(self)@ == old(self)@,
            },
    {
        let total = self.inner.len();
        if total == 0 {
            return Err(Error::AsnEof);
        }
        let head = self.inner[0];
        if head < 0x80 {
            self.inner = slice_subrange(self.inner, 1, total);
            return Ok(head as usize);
        }
        if head == 0x80 || head == 0xFF {
            return Err(Error::AsnInvalidLen);
        }
        let k = (head - 0x80) as usize;
        if total - 1 < k {
            return Err(Error::AsnEof);
        }
        let ghost digits = self.inner@.subrange(1, 1 + k);
        let mut acc: usize = 0;
        let mut i: usize = 0;
        while i < k
            invariant
                i <= k,
                digits == self.inner@.subrange(1, 1 + k),
                1 + k <= self.inner@.len(),
                acc == be_unsigned(digits.take(i as int)),
            decreases k - i,
        {
            proof {
                assert(digits.take(i + 1).drop_last() =~= digits.take(i as int));
                lemma_be_unsigned_prefix(digits, i + 1);
                assert(be_unsigned(digits.take(i + 1)) == acc * 256 + digits[i as int]);
            }
            if acc > usize::MAX / 256 {
                return Err(Error::AsnInvalidLen);
            }
            acc = acc * 256 + self.inner[1 + i] as usize;
            i = i + 1;
        }
        proof {
            assert(digits.take(i as int) =~= digits);
        }
        self.inner = slice_subrange(self.inner, 1 + k, total);
        Ok(acc)
    }

    /// Consumes one element with identifier `expected_ident` and hands out
    /// its content.
    pub fn read_raw(&mut self, expected_ident: u8) -> (r: Result<&'a [u8], Error>)
        ensures
            match parse_tlv(old(self)@, expected_ident) {
                Ok((content, rest)) => r matches Ok(v) && v@ == content && final(self)@ == rest,
                Err(e) => r == Err::<&[u8], Error>(e) && final(self)@ == old(self)@,
            },
    {
        let mut cursor = AsnReader { inner: self.inner };
        let ident = match cursor.read_byte() {
            Ok(b) => b,
            Err(e) => {
                return Err(e);
            },
        };
        if ident != expected_ident {
            return Err(Error::AsnWrongType);
        }
        let n = match cursor.read_length() {
            Ok(n) => n,
            Err(e) => {
                return Err(e);
            },
        };
        if n > cursor.inner.len() {
            return Err(Error::AsnInvalidLen);
        }
        let content = slice_subrange(cursor.inner, 0, n);
        self.inner = slice_subrange(cursor.inner, n, cursor.inner.len());
        Ok(content)
    }

    /// Consumes one integer element with identifier `expected_ident`: one
    /// to eight content octets in two's complement.
    pub fn read_i64_type(&mut self, expected_ident: u8) -> (r: Result<i64, Error>)
        ensures
            match parse_int(old(self)@, expected_ident) {
                Ok((v, rest)) => r == Ok::<i64, Error>(v) && final(self)@ == rest,
                Err(e) => r == Err::<i64, Error>(e) && final(self)@ == old(self)@,
            },
    {
        let mut cursor = AsnReader { inner: self.inner };
        let content = match cursor.read_raw(expected_ident) {
            Ok(c) => c,
            Err(e) => {
                return Err(e);
            },
        };
        if content.len() == 0 {
            return Err(Error::AsnInvalidLen);
        }
        if content.len() > 8 {
            return Err(Error::AsnIntOverflow);
        }
        proof {
            lemma_be_signed_bounds(content@);
        }
        let v = decode_i64(content);
        self.inner = cursor.inner;
        Ok(v)
    }

    /// Consumes one integer element with identifier `expected_ident` whose
    /// value fits an unsigned 32-bit number.
    fn read_u32_type(&mut self, expected_ident: u8) -> (r: Result<u32, Error>)
        ensures
            match parse_u32(old(self)@, expected_ident) {
                Ok((v, rest)) => r == Ok::<u32, Error>(v) && final(self)@ == rest,
                Err(e) => r == Err::<u32, Error>(e) && final(self)@ == old(self)@,
            },
    {
        let mut cursor = AsnReader { inner: self.inner };
        let v = match cursor.read_i64_type(expected_ident) {
            Ok(v) => v,
            Err(e) => {
                return Err(e);
            },
        };
        if v < 0 || v > 0xFFFF_FFFF {
            return Err(Error::ValueOutOfRange);
        }
        self.inner = cursor.inner;
        Ok(v as u32)
    }

    /// Consumes a BOOLEAN.
    pub fn read_asn_boolean(&mut self) -> (r: Result<bool, Error>)
        ensures
            match parse_boolean(old(self)@) {
                Ok((v, rest)) => r == Ok::<bool, Error>(v) && final(self)@ == rest,
                Err(e) => r == Err::<bool, Error>(e) && final(self)@ == old(self)@,
            },
    {
        let mut cursor = AsnReader { inner: self.inner };
        let content = match cursor.read_raw(TYPE_BOOLEAN) {
            Ok(c) => c,
            Err(e) => {
                return Err(e);
            },
        };
        if content.len() != 1 {
            return Err(Error::AsnInvalidLen);
        }
        self.inner = cursor.inner;
        Ok(content[0] != 0)
    }

    /// Consumes an INTEGER.
    pub fn read_asn_integer(&mut self) -> (r: Result<i64, Error>)
        ensures
            match parse_int(old(self)@, TYPE_INTEGER) {
                Ok((v, rest)) => r == Ok::<i64, Error>(v) && final(self)@ == rest,
                Err(e) => r == Err::<i64, Error>(e) && final(self)@ == old(self)@,
            },
    {
        self.read_i64_type(TYPE_INTEGER)
    }

    /// Consumes an OCTET STRING and hands out its content.
    pub fn read_asn_octetstring(&mut self) -> (r: Result<&'a [u8], Error>)
        ensures
            match parse_tlv(old(self)@, TYPE_OCTETSTRING) {
                Ok((content, rest)) => r matches Ok(v) && v@ == content && final(self)@ == rest,
                Err(e) => r == Err::<&[u8], Error>(e) && final(self)@ == old(self)@,
            },
    {
        self.read_raw(TYPE_OCTETSTRING)
    }

    /// Consumes a NULL.
    pub fn read_asn_null(&mut self) -> (r: Result<(), Error>)
        ensures
            match parse_null(old(self)@) {
                Ok(rest) => r == Ok::<(), Error>(()) && final(self)@ == rest,
                Err(e) => r == Err::<(), Error>(e) && final(self)@ == old(self)@,
            },
    {
        let mut cursor = AsnReader { inner: self.inner };
        let content = match cursor.read_raw(TYPE_NULL) {
            Ok(c) => c,
            Err(e) => {
                return Err(e);
            },
        };
        if content.len() != 0 {
            return Err(Error::AsnInvalidLen);
        }
        self.inner = cursor.inner;
        Ok(())
    }

    /// Consumes an OBJECT IDENTIFIER; the identifier borrows its content.
    pub fn read_asn_objectidentifier(&mut self) -> (r: Result<Oid<'a>, Error>)
        ensures
            match parse_tlv(old(self)@, TYPE_OBJECTIDENTIFIER) {
                Ok((content, rest)) => r matches Ok(oid) && oid@ == content && final(self)@
                    == rest,
                Err(e) => r matches Err(x) && x == e && final(self)@ == old(self)@,
            },
    {
        match self.read_raw(TYPE_OBJECTIDENTIFIER) {
            Ok(content) => Ok(Oid::new(content)),
            Err(e) => Err(e),
        }
    }

    /// Consumes a Counter32.
    pub fn read_snmp_counter32(&mut self) -> (r: Result<u32, Error>)
        ensures
            match parse_u32(old(self)@, snmp::TYPE_COUNTER32) {
                Ok((v, rest)) => r == Ok::<u32, Error>(v) && final(self)@ == rest,
                Err(e) => r == Err::<u32, Error>(e) && final(self)@ == old(self)@,
            },
    {
        self.read_u32_type(snmp::TYPE_COUNTER32)
    }

    /// Consumes an Unsigned32.
    pub fn read_snmp_unsigned32(&mut self) -> (r: Result<u32, Error>)
        ensures
            match parse_u32(old(self)@, snmp::TYPE_UNSIGNED32) {
                Ok((v, rest)) => r == Ok::<u32, Error>(v) && final(self)@ == rest,
                Err(e) => r == Err::<u32, Error>(e) && final(self)@ == old(self)@,
            },
    {
        self.read_u32_type(snmp::TYPE_UNSIGNED32)
    }

    /// Consumes a Timeticks.
    pub fn read_snmp_timeticks(&mut self) -> (r: Result<u32, Error>)
        ensures
            match parse_u32(old(self)@, snmp::TYPE_TIMETICKS) {
                Ok((v, rest)) => r == Ok::<u32, Error>(v) && final(self)@ == rest,
                Err(e) => r == Err::<u32, Error>(e) && final(self)@ == old(self)@,
            },
    {
        self.read_u32_type(snmp::TYPE_TIMETICKS)
    }

    /// Consumes a Counter64.
    pub fn read_snmp_counter64(&mut self) -> (r: Result<u64, Error>)
        ensures
            match parse_counter64(old(self)@) {
                Ok((v, rest)) => r == Ok::<u64, Error>(v) && final(self)@ == rest,
                Err(e) => r == Err::<u64, Error>(e) && final(self)@ == old(self)@,
            },
    {
        match self.read_i64_type(snmp::TYPE_COUNTER64) {
            Ok(v) => if v >= 0 {
                Ok(v as u64)
            } else {
                Ok((v - i64::MIN) as u64 + 0x8000_0000_0000_0000)
            },
            Err(e) => Err(e),
        }
    }

    /// Consumes an Opaque and hands out its content.
    pub fn read_snmp_opaque(&mut self) -> (r: Result<&'a [u8], Error>)
        ensures
            match parse_tlv(old(self)@, snmp::TYPE_OPAQUE) {
                Ok((content, rest)) => r matches Ok(v) && v@ == content && final(self)@ == rest,
                Err(e) => r == Err::<&[u8], Error>(e) && final(self)@ == old(self)@,
            },
    {
        self.read_raw(snmp::TYPE_OPAQUE)
    }

    /// Consumes an IpAddress.
    pub fn read_snmp_ipaddress(&mut self) -> (r: Result<[u8; 4], Error>)
        ensures
            match parse_ipaddress(old(self)@) {
                Ok((ip, rest)) => r matches Ok(v) && v@ == ip@ && final(self)@ == rest,
                Err(e) => r matches Err(x) && x == e && final(self)@ == old(self)@,
            },
    {
        let mut cursor = AsnReader { inner: self.inner };
        let content = match cursor.read_raw(snmp::TYPE_IPADDRESS) {
            Ok(c) => c,
            Err(e) => {
                return Err(e);
            },
        };
        if content.len() != 4 {
            return Err(Error::AsnInvalidLen);
        }
        self.inner = cursor.inner;
        let ip = [content[0], content[1], content[2], content[3]];
        proof {
            assert(ip@ =~= seq![content@[0], content@[1], content@[2], content@[3]]);
        }
        Ok(ip)
    }
}

} // verus!
