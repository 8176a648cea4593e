//! Object identifiers, held as their BER content octets.

use crate::error::Error;
use vstd::prelude::*;

verus! {

/// Most sub-identifiers an object identifier may have in SNMP.
pub const MAX_OID_LEN: usize = 128;

/// The content octets that `asn1_rs::Oid::from` gives to sub-identifiers it
/// accepts.
pub uninterp spec fn asn1_oid_bytes(arcs: Seq<u64>) -> Seq<u8>;

/// The sub-identifier with index `n` that `asn1_rs::Oid::iter` reads from
/// content octets, if it reads that many.
pub uninterp spec fn asn1_oid_arc(bytes: Seq<u8>, n: usize) -> Option<u64>;

/// Whether sub-identifiers form an object identifier: at least two, the
/// first below 3 and the second below 40.
pub open spec fn arcs_accepted(arcs: Seq<u64>) -> bool {
    arcs.len() >= 2 && arcs[0] < 3 && arcs[1] < 40
}

/// Calls `asn1_rs::Oid::from` and hands out the content octets. That
/// function refuses fewer than two sub-identifiers (but for the single
/// sub-identifier 0), a first one above 6 and a second one above 39, and
/// encodes everything else.
#[verifier::external_body]
fn asn1_oid_from(arcs: &[u64]) -> (r: Option<Vec<u8>>)
    ensures
        r is Some <==> (arcs@.len() >= 2 && arcs@[0] < 7 && arcs@[1] < 40) || (arcs@.len() == 1
            && arcs@[0] == 0),
        r matches Some(v) ==> v@ == asn1_oid_bytes(arcs@),
{
    match asn1_rs::Oid::from(arcs) {
        Ok(oid) => Some(oid.as_bytes().to_vec()),
        Err(_) => None,
    }
}

/// Calls `asn1_rs::Oid::starts_with` on two identifiers given by their
/// content octets: whether the octets of `needle` are a prefix of those of
/// `oid`.
#[verifier::external_body]
fn asn1_oid_starts_with(oid: &[u8], needle: &[u8]) -> (r: bool)
    ensures
        r == needle@.is_prefix_of(oid@),
{
    let oid = asn1_rs::Oid::new(std::borrow::Cow::Borrowed(oid));
    let needle = asn1_rs::Oid::new(std::borrow::Cow::Borrowed(needle));
    oid.starts_with(&needle)
}

/// Calls `asn1_rs::Oid::iter` on an identifier given by its content octets
/// and takes the sub-identifier with index `n`. There is none if a
/// sub-identifier does not fit 64 bits or the identifier has too few.
#[verifier::external_body]
fn asn1_oid_nth(oid: &[u8], n: usize) -> (r: Option<u64>)
    ensures
        r == asn1_oid_arc(oid@, n),
{
    let oid = asn1_rs::Oid::new(std::borrow::Cow::Borrowed(oid));
    let arc = match oid.iter() {
        Some(mut arcs) => arcs.nth(n),
        None => None,
    };
    arc
}

/// Whether two slices hold the same octets.
pub(crate) fn same_bytes(a: &[u8], b: &[u8]) -> (r: bool)
    ensures
        r == (a@ == b@),
{
    if a.len() != b.len() {
        return false;
    }
    let mut i: usize = 0;
    while i < a.len()
        invariant
            i <= a@.len(),
            a@.len() == b@.len(),
            a@.take(i as int) == b@.take(i as int),
        decreases a@.len() - i,
    {
        if a[i] != b[i] {
            return false;
        }
        proof {
            assert(a@.take(i + 1) =~= a@.take(i as int).push(a@[i as int]));
            assert(b@.take(i + 1) =~= b@.take(i as int).push(b@[i as int]));
        }
        i = i + 1;
    }
    proof {
        assert(a@.take(i as int) =~= a@);
        assert(b@.take(i as int) =~= b@);
    }
    true
}

/// The content octets of an object identifier, borrowed or owned.
#[derive(Debug, Clone)]
enum Octets<'a> {
    Borrowed(&'a [u8]),
    Owned(Vec<u8>),
}

/// An object identifier. It holds the content octets of its encoding: those
/// of a decoded message are borrowed from it, those made from
/// sub-identifiers are owned. Two identifiers are equal when their content
/// octets are.
#[derive(Debug, Clone)]
pub struct Oid<'a> {
    octets: Octets<'a>,
}

impl<'a> PartialEq for Oid<'a> {
    fn eq(&self, other: &Self) -> (r: bool) {
        same_bytes(self.as_bytes(), other.as_bytes())
    }
}

impl<'a> Eq for Oid<'a> {

}

impl<'a> vstd::std_specs::cmp::PartialEqSpecImpl for Oid<'a> {
    open spec fn obeys_eq_spec() -> bool {
        true
    }

    open spec fn eq_spec(&self, other: &Self) -> bool {
        self@ == other@
    }
}

impl<'a> View for Oid<'a> {
    type V = Seq<u8>;

    closed spec fn view(&self) -> Seq<u8> {
        match self.octets {
            Octets::Borrowed(bytes) => bytes@,
            Octets::Owned(bytes) => bytes@,
        }
    }
}

impl<'a> Oid<'a> {
    /// The object identifier with the given content octets.
    pub fn new(bytes: &'a [u8]) -> (oid: Oid<'a>)
        ensures
            oid@ == bytes@,
    {
        Oid { octets: Octets::Borrowed(bytes) }
    }

    /// The object identifier with the given sub-identifiers. There must be
    /// at least two and at most `MAX_OID_LEN`, the first below 3 and the
    /// second below 40.
    pub fn from(arcs: &[u64]) -> (r: Result<Oid<'static>, Error>)
        ensures
            r is Ok <==> arcs_accepted(arcs@) && arcs@.len() <= MAX_OID_LEN,
            r matches Ok(oid) ==> oid@ == asn1_oid_bytes(arcs@),
            r matches Err(e) ==> e == (if arcs_accepted(arcs@) {
                Error::OidTooLong
            } else {
                Error::ValueUnrepresentable
            }),
    {
        if arcs.len() < 2 || arcs[0] >= 3 || arcs[1] >= 40 {
            return Err(Error::ValueUnrepresentable);
        }
        if arcs.len() > MAX_OID_LEN {
            return Err(Error::OidTooLong);
        }
        match asn1_oid_from(arcs) {
            Some(bytes) => Ok(Oid { octets: Octets::Owned(bytes) }),
            None => Err(Error::ValueUnrepresentable),
        }
    }

    /// The content octets of the encoding.
    pub fn as_bytes(&self) -> (bytes: &[u8])
        ensures
            bytes@ == self@,
    {
        match &self.octets {
            Octets::Borrowed(bytes) => bytes,
            Octets::Owned(bytes) => bytes.as_slice(),
        }
    }

    /// Whether the content octets of `needle` are a prefix of this
    /// identifier's.
    pub fn starts_with(&self, needle: &Oid) -> (r: bool)
        ensures
            r == needle@.is_prefix_of(self@),
    {
        asn1_oid_starts_with(self.as_bytes(), needle.as_bytes())
    }

    /// The sub-identifier with index `n`, counted from 0.
    pub fn nth(&self, n: usize) -> (r: Option<u64>)
        ensures
            r == asn1_oid_arc(self@, n),
    {
        asn1_oid_nth(self.as_bytes(), n)
    }
}

} // verus!
