//! The Basic Encoding Rules as mathematics: what each element looks like on
//! the wire, how octets are read back, and the lemmas that connect the two.

use crate::error::Error;
use vstd::arithmetic::power2::{lemma2_to64, lemma2_to64_rest, pow2};
use vstd::prelude::*;

verus! {

/// The shortest big-endian octets of a natural number, at least one.
pub open spec fn uint_content(n: nat) -> Seq<u8>
    decreases n,
{
    if n < 256 {
        seq![n as u8]
    } else {
        uint_content(n / 256).push((n % 256) as u8)
    }
}

/// The natural number that big-endian octets stand for.
pub open spec fn be_unsigned(s: Seq<u8>) -> nat
    decreases s.len(),
{
    if s.len() == 0 {
        0
    } else {
        be_unsigned(s.drop_last()) * 256 + s.last() as nat
    }
}

/// How many octets `uint_content` takes for a number below 2^64.
pub open spec fn uint_len(n: nat) -> nat {
    if n < 0x100 {
        1
    } else if n < 0x1_0000 {
        2
    } else if n < 0x100_0000 {
        3
    } else if n < 0x1_0000_0000 {
        4
    } else if n < 0x100_0000_0000 {
        5
    } else if n < 0x1_0000_0000_0000 {
        6
    } else if n < 0x100_0000_0000_0000 {
        7
    } else {
        8
    }
}

/// A definite length: one octet below 128, else `0x80 | k` and `k` octets.
pub open spec fn length_bytes(n: nat) -> Seq<u8> {
    if n < 128 {
        seq![n as u8]
    } else {
        seq![(0x80 + uint_content(n).len()) as u8] + uint_content(n)
    }
}

/// The shortest two's-complement big-endian octets of an integer.
pub open spec fn int_content(n: int) -> Seq<u8>
    decreases (if n < 0 { -n } else { n }),
{
    if -128 <= n < 128 {
        seq![(n % 256) as u8]
    } else {
        int_content(n / 256).push((n % 256) as u8)
    }
}

/// How many octets `int_content` takes for a 64-bit integer.
pub open spec fn int_len(n: int) -> nat {
    if -0x80 <= n < 0x80 {
        1
    } else if -0x8000 <= n < 0x8000 {
        2
    } else if -0x80_0000 <= n < 0x80_0000 {
        3
    } else if -0x8000_0000 <= n < 0x8000_0000 {
        4
    } else if -0x80_0000_0000 <= n < 0x80_0000_0000 {
        5
    } else if -0x8000_0000_0000 <= n < 0x8000_0000_0000 {
        6
    } else if -0x80_0000_0000_0000 <= n < 0x80_0000_0000_0000 {
        7
    } else {
        8
    }
}

/// The integer that two's-complement big-endian octets stand for.
pub open spec fn be_signed(s: Seq<u8>) -> int
    decreases s.len(),
{
    if s.len() == 0 {
        0
    } else if s.len() == 1 {
        if s[0] < 128 {
            s[0] as int
        } else {
            s[0] as int - 256
        }
    } else {
        be_signed(s.drop_last()) * 256 + s.last() as int
    }
}

/// A 64-bit counter read as a signed integer of the same bit pattern.
pub open spec fn counter64_as_int(n: u64) -> int {
    if n < 0x8000_0000_0000_0000 {
        n as int
    } else {
        n as int - 0x1_0000_0000_0000_0000
    }
}

/// The 64-bit counter with the bit pattern of a signed integer.
pub open spec fn int_as_counter64(v: int) -> int {
    if v >= 0 {
        v
    } else {
        v + 0x1_0000_0000_0000_0000
    }
}

/// The leading octets of a base-128 number: seven bits each, top bit set.
pub open spec fn base128_head(v: nat) -> Seq<u8>
    decreases v,
{
    if v == 0 {
        Seq::empty()
    } else {
        base128_head(v / 128).push((128 + v % 128) as u8)
    }
}

/// A sub-identifier in base 128, top bit set on every octet but the last.
pub open spec fn base128(v: nat) -> Seq<u8> {
    base128_head(v / 128).push((v % 128) as u8)
}

/// Sub-identifiers one after the other, each in base 128.
pub open spec fn arcs_content(arcs: Seq<u32>) -> Seq<u8>
    decreases arcs.len(),
{
    if arcs.len() == 0 {
        Seq::empty()
    } else {
        base128(arcs[0] as nat) + arcs_content(arcs.drop_first())
    }
}

/// Whether sub-identifiers form an object identifier that can be encoded:
/// at least two, the first below 3 and the second below 40.
pub open spec fn arcs_valid(arcs: Seq<u32>) -> bool {
    arcs.len() >= 2 && arcs[0] < 3 && arcs[1] < 40
}

/// The content octets of an object identifier: `40 * a + b`, then the rest.
pub open spec fn oid_content(arcs: Seq<u32>) -> Seq<u8> {
    seq![(arcs[0] * 40 + arcs[1]) as u8] + arcs_content(arcs.skip(2))
}

/// Identifier octet, definite length, content.
pub open spec fn tlv(tag: u8, content: Seq<u8>) -> Seq<u8> {
    seq![tag] + length_bytes(content.len()) + content
}

pub proof fn lemma_uint_content_len(n: nat)
    requires
        n <= u64::MAX,
    ensures
        uint_content(n).len() == uint_len(n),
    decreases n,
{
    if n >= 256 {
        lemma_uint_content_len(n / 256);
    }
}

pub proof fn lemma_uint_roundtrip(n: nat)
    ensures
        be_unsigned(uint_content(n)) == n,
    decreases n,
{
    if n >= 256 {
        lemma_uint_roundtrip(n / 256);
        let s = uint_content(n);
        assert(s.drop_last() =~= uint_content(n / 256));
    } else {
        let s = uint_content(n);
        assert(s.drop_last() =~= Seq::<u8>::empty());
        assert(be_unsigned(s.drop_last()) == 0);
    }
}

/// No leading zero octet: the encoding of a number of two or more octets
/// starts with a non-zero octet.
pub proof fn lemma_uint_content_minimal(n: nat)
    ensures
        n >= 256 ==> uint_content(n)[0] != 0,
        uint_content(n).len() >= 1,
    decreases n,
{
    if n >= 256 {
        lemma_uint_content_minimal(n / 256);
    }
}

pub proof fn lemma_int_content_len(n: int)
    requires
        i64::MIN <= n <= i64::MAX,
    ensures
        int_content(n).len() == int_len(n),
    decreases (if n < 0 { -n } else { n }),
{
    if !(-128 <= n < 128) {
        lemma_int_content_len(n / 256);
    }
}

pub proof fn lemma_int_roundtrip(n: int)
    ensures
        be_signed(int_content(n)) == n,
        int_content(n).len() >= 1,
    decreases (if n < 0 { -n } else { n }),
{
    if !(-128 <= n < 128) {
        lemma_int_roundtrip(n / 256);
        let s = int_content(n);
        assert(s.drop_last() =~= int_content(n / 256));
    }
}

/// No redundant leading octet: a leading `0x00` is followed by an octet with
/// the top bit set, a leading `0xFF` by one with the top bit clear.
pub proof fn lemma_int_content_minimal(n: int)
    ensures
        int_content(n).len() >= 2 ==> {
            let s = int_content(n);
            &&& !(s[0] == 0x00 && s[1] < 0x80)
            &&& !(s[0] == 0xFF && s[1] >= 0x80)
        },
    decreases (if n < 0 { -n } else { n }),
{
    if !(-128 <= n < 128) {
        let q = n / 256;
        lemma_int_content_minimal(q);
        lemma_int_roundtrip(q);
        if -128 <= q < 128 {
            let s = int_content(n);
            assert(s[0] == (q % 256) as u8);
            assert(s[1] == (n % 256) as u8);
        } else {
            let s = int_content(n);
            let t = int_content(q);
            assert(t.len() >= 2);
            assert(s[0] == t[0]);
            assert(s[1] == t[1]);
        }
    }
}

/// Reads a definite length from the front of `s`: the length and what
/// follows it. Indefinite (`0x80`) and reserved (`0xFF`) first octets are
/// refused, and so is a length that the machine word cannot hold.
pub open spec fn parse_length(s: Seq<u8>) -> Result<(usize, Seq<u8>), Error> {
    if s.len() == 0 {
        Err(Error::AsnEof)
    } else if s[0] < 0x80 {
        Ok((s[0] as usize, s.skip(1)))
    } else if s[0] == 0x80 || s[0] == 0xFF {
        Err(Error::AsnInvalidLen)
    } else {
        let k = s[0] - 0x80;
        if s.len() - 1 < k {
            Err(Error::AsnEof)
        } else if be_unsigned(s.subrange(1, 1 + k)) > usize::MAX {
            Err(Error::AsnInvalidLen)
        } else {
            Ok((be_unsigned(s.subrange(1, 1 + k)) as usize, s.skip(1 + k)))
        }
    }
}

/// Reads one element with identifier `tag` from the front of `s`: its
/// content and what follows it.
pub open spec fn parse_tlv(s: Seq<u8>, tag: u8) -> Result<(Seq<u8>, Seq<u8>), Error> {
    if s.len() == 0 {
        Err(Error::AsnEof)
    } else if s[0] != tag {
        Err(Error::AsnWrongType)
    } else {
        match parse_length(s.skip(1)) {
            Err(e) => Err(e),
            Ok((n, rest)) => if n > rest.len() {
                Err(Error::AsnInvalidLen)
            } else {
                Ok((rest.take(n as int), rest.skip(n as int)))
            },
        }
    }
}

/// Reads the content of an integer: one to eight octets in two's
/// complement.
pub open spec fn parse_int_content(content: Seq<u8>) -> Result<i64, Error> {
    if content.len() == 0 {
        Err(Error::AsnInvalidLen)
    } else if content.len() > 8 {
        Err(Error::AsnIntOverflow)
    } else {
        Ok(be_signed(content) as i64)
    }
}

/// Reads one integer element with identifier `tag` from the front of `s`.
pub open spec fn parse_int(s: Seq<u8>, tag: u8) -> Result<(i64, Seq<u8>), Error> {
    match parse_tlv(s, tag) {
        Err(e) => Err(e),
        Ok((content, rest)) => match parse_int_content(content) {
            Err(e) => Err(e),
            Ok(v) => Ok((v, rest)),
        },
    }
}

/// Reads one integer element with identifier `tag` whose value must lie in
/// the range of an unsigned 32-bit number.
pub open spec fn parse_u32(s: Seq<u8>, tag: u8) -> Result<(u32, Seq<u8>), Error> {
    match parse_int(s, tag) {
        Err(e) => Err(e),
        Ok((v, rest)) => if 0 <= v <= u32::MAX {
            Ok((v as u32, rest))
        } else {
            Err(Error::ValueOutOfRange)
        },
    }
}

/// Octets in two's complement stay within the range that their number
/// allows.
pub proof fn lemma_be_signed_bounds(s: Seq<u8>)
    requires
        1 <= s.len() <= 8,
    ensures
        int_len(be_signed(s)) <= s.len(),
        i64::MIN <= be_signed(s) <= i64::MAX,
    decreases s.len(),
{
    if s.len() > 1 {
        lemma_be_signed_bounds(s.drop_last());
    }
}

/// The number that octets stand for does not shrink when octets follow.
pub proof fn lemma_be_unsigned_prefix(s: Seq<u8>, j: int)
    requires
        0 <= j <= s.len(),
    ensures
        be_unsigned(s.take(j)) <= be_unsigned(s),
    decreases s.len() - j,
{
    if j < s.len() {
        lemma_be_unsigned_prefix(s, j + 1);
        assert(s.take(j + 1).drop_last() =~= s.take(j));
    } else {
        assert(s.take(j) =~= s);
    }
}

/// Reading a written length gives the length back.
pub proof fn lemma_length_roundtrip(n: usize, rest: Seq<u8>)
    ensures
        parse_length(length_bytes(n as nat) + rest) == Ok::<(usize, Seq<u8>), Error>((n, rest)),
{
    let s = length_bytes(n as nat) + rest;
    if n < 128 {
        assert(s.skip(1) =~= rest);
    } else {
        lemma_uint_content_len(n as nat);
        lemma_uint_roundtrip(n as nat);
        let k = uint_content(n as nat).len() as int;
        assert(s.subrange(1, 1 + k) =~= uint_content(n as nat));
        assert(s.skip(1 + k) =~= rest);
    }
}

/// Reading a written element gives content and rest back.
pub proof fn lemma_tlv_roundtrip(tag: u8, content: Seq<u8>, rest: Seq<u8>)
    requires
        content.len() <= usize::MAX,
    ensures
        parse_tlv(tlv(tag, content) + rest, tag) == Ok::<(Seq<u8>, Seq<u8>), Error>(
            (content, rest),
        ),
{
    let s = tlv(tag, content) + rest;
    let n = content.len() as usize;
    assert(s.skip(1) =~= length_bytes(n as nat) + (content + rest));
    lemma_length_roundtrip(n, content + rest);
    assert((content + rest).take(n as int) =~= content);
    assert((content + rest).skip(n as int) =~= rest);
}

/// Reading a written integer gives the integer back.
pub proof fn lemma_int_tlv_roundtrip(tag: u8, n: i64, rest: Seq<u8>)
    ensures
        parse_int(tlv(tag, int_content(n as int)) + rest, tag) == Ok::<(i64, Seq<u8>), Error>(
            (n, rest),
        ),
{
    lemma_int_content_len(n as int);
    lemma_int_roundtrip(n as int);
    lemma_tlv_roundtrip(tag, int_content(n as int), rest);
}

/// The form of a definite length: one octet exactly below 128; from 128 on
/// a first octet `0x80 | k` and `k` more octets, where `k` is the least
/// number with `n < 2^(8k)`, and the octets after the first stand for `n`.
pub proof fn lemma_length_form(n: usize)
    ensures
        length_bytes(n as nat).len() == 1 <==> n < 128,
        n < 128 ==> length_bytes(n as nat) == seq![n as u8],
        n >= 128 ==> {
            let k = uint_len(n as nat);
            &&& 1 <= k <= 8
            &&& length_bytes(n as nat).len() == 1 + k
            &&& length_bytes(n as nat)[0] == 0x80u8 | (k as u8)
            &&& pow2((8 * (k - 1)) as nat) <= n < pow2(8 * k)
            &&& be_unsigned(length_bytes(n as nat).skip(1)) == n
        },
{
    lemma_uint_content_minimal(n as nat);
    if n >= 128 {
        lemma_uint_content_len(n as nat);
        lemma_uint_roundtrip(n as nat);
        lemma2_to64();
        lemma2_to64_rest();
        let k = uint_len(n as nat) as u8;
        assert(0x80u8 | k == 0x80u8 + k) by (bit_vector)
            requires
                1 <= k <= 8,
        ;
        assert(length_bytes(n as nat).skip(1) =~= uint_content(n as nat));
    }
}

/// No octets that stand for `n` in two's complement are fewer than those
/// written for it.
pub proof fn lemma_int_content_shortest(n: i64, s: Seq<u8>)
    requires
        s.len() >= 1,
        be_signed(s) == n,
    ensures
        int_content(n as int).len() <= s.len(),
        1 <= int_content(n as int).len() <= 8,
{
    lemma_int_content_len(n as int);
    if s.len() <= 8 {
        lemma_be_signed_bounds(s);
    }
}

} // verus!
