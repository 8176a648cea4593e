//! The encode buffer: a fixed array filled from its end towards its start,
//! so that every element can be written before the length that precedes it.

use crate::asn1;
use crate::ber::{
    arcs_content, arcs_valid, base128, base128_head, counter64_as_int, int_content, length_bytes,
    oid_content, tlv, uint_content,
};
use crate::snmp;
use vstd::prelude::*;

verus! {

/// Capacity of an encode buffer, in octets.
pub const BUFFER_SIZE: usize = 4096;

/// What an encode buffer stands for: the octets written so far, first octet
/// first, and whether a write has been refused for lack of room.
pub struct BufState {
    pub bytes: Seq<u8>,
    pub overflow: bool,
}

impl BufState {
    /// The state after one write of `chunk`: the chunk goes in front of the
    /// octets already there, or, if the buffer has overflowed before or the
    /// chunk does not fit, nothing is written and the overflow is recorded.
    pub open spec fn prepend(self, chunk: Seq<u8>) -> BufState {
        if !self.overflow && self.bytes.len() + chunk.len() <= BUFFER_SIZE {
            BufState { bytes: chunk + self.bytes, overflow: false }
        } else {
            BufState { bytes: self.bytes, overflow: true }
        }
    }

    /// `self` still ends with the octets of `base`.
    pub open spec fn extends(self, base: BufState) -> bool {
        &&& base.bytes.len() <= self.bytes.len()
        &&& self.bytes.skip(self.bytes.len() - base.bytes.len()) == base.bytes
    }

    /// `self` is what several writes made of `base` that together amount to
    /// `chunk`: all of it in front of `base`, or an overflow.
    pub open spec fn grew_by(self, base: BufState, chunk: Seq<u8>) -> bool {
        &&& self.extends(base)
        &&& self.overflow <==> base.overflow || base.bytes.len() + chunk.len() > BUFFER_SIZE
        &&& !self.overflow ==> self.bytes == chunk + base.bytes
    }

    /// The state after a constructed element is closed: `self` is what the
    /// children made of `base`. Identifier and length go in front of the
    /// children; if the children overflowed or the header does not fit, the
    /// children are taken back and the overflow is recorded.
    pub open spec fn close(self, base: BufState, ident: u8) -> BufState {
        let header = seq![ident] + length_bytes((self.bytes.len() - base.bytes.len()) as nat);
        if !self.overflow && self.bytes.len() + header.len() <= BUFFER_SIZE {
            BufState { bytes: header + self.bytes, overflow: false }
        } else {
            BufState { bytes: base.bytes, overflow: true }
        }
    }
}

/// One write is a group of writes.
pub proof fn lemma_prepend_grew(base: BufState, chunk: Seq<u8>)
    ensures
        base.prepend(chunk).grew_by(base, chunk),
{
    let next = base.prepend(chunk);
    assert(next.bytes.skip(next.bytes.len() - base.bytes.len()) =~= base.bytes);
}

/// No write is a group of writes.
pub proof fn lemma_grew_nothing(base: BufState)
    requires
        base.bytes.len() <= BUFFER_SIZE,
    ensures
        base.grew_by(base, Seq::empty()),
{
    assert(base.bytes.skip(0) =~= base.bytes);
    assert(Seq::<u8>::empty() + base.bytes =~= base.bytes);
}

/// A group of writes followed by a group of writes is a group of writes.
pub proof fn lemma_grew_twice(
    base: BufState,
    mid: BufState,
    last: BufState,
    first: Seq<u8>,
    second: Seq<u8>,
)
    requires
        mid.grew_by(base, first),
        last.grew_by(mid, second),
    ensures
        last.grew_by(base, second + first),
{
    let a = last.bytes.len() - mid.bytes.len();
    let b = mid.bytes.len() - base.bytes.len();
    assert(last.bytes.skip(a + b) =~= last.bytes.skip(a).skip(b));
    if !last.overflow {
        assert(second + (first + base.bytes) =~= (second + first) + base.bytes);
    }
}

/// A group of writes followed by one write is a group of writes.
pub proof fn lemma_grew_prepend(base: BufState, mid: BufState, first: Seq<u8>, second: Seq<u8>)
    requires
        mid.grew_by(base, first),
    ensures
        mid.prepend(second).grew_by(base, second + first),
{
    lemma_prepend_grew(mid, second);
    lemma_grew_twice(base, mid, mid.prepend(second), first, second);
}

/// Closing a constructed element over children that amount to `children`
/// is one write of the whole element.
pub proof fn lemma_grew_close(base: BufState, mid: BufState, ident: u8, children: Seq<u8>)
    requires
        mid.grew_by(base, children),
    ensures
        mid.close(base, ident) == base.prepend(tlv(ident, children)),
{
    if !mid.overflow {
        let header = seq![ident] + length_bytes(children.len());
        assert(header + (children + base.bytes) =~= tlv(ident, children) + base.bytes);
    }
}

/// Floor quotient and remainder of a division by 256.
fn floor_div_256(v: i64) -> (r: (i64, u8))
    ensures
        r.0 == v as int / 256,
        r.1 == v as int % 256,
{
    if v >= 0 {
        let u = v as u64;
        ((u / 256) as i64, (u % 256) as u8)
    } else {
        let m = (-(v + 1)) as u64;
        (-((m / 256) as i64) - 1, (255 - m % 256) as u8)
    }
}

/// The encoding of a tail of `arcs` is no longer than that of a longer tail.
proof fn lemma_arcs_content_suffix(arcs: Seq<u32>, from: int, i: int)
    requires
        0 <= from <= i <= arcs.len(),
    ensures
        arcs_content(arcs.skip(i)).len() <= arcs_content(arcs.skip(from)).len(),
    decreases i - from,
{
    if from < i {
        let rest = arcs.skip(from);
        assert(rest.drop_first() =~= arcs.skip(from + 1));
        lemma_arcs_content_suffix(arcs, from + 1, i);
    }
}

/// Fixed-capacity buffer that is written back to front. The octets written
/// sit at the end of the array; the identifier octet of the element written
/// last is the first of them.
pub struct Buf {
    len: usize,
    overflow: bool,
    buf: [u8; BUFFER_SIZE],
}

impl View for Buf {
    type V = BufState;

    closed spec fn view(&self) -> BufState {
        BufState {
            bytes: self.buf@.subrange(BUFFER_SIZE - self.len, BUFFER_SIZE as int),
            overflow: self.overflow,
        }
    }
}

impl Default for Buf {
    fn default() -> (b: Buf)
        ensures
            b@.bytes == Seq::<u8>::empty(),
            !b@.overflow,
    {
        Buf { len: 0, overflow: false, buf: [0u8; BUFFER_SIZE] }
    }
}

impl Buf {
    #[verifier::type_invariant]
    spec fn inv(&self) -> bool {
        self.len <= BUFFER_SIZE
    }

    /// The unused head of the array, in array order.
    pub closed spec fn free(&self) -> Seq<u8> {
        self.buf@.subrange(0, BUFFER_SIZE - self.len)
    }

    /// The octets between `pos` and the written part: staged, not yet
    /// counted as written.
    spec fn staged(&self, pos: int) -> Seq<u8> {
        self.buf@.subrange(pos, BUFFER_SIZE - self.len)
    }

    /// Where staging starts: just below the written part.
    fn start(&self) -> (pos: usize)
        ensures
            pos == BUFFER_SIZE - self.len,
            pos + self@.bytes.len() == BUFFER_SIZE,
            self.staged(pos as int) == Seq::<u8>::empty(),
    {
        proof {
            use_type_invariant(self);
        }
        BUFFER_SIZE - self.len
    }

    /// Puts `byte` just below `pos`, if there is an octet left.
    fn stage_byte(&mut self, pos: usize, byte: u8) -> (r: Option<usize>)
        requires
            pos <= BUFFER_SIZE - old(self).len,
        ensures
            final(self).len == old(self).len,
            final(self)@ == old(self)@,
            r is None <==> pos == 0,
            r matches Some(p) ==> p == pos - 1 && final(self).staged(p as int) == seq![byte]
                + old(self).staged(pos as int),
    {
        proof {
            use_type_invariant(&*self);
        }
        if pos == 0 {
            None
        } else {
            self.buf[pos - 1] = byte;
            proof {
                assert(self@.bytes =~= old(self)@.bytes);
                assert(self.staged(pos - 1) =~= seq![byte] + old(self).staged(pos as int));
            }
            Some(pos - 1)
        }
    }

    /// Puts `chunk` just below `pos`, if it fits.
    fn stage_chunk(&mut self, pos: usize, chunk: &[u8]) -> (r: Option<usize>)
        requires
            pos <= BUFFER_SIZE - old(self).len,
        ensures
            final(self).len == old(self).len,
            final(self)@ == old(self)@,
            r is None <==> pos < chunk@.len(),
            r matches Some(p) ==> p == pos - chunk@.len() && final(self).staged(p as int)
                == chunk@ + old(self).staged(pos as int),
    {
        let n = chunk.len();
        if pos < n {
            return None;
        }
        let mut i: usize = n;
        let mut p: usize = pos;
        while i > 0
            invariant
                i <= n,
                n == chunk@.len(),
                p == pos - (n - i),
                n <= pos <= BUFFER_SIZE - self.len,
                self.len == old(self).len,
                self@ == old(self)@,
                self.staged(p as int) == chunk@.skip(i as int) + old(self).staged(pos as int),
            decreases i,
        {
            i = i - 1;
            let r = self.stage_byte(p, chunk[i]);
            proof {
                assert(chunk@.skip(i as int) =~= seq![chunk@[i as int]] + chunk@.skip(i + 1));
                assert(seq![chunk@[i as int]] + (chunk@.skip(i + 1) + old(self).staged(pos as int))
                    =~= chunk@.skip(i as int) + old(self).staged(pos as int));
            }
            p = r.unwrap();
        }
        proof {
            assert(chunk@.skip(0) =~= chunk@);
        }
        Some(p)
    }

    /// Counts the staged octets from `pos` on as written.
    fn commit(&mut self, pos: usize)
        requires
            pos <= BUFFER_SIZE - old(self).len,
            !old(self).overflow,
        ensures
            final(self)@.bytes == old(self).staged(pos as int) + old(self)@.bytes,
            !final(self)@.overflow,
    {
        proof {
            use_type_invariant(&*self);
        }
        self.len = BUFFER_SIZE - pos;
        proof {
            assert(self@.bytes =~= old(self).staged(pos as int) + old(self)@.bytes);
        }
    }

    /// Records an overflow; the staged octets are dropped.
    fn fail(&mut self)
        ensures
            final(self)@.bytes == old(self)@.bytes,
            final(self)@.overflow,
    {
        proof {
            use_type_invariant(&*self);
        }
        self.overflow = true;
    }

    /// Ends a group of staged writes: counts them if there were room for all
    /// and the buffer had not overflowed, else records the overflow.
    fn finish(&mut self, staged: Option<usize>, Ghost(chunk): Ghost<Seq<u8>>)
        requires
            staged is None <==> old(self)@.bytes.len() + chunk.len() > BUFFER_SIZE,
            staged matches Some(p) ==> p <= BUFFER_SIZE - old(self).len && old(self).staged(
                p as int,
            ) == chunk,
        ensures
            final(self)@ == old(self)@.prepend(chunk),
    {
        proof {
            use_type_invariant(&*self);
        }
        match staged {
            Some(p) => {
                if self.overflow {
                    self.fail();
                } else {
                    self.commit(p);
                }
            },
            None => {
                self.fail();
            },
        }
    }

    /// Puts the shortest big-endian octets of `n` just below `pos`.
    fn stage_uint(&mut self, pos: usize, n: usize) -> (r: Option<usize>)
        requires
            pos <= BUFFER_SIZE - old(self).len,
        ensures
            final(self).len == old(self).len,
            final(self)@ == old(self)@,
            r is None <==> pos < uint_content(n as nat).len(),
            r matches Some(p) ==> p == pos - uint_content(n as nat).len() && final(self).staged(
                p as int,
            ) == uint_content(n as nat) + old(self).staged(pos as int),
    {
        let mut v: usize = n;
        let mut p: usize = pos;
        let ghost mut written = Seq::<u8>::empty();
        proof {
            assert(uint_content(v as nat) + written =~= uint_content(n as nat));
            assert(written + old(self).staged(pos as int) =~= self.staged(p as int));
        }
        while v >= 256
            invariant
                uint_content(n as nat) == uint_content(v as nat) + written,
                p == pos - written.len(),
                p <= pos <= BUFFER_SIZE - self.len,
                self.len == old(self).len,
                self@ == old(self)@,
                self.staged(p as int) == written + old(self).staged(pos as int),
            decreases v,
        {
            let byte = (v % 256) as u8;
            match self.stage_byte(p, byte) {
                None => {
                    return None;
                },
                Some(q) => {
                    p = q;
                },
            }
            proof {
                assert(uint_content(v as nat) == uint_content((v / 256) as nat).push(byte));
                assert(uint_content((v / 256) as nat).push(byte) + written =~= uint_content(
                    (v / 256) as nat,
                ) + (seq![byte] + written));
                assert(seq![byte] + (written + old(self).staged(pos as int)) =~= (seq![byte]
                    + written) + old(self).staged(pos as int));
                written = seq![byte] + written;
            }
            v = v / 256;
        }
        let byte = v as u8;
        match self.stage_byte(p, byte) {
            None => None,
            Some(q) => {
                proof {
                    assert(uint_content(v as nat) =~= seq![byte]);
                    assert(seq![byte] + (written + old(self).staged(pos as int)) =~= (seq![byte]
                        + written) + old(self).staged(pos as int));
                }
                Some(q)
            },
        }
    }

    /// Puts the definite length `n` just below `pos`.
    fn stage_length(&mut self, pos: usize, n: usize) -> (r: Option<usize>)
        requires
            pos <= BUFFER_SIZE - old(self).len,
        ensures
            final(self).len == old(self).len,
            final(self)@ == old(self)@,
            r is None <==> pos < length_bytes(n as nat).len(),
            r matches Some(p) ==> p == pos - length_bytes(n as nat).len() && final(self).staged(
                p as int,
            ) == length_bytes(n as nat) + old(self).staged(pos as int),
    {
        if n < 128 {
            self.stage_byte(pos, n as u8)
        } else {
            proof {
                crate::ber::lemma_uint_content_len(n as nat);
            }
            match self.stage_uint(pos, n) {
                None => None,
                Some(p) => {
                    let k = pos - p;
                    let lead = (0x80 + k) as u8;
                    let r = self.stage_byte(p, lead);
                    proof {
                        assert(seq![lead] + (uint_content(n as nat) + old(self).staged(pos as int))
                            =~= length_bytes(n as nat) + old(self).staged(pos as int));
                    }
                    r
                },
            }
        }
    }

    /// Puts identifier `tag` and the definite length `n` just below `pos`.
    fn stage_header(&mut self, pos: usize, n: usize, tag: u8) -> (r: Option<usize>)
        requires
            pos <= BUFFER_SIZE - old(self).len,
        ensures
            final(self).len == old(self).len,
            final(self)@ == old(self)@,
            r is None <==> pos < 1 + length_bytes(n as nat).len(),
            r matches Some(p) ==> p == pos - 1 - length_bytes(n as nat).len()
                && final(self).staged(p as int) == seq![tag] + length_bytes(n as nat)
                + old(self).staged(pos as int),
    {
        match self.stage_length(pos, n) {
            None => None,
            Some(p) => {
                let r = self.stage_byte(p, tag);
                proof {
                    assert(seq![tag] + (length_bytes(n as nat) + old(self).staged(pos as int))
                        =~= seq![tag] + length_bytes(n as nat) + old(self).staged(pos as int));
                }
                r
            },
        }
    }

    /// Puts the shortest two's-complement octets of `n` just below `pos`.
    fn stage_int(&mut self, pos: usize, n: i64) -> (r: Option<usize>)
        requires
            pos <= BUFFER_SIZE - old(self).len,
        ensures
            final(self).len == old(self).len,
            final(self)@ == old(self)@,
            r is None <==> pos < int_content(n as int).len(),
            r matches Some(p) ==> p == pos - int_content(n as int).len() && final(self).staged(
                p as int,
            ) == int_content(n as int) + old(self).staged(pos as int),
    {
        let mut v: i64 = n;
        let mut p: usize = pos;
        let ghost mut written = Seq::<u8>::empty();
        proof {
            assert(int_content(v as int) + written =~= int_content(n as int));
            assert(written + old(self).staged(pos as int) =~= self.staged(p as int));
        }
        while v < -128 || v >= 128
            invariant
                int_content(n as int) == int_content(v as int) + written,
                p == pos - written.len(),
                p <= pos <= BUFFER_SIZE - self.len,
                self.len == old(self).len,
                self@ == old(self)@,
                self.staged(p as int) == written + old(self).staged(pos as int),
            decreases (if v < 0 { -v } else { v as int }),
        {
            let (q, byte) = floor_div_256(v);
            proof {
                crate::ber::lemma_int_roundtrip(q as int);
            }
            match self.stage_byte(p, byte) {
                None => {
                    return None;
                },
                Some(next) => {
                    p = next;
                },
            }
            proof {
                assert(int_content(v as int) == int_content(q as int).push(byte));
                assert(int_content(q as int).push(byte) + written =~= int_content(q as int) + (
                seq![byte] + written));
                assert(seq![byte] + (written + old(self).staged(pos as int)) =~= (seq![byte]
                    + written) + old(self).staged(pos as int));
                written = seq![byte] + written;
            }
            v = q;
        }
        let (_, byte) = floor_div_256(v);
        match self.stage_byte(p, byte) {
            None => None,
            Some(q) => {
                proof {
                    assert(int_content(v as int) =~= seq![byte]);
                    assert(seq![byte] + (written + old(self).staged(pos as int)) =~= (seq![byte]
                        + written) + old(self).staged(pos as int));
                }
                Some(q)
            },
        }
    }

    /// Puts sub-identifier `v` in base 128 just below `pos`.
    fn stage_base128(&mut self, pos: usize, v: u32) -> (r: Option<usize>)
        requires
            pos <= BUFFER_SIZE - old(self).len,
        ensures
            final(self).len == old(self).len,
            final(self)@ == old(self)@,
            r is None <==> pos < base128(v as nat).len(),
            r matches Some(p) ==> p == pos - base128(v as nat).len() && final(self).staged(
                p as int,
            ) == base128(v as nat) + old(self).staged(pos as int),
    {
        let last = (v % 128) as u8;
        let mut p: usize = match self.stage_byte(pos, last) {
            None => {
                return None;
            },
            Some(q) => q,
        };
        let mut w: u32 = v / 128;
        let ghost mut written = seq![last];
        proof {
            assert(base128(v as nat) =~= base128_head(w as nat) + written);
        }
        while w != 0
            invariant
                base128(v as nat) == base128_head(w as nat) + written,
                p == pos - written.len(),
                p <= pos <= BUFFER_SIZE - self.len,
                self.len == old(self).len,
                self@ == old(self)@,
                self.staged(p as int) == written + old(self).staged(pos as int),
            decreases w,
        {
            let byte = (128 + w % 128) as u8;
            match self.stage_byte(p, byte) {
                None => {
                    return None;
                },
                Some(q) => {
                    p = q;
                },
            }
            proof {
                assert(base128_head(w as nat) == base128_head((w / 128) as nat).push(byte));
                assert(base128_head((w / 128) as nat).push(byte) + written =~= base128_head(
                    (w / 128) as nat,
                ) + (seq![byte] + written));
                assert(seq![byte] + (written + old(self).staged(pos as int)) =~= (seq![byte]
                    + written) + old(self).staged(pos as int));
                written = seq![byte] + written;
            }
            w = w / 128;
        }
        proof {
            assert(base128_head(0) + written =~= written);
        }
        Some(p)
    }

    /// Puts `arcs[from..]`, each in base 128, just below `pos`.
    fn stage_arcs(&mut self, pos: usize, arcs: &[u32], from: usize) -> (r: Option<usize>)
        requires
            pos <= BUFFER_SIZE - old(self).len,
            from <= arcs@.len(),
        ensures
            final(self).len == old(self).len,
            final(self)@ == old(self)@,
            r is None <==> pos < arcs_content(arcs@.skip(from as int)).len(),
            r matches Some(p) ==> p == pos - arcs_content(arcs@.skip(from as int)).len()
                && final(self).staged(p as int) == arcs_content(arcs@.skip(from as int))
                + old(self).staged(pos as int),
    {
        let mut i: usize = arcs.len();
        let mut p: usize = pos;
        proof {
            assert(arcs@.skip(i as int) =~= Seq::<u32>::empty());
            assert(arcs_content(arcs@.skip(i as int)) + old(self).staged(pos as int)
                =~= self.staged(p as int));
        }
        while i > from
            invariant
                from <= i <= arcs@.len(),
                p == pos - arcs_content(arcs@.skip(i as int)).len(),
                p <= pos <= BUFFER_SIZE - self.len,
                self.len == old(self).len,
                self@ == old(self)@,
                self.staged(p as int) == arcs_content(arcs@.skip(i as int)) + old(self).staged(
                    pos as int,
                ),
            decreases i,
        {
            i = i - 1;
            proof {
                let rest = arcs@.skip(i as int);
                assert(rest.drop_first() =~= arcs@.skip(i + 1));
                assert(rest[0] == arcs@[i as int]);
                assert(arcs_content(rest) == base128(arcs@[i as int] as nat) + arcs_content(
                    arcs@.skip(i + 1),
                ));
                lemma_arcs_content_suffix(arcs@, from as int, i as int);
            }
            match self.stage_base128(p, arcs[i]) {
                None => {
                    return None;
                },
                Some(q) => {
                    proof {
                        assert(base128(arcs@[i as int] as nat) + (arcs_content(arcs@.skip(i + 1))
                            + old(self).staged(pos as int)) =~= arcs_content(arcs@.skip(i as int))
                            + old(self).staged(pos as int));
                    }
                    p = q;
                },
            }
        }
        Some(p)
    }

    /// An empty buffer.
    pub fn new() -> (b: Buf)
        ensures
            b@.bytes == Seq::<u8>::empty(),
            !b@.overflow,
    {
        Buf { len: 0, overflow: false, buf: [0u8; BUFFER_SIZE] }
    }

    /// Number of octets written.
    pub fn len(&self) -> (n: usize)
        ensures
            n == self@.bytes.len(),
            n <= BUFFER_SIZE,
    {
        proof {
            use_type_invariant(self);
        }
        self.len
    }

    /// Whether nothing has been written.
    pub fn is_empty(&self) -> (b: bool)
        ensures
            b <==> self@.bytes.len() == 0,
    {
        proof {
            use_type_invariant(self);
        }
        self.len == 0
    }

    /// Whether a write has been refused since the buffer was last reset.
    pub fn overflowed(&self) -> (b: bool)
        ensures
            b == self@.overflow,
    {
        self.overflow
    }

    /// The octets written, first octet first.
    pub fn as_bytes(&self) -> (out: &[u8])
        ensures
            out@ == self@.bytes,
    {
        proof {
            use_type_invariant(self);
        }
        vstd::slice::slice_subrange(self.buf.as_slice(), BUFFER_SIZE - self.len, BUFFER_SIZE)
    }

    /// Forgets what was written and any overflow.
    pub fn reset(&mut self)
        ensures
            final(self)@.bytes == Seq::<u8>::empty(),
            !final(self)@.overflow,
    {
        self.len = 0;
        self.overflow = false;
    }

    /// The unused head of the array. Writing to it changes nothing of what
    /// the buffer holds.
    pub fn available(&mut self) -> (out: &mut [u8])
        ensures
            out@ == old(self).free(),
            out@.len() + old(self)@.bytes.len() == BUFFER_SIZE,
            final(self).free() == final(out)@,
            final(self)@ == old(self)@,
    {
        proof {
            use_type_invariant(&*self);
        }
        let n: usize = BUFFER_SIZE - self.len;
        let (head, tail) = self.buf.split_at_mut(n);
        proof {
            let after = final(head)@ + final(tail)@;
            assert(final(tail)@ == tail@);
            assert(after.len() == BUFFER_SIZE);
            assert(after.subrange(n as int, BUFFER_SIZE as int) =~= tail@);
            assert(after.subrange(0, n as int) =~= final(head)@);
        }
        head
    }

    /// Prepends one octet.
    pub fn push_byte(&mut self, byte: u8)
        ensures
            final(self)@ == old(self)@.prepend(seq![byte]),
    {
        let start = self.start();
        let staged = self.stage_byte(start, byte);
        let ghost chunk = seq![byte];
        self.finish(staged, Ghost(chunk));
    }

    /// Prepends raw octets.
    pub fn push_chunk(&mut self, chunk: &[u8])
        ensures
            final(self)@ == old(self)@.prepend(chunk@),
    {
        let start = self.start();
        let staged = self.stage_chunk(start, chunk);
        self.finish(staged, Ghost(chunk@));
    }
    /// Ends the staging of one element: `content` is staged from `content_at`
    /// on, or could not be (`None`). Identifier and length are put before it
    /// and the whole is counted as written, or the overflow is recorded.
    fn finish_tlv(&mut self, content_at: Option<usize>, tag: u8, Ghost(content): Ghost<Seq<u8>>)
        requires
            content_at is None <==> old(self)@.bytes.len() + content.len() > BUFFER_SIZE,
            content_at matches Some(p) ==> p <= BUFFER_SIZE - old(self).len && old(self).staged(
                p as int,
            ) == content,
        ensures
            final(self)@ == old(self)@.prepend(tlv(tag, content)),
    {
        let start = self.start();
        let staged = match content_at {
            None => None,
            Some(p) => self.stage_header(p, start - p, tag),
        };
        proof {
            if let Some(q) = staged {
                assert(self.staged(q as int) =~= tlv(tag, content));
            }
        }
        self.finish(staged, Ghost(tlv(tag, content)));
    }

    /// Lets `f` write into the unused head. `f` returns how many octets at
    /// the end of the slice it filled; they are prepended. A count larger
    /// than the slice is an overflow.
    pub fn scribble_bytes<F>(&mut self, mut f: F) where F: FnMut(&mut [u8]) -> usize
        requires
            forall|a: &mut [u8]| a@ == old(self).free() ==> call_requires(f, (a,)),
        ensures
            exists|a: &mut [u8], n: usize|
                a@ == old(self).free() && #[trigger] call_ensures(f, (a,), n) && final(self)@ == (
                if n <= final(a)@.len() {
                    old(self)@.prepend(final(a)@.skip(final(a)@.len() - n))
                } else {
                    BufState { bytes: old(self)@.bytes, overflow: true }
                }),
    {
        proof {
            use_type_invariant(&*self);
        }
        let free: usize = BUFFER_SIZE - self.len;
        let (head, tail) = self.buf.split_at_mut(free);
        let n = f(head);
        proof {
            let after = final(head)@ + final(tail)@;
            assert(final(tail)@ == tail@);
            assert(after.len() == BUFFER_SIZE);
            assert(after.subrange(free as int, BUFFER_SIZE as int) =~= tail@);
            assert(after.subrange(0, free as int) =~= final(head)@);
        }
        if n <= free && !self.overflow {
            self.len = self.len + n;
            proof {
                assert(self@.bytes =~= final(head)@.skip(free - n) + old(self)@.bytes);
            }
        } else {
            self.overflow = true;
            proof {
                assert(self@.bytes =~= old(self)@.bytes);
            }
        }
    }

    /// Writes a constructed element: `f` prepends the children, then their
    /// length and `ident` are prepended. If the children overflow or the
    /// header does not fit, the children are taken back.
    pub fn push_constructed<F>(&mut self, ident: u8, mut f: F) where F: FnMut(&mut Self)
        requires
            forall|a: &mut Self| *a == *old(self) ==> call_requires(f, (a,)),
            forall|a: &mut Self|
                *a == *old(self) && call_ensures(f, (a,), ()) ==> final(a)@.extends(a@),
        ensures
            exists|a: &mut Self|
                *a == *old(self) && #[trigger] call_ensures(f, (a,), ())
                    && final(self)@ == final(a)@.close(old(self)@, ident),
    {
        proof {
            use_type_invariant(&*self);
        }
        let before = self.len;
        f(self);
        proof {
            use_type_invariant(&*self);
            assert(self@.extends(old(self)@));
        }
        let ghost mid = *self;
        let start = self.start();
        let staged = if self.overflow {
            None
        } else {
            self.stage_header(start, self.len - before, ident)
        };
        match staged {
            Some(p) => {
                self.commit(p);
                proof {
                    assert(self@.bytes =~= seq![ident] + length_bytes(
                        (mid@.bytes.len() - old(self)@.bytes.len()) as nat,
                    ) + mid@.bytes);
                }
            },
            None => {
                self.len = before;
                self.overflow = true;
                proof {
                    assert(self@.bytes =~= mid@.bytes.skip(mid@.bytes.len() - before));
                }
            },
        }
    }

    /// Writes a SEQUENCE whose children `f` prepends.
    pub fn push_sequence<F>(&mut self, f: F) where F: FnMut(&mut Self)
        requires
            forall|a: &mut Self| *a == *old(self) ==> call_requires(f, (a,)),
            forall|a: &mut Self|
                *a == *old(self) && call_ensures(f, (a,), ()) ==> final(a)@.extends(a@),
        ensures
            exists|a: &mut Self|
                *a == *old(self) && #[trigger] call_ensures(f, (a,), ())
                    && final(self)@ == final(a)@.close(old(self)@, asn1::TYPE_SEQUENCE),
    {
        self.push_constructed(asn1::TYPE_SEQUENCE, f);
    }

    /// Prepends a definite length: one octet below 128, else `0x80 | k` and
    /// the `k` octets of `len`.
    pub fn push_length(&mut self, len: usize)
        ensures
            final(self)@ == old(self)@.prepend(length_bytes(len as nat)),
    {
        let start = self.start();
        let staged = self.stage_length(start, len);
        proof {
            if let Some(q) = staged {
                assert(self.staged(q as int) =~= length_bytes(len as nat));
            }
        }
        self.finish(staged, Ghost(length_bytes(len as nat)));
    }

    /// Prepends the content octets of an integer, without identifier and
    /// length, and returns how many there are; 0 if they were not written.
    pub fn push_i64(&mut self, n: i64) -> (count: usize)
        ensures
            final(self)@ == old(self)@.prepend(int_content(n as int)),
            count == (if final(self)@.overflow {
                0
            } else {
                int_content(n as int).len()
            }),
    {
        let start = self.start();
        let staged = self.stage_int(start, n);
        proof {
            if let Some(q) = staged {
                assert(self.staged(q as int) =~= int_content(n as int));
            }
        }
        let was_overflow = self.overflow;
        self.finish(staged, Ghost(int_content(n as int)));
        match staged {
            Some(q) => if was_overflow {
                0
            } else {
                start - q
            },
            None => 0,
        }
    }

    /// Prepends an INTEGER.
    pub fn push_integer(&mut self, n: i64)
        ensures
            final(self)@ == old(self)@.prepend(tlv(asn1::TYPE_INTEGER, int_content(n as int))),
    {
        let start = self.start();
        let staged = self.stage_int(start, n);
        proof {
            if let Some(q) = staged {
                assert(self.staged(q as int) =~= int_content(n as int));
            }
        }
        self.finish_tlv(staged, asn1::TYPE_INTEGER, Ghost(int_content(n as int)));
    }

    /// Prepends the endOfMibView marker.
    pub fn push_endofmibview(&mut self)
        ensures
            final(self)@ == old(self)@.prepend(tlv(snmp::SNMP_ENDOFMIBVIEW, Seq::empty())),
    {
        let start = self.start();
        self.finish_tlv(Some(start), snmp::SNMP_ENDOFMIBVIEW, Ghost(Seq::empty()));
    }

    /// Prepends the noSuchObject marker.
    pub fn push_nosuchobject(&mut self)
        ensures
            final(self)@ == old(self)@.prepend(tlv(snmp::SNMP_NOSUCHOBJECT, Seq::empty())),
    {
        let start = self.start();
        self.finish_tlv(Some(start), snmp::SNMP_NOSUCHOBJECT, Ghost(Seq::empty()));
    }

    /// Prepends the noSuchInstance marker.
    pub fn push_nosuchinstance(&mut self)
        ensures
            final(self)@ == old(self)@.prepend(tlv(snmp::SNMP_NOSUCHINSTANCE, Seq::empty())),
    {
        let start = self.start();
        self.finish_tlv(Some(start), snmp::SNMP_NOSUCHINSTANCE, Ghost(Seq::empty()));
    }

    /// Prepends a Counter32.
    pub fn push_counter32(&mut self, n: u32)
        ensures
            final(self)@ == old(self)@.prepend(tlv(snmp::TYPE_COUNTER32, int_content(n as int))),
    {
        self.push_tagged_int(snmp::TYPE_COUNTER32, n as i64);
    }

    /// Prepends an Unsigned32.
    pub fn push_unsigned32(&mut self, n: u32)
        ensures
            final(self)@ == old(self)@.prepend(tlv(snmp::TYPE_UNSIGNED32, int_content(n as int))),
    {
        self.push_tagged_int(snmp::TYPE_UNSIGNED32, n as i64);
    }

    /// Prepends a Timeticks.
    pub fn push_timeticks(&mut self, n: u32)
        ensures
            final(self)@ == old(self)@.prepend(tlv(snmp::TYPE_TIMETICKS, int_content(n as int))),
    {
        self.push_tagged_int(snmp::TYPE_TIMETICKS, n as i64);
    }

    /// Prepends a Counter64. The content is that of the signed integer with
    /// the same 64 bits.
    pub fn push_counter64(&mut self, n: u64)
        ensures
            final(self)@ == old(self)@.prepend(
                tlv(snmp::TYPE_COUNTER64, int_content(counter64_as_int(n))),
            ),
    {
        let v: i64 = if n < 0x8000_0000_0000_0000 {
            n as i64
        } else {
            (n - 0x8000_0000_0000_0000) as i64 + i64::MIN
        };
        self.push_tagged_int(snmp::TYPE_COUNTER64, v);
    }

    /// Prepends an integer under identifier `tag`.
    fn push_tagged_int(&mut self, tag: u8, n: i64)
        ensures
            final(self)@ == old(self)@.prepend(tlv(tag, int_content(n as int))),
    {
        let start = self.start();
        let staged = self.stage_int(start, n);
        proof {
            if let Some(q) = staged {
                assert(self.staged(q as int) =~= int_content(n as int));
            }
        }
        self.finish_tlv(staged, tag, Ghost(int_content(n as int)));
    }

    /// Prepends raw content under identifier `tag`.
    fn push_tagged_bytes(&mut self, tag: u8, bytes: &[u8])
        ensures
            final(self)@ == old(self)@.prepend(tlv(tag, bytes@)),
    {
        let start = self.start();
        let staged = self.stage_chunk(start, bytes);
        proof {
            if let Some(q) = staged {
                assert(self.staged(q as int) =~= bytes@);
            }
        }
        self.finish_tlv(staged, tag, Ghost(bytes@));
    }

    /// Prepends an Opaque.
    pub fn push_opaque(&mut self, bytes: &[u8])
        ensures
            final(self)@ == old(self)@.prepend(tlv(snmp::TYPE_OPAQUE, bytes@)),
    {
        self.push_tagged_bytes(snmp::TYPE_OPAQUE, bytes);
    }

    /// Prepends a BOOLEAN: content 1 for true, 0 for false.
    pub fn push_boolean(&mut self, boolean: bool)
        ensures
            final(self)@ == old(self)@.prepend(
                tlv(asn1::TYPE_BOOLEAN, seq![if boolean { 1u8 } else { 0u8 }]),
            ),
    {
        let byte: u8 = if boolean {
            1
        } else {
            0
        };
        let start = self.start();
        let staged = self.stage_byte(start, byte);
        let ghost content = seq![byte];
        proof {
            if let Some(q) = staged {
                assert(self.staged(q as int) =~= content);
            }
        }
        self.finish_tlv(staged, asn1::TYPE_BOOLEAN, Ghost(content));
    }

    /// Prepends an IpAddress.
    pub fn push_ipaddress(&mut self, ip: [u8; 4])
        ensures
            final(self)@ == old(self)@.prepend(tlv(snmp::TYPE_IPADDRESS, ip@)),
    {
        self.push_tagged_bytes(snmp::TYPE_IPADDRESS, ip.as_slice());
    }

    /// Prepends a NULL.
    pub fn push_null(&mut self)
        ensures
            final(self)@ == old(self)@.prepend(tlv(asn1::TYPE_NULL, Seq::empty())),
    {
        let start = self.start();
        self.finish_tlv(Some(start), asn1::TYPE_NULL, Ghost(Seq::empty()));
    }

    /// Prepends an OBJECT IDENTIFIER whose content octets are given.
    pub fn push_object_identifier_raw(&mut self, input: &[u8])
        ensures
            final(self)@ == old(self)@.prepend(tlv(asn1::TYPE_OBJECTIDENTIFIER, input@)),
    {
        self.push_tagged_bytes(asn1::TYPE_OBJECTIDENTIFIER, input);
    }

    /// Prepends an OBJECT IDENTIFIER given by its sub-identifiers. Fewer than
    /// two sub-identifiers write nothing; a first one above 2 or a second one
    /// above 39 cannot be encoded, and an empty identifier is written.
    pub fn push_object_identifier(&mut self, input: &[u32])
        ensures
            final(self)@ == (if input@.len() < 2 {
                old(self)@
            } else if arcs_valid(input@) {
                old(self)@.prepend(tlv(asn1::TYPE_OBJECTIDENTIFIER, oid_content(input@)))
            } else {
                old(self)@.prepend(tlv(asn1::TYPE_OBJECTIDENTIFIER, Seq::empty()))
            }),
    {
        if input.len() < 2 {
            return;
        }
        let start = self.start();
        if input[0] >= 3 || input[1] >= 40 {
            self.finish_tlv(Some(start), asn1::TYPE_OBJECTIDENTIFIER, Ghost(Seq::empty()));
            return;
        }
        let head = (input[0] * 40 + input[1]) as u8;
        let staged = match self.stage_arcs(start, input, 2) {
            None => None,
            Some(p) => self.stage_byte(p, head),
        };
        proof {
            if let Some(q) = staged {
                assert(self.staged(q as int) =~= oid_content(input@));
            }
        }
        self.finish_tlv(staged, asn1::TYPE_OBJECTIDENTIFIER, Ghost(oid_content(input@)));
    }

    /// Prepends an OCTET STRING.
    pub fn push_octet_string(&mut self, bytes: &[u8])
        ensures
            final(self)@ == old(self)@.prepend(tlv(asn1::TYPE_OCTETSTRING, bytes@)),
    {
        self.push_tagged_bytes(asn1::TYPE_OCTETSTRING, bytes);
    }
}

} // verus!
