//! An append-only byte buffer that can hand out holes: reservations of two
//! bytes at a known offset, to be filled in later with a little-endian value.
//!
//! A hole is a linear resource: it is consumed by `patch`, and `complete`
//! demands that no hole is outstanding, so every reserved hole is provably
//! patched before the bytes are taken out.

use vstd::pervasive::VecAdditionalExecFns;
use vstd::prelude::*;

verus! {

/// The two little-endian bytes of a 16-bit value.
pub open spec fn le_u16_bytes(v: u16) -> Seq<u8> {
    seq![(v % 256) as u8, (v / 256) as u8]
}

/// `s` with the two bytes at `pos` overwritten by the little-endian encoding
/// of `v`.
pub open spec fn patched2(s: Seq<u8>, pos: int, v: u16) -> Seq<u8> {
    s.update(pos, le_u16_bytes(v)[0]).update(pos + 1, le_u16_bytes(v)[1])
}

/// An append-only byte buffer with a count of outstanding holes.
pub struct PatchableBufWriter {
    buf: Vec<u8>,
    holes: Ghost<nat>,
}

/// A reservation of two bytes at a fixed offset of one buffer.  Patching it
/// consumes it; `PatchableBufWriter::complete` requires that none is left.
pub struct BufferHole {
    start: usize,
}

impl BufferHole {
    /// Offset of the first of the two reserved bytes.
    pub closed spec fn pos(&self) -> int {
        self.start as int
    }

    /// Writes `value` in little-endian at the hole's offset and consumes the
    /// hole.
    pub fn patch(self, w: &mut PatchableBufWriter, value: u16)
        requires
            self.pos() + 2 <= old(w).bytes().len(),
            old(w).holes() >= 1,
        ensures
            final(w).bytes() == patched2(old(w).bytes(), self.pos(), value),
            final(w).holes() == (old(w).holes() - 1) as nat,
    {
        let n: usize = w.len();
        assert(self.start + 2 <= n);
        let lo: u8 = (value % 256) as u8;
        let hi: u8 = (value / 256) as u8;
        w.buf.set(self.start, lo);
        w.buf.set(self.start + 1, hi);
        w.holes = Ghost((w.holes@ - 1) as nat);
    }
}

impl PatchableBufWriter {
    /// The bytes written so far.
    pub closed spec fn bytes(&self) -> Seq<u8> {
        self.buf@
    }

    /// How many holes have been reserved and not yet patched.
    pub closed spec fn holes(&self) -> nat {
        self.holes@
    }

    pub fn new() -> (w: Self)
        ensures
            w.bytes() == Seq::<u8>::empty(),
            w.holes() == 0,
    {
        PatchableBufWriter { buf: Vec::new(), holes: Ghost(0) }
    }

    /// Current length in bytes.
    pub fn len(&self) -> (n: usize)
        ensures
            n == self.bytes().len(),
    {
        self.buf.len()
    }

    /// Appends one byte.
    pub fn push(&mut self, byte: u8)
        ensures
            final(self).bytes() == old(self).bytes().push(byte),
            final(self).holes() == old(self).holes(),
    {
        self.buf.push(byte);
    }

    /// Appends a byte slice.
    pub fn write_all(&mut self, data: &[u8])
        ensures
            final(self).bytes() == old(self).bytes() + data@,
            final(self).holes() == old(self).holes(),
    {
        let mut i: usize = 0;
        while i < data.len()
            invariant
                i <= data@.len(),
                self.bytes() == old(self).bytes() + data@.subrange(0, i as int),
                self.holes() == old(self).holes(),
            decreases data@.len() - i,
        {
            let b: u8 = data[i];
            self.buf.push(b);
            proof {
                assert(old(self).bytes() + data@.subrange(0, i + 1) =~= (old(self).bytes()
                    + data@.subrange(0, i as int)).push(b));
            }
            i = i + 1;
        }
        proof {
            assert(data@.subrange(0, data@.len() as int) =~= data@);
        }
    }

    /// Appends two zero bytes and returns a hole standing for them.
    pub fn write_hole_le_u16(&mut self) -> (hole: BufferHole)
        ensures
            hole.pos() == old(self).bytes().len(),
            final(self).bytes() == old(self).bytes() + seq![0u8, 0u8],
            final(self).holes() == old(self).holes() + 1,
    {
        let start = self.buf.len();
        self.buf.push(0);
        self.buf.push(0);
        self.holes = Ghost(self.holes@ + 1);
        proof {
            assert(old(self).bytes() + seq![0u8, 0u8] =~= old(self).bytes().push(0u8).push(0u8));
        }
        BufferHole { start }
    }

    /// Appends two zero bytes and returns a hole meant for a signed value;
    /// the caller patches it with the value's two's-complement bits.
    pub fn write_hole_le_i16(&mut self) -> (hole: BufferHole)
        ensures
            hole.pos() == old(self).bytes().len(),
            final(self).bytes() == old(self).bytes() + seq![0u8, 0u8],
            final(self).holes() == old(self).holes() + 1,
    {
        self.write_hole_le_u16()
    }

    /// Takes the accumulated bytes out.  Every hole must have been patched.
    pub fn complete(self) -> (r: Vec<u8>)
        requires
            self.holes() == 0,
        ensures
            r@ == self.bytes(),
    {
        self.buf
    }
}

} // verus!
