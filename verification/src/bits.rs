use vstd::prelude::*;

verus! {

/// One draw from the control bitstream.
#[derive(Clone, Copy, Debug, PartialEq, Eq, Structural)]
pub enum ControlSignal {
    /// The bit drawn was 1.
    SetBit,
    /// The bit drawn was 0.
    Clear,
    /// No bit is left. This ends a decode cleanly; it is not a fault.
    Exhausted,
}

/// Bit `k` of `byte`, counted from the most significant bit (`k == 0`).
pub open spec fn bit_of_byte(byte: u8, k: nat) -> bool
    recommends
        k < 8,
{
    (byte >> ((7 - k) as u8)) & 1u8 == 1u8
}

/// Bit number `pos` of a buffer read most significant bit first.
pub open spec fn bit_at(data: Seq<u8>, pos: nat) -> bool
    recommends
        pos < 8 * data.len(),
{
    bit_of_byte(data[(pos / 8) as int], pos % 8)
}

/// What a draw at bit position `pos` of `data` yields.
pub open spec fn signal_at(data: Seq<u8>, pos: nat) -> ControlSignal {
    if pos >= 8 * data.len() {
        ControlSignal::Exhausted
    } else if bit_at(data, pos) {
        ControlSignal::SetBit
    } else {
        ControlSignal::Clear
    }
}

/// The bit position after a draw at `pos`: a draw that finds the stream
/// exhausted consumes nothing.
pub open spec fn advance(data: Seq<u8>, pos: nat) -> nat {
    if pos >= 8 * data.len() {
        pos
    } else {
        pos + 1
    }
}

/// Reads a control buffer one bit at a time, most significant bit first.
pub struct BitCursor<'a> {
    data: &'a [u8],
    byte_offset: usize,
    bit_offset: u8,
}

impl<'a> BitCursor<'a> {
    /// The invariant of the two offsets: the bit offset stays within a byte,
    /// and it is 8 only while the byte it finished is still the current one.
    pub closed spec fn wf(&self) -> bool {
        &&& self.bit_offset <= 8
        &&& self.byte_offset <= self.data@.len()
        &&& self.byte_offset == self.data@.len() ==> self.bit_offset == 0
    }

    /// The buffer being read.
    pub closed spec fn data(&self) -> Seq<u8> {
        self.data@
    }

    /// The number of bits drawn so far.
    pub closed spec fn position(&self) -> nat {
        (self.byte_offset * 8 + self.bit_offset) as nat
    }

    /// A cursor at the first bit of `data`.
    pub fn new(data: &'a [u8]) -> (cursor: Self)
        ensures
            cursor.wf(),
            cursor.data() == data@,
            cursor.position() == 0,
    {
        BitCursor { data, byte_offset: 0, bit_offset: 0 }
    }

    /// Draws the next control bit, or reports that none is left.
    pub fn next_bit(&mut self) -> (signal: ControlSignal)
        requires
            old(self).wf(),
        ensures
            final(self).wf(),
            final(self).data() == old(self).data(),
            signal == signal_at(old(self).data(), old(self).position()),
            final(self).position() == advance(old(self).data(), old(self).position()),
    {
        let len = self.data.len();
        if self.bit_offset == 8 {
            self.bit_offset = 0;
            self.byte_offset = self.byte_offset + 1;
        }
        if self.byte_offset >= len {
            return ControlSignal::Exhausted;
        }
        let byte = self.data[self.byte_offset];
        let shift: u8 = 7 - self.bit_offset;
        let bit: u8 = (byte >> shift) & 1;
        self.bit_offset = self.bit_offset + 1;
        if bit == 1 {
            ControlSignal::SetBit
        } else {
            ControlSignal::Clear
        }
    }
}

} // verus!
