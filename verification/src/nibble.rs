use vstd::prelude::*;

use crate::error::DecodeError;

verus! {

/// Half-byte number `pos` of `data`: the high half of a byte comes before
/// its low half.
pub open spec fn nibble_at(data: Seq<u8>, pos: nat) -> u8
    recommends
        pos < 2 * data.len(),
{
    if pos % 2 == 0 {
        data[(pos / 2) as int] / 16
    } else {
        data[(pos / 2) as int] % 16
    }
}

/// Where a half-byte cursor stands within the current byte.
#[derive(Clone, Copy, Debug, PartialEq, Eq, Structural)]
pub enum NibblePhase {
    /// The next read takes the high half of the byte at the offset.
    AwaitingHighNibble,
    /// The high half of this byte was handed out; its low half comes next.
    AwaitingLowNibble(u8),
}

/// Reads the side buffer four bits at a time.
pub struct NibbleCursor<'a> {
    data: &'a [u8],
    offset: usize,
    phase: NibblePhase,
}

impl<'a> NibbleCursor<'a> {
    /// The offset stays within the buffer, and a byte that is half read is
    /// the one at the offset.
    pub closed spec fn wf(&self) -> bool {
        &&& self.offset <= self.data@.len()
        &&& self.phase matches NibblePhase::AwaitingLowNibble(byte) ==> self.offset
            < self.data@.len() && byte == self.data@[self.offset as int]
    }

    /// The buffer being read.
    pub closed spec fn data(&self) -> Seq<u8> {
        self.data@
    }

    /// The number of half-bytes handed out so far.
    pub closed spec fn position(&self) -> nat {
        match self.phase {
            NibblePhase::AwaitingHighNibble => (2 * self.offset) as nat,
            NibblePhase::AwaitingLowNibble(_) => (2 * self.offset + 1) as nat,
        }
    }

    /// A cursor at the high half of the first byte of `data`.
    pub fn new(data: &'a [u8]) -> (cursor: Self)
        ensures
            cursor.wf(),
            cursor.data() == data@,
            cursor.position() == 0,
    {
        NibbleCursor { data, offset: 0, phase: NibblePhase::AwaitingHighNibble }
    }

    /// Hands out the next half-byte, or reports that the buffer has ended;
    /// the cursor then stays where it is.
    pub fn next_index(&mut self) -> (r: Result<u8, DecodeError>)
        requires
            old(self).wf(),
        ensures
            final(self).wf(),
            final(self).data() == old(self).data(),
            old(self).position() < 2 * old(self).data().len() ==> r == Ok::<u8, DecodeError>(
                nibble_at(old(self).data(), old(self).position()),
            ) && final(self).position() == old(self).position() + 1,
            old(self).position() >= 2 * old(self).data().len() ==> r == Err::<u8, DecodeError>(
                DecodeError::Truncated,
            ) && final(self).position() == old(self).position(),
    {
        let len = self.data.len();
        match self.phase {
            NibblePhase::AwaitingHighNibble => {
                if self.offset >= len {
                    return Err(DecodeError::Truncated);
                }
                let byte = self.data[self.offset];
                self.phase = NibblePhase::AwaitingLowNibble(byte);
                Ok(byte / 16)
            },
            NibblePhase::AwaitingLowNibble(byte) => {
                self.offset = self.offset + 1;
                self.phase = NibblePhase::AwaitingHighNibble;
                Ok(byte % 16)
            },
        }
    }
}

} // verus!
