use vstd::prelude::*;

verus! {

/// The working palette as a decode sees it: sixteen colour indices and the
/// write cursor, a counter that is never reset and picks its slot modulo 16.
pub struct PaletteState {
    pub slots: Seq<u8>,
    pub cursor: nat,
}

impl PaletteState {
    /// The palette every decode starts from: slot `i` holds `i`, and the
    /// cursor stands at 16.
    pub open spec fn fresh() -> Self {
        PaletteState { slots: Seq::new(16, |i: int| i as u8), cursor: 16 }
    }

    pub open spec fn wf(self) -> bool {
        self.slots.len() == 16
    }

    /// The slot that the next update writes.
    pub open spec fn next_slot(self) -> int {
        (self.cursor % 16) as int
    }

    /// The palette after one update with `byte`.
    pub open spec fn record(self, byte: u8) -> Self {
        PaletteState { slots: self.slots.update(self.next_slot(), byte), cursor: self.cursor + 1 }
    }

    /// The palette after the updates `bytes`, applied in order.
    pub open spec fn record_all(self, bytes: Seq<u8>) -> Self
        decreases bytes.len(),
    {
        if bytes.len() == 0 {
            self
        } else {
            self.record_all(bytes.drop_last()).record(bytes.last())
        }
    }
}

/// The sixteen-entry palette that a decode rebuilds as it goes.
pub struct WorkingPalette {
    slots: [u8; 16],
    next: u8,
    cursor: Ghost<nat>,
}

impl View for WorkingPalette {
    type V = PaletteState;

    closed spec fn view(&self) -> PaletteState {
        PaletteState { slots: self.slots@, cursor: self.cursor@ }
    }
}

impl WorkingPalette {
    /// The stored slot index is the cursor reduced modulo 16.
    pub closed spec fn wf(&self) -> bool {
        self.next as nat == self.cursor@ % 16
    }

    /// The identity palette, with the cursor at 16.
    pub fn new() -> (palette: Self)
        ensures
            palette.wf(),
            palette@ == PaletteState::fresh(),
    {
        let slots: [u8; 16] = [0, 1, 2, 3, 4, 5, 6, 7, 8, 9, 10, 11, 12, 13, 14, 15];
        assert(slots@ =~= PaletteState::fresh().slots);
        WorkingPalette { slots, next: 0, cursor: Ghost(16) }
    }

    /// Writes `byte` into the slot under the cursor and moves the cursor on.
    /// Returns the slot written.
    pub fn record(&mut self, byte: u8) -> (slot: usize)
        requires
            old(self).wf(),
        ensures
            final(self).wf(),
            final(self)@ == old(self)@.record(byte),
            slot == old(self)@.next_slot(),
    {
        let slot = self.next as usize;
        self.slots[slot] = byte;
        self.next = if self.next == 15 {
            0
        } else {
            self.next + 1
        };
        self.cursor = Ghost((self.cursor@ + 1) as nat);
        slot
    }

    /// The colour index that slot `index` holds.
    pub fn get(&self, index: u8) -> (value: u8)
        requires
            index < 16,
        ensures
            value == self@.slots[index as int],
    {
        self.slots[index as usize]
    }
}

/// The updates of a decode visit the slots in order, starting at slot 0 and
/// wrapping after slot 15: update number `k`, counted from 0, finds the
/// cursor at `16 + k`, writes slot `(16 + k) % 16`, and changes no other slot.
pub proof fn lemma_updates_cycle_through_slots(bytes: Seq<u8>, k: int)
    requires
        0 <= k < bytes.len(),
    ensures
        PaletteState::fresh().record_all(bytes.take(k)).cursor == 16 + k,
        PaletteState::fresh().record_all(bytes.take(k)).next_slot() == (16 + k) % 16,
        (16 + k) % 16 == k % 16,
        PaletteState::fresh().record_all(bytes.take(k + 1)).slots == PaletteState::fresh().record_all(
            bytes.take(k),
        ).slots.update(k % 16, bytes[k]),
{
    lemma_cursor_counts_updates(PaletteState::fresh(), bytes.take(k));
    assert(bytes.take(k + 1).drop_last() =~= bytes.take(k));
}

/// Each update moves the cursor on by one and keeps sixteen slots.
pub proof fn lemma_cursor_counts_updates(start: PaletteState, bytes: Seq<u8>)
    requires
        start.wf(),
    ensures
        start.record_all(bytes).cursor == start.cursor + bytes.len(),
        start.record_all(bytes).wf(),
    decreases bytes.len(),
{
    if bytes.len() > 0 {
        lemma_cursor_counts_updates(start, bytes.drop_last());
    }
}

} // verus!
