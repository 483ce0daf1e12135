use vstd::prelude::*;

use crate::backref::{
    copy_back_reference, copy_run, descriptor_end, descriptor_fits, distance_at,
    lemma_copy_run_overlaps, lemma_descriptor_30_00, read_back_reference, run_length_at,
};
use crate::bits::{signal_at, BitCursor, ControlSignal};
use crate::endian::byte_at;
use crate::error::DecodeError;
use crate::nibble::{nibble_at, NibbleCursor};
use crate::palette::{lemma_cursor_counts_updates, PaletteState, WorkingPalette};

verus! {

/// Everything a decode carries from one instruction to the next.
pub struct DecodeState {
    /// The pixel indices produced so far.
    pub out: Seq<u8>,
    /// The number of control bits drawn.
    pub bit_pos: nat,
    /// The number of half-bytes taken from the side buffer.
    pub side_pos: nat,
    /// The number of bytes taken from the literal buffer.
    pub lit_pos: nat,
    /// The working palette.
    pub palette: PaletteState,
}

impl DecodeState {
    /// The state in which every decode starts.
    pub open spec fn initial() -> Self {
        DecodeState {
            out: Seq::empty(),
            bit_pos: 0,
            side_pos: 0,
            lit_pos: 0,
            palette: PaletteState::fresh(),
        }
    }
}

/// What one instruction does to a decode.
pub enum Step {
    /// The instruction was carried out; this is the state behind it.
    Next(DecodeState),
    /// The control stream ended before the instruction was complete.
    Stop,
    /// The instruction cannot be carried out.
    Fail(DecodeError),
}

/// How a decode ends.
pub enum DecodeOutcome {
    /// The output reached the target length.
    Complete(Seq<u8>),
    /// The control stream ended first; the output is what was produced.
    Exhausted(Seq<u8>),
    /// The record is malformed.
    Failed(DecodeError),
}

/// A palette update: the next literal byte is written to the palette and to
/// the output.
pub open spec fn step_update(literal: Seq<u8>, st: DecodeState) -> Step {
    if st.lit_pos >= literal.len() {
        Step::Fail(DecodeError::Truncated)
    } else {
        let byte = literal[st.lit_pos as int];
        Step::Next(
            DecodeState {
                out: st.out.push(byte),
                bit_pos: st.bit_pos + 2,
                lit_pos: st.lit_pos + 1,
                palette: st.palette.record(byte),
                ..st
            },
        )
    }
}

/// A palette lookup: the next half-byte of the side buffer picks the slot
/// whose value is written to the output.
pub open spec fn step_lookup(side: Seq<u8>, st: DecodeState) -> Step {
    if st.side_pos >= 2 * side.len() {
        Step::Fail(DecodeError::Truncated)
    } else {
        let index = nibble_at(side, st.side_pos);
        Step::Next(
            DecodeState {
                out: st.out.push(st.palette.slots[index as int]),
                bit_pos: st.bit_pos + 2,
                side_pos: st.side_pos + 1,
                ..st
            },
        )
    }
}

/// A back-reference: the descriptor at the literal cursor names a run of
/// earlier output that is appended to the output.
pub open spec fn step_back_reference(literal: Seq<u8>, st: DecodeState) -> Step {
    let at = st.lit_pos as int;
    if !descriptor_fits(literal, at) {
        Step::Fail(DecodeError::Truncated)
    } else if distance_at(literal, at) > st.out.len() {
        Step::Fail(DecodeError::InvalidBackReference)
    } else {
        Step::Next(
            DecodeState {
                out: copy_run(st.out, distance_at(literal, at), run_length_at(literal, at) as nat),
                bit_pos: st.bit_pos + 1,
                lit_pos: descriptor_end(literal, at) as nat,
                ..st
            },
        )
    }
}

/// One instruction of the codec. A set control bit followed by a set bit is
/// a palette update, a set bit followed by a clear bit is a palette lookup,
/// and a clear bit is a back-reference.
pub open spec fn step(control: Seq<u8>, side: Seq<u8>, literal: Seq<u8>, st: DecodeState) -> Step {
    match signal_at(control, st.bit_pos) {
        ControlSignal::Exhausted => Step::Stop,
        ControlSignal::Clear => step_back_reference(literal, st),
        ControlSignal::SetBit => match signal_at(control, st.bit_pos + 1) {
            ControlSignal::Exhausted => Step::Stop,
            ControlSignal::SetBit => step_update(literal, st),
            ControlSignal::Clear => step_lookup(side, st),
        },
    }
}

/// The decode from state `st` on: instructions are carried out until the
/// output has `target` bytes or more, the control stream ends, or one fails.
pub open spec fn run(
    control: Seq<u8>,
    side: Seq<u8>,
    literal: Seq<u8>,
    target: nat,
    st: DecodeState,
) -> DecodeOutcome
    decreases 8 * control.len() - st.bit_pos,
{
    if st.out.len() >= target {
        DecodeOutcome::Complete(st.out)
    } else {
        match step(control, side, literal, st) {
            Step::Stop => DecodeOutcome::Exhausted(st.out),
            Step::Fail(e) => DecodeOutcome::Failed(e),
            Step::Next(next) => run(control, side, literal, target, next),
        }
    }
}

/// How the decode of the three buffers of a record ends.
pub open spec fn decode_outcome(
    control: Seq<u8>,
    side: Seq<u8>,
    literal: Seq<u8>,
    target: nat,
) -> DecodeOutcome {
    run(control, side, literal, target, DecodeState::initial())
}

/// What a decode that ends in `outcome` hands back: the output, whether or
/// not the control stream lasted, or the error.
pub open spec fn outcome_result(outcome: DecodeOutcome) -> Result<Seq<u8>, DecodeError> {
    match outcome {
        DecodeOutcome::Complete(out) => Ok(out),
        DecodeOutcome::Exhausted(out) => Ok(out),
        DecodeOutcome::Failed(e) => Err(e),
    }
}

/// Whether `r` is what `outcome` hands back.
pub open spec fn returns_outcome(r: Result<Vec<u8>, DecodeError>, outcome: DecodeOutcome) -> bool {
    match r {
        Ok(out) => outcome_result(outcome) == Ok::<Seq<u8>, DecodeError>(out@),
        Err(e) => outcome_result(outcome) == Err::<Seq<u8>, DecodeError>(e),
    }
}

/// Decodes the pixel stream of a record from its three buffers.
pub fn decode_stream(control: &[u8], side: &[u8], literal: &[u8], target_length: usize) -> (r:
    Result<Vec<u8>, DecodeError>)
    ensures
        returns_outcome(r, decode_outcome(control@, side@, literal@, target_length as nat)),
        r matches Ok(out) ==> (out@.len() < target_length <==> decode_outcome(
            control@,
            side@,
            literal@,
            target_length as nat,
        ) is Exhausted),
{
    proof {
        lemma_exhausted_is_partial(
            control@,
            side@,
            literal@,
            target_length as nat,
            DecodeState::initial(),
        );
    }
    let mut bits = BitCursor::new(control);
    let mut nibbles = NibbleCursor::new(side);
    let mut palette = WorkingPalette::new();
    let literal_len = literal.len();
    let mut lit_pos: usize = 0;
    let mut out: Vec<u8> = Vec::new();
    while out.len() < target_length
        invariant
            literal_len == literal@.len(),
            bits.wf(),
            bits.data() == control@,
            nibbles.wf(),
            nibbles.data() == side@,
            palette.wf(),
            lit_pos <= literal@.len(),
            run(
                control@,
                side@,
                literal@,
                target_length as nat,
                DecodeState {
                    out: out@,
                    bit_pos: bits.position(),
                    side_pos: nibbles.position(),
                    lit_pos: lit_pos as nat,
                    palette: palette@,
                },
            ) == decode_outcome(control@, side@, literal@, target_length as nat),
        decreases 8 * control@.len() - bits.position(),
    {
        match bits.next_bit() {
            ControlSignal::Exhausted => {
                return Ok(out);
            },
            ControlSignal::Clear => {
                let (reference, end) = read_back_reference(literal, lit_pos)?;
                copy_back_reference(&mut out, reference.distance, reference.run_length)?;
                lit_pos = end;
            },
            ControlSignal::SetBit => match bits.next_bit() {
                ControlSignal::Exhausted => {
                    return Ok(out);
                },
                ControlSignal::SetBit => {
                    let byte = byte_at(literal, lit_pos)?;
                    lit_pos = lit_pos + 1;
                    palette.record(byte);
                    out.push(byte);
                },
                ControlSignal::Clear => {
                    let index = nibbles.next_index()?;
                    out.push(palette.get(index));
                },
            },
        }
    }
    Ok(out)
}

/// A decode that ends because the control stream ran out has produced fewer
/// bytes than the target length, and it hands them back without an error. A
/// decode that is complete has reached the target length.
pub proof fn lemma_exhausted_is_partial(
    control: Seq<u8>,
    side: Seq<u8>,
    literal: Seq<u8>,
    target: nat,
    st: DecodeState,
)
    ensures
        run(control, side, literal, target, st) matches DecodeOutcome::Exhausted(out) ==> out.len()
            < target && outcome_result(run(control, side, literal, target, st)) == Ok::<
            Seq<u8>,
            DecodeError,
        >(out),
        run(control, side, literal, target, st) matches DecodeOutcome::Complete(out) ==> out.len()
            >= target,
    decreases 8 * control.len() - st.bit_pos,
{
    if st.out.len() < target {
        match step(control, side, literal, st) {
            Step::Next(next) => {
                lemma_exhausted_is_partial(control, side, literal, target, next);
            },
            _ => {},
        }
    }
}

/// A step never takes back what was decoded: the output behind it starts
/// with the output before it.
pub proof fn lemma_step_extends(control: Seq<u8>, side: Seq<u8>, literal: Seq<u8>, st: DecodeState)
    ensures
        step(control, side, literal, st) matches Step::Next(next) ==> st.out.is_prefix_of(next.out)
            && st.bit_pos < next.bit_pos <= 8 * control.len(),
{
    match step(control, side, literal, st) {
        Step::Next(next) => {
            assert(next.out.subrange(0, st.out.len() as int) =~= st.out);
        },
        _ => {},
    }
}

/// Whatever a decode hands back starts with the output it was resumed with.
pub proof fn lemma_run_extends(
    control: Seq<u8>,
    side: Seq<u8>,
    literal: Seq<u8>,
    target: nat,
    st: DecodeState,
)
    ensures
        outcome_result(run(control, side, literal, target, st)) matches Ok(out)
            ==> st.out.is_prefix_of(out),
    decreases 8 * control.len() - st.bit_pos,
{
    assert(st.out.subrange(0, st.out.len() as int) =~= st.out);
    if st.out.len() < target {
        match step(control, side, literal, st) {
            Step::Next(next) => {
                lemma_step_extends(control, side, literal, st);
                lemma_run_extends(control, side, literal, target, next);
                match outcome_result(run(control, side, literal, target, next)) {
                    Ok(out) => {
                        assert(out.subrange(0, st.out.len() as int) =~= next.out.subrange(
                            0,
                            st.out.len() as int,
                        ));
                    },
                    Err(_) => {},
                }
            },
            _ => {},
        }
    }
}

/// A control stream that is continued reads the same bits where it was read
/// before.
pub proof fn lemma_signal_of_longer_stream(control: Seq<u8>, more: Seq<u8>, pos: nat)
    requires
        pos < 8 * control.len(),
    ensures
        signal_at(control + more, pos) == signal_at(control, pos),
{
    assert((control + more)[(pos / 8) as int] == control[(pos / 8) as int]);
}

/// What a decode hands back when its control stream runs out is the start
/// of what it hands back for any continuation of that stream: with more
/// control bits, and the other buffers as they were, the decode goes the
/// same way up to there, and then on.
pub proof fn lemma_exhausted_is_prefix(
    control: Seq<u8>,
    more: Seq<u8>,
    side: Seq<u8>,
    literal: Seq<u8>,
    target: nat,
    st: DecodeState,
)
    requires
        run(control, side, literal, target, st) is Exhausted,
    ensures
        run(control, side, literal, target, st)->Exhausted_0.len() < target,
        outcome_result(run(control + more, side, literal, target, st)) matches Ok(full) ==> run(
            control,
            side,
            literal,
            target,
            st,
        )->Exhausted_0.is_prefix_of(full),
    decreases 8 * control.len() - st.bit_pos,
{
    let longer = control + more;
    match step(control, side, literal, st) {
        Step::Next(next) => {
            lemma_step_extends(control, side, literal, st);
            lemma_signal_of_longer_stream(control, more, st.bit_pos);
            if signal_at(control, st.bit_pos) == ControlSignal::SetBit {
                lemma_signal_of_longer_stream(control, more, st.bit_pos + 1);
            }
            assert(step(longer, side, literal, st) == step(control, side, literal, st));
            lemma_exhausted_is_prefix(control, more, side, literal, target, next);
        },
        Step::Stop => {
            lemma_run_extends(longer, side, literal, target, st);
        },
        Step::Fail(_) => {},
    }
}

/// A back-reference with the descriptor `0x30 0x00`, met when the output
/// has L > 0 bytes, leaves L + 6 bytes: the output as it was, and six more
/// that each repeat the byte before them, so all equal the last byte of the
/// output as it was.
pub proof fn lemma_back_reference_30_00(literal: Seq<u8>, st: DecodeState)
    requires
        st.lit_pos + 2 <= literal.len(),
        literal[st.lit_pos as int] == 0x30,
        literal[st.lit_pos as int + 1] == 0x00,
        st.out.len() > 0,
    ensures
        step_back_reference(literal, st) matches Step::Next(next) && {
            &&& next.out.len() == st.out.len() + 6
            &&& next.out.take(st.out.len() as int) == st.out
            &&& forall|i: int|
                st.out.len() <= i < st.out.len() + 6 ==> #[trigger] next.out[i] == st.out.last()
                    && next.out[i] == next.out[i - 1]
            &&& next.lit_pos == st.lit_pos + 2
            &&& next.bit_pos == st.bit_pos + 1
        },
{
    lemma_descriptor_30_00(literal, st.lit_pos as int, st.out);
    lemma_copy_run_overlaps(st.out, 1, 6);
}

/// The state after `n` instructions from `st` on, if none of them stops or
/// fails; else the first stop or failure.
pub open spec fn run_steps(
    control: Seq<u8>,
    side: Seq<u8>,
    literal: Seq<u8>,
    st: DecodeState,
    n: nat,
) -> Step
    decreases n,
{
    if n == 0 {
        Step::Next(st)
    } else {
        match run_steps(control, side, literal, st, (n - 1) as nat) {
            Step::Next(before) => step(control, side, literal, before),
            other => other,
        }
    }
}

/// The `n` literal bytes from the literal cursor of `st` on.
pub open spec fn next_literals(literal: Seq<u8>, st: DecodeState, n: nat) -> Seq<u8> {
    literal.subrange(st.lit_pos as int, st.lit_pos as int + n as int)
}

/// A run of `n` palette updates takes the next `n` literal bytes to the
/// output and to the palette. In a decode the palette starts with its
/// cursor at 16, so update number `k` of the run, counted from 0, writes
/// slot `(16 + k) % 16`: the slots are visited in order from slot 0 and
/// wrap after slot 15.
pub proof fn lemma_run_of_updates(
    control: Seq<u8>,
    side: Seq<u8>,
    literal: Seq<u8>,
    st: DecodeState,
    n: nat,
)
    requires
        st.palette.wf(),
        st.lit_pos + n <= literal.len(),
        forall|pos: nat|
            st.bit_pos <= pos < st.bit_pos + 2 * n ==> #[trigger] signal_at(control, pos)
                == ControlSignal::SetBit,
    ensures
        run_steps(control, side, literal, st, n) == Step::Next(
            (DecodeState {
                out: st.out + next_literals(literal, st, n),
                bit_pos: st.bit_pos + 2 * n,
                side_pos: st.side_pos,
                lit_pos: st.lit_pos + n,
                palette: st.palette.record_all(next_literals(literal, st, n)),
            }),
        ),
        st.palette.record_all(next_literals(literal, st, n)).cursor == st.palette.cursor + n,
        n > 0 ==> st.palette.record_all(next_literals(literal, st, n)).slots
            == st.palette.record_all(next_literals(literal, st, (n - 1) as nat)).slots.update(
            ((st.palette.cursor + n - 1) % 16) as int,
            literal[st.lit_pos as int + n - 1],
        ),
    decreases n,
{
    let taken = next_literals(literal, st, n);
    lemma_cursor_counts_updates(st.palette, taken);
    if n == 0 {
        assert(st.out + taken =~= st.out);
    } else {
        let m = (n - 1) as nat;
        let earlier = next_literals(literal, st, m);
        lemma_run_of_updates(control, side, literal, st, m);
        lemma_cursor_counts_updates(st.palette, earlier);
        assert(taken.drop_last() =~= earlier);
        assert(taken.last() == literal[st.lit_pos as int + m]);
        assert(signal_at(control, st.bit_pos + 2 * m) == ControlSignal::SetBit);
        assert(signal_at(control, st.bit_pos + 2 * m + 1) == ControlSignal::SetBit);
        assert(st.out + taken =~= (st.out + earlier).push(literal[st.lit_pos as int + m]));
    }
}

} // verus!
