use vstd::arithmetic::div_mod::{lemma_mod_sub_multiples_vanish, lemma_small_mod};
use vstd::prelude::*;

use crate::error::DecodeError;

verus! {

/// What is added to every count to give the length of a run.
pub const RUN_LENGTH_BIAS: u128 = 3;

/// The count in a descriptor's first byte that announces an extension.
pub const ESCAPE_COUNT: u8 = 15;

/// The number of `0xFF` bytes that follow one another in `lit` from `at` on.
pub open spec fn ff_run(lit: Seq<u8>, at: int) -> nat
    decreases lit.len() - at,
{
    if 0 <= at < lit.len() && lit[at] == 0xFF {
        1 + ff_run(lit, at + 1)
    } else {
        0
    }
}

/// The count in the high half of a descriptor's first byte.
pub open spec fn base_count(lit: Seq<u8>, at: int) -> int {
    lit[at] as int / 16
}

/// How far back the run starts: the second byte, plus 256 times the low
/// half of the first, plus one.
pub open spec fn distance_at(lit: Seq<u8>, at: int) -> int {
    lit[at + 1] as int + (lit[at] as int % 16) * 256 + 1
}

/// The number of bytes that extend the two descriptor bytes: none, unless the
/// base count is 15; then the `0xFF` bytes and the byte that ends them.
pub open spec fn extension_len(lit: Seq<u8>, at: int) -> int {
    if base_count(lit, at) == 15 {
        ff_run(lit, at + 2) as int + 1
    } else {
        0
    }
}

/// The offset just behind the descriptor that starts at `at`.
pub open spec fn descriptor_end(lit: Seq<u8>, at: int) -> int {
    at + 2 + extension_len(lit, at)
}

/// Whether `lit` holds the whole descriptor that starts at `at`.
pub open spec fn descriptor_fits(lit: Seq<u8>, at: int) -> bool {
    0 <= at && descriptor_end(lit, at) <= lit.len()
}

/// The count of the descriptor at `at`: the base count, and for an escape
/// 255 for each `0xFF` byte plus the value of the byte that ends them.
pub open spec fn count_at(lit: Seq<u8>, at: int) -> int {
    if base_count(lit, at) == 15 {
        15 + 255 * ff_run(lit, at + 2) + lit[at + 2 + ff_run(lit, at + 2)] as int
    } else {
        base_count(lit, at)
    }
}

/// The number of bytes that the descriptor at `at` asks to copy.
pub open spec fn run_length_at(lit: Seq<u8>, at: int) -> int {
    count_at(lit, at) + 3
}

/// `out` after a run of `n` bytes was copied from `distance` bytes back.
/// The copy reads what it has just written, so a run longer than its
/// distance repeats the last `distance` bytes of `out` over and over.
pub open spec fn copy_run(out: Seq<u8>, distance: int, n: nat) -> Seq<u8>
    recommends
        0 < distance <= out.len(),
{
    out + Seq::new(n, |k: int| out[out.len() - distance + k % distance])
}

/// An instruction to repeat bytes that were already decoded.
#[derive(Clone, Copy, Debug, PartialEq, Eq, Structural)]
pub struct BackReference {
    /// How many bytes before the end of the output the run starts.
    pub distance: usize,
    /// How many bytes the run copies. The type is wide enough for the
    /// longest extension that a buffer can hold.
    pub run_length: u128,
}

/// Reads the back-reference descriptor at `at` and returns it with the
/// offset of the byte behind it.
pub fn read_back_reference(lit: &[u8], at: usize) -> (r: Result<(BackReference, usize), DecodeError>)
    ensures
        descriptor_fits(lit@, at as int) ==> r is Ok && {
            let (reference, end) = r->Ok_0;
            &&& reference.distance == distance_at(lit@, at as int)
            &&& reference.run_length == run_length_at(lit@, at as int)
            &&& end == descriptor_end(lit@, at as int)
        },
        !descriptor_fits(lit@, at as int) ==> r == Err::<(BackReference, usize), DecodeError>(
            DecodeError::Truncated,
        ),
{
    let len = lit.len();
    if len < 2 || at > len - 2 {
        return Err(DecodeError::Truncated);
    }
    let b0 = lit[at];
    let b1 = lit[at + 1];
    let distance: usize = b1 as usize + (b0 % 16) as usize * 256 + 1;
    let base: u8 = b0 / 16;
    if base != ESCAPE_COUNT {
        return Ok((BackReference { distance, run_length: base as u128 + RUN_LENGTH_BIAS }, at + 2));
    }
    let mut count: u128 = 15;
    let mut pos: usize = at + 2;
    while pos < len && lit[pos] == 0xFF
        invariant
            len == lit@.len(),
            at + 2 <= pos <= len,
            count == 15 + 255 * (pos - (at + 2)),
            ff_run(lit@, at + 2) == (pos - (at + 2)) + ff_run(lit@, pos as int),
        decreases len - pos,
    {
        count = count + 255;
        pos = pos + 1;
    }
    if pos >= len {
        return Err(DecodeError::Truncated);
    }
    count = count + lit[pos] as u128;
    Ok((BackReference { distance, run_length: count + RUN_LENGTH_BIAS }, pos + 1))
}

/// Appends to `out` a run of `run_length` bytes that starts `distance` bytes
/// before its end, one byte at a time. A distance that reaches before the
/// start of `out`, or names no byte at all, is refused and `out` is left as
/// it was.
pub fn copy_back_reference(out: &mut Vec<u8>, distance: usize, run_length: u128) -> (r: Result<
    (),
    DecodeError,
>)
    ensures
        0 < distance <= old(out)@.len() ==> r is Ok && final(out)@ == copy_run(
            old(out)@,
            distance as int,
            run_length as nat,
        ),
        !(0 < distance <= old(out)@.len()) ==> r == Err::<(), DecodeError>(
            DecodeError::InvalidBackReference,
        ) && final(out)@ == old(out)@,
{
    let len = out.len();
    if distance == 0 || distance > len {
        return Err(DecodeError::InvalidBackReference);
    }
    let ghost before = out@;
    let mut pos: usize = len - distance;
    let mut copied: u128 = 0;
    assert(out@ =~= copy_run(before, distance as int, 0));
    while copied < run_length
        invariant
            0 < distance <= before.len(),
            before.len() == len,
            copied <= run_length,
            pos == len - distance + copied,
            out@ == copy_run(before, distance as int, copied as nat),
        decreases run_length - copied,
    {
        let n = out.len();
        let byte = out[pos];
        proof {
            if copied < distance {
                lemma_small_mod(copied as nat, distance as nat);
            } else {
                lemma_mod_sub_multiples_vanish(copied as int, distance as int);
            }
            assert(byte == before[len - distance + (copied as int) % (distance as int)]);
        }
        out.push(byte);
        pos = pos + 1;
        copied = copied + 1;
        assert(out@ =~= copy_run(before, distance as int, copied as nat));
    }
    Ok(())
}

/// A run copied from one byte back repeats that byte: each byte of the run
/// is a copy of the byte written just before it.
pub proof fn lemma_distance_one_repeats_last(out: Seq<u8>, n: nat)
    requires
        out.len() > 0,
    ensures
        copy_run(out, 1, n).len() == out.len() + n,
        copy_run(out, 1, n).take(out.len() as int) == out,
        forall|i: int|
            out.len() <= i < out.len() + n ==> #[trigger] copy_run(out, 1, n)[i] == out.last(),
        forall|i: int|
            out.len() <= i < out.len() + n ==> #[trigger] copy_run(out, 1, n)[i] == copy_run(
                out,
                1,
                n,
            )[i - 1],
{
    assert(copy_run(out, 1, n).take(out.len() as int) =~= out);
}

/// The descriptor `0x30 0x00` asks for six bytes from one byte back: decoded
/// at output length L > 0 it gives L + 6 bytes, the last seven of them equal.
pub proof fn lemma_descriptor_30_00(lit: Seq<u8>, at: int, out: Seq<u8>)
    requires
        0 <= at,
        at + 2 <= lit.len(),
        lit[at] == 0x30,
        lit[at + 1] == 0x00,
        out.len() > 0,
    ensures
        descriptor_fits(lit, at),
        descriptor_end(lit, at) == at + 2,
        distance_at(lit, at) == 1,
        run_length_at(lit, at) == 6,
        copy_run(out, 1, 6).len() == out.len() + 6,
        copy_run(out, 1, 6).take(out.len() as int) == out,
        forall|i: int|
            out.len() <= i < out.len() + 6 ==> #[trigger] copy_run(out, 1, 6)[i] == out.last(),
{
    lemma_distance_one_repeats_last(out, 6);
}

/// Whatever the distance, a run leaves what was there in place and makes
/// each new byte a copy of the byte `distance` places before it.
pub proof fn lemma_copy_run_overlaps(out: Seq<u8>, distance: int, n: nat)
    requires
        0 < distance <= out.len(),
    ensures
        copy_run(out, distance, n).len() == out.len() + n,
        copy_run(out, distance, n).take(out.len() as int) == out,
        forall|i: int|
            out.len() <= i < out.len() + n ==> #[trigger] copy_run(out, distance, n)[i] == copy_run(
                out,
                distance,
                n,
            )[i - distance],
{
    let run = copy_run(out, distance, n);
    assert(run.take(out.len() as int) =~= out);
    assert forall|i: int| out.len() <= i < out.len() + n implies #[trigger] run[i] == run[i
        - distance] by {
        let k = i - out.len();
        if k < distance {
            lemma_small_mod(k as nat, distance as nat);
        } else {
            lemma_mod_sub_multiples_vanish(k, distance);
        }
    }
}

} // verus!
