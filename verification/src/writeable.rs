use vstd::layout::layout_of_primitives;
use vstd::prelude::*;
use vstd::string::StringSliceAdditionalSpecFns;
use vstd::utf8::encode_utf8;

use crate::endian::{be16_bytes, be32_bytes, push_u16, push_u32};

verus! {

/// A value that can be written out as bytes.
///
/// `write` appends the bytes to a buffer that the caller hands to whatever
/// writer it has. `byte_size` is the size the value reports for itself; for
/// `usize`, and so for a record header, that is the size in memory and not
/// the four bytes that `write` emits.
pub trait Writeable {
    /// The bytes that `write` appends.
    spec fn encoding(&self) -> Seq<u8>;

    /// The size that `byte_size` reports.
    spec fn encoded_size(&self) -> nat;

    fn byte_size(&self) -> (n: usize)
        requires
            self.encoded_size() <= usize::MAX,
        ensures
            n == self.encoded_size(),
    ;

    fn write(&self, writer: &mut Vec<u8>)
        ensures
            final(writer)@ == old(writer)@ + self.encoding(),
    ;
}

impl Writeable for u8 {
    open spec fn encoding(&self) -> Seq<u8> {
        seq![*self]
    }

    open spec fn encoded_size(&self) -> nat {
        1
    }

    fn byte_size(&self) -> (n: usize) {
        broadcast use layout_of_primitives;

        core::mem::size_of::<u8>()
    }

    fn write(&self, writer: &mut Vec<u8>) {
        writer.push(*self);
        assert(writer@ =~= old(writer)@ + self.encoding());
    }
}

impl Writeable for u16 {
    open spec fn encoding(&self) -> Seq<u8> {
        be16_bytes(*self)
    }

    open spec fn encoded_size(&self) -> nat {
        2
    }

    fn byte_size(&self) -> (n: usize) {
        broadcast use layout_of_primitives;

        core::mem::size_of::<u16>()
    }

    fn write(&self, writer: &mut Vec<u8>) {
        push_u16(writer, *self);
    }
}

impl Writeable for u32 {
    open spec fn encoding(&self) -> Seq<u8> {
        be32_bytes(*self)
    }

    open spec fn encoded_size(&self) -> nat {
        4
    }

    fn byte_size(&self) -> (n: usize) {
        broadcast use layout_of_primitives;

        core::mem::size_of::<u32>()
    }

    fn write(&self, writer: &mut Vec<u8>) {
        push_u32(writer, *self);
    }
}

/// A `usize` is written as its low 32 bits, big-endian.
impl Writeable for usize {
    open spec fn encoding(&self) -> Seq<u8> {
        be32_bytes((*self as int % 0x1_0000_0000) as u32)
    }

    open spec fn encoded_size(&self) -> nat {
        (usize::BITS / 8) as nat
    }

    fn byte_size(&self) -> (n: usize) {
        broadcast use layout_of_primitives;

        core::mem::size_of::<usize>()
    }

    fn write(&self, writer: &mut Vec<u8>) {
        let low: u64 = *self as u64 % 0x1_0000_0000;
        push_u32(writer, low as u32);
    }
}

/// The encodings of the items of `items`, one after the other.
pub open spec fn encoding_of_all<T: Writeable>(items: Seq<T>) -> Seq<u8>
    decreases items.len(),
{
    if items.len() == 0 {
        Seq::empty()
    } else {
        encoding_of_all(items.drop_last()) + items.last().encoding()
    }
}

/// The sum of the sizes that the items of `items` report.
pub open spec fn size_of_all<T: Writeable>(items: Seq<T>) -> nat
    decreases items.len(),
{
    if items.len() == 0 {
        0
    } else {
        size_of_all(items.drop_last()) + items.last().encoded_size()
    }
}

/// The sizes of the first items add up to no more than the sizes of all.
proof fn lemma_size_of_prefix<T: Writeable>(items: Seq<T>, k: int)
    requires
        0 <= k <= items.len(),
    ensures
        size_of_all(items.take(k)) <= size_of_all(items),
        k < items.len() ==> size_of_all(items.take(k)) + items[k].encoded_size() <= size_of_all(
            items,
        ),
    decreases items.len() - k,
{
    if k == items.len() {
        assert(items.take(k) =~= items);
    } else {
        lemma_size_of_prefix(items, k + 1);
        assert(items.take(k + 1).drop_last() =~= items.take(k));
    }
}

impl<T: Writeable> Writeable for Vec<T> {
    open spec fn encoding(&self) -> Seq<u8> {
        encoding_of_all(self@)
    }

    open spec fn encoded_size(&self) -> nat {
        size_of_all(self@)
    }

    fn byte_size(&self) -> (n: usize) {
        let mut total: usize = 0;
        let mut i: usize = 0;
        while i < self.len()
            invariant
                i <= self@.len(),
                total == size_of_all(self@.take(i as int)),
                size_of_all(self@) <= usize::MAX,
            decreases self@.len() - i,
        {
            proof {
                lemma_size_of_prefix(self@, i as int);
                assert(self@.take(i + 1).drop_last() =~= self@.take(i as int));
            }
            total = total + self[i].byte_size();
            i = i + 1;
        }
        assert(self@.take(i as int) =~= self@);
        total
    }

    fn write(&self, writer: &mut Vec<u8>) {
        let mut i: usize = 0;
        assert(writer@ =~= old(writer)@ + encoding_of_all(self@.take(0)));
        while i < self.len()
            invariant
                i <= self@.len(),
                writer@ == old(writer)@ + encoding_of_all(self@.take(i as int)),
            decreases self@.len() - i,
        {
            self[i].write(writer);
            proof {
                assert(self@.take(i + 1).drop_last() =~= self@.take(i as int));
                assert(writer@ =~= old(writer)@ + encoding_of_all(self@.take(i + 1)));
            }
            i = i + 1;
        }
        assert(self@.take(i as int) =~= self@);
    }
}

/// A string slice is written as its UTF-8 bytes.
impl Writeable for &str {
    open spec fn encoding(&self) -> Seq<u8> {
        self.spec_bytes()
    }

    open spec fn encoded_size(&self) -> nat {
        self.spec_bytes().len()
    }

    fn byte_size(&self) -> (n: usize) {
        self.len()
    }

    fn write(&self, writer: &mut Vec<u8>) {
        let bytes = self.as_bytes();
        let mut i: usize = 0;
        assert(writer@ =~= old(writer)@ + bytes@.take(0));
        while i < bytes.len()
            invariant
                i <= bytes@.len(),
                writer@ == old(writer)@ + bytes@.take(i as int),
            decreases bytes@.len() - i,
        {
            writer.push(bytes[i]);
            i = i + 1;
            assert(writer@ =~= old(writer)@ + bytes@.take(i as int));
        }
        assert(bytes@.take(i as int) =~= bytes@);
    }
}

/// A string is written as its slice is.
impl Writeable for String {
    open spec fn encoding(&self) -> Seq<u8> {
        encode_utf8(self@)
    }

    open spec fn encoded_size(&self) -> nat {
        encode_utf8(self@).len()
    }

    fn byte_size(&self) -> (n: usize) {
        let s: &str = self.as_str();
        s.byte_size()
    }

    fn write(&self, writer: &mut Vec<u8>) {
        let s: &str = self.as_str();
        s.write(writer)
    }
}

} // verus!
