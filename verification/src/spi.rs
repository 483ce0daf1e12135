use vstd::prelude::*;
use vstd::slice::{slice_subrange, slice_to_vec};

use crate::endian::{be32, u32_at};
use crate::error::DecodeError;
use crate::writeable::{encoding_of_all, Writeable};

verus! {

/// Length in bytes of a record header: the tag and four 32-bit lengths.
pub const HEADER_LEN: usize = 20;

/// The tag of a record in the older codec.
pub open spec fn magic_spi0() -> Seq<u8> {
    seq![0x53u8, 0x50u8, 0x49u8, 0x30u8]
}

/// The tag of a record in the codec that `decompress_spi1` reads.
pub open spec fn magic_spi1() -> Seq<u8> {
    seq![0x53u8, 0x50u8, 0x49u8, 0x31u8]
}

/// Whether `tag` is one of the two tags a record may carry.
pub open spec fn known_magic(tag: Seq<u8>) -> bool {
    tag == magic_spi0() || tag == magic_spi1()
}

/// The fixed-layout header that starts every record.
#[derive(Debug, PartialEq, Eq, Clone)]
pub struct SpiHeader {
    /// The four-byte tag that names the codec.
    pub magic: [u8; 4],
    /// Length of the decoded pixel stream.
    pub u1: usize,
    /// Length of the control buffer.
    pub u2: usize,
    /// Length of the side buffer.
    pub u3: usize,
    /// Length of the literal buffer.
    pub u4: usize,
}

impl SpiHeader {
    /// The number of bytes the three sub-buffers take together.
    pub open spec fn data_len(&self) -> int {
        self.u2 + self.u3 + self.u4
    }

    /// Whether the tag is the one of the codec that `decompress_spi1` reads.
    pub fn is_spi1(&self) -> (b: bool)
        ensures
            b == (self.magic@ == magic_spi1()),
    {
        let b = self.magic[0] == 0x53 && self.magic[1] == 0x50 && self.magic[2] == 0x49
            && self.magic[3] == 0x31;
        proof {
            if b {
                assert(self.magic@ =~= magic_spi1());
            }
        }
        b
    }
}

/// A compressed record: its header and the bytes of its three sub-buffers,
/// laid out as control, side, literal.
#[derive(Debug, PartialEq, Eq, Clone)]
pub struct Spi {
    pub header: SpiHeader,
    pub data: Vec<u8>,
}

impl Spi {
    /// The sub-buffers fill `data` exactly.
    pub open spec fn wf(&self) -> bool {
        self.header.data_len() == self.data@.len()
    }

    /// The lengths in the header do not ask for more than `data` holds.
    pub open spec fn in_bounds(&self) -> bool {
        self.header.data_len() <= self.data@.len()
    }

    /// The control bitstream.
    pub open spec fn control(&self) -> Seq<u8> {
        self.data@.subrange(0, self.header.u2 as int)
    }

    /// The packed palette indices.
    pub open spec fn side(&self) -> Seq<u8> {
        self.data@.subrange(self.header.u2 as int, self.header.u2 + self.header.u3)
    }

    /// The literal bytes and back-reference descriptors.
    pub open spec fn literal(&self) -> Seq<u8> {
        self.data@.subrange(self.header.u2 + self.header.u3, self.header.data_len())
    }

    /// Tests whether the three sub-buffers lie within `data`.
    pub fn fits(&self) -> (b: bool)
        ensures
            b == self.in_bounds(),
    {
        let len = self.data.len();
        self.header.u2 <= len && self.header.u3 <= len - self.header.u2 && self.header.u4 <= len
            - self.header.u2 - self.header.u3
    }

    /// The control, side and literal buffers, in that order.
    pub fn slices(&self) -> (parts: (&[u8], &[u8], &[u8]))
        requires
            self.in_bounds(),
        ensures
            parts.0@ == self.control(),
            parts.1@ == self.side(),
            parts.2@ == self.literal(),
    {
        let u2 = self.header.u2;
        let u3 = self.header.u3;
        let u4 = self.header.u4;
        let data = self.data.as_slice();
        let len = data.len();
        assert(u2 + u3 + u4 <= len);
        (
            slice_subrange(data, 0, u2),
            slice_subrange(data, u2, u2 + u3),
            slice_subrange(data, u2 + u3, u2 + u3 + u4),
        )
    }
}

/// A header is written as its tag and its four lengths, 32 bits each. The
/// size it reports counts the lengths as they lie in memory.
impl Writeable for SpiHeader {
    open spec fn encoding(&self) -> Seq<u8> {
        self.magic@ + self.u1.encoding() + self.u2.encoding() + self.u3.encoding()
            + self.u4.encoding()
    }

    open spec fn encoded_size(&self) -> nat {
        4 + 4 * self.u1.encoded_size()
    }

    fn byte_size(&self) -> (n: usize) {
        4 + self.u1.byte_size() + self.u2.byte_size() + self.u3.byte_size() + self.u4.byte_size()
    }

    fn write(&self, writer: &mut Vec<u8>) {
        writer.push(self.magic[0]);
        writer.push(self.magic[1]);
        writer.push(self.magic[2]);
        writer.push(self.magic[3]);
        assert(writer@ =~= old(writer)@ + self.magic@);
        self.u1.write(writer);
        self.u2.write(writer);
        self.u3.write(writer);
        self.u4.write(writer);
        assert(writer@ =~= old(writer)@ + self.encoding());
    }
}

/// A record is written as its header and then its data.
impl Writeable for Spi {
    open spec fn encoding(&self) -> Seq<u8> {
        self.header.encoding() + self.data.encoding()
    }

    open spec fn encoded_size(&self) -> nat {
        self.header.encoded_size() + self.data.encoded_size()
    }

    fn byte_size(&self) -> (n: usize) {
        self.header.byte_size() + self.data.byte_size()
    }

    fn write(&self, writer: &mut Vec<u8>) {
        self.header.write(writer);
        self.data.write(writer);
        assert(writer@ =~= old(writer)@ + self.encoding());
    }
}

/// Reads a record header from the front of `input` and returns what follows
/// it. The tag is checked as soon as its four bytes are there.
pub fn spi_header(input: &[u8]) -> (r: Result<(&[u8], SpiHeader), DecodeError>)
    ensures
        input@.len() < 4 ==> r == Err::<(&[u8], SpiHeader), DecodeError>(DecodeError::Truncated),
        input@.len() >= 4 && !known_magic(input@.subrange(0, 4)) ==> r == Err::<
            (&[u8], SpiHeader),
            DecodeError,
        >(DecodeError::UnrecognizedMagic),
        4 <= input@.len() < HEADER_LEN && known_magic(input@.subrange(0, 4)) ==> r == Err::<
            (&[u8], SpiHeader),
            DecodeError,
        >(DecodeError::Truncated),
        input@.len() >= HEADER_LEN && known_magic(input@.subrange(0, 4)) ==> r is Ok && {
            let (rest, header) = r->Ok_0;
            &&& rest@ == input@.subrange(HEADER_LEN as int, input@.len() as int)
            &&& header.magic@ == input@.subrange(0, 4)
            &&& header.u1 == be32(input@, 4)
            &&& header.u2 == be32(input@, 8)
            &&& header.u3 == be32(input@, 12)
            &&& header.u4 == be32(input@, 16)
        },
{
    if input.len() < 4 {
        return Err(DecodeError::Truncated);
    }
    let magic: [u8; 4] = [input[0], input[1], input[2], input[3]];
    assert(magic@ =~= input@.subrange(0, 4));
    let tagged = magic[0] == 0x53 && magic[1] == 0x50 && magic[2] == 0x49 && (magic[3] == 0x30
        || magic[3] == 0x31);
    proof {
        if tagged {
            assert(magic@ =~= magic_spi0() || magic@ =~= magic_spi1());
        }
    }
    if !tagged {
        return Err(DecodeError::UnrecognizedMagic);
    }
    if input.len() < HEADER_LEN {
        return Err(DecodeError::Truncated);
    }
    let u1 = u32_at(input, 4)?;
    let u2 = u32_at(input, 8)?;
    let u3 = u32_at(input, 12)?;
    let u4 = u32_at(input, 16)?;
    let rest = slice_subrange(input, HEADER_LEN, input.len());
    Ok(
        (
            rest,
            SpiHeader {
                magic,
                u1: u1 as usize,
                u2: u2 as usize,
                u3: u3 as usize,
                u4: u4 as usize,
            },
        ),
    )
}

/// The error that reading a record from the front of `input` fails with, if
/// it fails.
pub open spec fn record_error(input: Seq<u8>) -> Option<DecodeError> {
    match spi_header_outcome(input) {
        Err(e) => Some(e),
        Ok(total) => if HEADER_LEN + total > input.len() {
            Some(DecodeError::InvalidRecordBounds)
        } else {
            None
        },
    }
}

/// Whether `record` is the record at the front of `input`.
pub open spec fn record_of(input: Seq<u8>, record: Spi) -> bool {
    &&& record.wf()
    &&& record.header.magic@ == input.subrange(0, 4)
    &&& record.header.u1 == be32(input, 4)
    &&& record.header.u2 == be32(input, 8)
    &&& record.header.u3 == be32(input, 12)
    &&& record.header.u4 == be32(input, 16)
    &&& record.data@ == input.subrange(HEADER_LEN as int, HEADER_LEN + record.header.data_len())
}

/// Reads a whole record from the front of `input`: the header, then as many
/// bytes as its three lengths add up to. Returns the record and what follows.
pub fn spi(input: &[u8]) -> (r: Result<(&[u8], Spi), DecodeError>)
    ensures
        match record_error(input@) {
            Some(e) => r == Err::<(&[u8], Spi), DecodeError>(e),
            None => r is Ok && {
                let (rest, record) = r->Ok_0;
                &&& record_of(input@, record)
                &&& rest@ == input@.subrange(
                    HEADER_LEN + record.header.data_len(),
                    input@.len() as int,
                )
            },
        },
{
    let (rest, header) = spi_header(input)?;
    let len = rest.len();
    if header.u2 > len || header.u3 > len - header.u2 || header.u4 > len - header.u2 - header.u3 {
        return Err(DecodeError::InvalidRecordBounds);
    }
    let data_size = header.u2 + header.u3 + header.u4;
    let data = slice_to_vec(slice_subrange(rest, 0, data_size));
    let after = slice_subrange(rest, data_size, len);
    assert(data@ =~= input@.subrange(HEADER_LEN as int, HEADER_LEN + data_size));
    assert(after@ =~= input@.subrange(HEADER_LEN + data_size, input@.len() as int));
    Ok((after, Spi { header, data }))
}

/// What reading a header from `input` comes to: the error it fails with, or
/// the number of data bytes that the header announces.
pub open spec fn spi_header_outcome(input: Seq<u8>) -> Result<int, DecodeError> {
    if input.len() < 4 {
        Err(DecodeError::Truncated)
    } else if !known_magic(input.subrange(0, 4)) {
        Err(DecodeError::UnrecognizedMagic)
    } else if input.len() < HEADER_LEN {
        Err(DecodeError::Truncated)
    } else {
        Ok(be32(input, 8) + be32(input, 12) + be32(input, 16))
    }
}

/// Bytes are written as they are.
pub proof fn lemma_bytes_encode_as_themselves(bytes: Seq<u8>)
    ensures
        encoding_of_all(bytes) == bytes,
    decreases bytes.len(),
{
    if bytes.len() > 0 {
        lemma_bytes_encode_as_themselves(bytes.drop_last());
        assert(bytes.drop_last() + seq![bytes.last()] =~= bytes);
    } else {
        assert(encoding_of_all(bytes) =~= bytes);
    }
}

/// A length that fits 32 bits is read back from the four bytes it is
/// written as, wherever they stand.
pub proof fn lemma_length_reads_back(bytes: Seq<u8>, at: int, length: usize)
    requires
        length <= u32::MAX,
        0 <= at,
        at + 4 <= bytes.len(),
        bytes.subrange(at, at + 4) == length.encoding(),
    ensures
        be32(bytes, at) == length,
{
    let v = length as int;
    let field = bytes.subrange(at, at + 4);
    assert(v % 0x1_0000_0000 == v);
    assert(bytes[at] == field[0] && bytes[at + 1] == field[1] && bytes[at + 2] == field[2]
        && bytes[at + 3] == field[3]);
    let high = (v as u32 / 0x1_0000) as u16;
    let low = (v as u32 % 0x1_0000) as u16;
    assert(field[0] == (high / 0x100) as u8 && field[1] == (high % 0x100) as u8);
    assert(field[2] == (low / 0x100) as u8 && field[3] == (low % 0x100) as u8);
}

/// Writing a record and reading it again gives the record back: the parser
/// takes the bytes that `write` emits for a well-formed record with a known
/// tag and lengths of at most 32 bits, and finds that record in them.
pub proof fn lemma_written_record_reads_back(record: Spi)
    requires
        record.wf(),
        known_magic(record.header.magic@),
        record.header.u1 <= u32::MAX,
        record.header.u2 <= u32::MAX,
        record.header.u3 <= u32::MAX,
        record.header.u4 <= u32::MAX,
    ensures
        record.encoding().len() == HEADER_LEN + record.data@.len(),
        record_error(record.encoding()) is None,
        record_of(record.encoding(), record),
{
    let header = record.header;
    let bytes = record.encoding();
    let magic = header.magic@;
    let e1 = header.u1.encoding();
    let e2 = header.u2.encoding();
    let e3 = header.u3.encoding();
    let e4 = header.u4.encoding();
    lemma_bytes_encode_as_themselves(record.data@);
    assert(magic.len() == 4);
    assert(e1.len() == 4 && e2.len() == 4 && e3.len() == 4 && e4.len() == 4);
    assert(bytes == magic + e1 + e2 + e3 + e4 + record.data@);
    assert(bytes.len() == 20 + record.data@.len());
    assert(bytes.subrange(0, 4) =~= magic);
    assert(bytes.subrange(4, 8) =~= e1);
    assert(bytes.subrange(8, 12) =~= e2);
    assert(bytes.subrange(12, 16) =~= e3);
    assert(bytes.subrange(16, 20) =~= e4);
    assert(bytes.subrange(20, 20 + record.data@.len() as int) =~= record.data@);
    lemma_length_reads_back(bytes, 4, header.u1);
    lemma_length_reads_back(bytes, 8, header.u2);
    lemma_length_reads_back(bytes, 12, header.u3);
    lemma_length_reads_back(bytes, 16, header.u4);
}

} // verus!
