use vstd::prelude::*;
use vstd::slice::slice_subrange;

use crate::color::{unpack_colors, unpacked_table, Rgba};
use crate::endian::{be16, be16_signed, be32, byte_at, i16_at, u16_at, u32_at};
use crate::error::DecodeError;
use crate::spi::{record_error, record_of, spi, Spi};

verus! {

/// Offset of the table of object descriptions in the image.
pub const OBJINFO_TABLE: usize = 0x000f_27e0;

/// Number of object descriptions.
pub const OBJINFO_COUNT: usize = 0x9b4;

/// Length in bytes of one object description.
pub const OBJINFO_LEN: usize = 0x10;

/// Offset of the table of animation definitions.
pub const OBJDEF_TABLE: usize = 0x000f_d180;

/// Number of animation definitions.
pub const OBJDEF_COUNT: usize = 1645;

/// Length in bytes of one animation definition.
pub const OBJDEF_LEN: usize = 0x14;

/// Offset that the frame offsets of the definitions are counted from.
pub const FRAME_BASE: usize = 0x0010_5220;

/// Length in bytes of one frame.
pub const FRAME_LEN: usize = 0xe;

/// Offset of the table of record offsets.
pub const SPI_TABLE: usize = 0x0013_3ac0;

/// Number of records.
pub const SPI_COUNT: usize = 0xf81;

/// Length in bytes of one entry of the table of record offsets.
pub const SPI_ENTRY_LEN: usize = 8;

/// Offset that the record offsets are counted from.
pub const SPI_BASE: usize = 0x0013_d2e0;

/// Offset of the first master palette.
pub const PALETTE_TABLE: usize = 0x0047_f9a0;

/// Number of master palettes.
pub const PALETTE_COUNT: usize = 0x60;

/// Length in bytes of one master palette.
pub const PALETTE_LEN: usize = 0x200;

/// Number of colours in a master palette.
pub const PALETTE_COLORS: usize = 256;

/// The bit of a frame's record index that marks a frame without a record of
/// its own.
pub const SPECIAL_FRAME: u16 = 0x8000;

/// The flag word of an object description.
#[derive(Clone, Copy, Debug, PartialEq, Eq, Structural)]
pub struct ObjInfoFlags {
    pub bits: u16,
}

pub const FLAG_HASEXTRA: u16 = 0x0001;

pub const FLAG_LOOP: u16 = 0x0002;

pub const FLAG_BG2FG: u16 = 0x0010;

pub const FLAG_FG2BG: u16 = 0x0080;

impl ObjInfoFlags {
    /// Whether every bit of `flag` is set.
    pub fn contains(&self, flag: u16) -> (b: bool)
        ensures
            b == (self.bits & flag == flag),
    {
        self.bits & flag == flag
    }
}

/// One entry of the table of object descriptions.
#[derive(Clone, Copy, Debug, PartialEq, Eq, Structural)]
pub struct ObjInfo {
    pub offset1: u16,
    pub offset2: u16,
    pub u1: u32,
    pub flags: ObjInfoFlags,
    pub u2: u16,
    pub u3: u16,
    pub obj_count: u8,
    pub extra_obj_count: u8,
}

/// One frame of an animation: the record it shows, where, and for how long.
#[derive(Clone, Copy, Debug, PartialEq, Eq, Structural)]
pub struct Frame {
    pub spi_idx: u16,
    pub kind: u8,
    pub id: u8,
    pub delay: u8,
    pub u2: u8,
    pub x: i16,
    pub y: i16,
    pub u5: u16,
    pub u6: u8,
    pub u7: u8,
}

impl Frame {
    /// Whether the frame has no record of its own to draw.
    pub open spec fn is_special(&self) -> bool {
        self.spi_idx >= SPECIAL_FRAME
    }

    /// Tests the reserved high bit of the record index.
    pub fn special(&self) -> (b: bool)
        ensures
            b == self.is_special(),
    {
        self.spi_idx >= SPECIAL_FRAME
    }
}

/// One animation definition with its frames.
#[derive(Clone, Debug, PartialEq, Eq)]
pub struct ObjDef {
    pub frames_offset: u32,
    pub u1: u16,
    pub u2: u16,
    pub u3: u16,
    pub u4: u16,
    pub u5: u32,
    pub frame_count: u8,
    pub pad1: u8,
    pub pad2: u8,
    pub pad3: u8,
    pub frames: Vec<Frame>,
}

/// A master palette: the 256 colours that the pixel indices of a tile pick
/// from, and its number among the palettes of the image.
#[derive(Clone, Debug, PartialEq, Eq)]
pub struct Palette {
    pub index: usize,
    pub colors: Vec<Rgba>,
}

impl Palette {
    /// There is a colour for every pixel index.
    pub open spec fn wf(&self) -> bool {
        self.colors@.len() == 256
    }
}

/// The object description whose sixteen bytes start at `at`.
pub open spec fn objinfo_at(buf: Seq<u8>, at: int) -> ObjInfo {
    ObjInfo {
        offset1: be16(buf, at) as u16,
        offset2: be16(buf, at + 2) as u16,
        u1: be32(buf, at + 4) as u32,
        flags: ObjInfoFlags { bits: be16(buf, at + 8) as u16 },
        u2: be16(buf, at + 10) as u16,
        u3: be16(buf, at + 12) as u16,
        obj_count: buf[at + 14],
        extra_obj_count: buf[at + 15],
    }
}

/// The frame that starts at `at`. Its last two fields are not taken from the
/// frame: they are bytes 12 and 13 of the image.
pub open spec fn frame_at(buf: Seq<u8>, at: int) -> Frame {
    Frame {
        spi_idx: be16(buf, at) as u16,
        kind: buf[at + 2],
        id: buf[at + 3],
        delay: buf[at + 4],
        u2: buf[at + 5],
        x: be16_signed(buf, at + 6) as i16,
        y: be16_signed(buf, at + 8) as i16,
        u5: be16(buf, at + 10) as u16,
        u6: buf[12],
        u7: buf[13],
    }
}

/// Whether the frame at `at` can be read: its first twelve bytes and bytes
/// 12 and 13 of the image are there.
pub open spec fn frame_fits(buf: Seq<u8>, at: int) -> bool {
    at + 12 <= buf.len() && 14 <= buf.len()
}

/// Reads the object description at `at`.
pub fn parse_objinfo(buffer: &[u8], at: usize) -> (r: Result<ObjInfo, DecodeError>)
    ensures
        at + OBJINFO_LEN <= buffer@.len() ==> r == Ok::<ObjInfo, DecodeError>(
            objinfo_at(buffer@, at as int),
        ),
        at + OBJINFO_LEN > buffer@.len() ==> r == Err::<ObjInfo, DecodeError>(
            DecodeError::Truncated,
        ),
{
    let len = buffer.len();
    if len < OBJINFO_LEN || at > len - OBJINFO_LEN {
        return Err(DecodeError::Truncated);
    }
    let offset1 = u16_at(buffer, at)?;
    let offset2 = u16_at(buffer, at + 2)?;
    let u1 = u32_at(buffer, at + 4)?;
    let flags = u16_at(buffer, at + 8)?;
    let u2 = u16_at(buffer, at + 10)?;
    let u3 = u16_at(buffer, at + 12)?;
    let obj_count = byte_at(buffer, at + 14)?;
    let extra_obj_count = byte_at(buffer, at + 15)?;
    Ok(
        ObjInfo {
            offset1,
            offset2,
            u1,
            flags: ObjInfoFlags { bits: flags },
            u2,
            u3,
            obj_count,
            extra_obj_count,
        },
    )
}

/// Reads the frame at `at`.
pub fn parse_frame(buffer: &[u8], at: usize) -> (r: Result<Frame, DecodeError>)
    ensures
        frame_fits(buffer@, at as int) ==> r == Ok::<Frame, DecodeError>(
            frame_at(buffer@, at as int),
        ),
        !frame_fits(buffer@, at as int) ==> r == Err::<Frame, DecodeError>(DecodeError::Truncated),
{
    let len = buffer.len();
    if len < 14 || at > len - 12 {
        return Err(DecodeError::Truncated);
    }
    let spi_idx = u16_at(buffer, at)?;
    let kind = byte_at(buffer, at + 2)?;
    let id = byte_at(buffer, at + 3)?;
    let delay = byte_at(buffer, at + 4)?;
    let u2 = byte_at(buffer, at + 5)?;
    let x = i16_at(buffer, at + 6)?;
    let y = i16_at(buffer, at + 8)?;
    let u5 = u16_at(buffer, at + 10)?;
    let u6 = byte_at(buffer, 12)?;
    let u7 = byte_at(buffer, 13)?;
    Ok(Frame { spi_idx, kind, id, delay, u2, x, y, u5, u6, u7 })
}

/// Where the frames of the definition at `at` start.
pub open spec fn frames_start(buf: Seq<u8>, at: int) -> int {
    FRAME_BASE + be32(buf, at)
}

/// Whether the definition at `at` can be read: its first seventeen bytes are
/// there, and so is every one of its frames.
pub open spec fn objdef_fits(buf: Seq<u8>, at: int) -> bool {
    &&& at + 17 <= buf.len()
    &&& buf[at + 16] > 0 ==> frame_fits(buf, frames_start(buf, at) + (buf[at + 16] - 1) * FRAME_LEN)
}

/// Whether `def` is the definition at `at`. The three padding bytes of a
/// definition are not read; they are given as zero.
pub open spec fn objdef_at(buf: Seq<u8>, at: int, def: ObjDef) -> bool {
    &&& def.frames_offset == be32(buf, at)
    &&& def.u1 == be16(buf, at + 4)
    &&& def.u2 == be16(buf, at + 6)
    &&& def.u3 == be16(buf, at + 8)
    &&& def.u4 == be16(buf, at + 10)
    &&& def.u5 == be32(buf, at + 12)
    &&& def.frame_count == buf[at + 16]
    &&& def.pad1 == 0
    &&& def.pad2 == 0
    &&& def.pad3 == 0
    &&& def.frames@ == Seq::new(
        buf[at + 16] as nat,
        |j: int| frame_at(buf, frames_start(buf, at) + j * FRAME_LEN),
    )
}

/// Reads the animation definition at `at` and its frames.
pub fn parse_objdef(buffer: &[u8], at: usize) -> (r: Result<ObjDef, DecodeError>)
    ensures
        objdef_fits(buffer@, at as int) ==> r is Ok && objdef_at(buffer@, at as int, r->Ok_0),
        !objdef_fits(buffer@, at as int) ==> r == Err::<ObjDef, DecodeError>(DecodeError::Truncated),
{
    let len = buffer.len();
    if len < 17 || at > len - 17 {
        return Err(DecodeError::Truncated);
    }
    let frames_offset = u32_at(buffer, at)?;
    let u1 = u16_at(buffer, at + 4)?;
    let u2 = u16_at(buffer, at + 6)?;
    let u3 = u16_at(buffer, at + 8)?;
    let u4 = u16_at(buffer, at + 10)?;
    let u5 = u32_at(buffer, at + 12)?;
    let frame_count = byte_at(buffer, at + 16)?;
    let mut frames: Vec<Frame> = Vec::new();
    let mut j: u8 = 0;
    while j < frame_count
        invariant
            len == buffer@.len(),
            at + 17 <= len,
            frames_offset == be32(buffer@, at as int),
            frame_count == buffer@[at + 16],
            j <= frame_count,
            frames@.len() == j,
            j > 0 ==> frame_fits(buffer@, frames_start(buffer@, at as int) + (j - 1) * FRAME_LEN),
            forall|k: int|
                0 <= k < j ==> frames@[k] == frame_at(
                    buffer@,
                    frames_start(buffer@, at as int) + k * FRAME_LEN,
                ),
        decreases frame_count - j,
    {
        let start: u64 = FRAME_BASE as u64 + frames_offset as u64 + j as u64 * FRAME_LEN as u64;
        if start > len as u64 {
            return Err(DecodeError::Truncated);
        }
        let frame = parse_frame(buffer, start as usize)?;
        frames.push(frame);
        j = j + 1;
    }
    assert(frames@ =~= Seq::new(
        frame_count as nat,
        |k: int| frame_at(buffer@, frames_start(buffer@, at as int) + k * FRAME_LEN),
    ));
    Ok(
        ObjDef {
            frames_offset,
            u1,
            u2,
            u3,
            u4,
            u5,
            frame_count,
            pad1: 0,
            pad2: 0,
            pad3: 0,
            frames,
        },
    )
}

/// The record offset for entry `j` of the offset table: the first even
/// value at or behind the entry. Odd values are passed over. Of each
/// eight-byte entry the first four bytes hold the value.
pub open spec fn spi_slot(buf: Seq<u8>, j: int) -> Result<int, DecodeError>
    decreases buf.len() - j * SPI_ENTRY_LEN,
{
    if j < 0 || SPI_TABLE + j * SPI_ENTRY_LEN + SPI_ENTRY_LEN > buf.len() {
        Err(DecodeError::Truncated)
    } else if be32(buf, SPI_TABLE + j * SPI_ENTRY_LEN) % 2 == 0 {
        Ok(be32(buf, SPI_TABLE + j * SPI_ENTRY_LEN))
    } else {
        spi_slot(buf, j + 1)
    }
}

/// Looks up the offset of record `i`.
pub fn spi_offset(buffer: &[u8], i: usize) -> (r: Result<u32, DecodeError>)
    ensures
        match spi_slot(buffer@, i as int) {
            Ok(offset) => r is Ok && r->Ok_0 == offset,
            Err(e) => r == Err::<u32, DecodeError>(e),
        },
{
    let len = buffer.len();
    if len < SPI_TABLE + SPI_ENTRY_LEN {
        return Err(DecodeError::Truncated);
    }
    let last: usize = (len - SPI_TABLE - SPI_ENTRY_LEN) / SPI_ENTRY_LEN;
    if i > last {
        return Err(DecodeError::Truncated);
    }
    let mut j: usize = i;
    loop
        invariant
            len == buffer@.len(),
            len >= SPI_TABLE + SPI_ENTRY_LEN,
            last == (len - SPI_TABLE - SPI_ENTRY_LEN) / 8,
            j <= last,
            spi_slot(buffer@, i as int) == spi_slot(buffer@, j as int),
        decreases last - j,
    {
        let entry = u32_at(buffer, SPI_TABLE + j * SPI_ENTRY_LEN)?;
        if entry % 2 == 0 {
            return Ok(entry);
        }
        if j >= last {
            assert(spi_slot(buffer@, j + 1) == Err::<int, DecodeError>(DecodeError::Truncated));
            return Err(DecodeError::Truncated);
        }
        j = j + 1;
    }
}

/// The bytes that record `i` is read from: the image from the record's
/// offset to its end.
pub open spec fn spi_input(buf: Seq<u8>, i: int) -> Seq<u8> {
    buf.subrange(SPI_BASE + spi_slot(buf, i)->Ok_0, buf.len() as int)
}

/// The error that reading record `i` fails with, if it fails.
pub open spec fn spi_error(buf: Seq<u8>, i: int) -> Option<DecodeError> {
    match spi_slot(buf, i) {
        Err(e) => Some(e),
        Ok(offset) => if SPI_BASE + offset > buf.len() {
            Some(DecodeError::Truncated)
        } else {
            record_error(spi_input(buf, i))
        },
    }
}

/// Reads record `i` of the image.
pub fn parse_spi(buffer: &[u8], i: usize) -> (r: Result<Spi, DecodeError>)
    ensures
        match spi_error(buffer@, i as int) {
            Some(e) => r == Err::<Spi, DecodeError>(e),
            None => r is Ok && record_of(spi_input(buffer@, i as int), r->Ok_0),
        },
{
    let len = buffer.len();
    let offset = spi_offset(buffer, i)?;
    let start: u64 = SPI_BASE as u64 + offset as u64;
    if start > len as u64 {
        return Err(DecodeError::Truncated);
    }
    let input = slice_subrange(buffer, start as usize, len);
    let (_, record) = spi(input)?;
    Ok(record)
}

/// Where master palette `i` starts.
pub open spec fn palette_start(i: int) -> int {
    PALETTE_TABLE + i * PALETTE_LEN
}

/// Whether `palette` is master palette `i` of the image.
pub open spec fn palette_at(buf: Seq<u8>, i: int, palette: Palette) -> bool {
    &&& palette.index == i
    &&& palette.colors@ == unpacked_table(
        buf.subrange(palette_start(i), palette_start(i) + PALETTE_LEN),
        256,
    )
}

/// Reads master palette `i` of the image.
pub fn parse_palette(buffer: &[u8], i: usize) -> (r: Result<Palette, DecodeError>)
    ensures
        palette_start(i as int) + PALETTE_LEN <= buffer@.len() ==> r is Ok && (r->Ok_0).wf()
            && palette_at(buffer@, i as int, r->Ok_0),
        palette_start(i as int) + PALETTE_LEN > buffer@.len() ==> r == Err::<Palette, DecodeError>(
            DecodeError::Truncated,
        ),
{
    let len = buffer.len();
    if len < PALETTE_TABLE + PALETTE_LEN {
        return Err(DecodeError::Truncated);
    }
    if i > (len - PALETTE_TABLE - PALETTE_LEN) / PALETTE_LEN {
        return Err(DecodeError::Truncated);
    }
    let start = PALETTE_TABLE + i * PALETTE_LEN;
    let table = slice_subrange(buffer, start, start + PALETTE_LEN);
    let colors = unpack_colors(table, PALETTE_COLORS)?;
    Ok(Palette { index: i, colors })
}

/// The first error among items `0..n`, where `errors` gives the error of
/// each item that has one.
pub open spec fn first_error(errors: spec_fn(int) -> Option<DecodeError>, n: int) -> Option<
    DecodeError,
>
    decreases n,
{
    if n <= 0 {
        None
    } else {
        match first_error(errors, n - 1) {
            Some(e) => Some(e),
            None => errors(n - 1),
        }
    }
}

/// An error found among the first items is the first error of any longer
/// run of items.
pub proof fn lemma_first_error_stays(errors: spec_fn(int) -> Option<DecodeError>, k: int, n: int)
    requires
        k <= n,
        first_error(errors, k) is Some,
    ensures
        first_error(errors, n) == first_error(errors, k),
    decreases n - k,
{
    if k < n {
        lemma_first_error_stays(errors, k, n - 1);
    }
}

/// The error of animation definition `i`, if it cannot be read.
pub open spec fn def_error(buf: Seq<u8>, i: int) -> Option<DecodeError> {
    if objdef_fits(buf, OBJDEF_TABLE + i * OBJDEF_LEN) {
        None
    } else {
        Some(DecodeError::Truncated)
    }
}

/// Reads the table of object descriptions.
pub fn parse_objinfo_table(buffer: &[u8]) -> (r: Result<Vec<ObjInfo>, DecodeError>)
    ensures
        OBJINFO_TABLE + OBJINFO_COUNT * OBJINFO_LEN <= buffer@.len() ==> r is Ok && r->Ok_0@
            == Seq::new(
            OBJINFO_COUNT as nat,
            |i: int| objinfo_at(buffer@, OBJINFO_TABLE + i * OBJINFO_LEN),
        ),
        OBJINFO_TABLE + OBJINFO_COUNT * OBJINFO_LEN > buffer@.len() ==> r == Err::<
            Vec<ObjInfo>,
            DecodeError,
        >(DecodeError::Truncated),
{
    let mut objinfos: Vec<ObjInfo> = Vec::new();
    let mut i: usize = 0;
    while i < OBJINFO_COUNT
        invariant
            i <= OBJINFO_COUNT,
            objinfos@.len() == i,
            i > 0 ==> OBJINFO_TABLE + i * OBJINFO_LEN <= buffer@.len(),
            forall|k: int|
                0 <= k < i ==> objinfos@[k] == objinfo_at(buffer@, OBJINFO_TABLE + k * OBJINFO_LEN),
        decreases OBJINFO_COUNT - i,
    {
        let info = parse_objinfo(buffer, OBJINFO_TABLE + i * OBJINFO_LEN)?;
        objinfos.push(info);
        i = i + 1;
    }
    assert(objinfos@ =~= Seq::new(
        OBJINFO_COUNT as nat,
        |i: int| objinfo_at(buffer@, OBJINFO_TABLE + i * OBJINFO_LEN),
    ));
    Ok(objinfos)
}

/// Reads the table of animation definitions, each with its frames.
pub fn parse_objdef_table(buffer: &[u8]) -> (r: Result<Vec<ObjDef>, DecodeError>)
    ensures
        match first_error(|i: int| def_error(buffer@, i), OBJDEF_COUNT as int) {
            Some(e) => r == Err::<Vec<ObjDef>, DecodeError>(e),
            None => r is Ok && r->Ok_0@.len() == OBJDEF_COUNT && forall|i: int|
                0 <= i < OBJDEF_COUNT ==> objdef_at(
                    buffer@,
                    OBJDEF_TABLE + i * OBJDEF_LEN,
                    #[trigger] r->Ok_0@[i],
                ),
        },
{
    let ghost errors = |i: int| def_error(buffer@, i);
    let mut defs: Vec<ObjDef> = Vec::new();
    let mut i: usize = 0;
    while i < OBJDEF_COUNT
        invariant
            i <= OBJDEF_COUNT,
            errors == |i: int| def_error(buffer@, i),
            defs@.len() == i,
            first_error(errors, i as int) is None,
            forall|k: int|
                0 <= k < i ==> objdef_at(buffer@, OBJDEF_TABLE + k * OBJDEF_LEN, #[trigger] defs@[k]),
        decreases OBJDEF_COUNT - i,
    {
        let def = match parse_objdef(buffer, OBJDEF_TABLE + i * OBJDEF_LEN) {
            Ok(def) => def,
            Err(e) => {
                proof {
                    assert(errors(i as int) == Some(e));
                    assert(first_error(errors, i + 1) == Some(e));
                    lemma_first_error_stays(errors, i + 1, OBJDEF_COUNT as int);
                }
                return Err(e);
            },
        };
        defs.push(def);
        assert(errors(i as int) is None);
        i = i + 1;
    }
    Ok(defs)
}

/// Reads every record that the table of record offsets names.
pub fn parse_spi_table(buffer: &[u8]) -> (r: Result<Vec<Spi>, DecodeError>)
    ensures
        match first_error(|i: int| spi_error(buffer@, i), SPI_COUNT as int) {
            Some(e) => r == Err::<Vec<Spi>, DecodeError>(e),
            None => r is Ok && r->Ok_0@.len() == SPI_COUNT && forall|i: int|
                0 <= i < SPI_COUNT ==> record_of(spi_input(buffer@, i), #[trigger] r->Ok_0@[i]),
        },
{
    let ghost errors = |i: int| spi_error(buffer@, i);
    let mut spis: Vec<Spi> = Vec::new();
    let mut i: usize = 0;
    while i < SPI_COUNT
        invariant
            i <= SPI_COUNT,
            errors == |i: int| spi_error(buffer@, i),
            spis@.len() == i,
            first_error(errors, i as int) is None,
            forall|k: int| 0 <= k < i ==> record_of(spi_input(buffer@, k), #[trigger] spis@[k]),
        decreases SPI_COUNT - i,
    {
        let record = match parse_spi(buffer, i) {
            Ok(record) => record,
            Err(e) => {
                proof {
                    assert(errors(i as int) == Some(e));
                    assert(first_error(errors, i + 1) == Some(e));
                    lemma_first_error_stays(errors, i + 1, SPI_COUNT as int);
                }
                return Err(e);
            },
        };
        spis.push(record);
        assert(errors(i as int) is None);
        i = i + 1;
    }
    Ok(spis)
}

/// Reads the master palettes.
pub fn parse_palette_table(buffer: &[u8]) -> (r: Result<Vec<Palette>, DecodeError>)
    ensures
        PALETTE_TABLE + PALETTE_COUNT * PALETTE_LEN <= buffer@.len() ==> r is Ok && r->Ok_0@.len()
            == PALETTE_COUNT && forall|i: int|
            0 <= i < PALETTE_COUNT ==> (#[trigger] r->Ok_0@[i]).wf() && palette_at(
                buffer@,
                i,
                r->Ok_0@[i],
            ),
        PALETTE_TABLE + PALETTE_COUNT * PALETTE_LEN > buffer@.len() ==> r == Err::<
            Vec<Palette>,
            DecodeError,
        >(DecodeError::Truncated),
{
    let mut palettes: Vec<Palette> = Vec::new();
    let mut i: usize = 0;
    while i < PALETTE_COUNT
        invariant
            i <= PALETTE_COUNT,
            palettes@.len() == i,
            i > 0 ==> PALETTE_TABLE + i * PALETTE_LEN <= buffer@.len(),
            forall|k: int|
                0 <= k < i ==> (#[trigger] palettes@[k]).wf() && palette_at(
                    buffer@,
                    k,
                    palettes@[k],
                ),
        decreases PALETTE_COUNT - i,
    {
        let palette = parse_palette(buffer, i)?;
        palettes.push(palette);
        i = i + 1;
    }
    Ok(palettes)
}

/// Everything that is read from the image before anything is drawn.
#[derive(Clone, Debug, PartialEq, Eq)]
pub struct ObjTables {
    pub objinfos: Vec<ObjInfo>,
    pub defs: Vec<ObjDef>,
    pub spis: Vec<Spi>,
    pub palettes: Vec<Palette>,
}

/// The error that reading the tables of an image fails with, if it fails.
/// The tables are read in the order descriptions, definitions, records,
/// palettes, and the first error ends the reading.
pub open spec fn image_error(buf: Seq<u8>) -> Option<DecodeError> {
    if OBJINFO_TABLE + OBJINFO_COUNT * OBJINFO_LEN > buf.len() {
        Some(DecodeError::Truncated)
    } else if first_error(|i: int| def_error(buf, i), OBJDEF_COUNT as int) is Some {
        first_error(|i: int| def_error(buf, i), OBJDEF_COUNT as int)
    } else if first_error(|i: int| spi_error(buf, i), SPI_COUNT as int) is Some {
        first_error(|i: int| spi_error(buf, i), SPI_COUNT as int)
    } else if PALETTE_TABLE + PALETTE_COUNT * PALETTE_LEN > buf.len() {
        Some(DecodeError::Truncated)
    } else {
        None
    }
}

/// Whether `tables` holds what the image says at its fixed offsets.
pub open spec fn tables_of(buf: Seq<u8>, tables: ObjTables) -> bool {
    &&& tables.objinfos@ == Seq::new(
        OBJINFO_COUNT as nat,
        |i: int| objinfo_at(buf, OBJINFO_TABLE + i * OBJINFO_LEN),
    )
    &&& tables.defs@.len() == OBJDEF_COUNT
    &&& forall|i: int|
        0 <= i < OBJDEF_COUNT ==> objdef_at(
            buf,
            OBJDEF_TABLE + i * OBJDEF_LEN,
            #[trigger] tables.defs@[i],
        )
    &&& tables.spis@.len() == SPI_COUNT
    &&& forall|i: int|
        0 <= i < SPI_COUNT ==> record_of(spi_input(buf, i), #[trigger] tables.spis@[i])
    &&& tables.palettes@.len() == PALETTE_COUNT
    &&& forall|i: int|
        0 <= i < PALETTE_COUNT ==> (#[trigger] tables.palettes@[i]).wf() && palette_at(
            buf,
            i,
            tables.palettes@[i],
        )
}

/// Reads the object descriptions, the animation definitions, the records
/// and the master palettes of an image.
pub fn parse_objinfos(buffer: &[u8]) -> (r: Result<ObjTables, DecodeError>)
    ensures
        match image_error(buffer@) {
            Some(e) => r == Err::<ObjTables, DecodeError>(e),
            None => r is Ok && tables_of(buffer@, r->Ok_0),
        },
{
    let objinfos = parse_objinfo_table(buffer)?;
    let defs = parse_objdef_table(buffer)?;
    let spis = parse_spi_table(buffer)?;
    let palettes = parse_palette_table(buffer)?;
    Ok(ObjTables { objinfos, defs, spis, palettes })
}

} // verus!
