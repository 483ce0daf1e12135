use spi_sprites::args::Args;
use spi_sprites::color::Rgba;
use spi_sprites::endian::{byte_at, i16_at, push_u16, push_u32, u16_at, u32_at};
use spi_sprites::error::DecodeError;
use spi_sprites::obj::{
    parse_frame, parse_objdef, parse_objinfo, parse_objinfos, parse_palette, parse_spi, spi_offset,
    Frame, ObjInfo, ObjInfoFlags, Palette, FLAG_HASEXTRA, FLAG_LOOP, FRAME_BASE, OBJDEF_COUNT,
    OBJDEF_TABLE, OBJINFO_COUNT, OBJINFO_TABLE, PALETTE_COUNT, PALETTE_TABLE, SPI_BASE, SPI_COUNT,
    SPI_TABLE,
};
use spi_sprites::spi::{Spi, SpiHeader};
use spi_sprites::writeable::Writeable;

const IMAGE_LEN: usize = PALETTE_TABLE + PALETTE_COUNT * 0x200;

fn put(image: &mut [u8], at: usize, bytes: &[u8]) {
    image[at..at + bytes.len()].copy_from_slice(bytes);
}

/// An image of zeros in which every record offset leads to one empty record.
fn image() -> Vec<u8> {
    let mut image = vec![0u8; IMAGE_LEN];
    put(&mut image, SPI_BASE, b"SPI1");
    image
}

#[test]
fn big_endian_reads() {
    let buf = [0x12u8, 0x34, 0x56, 0x78, 0xFF, 0xFE];
    assert_eq!(byte_at(&buf, 5), Ok(0xFE));
    assert_eq!(byte_at(&buf, 6), Err(DecodeError::Truncated));
    assert_eq!(u16_at(&buf, 0), Ok(0x1234));
    assert_eq!(u16_at(&buf, 4), Ok(0xFFFE));
    assert_eq!(u16_at(&buf, 5), Err(DecodeError::Truncated));
    assert_eq!(u16_at(&buf, usize::MAX), Err(DecodeError::Truncated));
    assert_eq!(i16_at(&buf, 4), Ok(-2));
    assert_eq!(i16_at(&buf, 0), Ok(0x1234));
    assert_eq!(i16_at(&[0x80, 0x00], 0), Ok(i16::MIN));
    assert_eq!(i16_at(&buf, 5), Err(DecodeError::Truncated));
    assert_eq!(u32_at(&buf, 0), Ok(0x1234_5678));
    assert_eq!(u32_at(&buf, 2), Ok(0x5678_FFFE));
    assert_eq!(u32_at(&buf, 3), Err(DecodeError::Truncated));
}

#[test]
fn big_endian_writes() {
    let mut out = vec![9u8];
    push_u16(&mut out, 0x1234);
    push_u32(&mut out, 0xA1B2_C3D4);
    assert_eq!(out, vec![9, 0x12, 0x34, 0xA1, 0xB2, 0xC3, 0xD4]);
}

#[test]
fn writeable_integers() {
    let mut out = Vec::new();
    0xABu8.write(&mut out);
    0x1234u16.write(&mut out);
    0xA1B2_C3D4u32.write(&mut out);
    assert_eq!(out, vec![0xAB, 0x12, 0x34, 0xA1, 0xB2, 0xC3, 0xD4]);
    assert_eq!(0xABu8.byte_size(), 1);
    assert_eq!(0x1234u16.byte_size(), 2);
    assert_eq!(0xA1B2_C3D4u32.byte_size(), 4);
}

#[test]
fn writeable_usize_writes_low_32_bits() {
    let mut out = Vec::new();
    0x0102_0304usize.write(&mut out);
    assert_eq!(out, vec![1, 2, 3, 4]);
    assert_eq!(7usize.byte_size(), std::mem::size_of::<usize>());
    if usize::BITS == 64 {
        let mut out = Vec::new();
        ((0x55usize << 32) | 0x0A0B_0C0D).write(&mut out);
        assert_eq!(out, vec![0x0A, 0x0B, 0x0C, 0x0D]);
    }
}

#[test]
fn writeable_sequences_and_strings() {
    let items: Vec<u16> = vec![1, 0x0203, 0xFFFF];
    let mut out = vec![7u8];
    items.write(&mut out);
    assert_eq!(out, vec![7, 0, 1, 2, 3, 0xFF, 0xFF]);
    assert_eq!(items.byte_size(), 6);
    assert_eq!(Vec::<u32>::new().byte_size(), 0);

    let mut out = Vec::new();
    "SPI1".write(&mut out);
    String::from("\u{e9}!").write(&mut out);
    assert_eq!(out, vec![b'S', b'P', b'I', b'1', 0xC3, 0xA9, b'!']);
    assert_eq!("SPI1".byte_size(), 4);
    assert_eq!(String::from("\u{e9}!").byte_size(), 3);
}

#[test]
fn writeable_record() {
    let record = Spi {
        header: SpiHeader { magic: *b"SPI1", u1: 7, u2: 1, u3: 0, u4: 0x0103 },
        data: vec![0xC0, 0xAB, 0x30, 0x00],
    };
    let mut out = Vec::new();
    record.write(&mut out);
    assert_eq!(
        out,
        vec![
            b'S', b'P', b'I', b'1', 0, 0, 0, 7, 0, 0, 0, 1, 0, 0, 0, 0, 0, 0, 1, 3, 0xC0, 0xAB,
            0x30, 0x00
        ]
    );
    let word = std::mem::size_of::<usize>();
    assert_eq!(record.header.byte_size(), 4 + 4 * word);
    assert_eq!(record.byte_size(), 4 + 4 * word + 4);
}

#[test]
fn args_pick_a_palette() {
    let palettes: Vec<Palette> = (0..3)
        .map(|i| Palette { index: i, colors: vec![Rgba { r: i as u8, g: 0, b: 0, a: 255 }; 256] })
        .collect();
    let mut args = Args {
        rompath: String::from("rom.z64"),
        outpath: String::from("out"),
        palette: 2,
        debug: false,
        no_spi1: false,
    };
    assert_eq!(args.pick_palette(&palettes).map(|p| p.index), Some(2));
    assert!(args.wants_spi1());
    args.palette = 3;
    args.no_spi1 = true;
    assert!(args.pick_palette(&palettes).is_none());
    assert!(!args.wants_spi1());
}

#[test]
fn flags_are_tested_bit_by_bit() {
    let flags = ObjInfoFlags { bits: 0x0003 };
    assert!(flags.contains(FLAG_HASEXTRA));
    assert!(flags.contains(FLAG_LOOP));
    assert!(flags.contains(FLAG_HASEXTRA | FLAG_LOOP));
    assert!(!flags.contains(0x0010));
    assert!(!flags.contains(0x0011));
    assert!(flags.contains(0));
}

#[test]
fn object_description_fields() {
    let bytes = [
        0x77, 0x01, 0x02, 0x03, 0x04, 0x05, 0x06, 0x07, 0x08, 0x00, 0x81, 0x0B, 0x0C, 0x0D, 0x0E,
        0x0F, 0x10,
    ];
    assert_eq!(
        parse_objinfo(&bytes, 1),
        Ok(ObjInfo {
            offset1: 0x0102,
            offset2: 0x0304,
            u1: 0x0506_0708,
            flags: ObjInfoFlags { bits: 0x0081 },
            u2: 0x0B0C,
            u3: 0x0D0E,
            obj_count: 0x0F,
            extra_obj_count: 0x10,
        })
    );
    assert_eq!(parse_objinfo(&bytes, 2), Err(DecodeError::Truncated));
    assert_eq!(parse_objinfo(&bytes[..10], 0), Err(DecodeError::Truncated));
}

#[test]
fn frame_fields() {
    let mut bytes = vec![0u8; 40];
    bytes[12] = 0xC1;
    bytes[13] = 0xC2;
    put(&mut bytes, 20, &[0x80, 0x05, 1, 2, 3, 4, 0xFF, 0xFE, 0x00, 0x10, 0xAA, 0xBB, 0x66, 0x67]);
    let frame = parse_frame(&bytes, 20).unwrap();
    assert_eq!(
        frame,
        Frame {
            spi_idx: 0x8005,
            kind: 1,
            id: 2,
            delay: 3,
            u2: 4,
            x: -2,
            y: 16,
            u5: 0xAABB,
            u6: 0xC1,
            u7: 0xC2,
        }
    );
    assert!(frame.special());
    assert!(!Frame { spi_idx: 0x7FFF, ..frame }.special());
    assert!(parse_frame(&bytes, 28).is_ok());
    assert_eq!(parse_frame(&bytes, 29), Err(DecodeError::Truncated));
    assert_eq!(parse_frame(&bytes[..13], 0), Err(DecodeError::Truncated));
}

#[test]
fn definition_with_frames() {
    let mut image = vec![0u8; FRAME_BASE + 0x100];
    image[12] = 0x11;
    image[13] = 0x22;
    let at = 0x40;
    put(&mut image, at, &[0, 0, 0, 0x20, 0, 1, 0, 2, 0, 3, 0, 4, 0, 0, 0, 5, 2, 9, 9, 9]);
    put(&mut image, FRAME_BASE + 0x20, &[0, 7, 0, 0, 6, 0, 0, 1, 0, 2, 0, 0, 0x55, 0x55]);
    put(&mut image, FRAME_BASE + 0x20 + 14, &[0, 8, 0, 0, 6, 0, 0xFF, 0xFF, 0, 3, 0, 0, 0x55, 0x55]);
    let def = parse_objdef(&image, at).unwrap();
    assert_eq!(def.frames_offset, 0x20);
    assert_eq!((def.u1, def.u2, def.u3, def.u4, def.u5), (1, 2, 3, 4, 5));
    assert_eq!(def.frame_count, 2);
    assert_eq!((def.pad1, def.pad2, def.pad3), (0, 0, 0));
    assert_eq!(def.frames.len(), 2);
    assert_eq!((def.frames[0].spi_idx, def.frames[0].x, def.frames[0].y), (7, 1, 2));
    assert_eq!((def.frames[1].spi_idx, def.frames[1].x, def.frames[1].y), (8, -1, 3));
    assert_eq!((def.frames[1].u6, def.frames[1].u7), (0x11, 0x22));

    // The second frame is cut short.
    assert_eq!(
        parse_objdef(&image[..FRAME_BASE + 0x20 + 14 + 11], at),
        Err(DecodeError::Truncated)
    );
    // The definition itself is cut short.
    assert_eq!(parse_objdef(&image[..at + 16], at), Err(DecodeError::Truncated));
    // A definition without frames needs no frame data.
    assert_eq!(parse_objdef(&image[..0x40], 0).map(|d| d.frames.len()), Ok(0));
    // Frames far beyond the image.
    put(&mut image, at, &[0xFF, 0xFF, 0xFF, 0xFF]);
    assert_eq!(parse_objdef(&image, at), Err(DecodeError::Truncated));
}

#[test]
fn record_offsets_skip_odd_entries() {
    let mut image = vec![0u8; SPI_TABLE + 8 * 4];
    put(&mut image, SPI_TABLE, &[0, 0, 0, 0x11]);
    put(&mut image, SPI_TABLE + 8, &[0, 0, 0, 0x13]);
    put(&mut image, SPI_TABLE + 16, &[0, 0, 1, 0x40]);
    put(&mut image, SPI_TABLE + 24, &[0, 0, 0, 0x21]);
    assert_eq!(spi_offset(&image, 0), Ok(0x140));
    assert_eq!(spi_offset(&image, 1), Ok(0x140));
    assert_eq!(spi_offset(&image, 2), Ok(0x140));
    assert_eq!(spi_offset(&image, 3), Err(DecodeError::Truncated));
    assert_eq!(spi_offset(&image, 4), Err(DecodeError::Truncated));
    assert_eq!(spi_offset(&image, usize::MAX), Err(DecodeError::Truncated));
    // An entry needs all of its eight bytes.
    assert_eq!(spi_offset(&image[..SPI_TABLE + 23], 2), Err(DecodeError::Truncated));
    assert_eq!(spi_offset(&image[..SPI_TABLE + 24], 2), Ok(0x140));
}

#[test]
fn record_is_read_at_its_offset() {
    let mut image = vec![0u8; SPI_BASE + 0x100];
    put(&mut image, SPI_TABLE, &[0, 0, 0, 0x10]);
    put(&mut image, SPI_BASE + 0x10, b"SPI1");
    put(&mut image, SPI_BASE + 0x10 + 4, &[0, 0, 0, 7, 0, 0, 0, 1, 0, 0, 0, 0, 0, 0, 0, 3]);
    put(&mut image, SPI_BASE + 0x10 + 20, &[0xC0, 0xAB, 0x30, 0x00]);
    let record = parse_spi(&image, 0).unwrap();
    assert_eq!(record.header, SpiHeader { magic: *b"SPI1", u1: 7, u2: 1, u3: 0, u4: 3 });
    assert_eq!(record.data, vec![0xC0, 0xAB, 0x30, 0x00]);

    put(&mut image, SPI_BASE + 0x10, b"JUNK");
    assert_eq!(parse_spi(&image, 0), Err(DecodeError::UnrecognizedMagic));
    put(&mut image, SPI_BASE + 0x10, b"SPI0");
    put(&mut image, SPI_BASE + 0x10 + 8, &[0, 0, 0xFF, 0xFF]);
    assert_eq!(parse_spi(&image, 0), Err(DecodeError::InvalidRecordBounds));
    put(&mut image, SPI_TABLE, &[0x7F, 0, 0, 0]);
    assert_eq!(parse_spi(&image, 0), Err(DecodeError::Truncated));
}

#[test]
fn palette_is_unpacked_from_its_table() {
    let mut image = vec![0u8; PALETTE_TABLE + 0x400];
    put(&mut image, PALETTE_TABLE + 0x200, &[0xFF, 0xFF, 0x00, 0x01]);
    put(&mut image, PALETTE_TABLE + 0x200 + 2 * 255, &[0xF8, 0x01]);
    let palette = parse_palette(&image, 1).unwrap();
    assert_eq!(palette.index, 1);
    assert_eq!(palette.colors.len(), 256);
    assert_eq!(palette.colors[0], Rgba { r: 255, g: 255, b: 255, a: 255 });
    assert_eq!(palette.colors[1], Rgba { r: 0, g: 0, b: 0, a: 255 });
    assert_eq!(palette.colors[2], Rgba { r: 0, g: 0, b: 0, a: 0 });
    assert_eq!(palette.colors[255], Rgba { r: 255, g: 0, b: 0, a: 255 });
    assert_eq!(parse_palette(&image, 2), Err(DecodeError::Truncated));
    assert_eq!(parse_palette(&image[..PALETTE_TABLE + 0x3FF], 1), Err(DecodeError::Truncated));
    assert_eq!(parse_palette(&image, usize::MAX), Err(DecodeError::Truncated));
}

#[test]
fn whole_image_is_read() {
    let mut image = image();
    image[12] = 0x11;
    image[13] = 0x22;
    put(&mut image, OBJINFO_TABLE + 3 * 0x10, &[0x12, 0x34]);
    put(&mut image, OBJDEF_TABLE + 5 * 0x14, &[0, 0, 0, 0x1C]);
    image[OBJDEF_TABLE + 5 * 0x14 + 16] = 1;
    put(&mut image, FRAME_BASE + 0x1C, &[0x00, 0x09, 0, 0, 0, 0, 0, 5]);
    put(&mut image, SPI_TABLE + 8 * 2, &[0, 0, 0, 0x41]);
    put(&mut image, PALETTE_TABLE + 0x200 * 0x5F + 2, &[0xFF, 0xFF]);

    let tables = parse_objinfos(&image).unwrap();
    assert_eq!(tables.objinfos.len(), OBJINFO_COUNT);
    assert_eq!(tables.objinfos[3].offset1, 0x1234);
    assert_eq!(tables.objinfos[4].offset1, 0);
    assert_eq!(tables.defs.len(), OBJDEF_COUNT);
    assert_eq!(tables.defs[5].frames.len(), 1);
    assert_eq!(tables.defs[5].frames[0].spi_idx, 9);
    assert_eq!(tables.defs[5].frames[0].x, 5);
    assert_eq!((tables.defs[5].frames[0].u6, tables.defs[5].frames[0].u7), (0x11, 0x22));
    assert!(tables.defs[6].frames.is_empty());
    assert_eq!(tables.spis.len(), SPI_COUNT);
    assert_eq!(tables.spis[2].header.magic, *b"SPI1");
    assert_eq!(tables.palettes.len(), PALETTE_COUNT);
    assert_eq!(tables.palettes[0x5F].index, 0x5F);
    assert_eq!(tables.palettes[0x5F].colors[1], Rgba { r: 255, g: 255, b: 255, a: 255 });
}

#[test]
fn image_errors_come_in_table_order() {
    let image = image();
    assert_eq!(parse_objinfos(&[]), Err(DecodeError::Truncated));
    assert_eq!(parse_objinfos(&image[..IMAGE_LEN - 1]), Err(DecodeError::Truncated));
    assert_eq!(parse_objinfos(&image[..SPI_BASE + 19]), Err(DecodeError::Truncated));

    // A bad record is reported although the palettes are missing as well.
    let mut bad = image[..SPI_BASE + 0x100].to_vec();
    put(&mut bad, SPI_BASE, b"SPIX");
    assert_eq!(parse_objinfos(&bad), Err(DecodeError::UnrecognizedMagic));

    // A definition that is cut short is reported before a bad record.
    put(&mut bad, OBJDEF_TABLE, &[0x70, 0, 0, 0]);
    bad[OBJDEF_TABLE + 16] = 1;
    assert_eq!(parse_objinfos(&bad), Err(DecodeError::Truncated));
}

#[test]
fn written_record_reads_back() {
    let record = Spi {
        header: SpiHeader { magic: *b"SPI1", u1: 0x0102_0304, u2: 2, u3: 1, u4: 3 },
        data: vec![1, 2, 3, 4, 5, 6],
    };
    let mut bytes = Vec::new();
    record.write(&mut bytes);
    assert_eq!(bytes.len(), 20 + 6);
    bytes.extend_from_slice(&[0xEE]);
    let (rest, read) = spi_sprites::spi::spi(&bytes).unwrap();
    assert_eq!(read, record);
    assert_eq!(rest, &[0xEE]);
}
