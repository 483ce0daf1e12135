use spi_sprites::anim::{decode_frame, decode_frames, layout_strip, render_animation, FrameImage};
use spi_sprites::canvas::Canvas;
use spi_sprites::color::Rgba;
use spi_sprites::error::DecodeError;
use spi_sprites::obj::{Frame, Palette};
use spi_sprites::spi::{Spi, SpiHeader};
use spi_sprites::tiles::{TileBounds, TileListEnd};

const CLEAR: Rgba = Rgba { r: 0, g: 0, b: 0, a: 0 };

fn palette() -> Palette {
    let colors = (0..256u32).map(|i| Rgba { r: i as u8, g: 1, b: 2, a: 255 }).collect();
    Palette { index: 0, colors }
}

fn tile(offset_x: u16, offset_y: u16, width: u16, height: u16, pixels: &[u8]) -> Vec<u8> {
    let mut bytes = Vec::new();
    for field in [offset_x, offset_y, width, height] {
        bytes.push((field >> 8) as u8);
        bytes.push(field as u8);
    }
    bytes.extend_from_slice(pixels);
    bytes
}

/// A record that decodes to `stream`: every byte is a palette update.
fn record_of(stream: &[u8]) -> Spi {
    let control = vec![0xFFu8; (stream.len() + 3) / 4];
    let mut data = control.clone();
    data.extend_from_slice(stream);
    Spi {
        header: SpiHeader {
            magic: *b"SPI1",
            u1: stream.len(),
            u2: control.len(),
            u3: 0,
            u4: stream.len(),
        },
        data,
    }
}

fn frame(spi_idx: u16, x: i16, y: i16) -> Frame {
    Frame { spi_idx, kind: 0, id: 0, delay: 1, u2: 0, x, y, u5: 0, u6: 0, u7: 0 }
}

#[test]
fn frame_is_decoded_and_measured() {
    let spis = vec![record_of(&tile(1, 2, 3, 1, &[7, 8, 9]))];
    let image = decode_frame(&frame(0, 0, 0), &spis).unwrap().unwrap();
    assert_eq!(image.stream, tile(1, 2, 3, 1, &[7, 8, 9]));
    assert_eq!(image.bounds, TileBounds { width: 4, height: 3, end: TileListEnd::Complete });
    assert_eq!(decode_frame(&frame(0x8000, 0, 0), &spis), Ok(None));
    assert_eq!(decode_frame(&frame(1, 0, 0), &spis), Err(DecodeError::Truncated));
}

#[test]
fn frame_errors_are_those_of_the_first_bad_frame() {
    let mut other = record_of(&[1, 2, 3]);
    other.header.magic = *b"SPI0";
    let cut = record_of(&tile(0, 0, 2, 2, &[1]));
    let mut backref = record_of(&[]);
    backref.header.u1 = 4;
    backref.header.u2 = 1;
    backref.header.u4 = 2;
    backref.data = vec![0x00, 0x30, 0x00];
    let spis = vec![record_of(&[]), other, cut, backref];
    assert_eq!(
        decode_frames(&vec![frame(0, 0, 0), frame(1, 0, 0), frame(2, 0, 0)], &spis),
        Err(DecodeError::UnrecognizedMagic)
    );
    assert_eq!(
        decode_frames(&vec![frame(0, 0, 0), frame(2, 0, 0), frame(1, 0, 0)], &spis),
        Err(DecodeError::Truncated)
    );
    assert_eq!(
        decode_frames(&vec![frame(3, 0, 0), frame(1, 0, 0)], &spis),
        Err(DecodeError::InvalidBackReference)
    );
    assert_eq!(
        decode_frames(&vec![frame(0x8001, 0, 0), frame(0, 0, 0)], &spis).map(|v| v.len()),
        Ok(2)
    );
    assert_eq!(decode_frames(&vec![], &spis), Ok(vec![]));
}

#[test]
fn frames_are_laid_out_left_to_right_from_the_baseline() {
    let spis = vec![
        record_of(&tile(0, 0, 3, 2, &[1, 2, 3, 4, 5, 6])),
        record_of(&tile(1, 1, 1, 1, &[9])),
    ];
    let frames = vec![frame(0, 2, 5), frame(0x8001, 100, 9), frame(1, -4, 7)];
    let images = decode_frames(&frames, &spis).unwrap();
    assert!(images[0].is_some() && images[1].is_none() && images[2].is_some());

    let layout = layout_strip(&frames, &images);
    // The baseline is 9, the offset of the special frame.
    assert_eq!(layout.origins, vec![(0, 4), (5, 0), (5, 2)]);
    assert_eq!(layout.width, (3 + 2) + (2 + 4));
    assert_eq!(layout.height, 6);

    let pal = palette();
    assert!(Canvas::can_hold(layout.width, layout.height));
    let canvas = render_animation(&frames, &images, &pal);
    assert_eq!((canvas.width(), canvas.height()), (11, 6));
    for y in 0..6u32 {
        for x in 0..11u32 {
            let want = if x < 3 && (4..6).contains(&y) {
                pal.colors[(1 + (y - 4) * 3 + x) as usize]
            } else if (x, y) == (6, 3) {
                pal.colors[9]
            } else {
                CLEAR
            };
            assert_eq!(canvas.get_pixel(x, y), want, "at ({}, {})", x, y);
        }
    }
}

#[test]
fn layout_of_extremes() {
    let image = FrameImage {
        stream: tile(0, 0, 1, 1, &[0]),
        bounds: TileBounds { width: 1, height: 1, end: TileListEnd::Complete },
    };
    let frames = vec![frame(0, i16::MIN, i16::MIN), frame(0, i16::MAX, i16::MAX)];
    let images = vec![Some(image.clone()), Some(image)];
    let layout = layout_strip(&frames, &images);
    assert_eq!(layout.origins, vec![(0, 65535), (1 + 32768, 0)]);
    assert_eq!(layout.width, 1 + 32768 + 1 + 32767);
    assert_eq!(layout.height, 65536);

    let none = layout_strip(&vec![], &vec![]);
    assert_eq!((none.origins.len(), none.width, none.height), (0, 0, 0));
    let empty = render_animation(&vec![], &vec![], &palette());
    assert_eq!((empty.width(), empty.height()), (0, 0));
}

#[test]
fn later_frames_do_not_touch_earlier_ones() {
    let spis = vec![record_of(&tile(0, 0, 2, 1, &[5, 6]))];
    let frames = vec![frame(0, 0, 0), frame(0, 0, 0), frame(0, 1, 0)];
    let images = decode_frames(&frames, &spis).unwrap();
    let pal = palette();
    let canvas = render_animation(&frames, &images, &pal);
    assert_eq!((canvas.width(), canvas.height()), (7, 1));
    let row: Vec<u8> = (0..7).map(|x| canvas.get_pixel(x, 0).r).collect();
    assert_eq!(row, vec![5, 6, 5, 6, 5, 6, 0]);
    assert_eq!(canvas.get_pixel(6, 0), CLEAR);
}
