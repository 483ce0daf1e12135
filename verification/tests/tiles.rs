use spi_sprites::canvas::Canvas;
use spi_sprites::color::{unpack_colors, Rgba};
use spi_sprites::convert::{has_room, write_bmp};
use spi_sprites::error::DecodeError;
use spi_sprites::obj::Palette;
use spi_sprites::tiles::{composite, read_tile_header, tile_bounds, TileBounds, TileHeader, TileListEnd};

fn palette() -> Palette {
    let colors = (0..256u32)
        .map(|i| Rgba { r: i as u8, g: (255 - i) as u8, b: (i * 7 % 256) as u8, a: 255 })
        .collect();
    Palette { index: 0, colors }
}

fn tile(offset_x: u16, offset_y: u16, width: u16, height: u16, pixels: &[u8]) -> Vec<u8> {
    let mut bytes = Vec::new();
    for field in [offset_x, offset_y, width, height] {
        bytes.push((field >> 8) as u8);
        bytes.push(field as u8);
    }
    bytes.extend_from_slice(pixels);
    bytes
}

const CLEAR: Rgba = Rgba { r: 0, g: 0, b: 0, a: 0 };

#[test]
fn color_conversion_of_extremes() {
    assert_eq!(Rgba::from_packed(0xFFFF), Rgba { r: 255, g: 255, b: 255, a: 255 });
    assert_eq!(Rgba::from_packed(0x0001), Rgba { r: 0, g: 0, b: 0, a: 255 });
    assert_eq!(Rgba::from_packed(0x0000), Rgba { r: 0, g: 0, b: 0, a: 0 });
}

#[test]
fn color_conversion_scales_each_channel() {
    // Red 1, green 16, blue 30, alpha 0.
    let packed: u16 = (1 << 11) | (16 << 6) | (30 << 1);
    assert_eq!(
        Rgba::from_packed(packed),
        Rgba {
            r: ((255u32 + 15) / 31) as u8,
            g: ((16u32 * 255 + 15) / 31) as u8,
            b: ((30u32 * 255 + 15) / 31) as u8,
            a: 0
        }
    );
    assert_eq!(Rgba::from_packed(packed), Rgba { r: 8, g: 132, b: 247, a: 0 });
    assert_eq!(Rgba::from_packed(0xF800), Rgba { r: 255, g: 0, b: 0, a: 0 });
    assert_eq!(Rgba::from_packed(0x07C0), Rgba { r: 0, g: 255, b: 0, a: 0 });
    assert_eq!(Rgba::from_packed(0x003E), Rgba { r: 0, g: 0, b: 255, a: 0 });
}

#[test]
fn color_table_is_big_endian() {
    let table = [0xFF, 0xFF, 0x00, 0x01, 0xF8, 0x00, 0x00];
    assert_eq!(
        unpack_colors(&table, 3),
        Ok(vec![
            Rgba { r: 255, g: 255, b: 255, a: 255 },
            Rgba { r: 0, g: 0, b: 0, a: 255 },
            Rgba { r: 255, g: 0, b: 0, a: 0 },
        ])
    );
    assert_eq!(unpack_colors(&table, 0), Ok(vec![]));
    assert_eq!(unpack_colors(&table, 4), Err(DecodeError::Truncated));
}

#[test]
fn canvas_starts_transparent_and_keeps_pixels_apart() {
    assert!(Canvas::can_hold(3, 2));
    let mut canvas = Canvas::new(3, 2);
    assert_eq!((canvas.width(), canvas.height()), (3, 2));
    for y in 0..2 {
        for x in 0..3 {
            assert_eq!(canvas.get_pixel(x, y), CLEAR);
        }
    }
    let red = Rgba { r: 255, g: 0, b: 0, a: 255 };
    canvas.set_pixel(2, 0, red);
    for y in 0..2 {
        for x in 0..3 {
            assert_eq!(canvas.get_pixel(x, y), if (x, y) == (2, 0) { red } else { CLEAR });
        }
    }
    assert_eq!(canvas.pixels().len(), 6);
    assert_eq!(canvas.pixels()[2], red);
}

#[test]
fn single_tile_is_drawn_at_its_offset() {
    let pal = palette();
    let stream = tile(3, 4, 2, 2, &[0, 1, 2, 3]);
    assert!(has_room(&stream));
    let canvas = write_bmp(&stream, &pal).unwrap().unwrap();
    assert_eq!((canvas.width(), canvas.height()), (5, 6));
    assert_eq!(canvas.get_pixel(3, 4), pal.colors[0]);
    assert_eq!(canvas.get_pixel(4, 4), pal.colors[1]);
    assert_eq!(canvas.get_pixel(3, 5), pal.colors[2]);
    assert_eq!(canvas.get_pixel(4, 5), pal.colors[3]);
    for y in 0..6 {
        for x in 0..5 {
            if !((3..5).contains(&x) && (4..6).contains(&y)) {
                assert_eq!(canvas.get_pixel(x, y), CLEAR);
            }
        }
    }
}

#[test]
fn composite_moves_tiles_by_the_origin() {
    let pal = palette();
    let stream = tile(3, 4, 2, 2, &[0, 1, 2, 3]);
    let mut canvas = Canvas::new(10, 10);
    assert_eq!(composite(&stream, &pal, &mut canvas, (2, 1)), Ok(TileListEnd::Complete));
    assert_eq!(canvas.get_pixel(5, 5), pal.colors[0]);
    assert_eq!(canvas.get_pixel(6, 5), pal.colors[1]);
    assert_eq!(canvas.get_pixel(5, 6), pal.colors[2]);
    assert_eq!(canvas.get_pixel(6, 6), pal.colors[3]);
    assert_eq!(canvas.get_pixel(3, 4), CLEAR);
}

#[test]
fn later_tiles_are_drawn_over_earlier_ones() {
    let pal = palette();
    let mut stream = tile(0, 0, 2, 2, &[10, 11, 12, 13]);
    stream.extend(tile(1, 1, 2, 1, &[20, 21]));
    stream.push(0xEE);
    assert_eq!(
        tile_bounds(&stream),
        Ok(TileBounds { width: 3, height: 2, end: TileListEnd::Complete })
    );
    let canvas = write_bmp(&stream, &pal).unwrap().unwrap();
    assert_eq!(canvas.get_pixel(0, 0), pal.colors[10]);
    assert_eq!(canvas.get_pixel(1, 0), pal.colors[11]);
    assert_eq!(canvas.get_pixel(2, 0), CLEAR);
    assert_eq!(canvas.get_pixel(0, 1), pal.colors[12]);
    assert_eq!(canvas.get_pixel(1, 1), pal.colors[20]);
    assert_eq!(canvas.get_pixel(2, 1), pal.colors[21]);
}

#[test]
fn tile_list_ends_where_fewer_than_two_bytes_remain() {
    assert_eq!(read_tile_header(&[], 0), Ok(None));
    assert_eq!(read_tile_header(&[1], 0), Ok(None));
    assert_eq!(read_tile_header(&[1, 2], 0), Err(DecodeError::Truncated));
    assert_eq!(read_tile_header(&[1, 2, 3, 4, 5, 6, 7], 0), Err(DecodeError::Truncated));
    assert_eq!(read_tile_header(&[1, 2, 3, 4, 5, 6, 7, 8], 9), Ok(None));
    assert_eq!(
        read_tile_header(&[9, 0, 3, 0, 4, 0, 2, 1, 0], 1),
        Ok(Some(TileHeader { offset_x: 3, offset_y: 4, width: 2, height: 256 }))
    );
    assert_eq!(tile_bounds(&[]), Ok(TileBounds { width: 0, height: 0, end: TileListEnd::Complete }));
}

#[test]
fn cut_short_tiles_are_reported() {
    let pal = palette();
    let mut stream = tile(0, 0, 1, 1, &[5]);
    stream.extend(tile(0, 0, 2, 2, &[1, 2, 3]));
    assert_eq!(tile_bounds(&stream), Err(DecodeError::Truncated));
    assert_eq!(write_bmp(&stream, &pal).unwrap_err(), DecodeError::Truncated);
    let mut canvas = Canvas::new(4, 4);
    assert_eq!(composite(&stream, &pal, &mut canvas, (0, 0)), Err(DecodeError::Truncated));
    assert_eq!(canvas.get_pixel(0, 0), pal.colors[5]);
    assert_eq!(canvas.get_pixel(1, 0), CLEAR);
}

#[test]
fn background_marker_stops_the_list() {
    let pal = palette();
    let mut stream = tile(256, 0, 1, 1, &[5]);
    stream.extend(tile(257, 0, 1, 1, &[6]));
    assert_eq!(
        tile_bounds(&stream),
        Ok(TileBounds { width: 257, height: 1, end: TileListEnd::Background })
    );
    assert!(write_bmp(&stream, &pal).unwrap().is_none());
    let mut canvas = Canvas::new(300, 2);
    assert_eq!(composite(&stream, &pal, &mut canvas, (0, 1)), Ok(TileListEnd::Background));
    assert_eq!(canvas.get_pixel(256, 1), pal.colors[5]);
    assert_eq!(canvas.get_pixel(257, 1), CLEAR);
}

#[test]
fn empty_tiles_count_for_the_bounds_only() {
    let pal = palette();
    let mut stream = tile(7, 2, 0, 5, &[]);
    stream.extend(tile(1, 1, 3, 0, &[]));
    assert_eq!(
        tile_bounds(&stream),
        Ok(TileBounds { width: 7, height: 7, end: TileListEnd::Complete })
    );
    let canvas = write_bmp(&stream, &pal).unwrap().unwrap();
    for y in 0..7 {
        for x in 0..7 {
            assert_eq!(canvas.get_pixel(x, y), CLEAR);
        }
    }
}
