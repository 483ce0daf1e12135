use vstd::prelude::*;

use crate::canvas::{lemma_row_major, Canvas};
use crate::color::Rgba;
use crate::endian::{be16, u16_at};
use crate::error::DecodeError;
use crate::obj::Palette;

verus! {

/// Length in bytes of the header in front of a tile's pixels.
pub const TILE_HEADER_LEN: usize = 8;

/// The largest horizontal offset of a real tile. A header with a larger one
/// marks a background record, whose tiles are not composited. The rule was
/// found by observation and is not known to be part of the format.
pub const BACKGROUND_OFFSET_LIMIT: u16 = 256;

/// Where a tile goes and how large it is.
#[derive(Clone, Copy, Debug, PartialEq, Eq, Structural)]
pub struct TileHeader {
    pub offset_x: u16,
    pub offset_y: u16,
    pub width: u16,
    pub height: u16,
}

impl TileHeader {
    /// The number of pixels in the tile.
    pub open spec fn area(&self) -> int {
        self.width * self.height
    }

    /// Whether the header marks a background record.
    pub open spec fn is_background(&self) -> bool {
        self.offset_x > BACKGROUND_OFFSET_LIMIT
    }
}

/// A tile: its header and its pixel indices, row by row.
pub struct Tile {
    pub header: TileHeader,
    pub pixels: Seq<u8>,
}

impl Tile {
    /// Whether the tile has a pixel at `(x, y)`.
    pub open spec fn covers(self, x: int, y: int) -> bool {
        &&& self.header.offset_x <= x < self.header.offset_x + self.header.width
        &&& self.header.offset_y <= y < self.header.offset_y + self.header.height
    }

    /// The palette index of the tile's pixel at `(x, y)`.
    pub open spec fn index_at(self, x: int, y: int) -> u8
        recommends
            self.covers(x, y),
    {
        self.pixels[(y - self.header.offset_y) * self.header.width + (x - self.header.offset_x)]
    }
}

/// Why a tile list has no further tile.
#[derive(Clone, Copy, Debug, PartialEq, Eq, Structural)]
pub enum TileListEnd {
    /// Fewer than two bytes were left.
    Complete,
    /// A header marked the rest as a background; such a record wants a look
    /// by hand.
    Background,
}

/// The tiles of a stream, and how the list ended.
pub struct TileList {
    pub tiles: Seq<Tile>,
    pub end: Result<TileListEnd, DecodeError>,
}

/// The header whose eight bytes start at `pos`.
pub open spec fn header_at(stream: Seq<u8>, pos: int) -> TileHeader {
    TileHeader {
        offset_x: be16(stream, pos) as u16,
        offset_y: be16(stream, pos + 2) as u16,
        width: be16(stream, pos + 4) as u16,
        height: be16(stream, pos + 6) as u16,
    }
}

/// The tiles of `stream` from `pos` on. The list ends where fewer than two
/// bytes are left, at a background marker, or where a header or its pixels
/// are cut short.
pub open spec fn tile_list(stream: Seq<u8>, pos: int) -> TileList
    decreases stream.len() - pos,
{
    if pos < 0 || stream.len() - pos < 2 {
        TileList { tiles: Seq::empty(), end: Ok(TileListEnd::Complete) }
    } else if stream.len() - pos < 8 {
        TileList { tiles: Seq::empty(), end: Err(DecodeError::Truncated) }
    } else if header_at(stream, pos).is_background() {
        TileList { tiles: Seq::empty(), end: Ok(TileListEnd::Background) }
    } else if pos + 8 + header_at(stream, pos).area() > stream.len() {
        TileList { tiles: Seq::empty(), end: Err(DecodeError::Truncated) }
    } else {
        let header = header_at(stream, pos);
        let tile = Tile { header, pixels: stream.subrange(pos + 8, pos + 8 + header.area()) };
        let rest = tile_list(stream, pos + 8 + header.area());
        TileList { tiles: seq![tile] + rest.tiles, end: rest.end }
    }
}

/// The width that holds every tile: the largest right edge.
pub open spec fn extent_x(tiles: Seq<Tile>) -> int
    decreases tiles.len(),
{
    if tiles.len() == 0 {
        0
    } else {
        let edge = tiles.last().header.offset_x + tiles.last().header.width;
        if extent_x(tiles.drop_last()) >= edge {
            extent_x(tiles.drop_last())
        } else {
            edge
        }
    }
}

/// The height that holds every tile: the largest bottom edge.
pub open spec fn extent_y(tiles: Seq<Tile>) -> int
    decreases tiles.len(),
{
    if tiles.len() == 0 {
        0
    } else {
        let edge = tiles.last().header.offset_y + tiles.last().header.height;
        if extent_y(tiles.drop_last()) >= edge {
            extent_y(tiles.drop_last())
        } else {
            edge
        }
    }
}

/// The colour at `(x, y)` once `tiles` were drawn in order over a pixel of
/// colour `base`: that of the last tile that covers the place.
pub open spec fn paint(tiles: Seq<Tile>, colors: Seq<Rgba>, x: int, y: int, base: Rgba) -> Rgba
    decreases tiles.len(),
{
    if tiles.len() == 0 {
        base
    } else if tiles.last().covers(x, y) {
        colors[tiles.last().index_at(x, y) as int]
    } else {
        paint(tiles.drop_last(), colors, x, y, base)
    }
}

/// Whether `tile`, moved by `origin`, lies on a canvas of the given size.
pub open spec fn tile_on_canvas(tile: Tile, origin: (u32, u32), width: int, height: int) -> bool {
    &&& origin.0 + tile.header.offset_x + tile.header.width <= width
    &&& origin.1 + tile.header.offset_y + tile.header.height <= height
}

/// Reads the tile header at `pos`. There is none where fewer than two bytes
/// are left; a header that starts but does not end is an error.
pub fn read_tile_header(stream: &[u8], pos: usize) -> (r: Result<Option<TileHeader>, DecodeError>)
    ensures
        stream@.len() - pos < 2 ==> r == Ok::<Option<TileHeader>, DecodeError>(None),
        2 <= stream@.len() - pos < 8 ==> r == Err::<Option<TileHeader>, DecodeError>(
            DecodeError::Truncated,
        ),
        stream@.len() - pos >= 8 ==> r == Ok::<Option<TileHeader>, DecodeError>(
            Some(header_at(stream@, pos as int)),
        ),
{
    let len = stream.len();
    if pos > len || len - pos < 2 {
        return Ok(None);
    }
    if len - pos < TILE_HEADER_LEN {
        return Err(DecodeError::Truncated);
    }
    let offset_x = u16_at(stream, pos)?;
    let offset_y = u16_at(stream, pos + 2)?;
    let width = u16_at(stream, pos + 4)?;
    let height = u16_at(stream, pos + 6)?;
    Ok(Some(TileHeader { offset_x, offset_y, width, height }))
}

/// The size of the canvas that a tile list needs.
#[derive(Clone, Copy, Debug, PartialEq, Eq, Structural)]
pub struct TileBounds {
    pub width: u32,
    pub height: u32,
    pub end: TileListEnd,
}

/// Walks the tile list of `stream` and finds the size of canvas that holds
/// all of its tiles.
pub fn tile_bounds(stream: &[u8]) -> (r: Result<TileBounds, DecodeError>)
    ensures
        match tile_list(stream@, 0).end {
            Err(e) => r == Err::<TileBounds, DecodeError>(e),
            Ok(end) => r == Ok::<TileBounds, DecodeError>(
                (TileBounds {
                    width: extent_x(tile_list(stream@, 0).tiles) as u32,
                    height: extent_y(tile_list(stream@, 0).tiles) as u32,
                    end,
                }),
            ) && extent_x(tile_list(stream@, 0).tiles) <= 0x1_FFFE && extent_y(
                tile_list(stream@, 0).tiles,
            ) <= 0x1_FFFE,
        },
{
    let len = stream.len();
    let mut width: u32 = 0;
    let mut height: u32 = 0;
    let mut pos: usize = 0;
    let ghost mut done: Seq<Tile> = Seq::empty();
    assert(done + tile_list(stream@, 0).tiles =~= tile_list(stream@, 0).tiles);
    loop
        invariant
            len == stream@.len(),
            pos <= len,
            tile_list(stream@, 0).tiles == done + tile_list(stream@, pos as int).tiles,
            tile_list(stream@, 0).end == tile_list(stream@, pos as int).end,
            width == extent_x(done),
            height == extent_y(done),
            width <= 0x1_FFFE,
            height <= 0x1_FFFE,
        decreases len - pos,
    {
        let header = match read_tile_header(stream, pos)? {
            None => {
                assert(done + tile_list(stream@, pos as int).tiles =~= done);
                return Ok(TileBounds { width, height, end: TileListEnd::Complete });
            },
            Some(header) => header,
        };
        if header.offset_x > BACKGROUND_OFFSET_LIMIT {
            assert(done + tile_list(stream@, pos as int).tiles =~= done);
            return Ok(TileBounds { width, height, end: TileListEnd::Background });
        }
        assert(header.width * header.height <= 0xFFFF * 0xFFFF) by (nonlinear_arith)
            requires
                header.width <= 0xFFFF,
                header.height <= 0xFFFF,
        ;
        let area: u64 = header.width as u64 * header.height as u64;
        if area > (len - pos - TILE_HEADER_LEN) as u64 {
            return Err(DecodeError::Truncated);
        }
        let right: u32 = header.offset_x as u32 + header.width as u32;
        let bottom: u32 = header.offset_y as u32 + header.height as u32;
        if right > width {
            width = right;
        }
        if bottom > height {
            height = bottom;
        }
        proof {
            let tile = Tile {
                header,
                pixels: stream@.subrange(pos + 8, pos + 8 + header.area()),
            };
            assert(done.push(tile).drop_last() =~= done);
            assert(done + (seq![tile] + tile_list(stream@, pos + 8 + header.area()).tiles)
                =~= done.push(tile) + tile_list(stream@, pos + 8 + header.area()).tiles);
            done = done.push(tile);
        }
        pos = pos + TILE_HEADER_LEN + area as usize;
    }
}

/// The extents hold every tile of the list.
pub proof fn lemma_extents_hold_tiles(tiles: Seq<Tile>, i: int)
    requires
        0 <= i < tiles.len(),
    ensures
        tiles[i].header.offset_x + tiles[i].header.width <= extent_x(tiles),
        tiles[i].header.offset_y + tiles[i].header.height <= extent_y(tiles),
    decreases tiles.len(),
{
    if i < tiles.len() - 1 {
        lemma_extents_hold_tiles(tiles.drop_last(), i);
    }
}

/// Draws one tile onto `canvas`: each of its pixel indices is looked up in
/// `palette` and written at the tile's place, moved by `origin`.
pub fn blit_tile(
    pixels: &[u8],
    header: TileHeader,
    palette: &Palette,
    canvas: &mut Canvas,
    origin: (u32, u32),
)
    requires
        pixels@.len() == header.area(),
        palette.wf(),
        old(canvas).wf(),
        tile_on_canvas(
            (Tile { header, pixels: pixels@ }),
            origin,
            old(canvas).spec_width(),
            old(canvas).spec_height(),
        ),
    ensures
        final(canvas).wf(),
        final(canvas).spec_width() == old(canvas).spec_width(),
        final(canvas).spec_height() == old(canvas).spec_height(),
        forall|x: int, y: int|
            old(canvas).contains(x, y) ==> #[trigger] final(canvas).pixel(x, y) == if (Tile {
                header,
                pixels: pixels@,
            }).covers(x - origin.0, y - origin.1) {
                palette.colors@[(Tile { header, pixels: pixels@ }).index_at(
                    x - origin.0,
                    y - origin.1,
                ) as int]
            } else {
                old(canvas).pixel(x, y)
            },
{
    let ghost tile = Tile { header, pixels: pixels@ };
    let canvas_width = canvas.width();
    let canvas_height = canvas.height();
    let left: u32 = origin.0 + header.offset_x as u32;
    let top: u32 = origin.1 + header.offset_y as u32;
    let mut row: u16 = 0;
    let mut index: usize = 0;
    while row < header.height
        invariant
            pixels@.len() == header.area(),
            palette.wf(),
            canvas.wf(),
            canvas.spec_width() == old(canvas).spec_width(),
            canvas.spec_height() == old(canvas).spec_height(),
            tile == (Tile { header, pixels: pixels@ }),
            tile_on_canvas(tile, origin, canvas.spec_width(), canvas.spec_height()),
            canvas_width == canvas.spec_width(),
            canvas_height == canvas.spec_height(),
            left == origin.0 + header.offset_x,
            top == origin.1 + header.offset_y,
            row <= header.height,
            index == row * header.width,
            forall|x: int, y: int|
                old(canvas).contains(x, y) ==> #[trigger] canvas.pixel(x, y) == if tile.covers(
                    x - origin.0,
                    y - origin.1,
                ) && y - top < row {
                    palette.colors@[tile.index_at(x - origin.0, y - origin.1) as int]
                } else {
                    old(canvas).pixel(x, y)
                },
        decreases header.height - row,
    {
        let mut col: u16 = 0;
        while col < header.width
            invariant
                pixels@.len() == header.area(),
                palette.wf(),
                canvas.wf(),
                canvas.spec_width() == old(canvas).spec_width(),
                canvas.spec_height() == old(canvas).spec_height(),
                tile == (Tile { header, pixels: pixels@ }),
                tile_on_canvas(tile, origin, canvas.spec_width(), canvas.spec_height()),
                canvas_width == canvas.spec_width(),
                canvas_height == canvas.spec_height(),
                left == origin.0 + header.offset_x,
                top == origin.1 + header.offset_y,
                row < header.height,
                col <= header.width,
                index == row * header.width + col,
                forall|x: int, y: int|
                    old(canvas).contains(x, y) ==> #[trigger] canvas.pixel(x, y) == if tile.covers(
                        x - origin.0,
                        y - origin.1,
                    ) && (y - top < row || (y - top == row && x - left < col)) {
                        palette.colors@[tile.index_at(x - origin.0, y - origin.1) as int]
                    } else {
                        old(canvas).pixel(x, y)
                    },
            decreases header.width - col,
        {
            proof {
                lemma_row_major(header.width as int, header.height as int, col as int, row as int);
            }
            let color = palette.colors[pixels[index] as usize];
            canvas.set_pixel(left + col as u32, top + row as u32, color);
            col = col + 1;
            index = index + 1;
        }
        assert((row + 1) * header.width == row * header.width + header.width) by (nonlinear_arith);
        row = row + 1;
    }
}

/// Draws the tiles of `stream` onto `canvas`, in order, with the canvas
/// origin of the record at `origin`. The canvas has to be large enough for
/// every tile. Drawing stops at the end of the list, at a background marker,
/// or, with an error, where a tile is cut short; the tiles before that point
/// are drawn in each case.
pub fn composite(stream: &[u8], palette: &Palette, canvas: &mut Canvas, origin: (u32, u32)) -> (r:
    Result<TileListEnd, DecodeError>)
    requires
        palette.wf(),
        old(canvas).wf(),
        forall|i: int|
            0 <= i < tile_list(stream@, 0).tiles.len() ==> tile_on_canvas(
                #[trigger] tile_list(stream@, 0).tiles[i],
                origin,
                old(canvas).spec_width(),
                old(canvas).spec_height(),
            ),
    ensures
        r == tile_list(stream@, 0).end,
        final(canvas).wf(),
        final(canvas).spec_width() == old(canvas).spec_width(),
        final(canvas).spec_height() == old(canvas).spec_height(),
        forall|x: int, y: int|
            old(canvas).contains(x, y) ==> #[trigger] final(canvas).pixel(x, y) == paint(
                tile_list(stream@, 0).tiles,
                palette.colors@,
                x - origin.0,
                y - origin.1,
                old(canvas).pixel(x, y),
            ),
{
    let len = stream.len();
    let mut pos: usize = 0;
    let ghost mut done: Seq<Tile> = Seq::empty();
    assert(done + tile_list(stream@, 0).tiles =~= tile_list(stream@, 0).tiles);
    loop
        invariant
            len == stream@.len(),
            pos <= len,
            palette.wf(),
            canvas.wf(),
            canvas.spec_width() == old(canvas).spec_width(),
            canvas.spec_height() == old(canvas).spec_height(),
            tile_list(stream@, 0).tiles == done + tile_list(stream@, pos as int).tiles,
            tile_list(stream@, 0).end == tile_list(stream@, pos as int).end,
            forall|i: int|
                0 <= i < tile_list(stream@, 0).tiles.len() ==> tile_on_canvas(
                    #[trigger] tile_list(stream@, 0).tiles[i],
                    origin,
                    canvas.spec_width(),
                    canvas.spec_height(),
                ),
            forall|x: int, y: int|
                old(canvas).contains(x, y) ==> #[trigger] canvas.pixel(x, y) == paint(
                    done,
                    palette.colors@,
                    x - origin.0,
                    y - origin.1,
                    old(canvas).pixel(x, y),
                ),
        decreases len - pos,
    {
        let header = match read_tile_header(stream, pos)? {
            None => {
                assert(done + tile_list(stream@, pos as int).tiles =~= done);
                return Ok(TileListEnd::Complete);
            },
            Some(header) => header,
        };
        if header.offset_x > BACKGROUND_OFFSET_LIMIT {
            assert(done + tile_list(stream@, pos as int).tiles =~= done);
            return Ok(TileListEnd::Background);
        }
        assert(header.width * header.height <= 0xFFFF * 0xFFFF) by (nonlinear_arith)
            requires
                header.width <= 0xFFFF,
                header.height <= 0xFFFF,
        ;
        let area: u64 = header.width as u64 * header.height as u64;
        if area > (len - pos - TILE_HEADER_LEN) as u64 {
            assert(done + tile_list(stream@, pos as int).tiles =~= done);
            return Err(DecodeError::Truncated);
        }
        let start = pos + TILE_HEADER_LEN;
        let next = start + area as usize;
        let pixels = vstd::slice::slice_subrange(stream, start, next);
        let ghost tile = Tile { header, pixels: pixels@ };
        proof {
            assert(done.push(tile).drop_last() =~= done);
            assert(done + (seq![tile] + tile_list(stream@, next as int).tiles) =~= done.push(tile)
                + tile_list(stream@, next as int).tiles);
            assert(tile_list(stream@, 0).tiles[done.len() as int] == tile);
        }
        blit_tile(pixels, header, palette, canvas, origin);
        proof {
            done = done.push(tile);
        }
        pos = next;
    }
}

} // verus!
