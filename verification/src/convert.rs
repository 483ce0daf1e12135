use vstd::prelude::*;

use crate::canvas::Canvas;
use crate::color::Rgba;
use crate::decode::{decode_outcome, decode_stream, returns_outcome, DecodeOutcome};
use crate::error::DecodeError;
use crate::obj::Palette;
use crate::spi::{magic_spi1, Spi};
use crate::tiles::{
    composite, extent_x, extent_y, lemma_extents_hold_tiles, paint, tile_bounds, tile_list,
    tile_on_canvas, TileListEnd,
};

verus! {

/// How the decode of a record ends. A record of another codec and a record
/// whose buffers do not lie within its data are refused before any bit is
/// read.
pub open spec fn spi1_outcome(spi: &Spi) -> DecodeOutcome {
    if spi.header.magic@ != magic_spi1() {
        DecodeOutcome::Failed(DecodeError::UnrecognizedMagic)
    } else if !spi.in_bounds() {
        DecodeOutcome::Failed(DecodeError::InvalidRecordBounds)
    } else {
        decode_outcome(spi.control(), spi.side(), spi.literal(), spi.header.u1 as nat)
    }
}

/// Decompresses the pixel stream of an SPI1 record. A control stream that
/// ends before the declared length is reached is no error: what was decoded
/// up to there is returned, and it is shorter than the declared length.
pub fn decompress_spi1(spi: &Spi) -> (r: Result<Vec<u8>, DecodeError>)
    ensures
        returns_outcome(r, spi1_outcome(spi)),
        r matches Ok(out) ==> (out@.len() < spi.header.u1 <==> spi1_outcome(spi) is Exhausted),
{
    if !spi.header.is_spi1() {
        return Err(DecodeError::UnrecognizedMagic);
    }
    if !spi.fits() {
        return Err(DecodeError::InvalidRecordBounds);
    }
    let (control, side, literal) = spi.slices();
    decode_stream(control, side, literal, spi.header.u1)
}

/// Decompresses every record of a batch on its own. A record that fails
/// leaves its error in its place and does not stop the others.
pub fn decompress_all(spis: &Vec<Spi>) -> (results: Vec<Result<Vec<u8>, DecodeError>>)
    ensures
        results@.len() == spis@.len(),
        forall|i: int|
            0 <= i < spis@.len() ==> returns_outcome(#[trigger] results@[i], spi1_outcome(&spis@[i])),
{
    let mut results: Vec<Result<Vec<u8>, DecodeError>> = Vec::new();
    let mut i: usize = 0;
    while i < spis.len()
        invariant
            i <= spis@.len(),
            results@.len() == i,
            forall|k: int|
                0 <= k < i ==> returns_outcome(#[trigger] results@[k], spi1_outcome(&spis@[k])),
        decreases spis@.len() - i,
    {
        let result = decompress_spi1(&spis[i]);
        results.push(result);
        i = i + 1;
    }
    results
}

/// Whether the canvas that the tiles of `stream` need can be addressed on
/// this machine. Only a complete tile list gets a canvas.
pub open spec fn canvas_fits(stream: Seq<u8>) -> bool {
    tile_list(stream, 0).end == Ok::<TileListEnd, DecodeError>(TileListEnd::Complete) ==> extent_x(
        tile_list(stream, 0).tiles,
    ) * extent_y(tile_list(stream, 0).tiles) <= usize::MAX
}

/// Tests whether `write_bmp` can make the canvas for `stream`.
pub fn has_room(stream: &[u8]) -> (b: bool)
    ensures
        b == canvas_fits(stream@),
{
    match tile_bounds(stream) {
        Ok(bounds) => match bounds.end {
            TileListEnd::Complete => Canvas::can_hold(bounds.width, bounds.height),
            TileListEnd::Background => true,
        },
        Err(_) => true,
    }
}

/// Renders the bitmap of a decoded record: a canvas just large enough for
/// its tiles, transparent where no tile lies. A background record gets no
/// bitmap.
pub fn write_bmp(decompressed: &[u8], palette: &Palette) -> (r: Result<Option<Canvas>, DecodeError>)
    requires
        palette.wf(),
        canvas_fits(decompressed@),
    ensures
        match tile_list(decompressed@, 0).end {
            Err(e) => r == Err::<Option<Canvas>, DecodeError>(e),
            Ok(TileListEnd::Background) => r == Ok::<Option<Canvas>, DecodeError>(None),
            Ok(TileListEnd::Complete) => r matches Ok(Some(canvas)) && {
                &&& canvas.wf()
                &&& canvas.spec_width() == extent_x(tile_list(decompressed@, 0).tiles)
                &&& canvas.spec_height() == extent_y(tile_list(decompressed@, 0).tiles)
                &&& forall|x: int, y: int|
                    canvas.contains(x, y) ==> #[trigger] canvas.pixel(x, y) == paint(
                        tile_list(decompressed@, 0).tiles,
                        palette.colors@,
                        x,
                        y,
                        (Rgba { r: 0, g: 0, b: 0, a: 0 }),
                    )
            },
        },
{
    let bounds = tile_bounds(decompressed)?;
    match bounds.end {
        TileListEnd::Background => Ok(None),
        TileListEnd::Complete => {
            let mut canvas = Canvas::new(bounds.width, bounds.height);
            assert forall|i: int| 0 <= i < tile_list(decompressed@, 0).tiles.len() implies tile_on_canvas(
                #[trigger] tile_list(decompressed@, 0).tiles[i],
                (0u32, 0u32),
                canvas.spec_width(),
                canvas.spec_height(),
            ) by {
                lemma_extents_hold_tiles(tile_list(decompressed@, 0).tiles, i);
            }
            composite(decompressed, palette, &mut canvas, (0, 0))?;
            Ok(Some(canvas))
        },
    }
}

} // verus!
