use vstd::prelude::*;

use crate::canvas::Canvas;
use crate::color::Rgba;
use crate::convert::{decompress_spi1, spi1_outcome};
use crate::decode::outcome_result;
use crate::error::DecodeError;
use crate::obj::{first_error, lemma_first_error_stays, Frame, Palette};
use crate::spi::Spi;
use crate::tiles::{
    composite, extent_x, extent_y, lemma_extents_hold_tiles, paint, tile_bounds, tile_list,
    tile_on_canvas, Tile, TileBounds, TileListEnd,
};

verus! {

/// The most frames an animation can have: their number is kept in a byte.
pub const MAX_FRAMES: usize = 255;

/// The decoded record of one frame, with the size its tiles take up.
#[derive(Clone, Debug, PartialEq, Eq)]
pub struct FrameImage {
    pub stream: Vec<u8>,
    pub bounds: TileBounds,
}

impl FrameImage {
    /// The bounds are those of the stream's tile list, which is whole.
    pub open spec fn wf(&self) -> bool {
        &&& tile_list(self.stream@, 0).end == Ok::<TileListEnd, DecodeError>(self.bounds.end)
        &&& self.bounds.width == extent_x(self.tiles())
        &&& self.bounds.height == extent_y(self.tiles())
    }

    /// The tiles of the frame.
    pub open spec fn tiles(&self) -> Seq<Tile> {
        tile_list(self.stream@, 0).tiles
    }
}

/// The pixel stream of the record that `frame` names. A frame that names a
/// record the image does not have reads past the end of the record table.
pub open spec fn frame_stream(spis: Seq<Spi>, frame: Frame) -> Result<Seq<u8>, DecodeError> {
    if frame.spi_idx >= spis.len() {
        Err(DecodeError::Truncated)
    } else {
        outcome_result(spi1_outcome(&spis[frame.spi_idx as int]))
    }
}

/// The error that `frame` cannot be drawn for, if there is one. A special
/// frame is passed over and so has none.
pub open spec fn frame_error(spis: Seq<Spi>, frame: Frame) -> Option<DecodeError> {
    if frame.is_special() {
        None
    } else {
        match frame_stream(spis, frame) {
            Err(e) => Some(e),
            Ok(stream) => match tile_list(stream, 0).end {
                Err(e) => Some(e),
                Ok(_) => None,
            },
        }
    }
}

/// Decodes the record of one frame and measures its tiles. A special frame
/// has no image.
pub fn decode_frame(frame: &Frame, spis: &Vec<Spi>) -> (r: Result<Option<FrameImage>, DecodeError>)
    ensures
        match frame_error(spis@, *frame) {
            Some(e) => r == Err::<Option<FrameImage>, DecodeError>(e),
            None => r is Ok && if frame.is_special() {
                r->Ok_0 is None
            } else {
                &&& r->Ok_0 matches Some(image)
                &&& image.wf()
                &&& frame_stream(spis@, *frame) == Ok::<Seq<u8>, DecodeError>(image.stream@)
            },
        },
{
    if frame.special() {
        return Ok(None);
    }
    let index = frame.spi_idx as usize;
    if index >= spis.len() {
        return Err(DecodeError::Truncated);
    }
    let stream = decompress_spi1(&spis[index])?;
    let bounds = tile_bounds(stream.as_slice())?;
    Ok(Some(FrameImage { stream, bounds }))
}

/// Decodes the records of the frames of an animation, each on its own.
pub fn decode_frames(frames: &Vec<Frame>, spis: &Vec<Spi>) -> (r: Result<
    Vec<Option<FrameImage>>,
    DecodeError,
>)
    ensures
        match first_error(|i: int| frame_error(spis@, frames@[i]), frames@.len() as int) {
            Some(e) => r == Err::<Vec<Option<FrameImage>>, DecodeError>(e),
            None => r is Ok && r->Ok_0@.len() == frames@.len() && forall|i: int|
                0 <= i < frames@.len() ==> if frames@[i].is_special() {
                    #[trigger] r->Ok_0@[i] is None
                } else {
                    &&& r->Ok_0@[i] matches Some(image)
                    &&& image.wf()
                    &&& frame_stream(spis@, frames@[i]) == Ok::<Seq<u8>, DecodeError>(image.stream@)
                },
        },
{
    let ghost errors = |i: int| frame_error(spis@, frames@[i]);
    let mut images: Vec<Option<FrameImage>> = Vec::new();
    let mut i: usize = 0;
    while i < frames.len()
        invariant
            i <= frames@.len(),
            errors == |i: int| frame_error(spis@, frames@[i]),
            images@.len() == i,
            first_error(errors, i as int) is None,
            forall|k: int|
                0 <= k < i ==> if frames@[k].is_special() {
                    #[trigger] images@[k] is None
                } else {
                    &&& images@[k] matches Some(image)
                    &&& image.wf()
                    &&& frame_stream(spis@, frames@[k]) == Ok::<Seq<u8>, DecodeError>(image.stream@)
                },
        decreases frames@.len() - i,
    {
        let image = match decode_frame(&frames[i], spis) {
            Ok(image) => image,
            Err(e) => {
                proof {
                    assert(errors(i as int) == Some(e));
                    assert(first_error(errors, i + 1) == Some(e));
                    lemma_first_error_stays(errors, i + 1, frames@.len() as int);
                }
                return Err(e);
            },
        };
        images.push(image);
        assert(errors(i as int) is None);
        i = i + 1;
    }
    Ok(images)
}

/// The line that the frames of an animation hang from: the largest vertical
/// offset that any of its frames declares, special frames included. An
/// animation without frames has the line at 0.
pub open spec fn baseline(frames: Seq<Frame>) -> int
    decreases frames.len(),
{
    if frames.len() == 0 {
        0
    } else if frames.len() == 1 {
        frames[0].y as int
    } else if baseline(frames.drop_last()) >= frames.last().y {
        baseline(frames.drop_last())
    } else {
        frames.last().y as int
    }
}

/// The size of a frame's declared horizontal offset.
pub open spec fn abs_x(frame: Frame) -> int {
    if frame.x < 0 {
        -(frame.x as int)
    } else {
        frame.x as int
    }
}

/// How far a frame moves the next one to the right: by the width of its
/// tiles and the size of its horizontal offset. A frame without an image
/// takes no room.
pub open spec fn advance(frame: Frame, image: Option<FrameImage>) -> int {
    match image {
        Some(image) => image.bounds.width + abs_x(frame),
        None => 0,
    }
}

/// The column at which frame `i` starts: the advances of the frames before
/// it, added up.
pub open spec fn origin_x(frames: Seq<Frame>, images: Seq<Option<FrameImage>>, i: int) -> int
    decreases i,
{
    if i <= 0 {
        0
    } else {
        origin_x(frames, images, i - 1) + advance(frames[i - 1], images[i - 1])
    }
}

/// The row at which frame `i` starts: as far below the top as its vertical
/// offset is short of the baseline.
pub open spec fn origin_y(frames: Seq<Frame>, i: int) -> int {
    baseline(frames) - frames[i].y
}

/// The height that holds the first `n` frames at their rows.
pub open spec fn strip_height(frames: Seq<Frame>, images: Seq<Option<FrameImage>>, n: int) -> int
    decreases n,
{
    if n <= 0 {
        0
    } else {
        let rest = strip_height(frames, images, n - 1);
        match images[n - 1] {
            Some(image) => if rest >= origin_y(frames, n - 1) + image.bounds.height {
                rest
            } else {
                origin_y(frames, n - 1) + image.bounds.height
            },
            None => rest,
        }
    }
}

/// The colour at `(x, y)` of the strip once the first `n` frames were drawn
/// on a transparent canvas, each at its origin.
pub open spec fn paint_strip(
    frames: Seq<Frame>,
    images: Seq<Option<FrameImage>>,
    colors: Seq<Rgba>,
    n: int,
    x: int,
    y: int,
) -> Rgba
    decreases n,
{
    if n <= 0 {
        Rgba { r: 0, g: 0, b: 0, a: 0 }
    } else {
        let below = paint_strip(frames, images, colors, n - 1, x, y);
        match images[n - 1] {
            Some(image) => paint(
                image.tiles(),
                colors,
                x - origin_x(frames, images, n - 1),
                y - origin_y(frames, n - 1),
                below,
            ),
            None => below,
        }
    }
}

/// Whether the images are those of the frames of one animation.
pub open spec fn strip_wf(frames: Seq<Frame>, images: Seq<Option<FrameImage>>) -> bool {
    &&& frames.len() == images.len()
    &&& frames.len() <= MAX_FRAMES
    &&& forall|i: int|
        0 <= i < images.len() ==> (#[trigger] images[i] matches Some(image) ==> image.wf())
}

/// Where each frame of an animation goes on the strip, and the size of the
/// strip.
#[derive(Clone, Debug, PartialEq, Eq)]
pub struct StripLayout {
    pub origins: Vec<(u32, u32)>,
    pub width: u32,
    pub height: u32,
}

/// No tile list is wider or higher than two 16-bit numbers added.
pub proof fn lemma_extents_bounded(tiles: Seq<Tile>)
    ensures
        0 <= extent_x(tiles) <= 0x1_FFFE,
        0 <= extent_y(tiles) <= 0x1_FFFE,
    decreases tiles.len(),
{
    if tiles.len() > 0 {
        lemma_extents_bounded(tiles.drop_last());
    }
}

/// The baseline is a 16-bit number and no frame's offset lies above it.
pub proof fn lemma_baseline_is_max(frames: Seq<Frame>)
    ensures
        -0x8000 <= baseline(frames) <= 0x7FFF,
        forall|i: int| 0 <= i < frames.len() ==> (#[trigger] frames[i]).y <= baseline(frames),
        frames.len() > 0 ==> exists|i: int| 0 <= i < frames.len() && (#[trigger] frames[i]).y
            == baseline(frames),
    decreases frames.len(),
{
    if frames.len() > 1 {
        let front = frames.drop_last();
        lemma_baseline_is_max(front);
        assert forall|i: int| 0 <= i < frames.len() implies (#[trigger] frames[i]).y <= baseline(
            frames,
        ) by {
            if i < front.len() {
                assert(frames[i] == front[i]);
            }
        }
        if baseline(front) >= frames.last().y {
            let i = choose|i: int| 0 <= i < front.len() && (#[trigger] front[i]).y == baseline(front);
            assert(frames[i] == front[i]);
        } else {
            assert(frames[frames.len() - 1].y == baseline(frames));
        }
    } else if frames.len() == 1 {
        assert(frames[0].y == baseline(frames));
    }
}

/// The frames of a strip follow one another without overlap, and the strip
/// is as high as its lowest frame reaches.
pub proof fn lemma_strip_grows(frames: Seq<Frame>, images: Seq<Option<FrameImage>>, i: int, n: int)
    requires
        strip_wf(frames, images),
        0 <= i <= n <= frames.len(),
    ensures
        0 <= origin_x(frames, images, i) <= origin_x(frames, images, n),
        origin_x(frames, images, n) <= 0x2_7FFE * n,
        0 <= strip_height(frames, images, i) <= strip_height(frames, images, n) <= 0x2_FFFD,
        i < n ==> origin_x(frames, images, i) + advance(frames[i], images[i]) <= origin_x(
            frames,
            images,
            n,
        ),
        i < n ==> (images[i] matches Some(image) ==> origin_y(frames, i) + image.bounds.height
            <= strip_height(frames, images, n)),
    decreases n,
{
    lemma_baseline_is_max(frames);
    if n > 0 {
        match images[n - 1] {
            Some(image) => {
                lemma_extents_bounded(image.tiles());
            },
            None => {},
        }
        assert(frames[n - 1].y <= baseline(frames));
        if i < n {
            lemma_strip_grows(frames, images, i, n - 1);
        } else {
            lemma_strip_grows(frames, images, n - 1, n - 1);
        }
    }
}

/// Lays the frames of an animation out from left to right. Each frame
/// starts where the one before it ends and hangs from the baseline by its
/// vertical offset.
pub fn layout_strip(frames: &Vec<Frame>, images: &Vec<Option<FrameImage>>) -> (layout: StripLayout)
    requires
        strip_wf(frames@, images@),
    ensures
        layout.origins@.len() == frames@.len(),
        forall|i: int|
            0 <= i < frames@.len() ==> (#[trigger] layout.origins@[i]).0 == origin_x(
                frames@,
                images@,
                i,
            ) && layout.origins@[i].1 == origin_y(frames@, i),
        layout.width == origin_x(frames@, images@, frames@.len() as int),
        layout.height == strip_height(frames@, images@, frames@.len() as int),
{
    let count = frames.len();
    let mut top: i16 = 0;
    let mut i: usize = 0;
    while i < count
        invariant
            count == frames@.len(),
            i <= count,
            top == baseline(frames@.take(i as int)),
        decreases count - i,
    {
        proof {
            assert(frames@.take(i + 1).drop_last() =~= frames@.take(i as int));
        }
        if i == 0 || frames[i].y > top {
            top = frames[i].y;
        }
        i = i + 1;
    }
    proof {
        assert(frames@.take(count as int) =~= frames@);
        lemma_baseline_is_max(frames@);
    }
    let mut origins: Vec<(u32, u32)> = Vec::new();
    let mut left: u32 = 0;
    let mut height: u32 = 0;
    let mut i: usize = 0;
    while i < count
        invariant
            strip_wf(frames@, images@),
            count == frames@.len(),
            i <= count,
            top == baseline(frames@),
            origins@.len() == i,
            left == origin_x(frames@, images@, i as int),
            height == strip_height(frames@, images@, i as int),
            forall|k: int|
                0 <= k < i ==> (#[trigger] origins@[k]).0 == origin_x(frames@, images@, k)
                    && origins@[k].1 == origin_y(frames@, k),
        decreases count - i,
    {
        proof {
            lemma_strip_grows(frames@, images@, i as int, i + 1);
            lemma_baseline_is_max(frames@);
            assert(frames@[i as int].y <= baseline(frames@));
        }
        let frame = &frames[i];
        let drop: u32 = (top as i32 - frame.y as i32) as u32;
        origins.push((left, drop));
        match &images[i] {
            Some(image) => {
                proof {
                    lemma_extents_bounded(image.tiles());
                }
                let shift: u32 = if frame.x < 0 {
                    (-(frame.x as i32)) as u32
                } else {
                    frame.x as u32
                };
                left = left + image.bounds.width + shift;
                if drop + image.bounds.height > height {
                    height = drop + image.bounds.height;
                }
            },
            None => {},
        }
        i = i + 1;
    }
    StripLayout { origins, width: left, height }
}

/// Draws the frames of an animation side by side on a fresh canvas. Frames
/// without an image leave no trace. The canvas has to be one that this
/// machine can address.
pub fn render_animation(
    frames: &Vec<Frame>,
    images: &Vec<Option<FrameImage>>,
    palette: &Palette,
) -> (canvas: Canvas)
    requires
        strip_wf(frames@, images@),
        palette.wf(),
        origin_x(frames@, images@, frames@.len() as int) * strip_height(
            frames@,
            images@,
            frames@.len() as int,
        ) <= usize::MAX,
    ensures
        canvas.wf(),
        canvas.spec_width() == origin_x(frames@, images@, frames@.len() as int),
        canvas.spec_height() == strip_height(frames@, images@, frames@.len() as int),
        forall|x: int, y: int|
            canvas.contains(x, y) ==> #[trigger] canvas.pixel(x, y) == paint_strip(
                frames@,
                images@,
                palette.colors@,
                frames@.len() as int,
                x,
                y,
            ),
{
    let layout = layout_strip(frames, images);
    let mut canvas = Canvas::new(layout.width, layout.height);
    let count = frames.len();
    let mut i: usize = 0;
    while i < count
        invariant
            strip_wf(frames@, images@),
            palette.wf(),
            count == frames@.len(),
            i <= count,
            canvas.wf(),
            canvas.spec_width() == origin_x(frames@, images@, count as int),
            canvas.spec_height() == strip_height(frames@, images@, count as int),
            layout.origins@.len() == count,
            forall|k: int|
                0 <= k < count ==> (#[trigger] layout.origins@[k]).0 == origin_x(
                    frames@,
                    images@,
                    k,
                ) && layout.origins@[k].1 == origin_y(frames@, k),
            forall|x: int, y: int|
                canvas.contains(x, y) ==> #[trigger] canvas.pixel(x, y) == paint_strip(
                    frames@,
                    images@,
                    palette.colors@,
                    i as int,
                    x,
                    y,
                ),
        decreases count - i,
    {
        match &images[i] {
            Some(image) => {
                let origin = layout.origins[i];
                proof {
                    lemma_strip_grows(frames@, images@, i as int, count as int);
                    assert forall|t: int| 0 <= t < image.tiles().len() implies tile_on_canvas(
                        #[trigger] tile_list(image.stream@, 0).tiles[t],
                        origin,
                        canvas.spec_width(),
                        canvas.spec_height(),
                    ) by {
                        lemma_extents_hold_tiles(image.tiles(), t);
                    }
                }
                let _ = composite(image.stream.as_slice(), palette, &mut canvas, origin);
            },
            None => {},
        }
        i = i + 1;
    }
    canvas
}

} // verus!
