//! The drawing surface.
//!
//! A surface borrows a byte buffer for one pass of drawing and writes every
//! command into it at once. The buffer holds the rows of the picture from top
//! to bottom, four bytes per pixel, in the order blue, green, red, alpha.
//!
//! Every drawing command is local to the pixel: what a pixel holds after a
//! command depends only on what it held before, on where it lies, and on the
//! command. The contracts are therefore written pixel by pixel, over
//! [`Draw::pixel`]. Together with the unchanged length of the buffer they fix
//! every byte, as [`lemma_pixels_fix_bytes`] shows.

use vstd::prelude::*;
use crate::color::{
    composite, composited, composited_times, decoded, Color, ALPHA_AT, BLUE_AT, BYTES_PER_PIXEL,
    GREEN_AT, RED_AT,
};
use crate::geometry::{on_run, Point, Rect};

verus! {

/// A drawing surface over a borrowed buffer of `width * height` pixels.
pub struct Draw<'a> {
    /// Pixels in one row.
    pub width: u32,
    /// Rows.
    pub height: u32,
    /// The pixels, row after row.
    pub buff: &'a mut [u8],
    /// The clip rectangle, if one is active.
    pub draw_rect: Option<Rect>,
}

/// Where the bytes of the pixel `(x, y)` start in a buffer whose rows hold
/// `width` pixels.
pub open spec fn offset_of(width: int, x: int, y: int) -> int {
    x * 4 + y * width * 4
}

/// Pixels of one row do not share bytes, rows do not overlap, and every pixel
/// of a `width` by `height` surface lies within `width * height * 4` bytes.
pub(crate) proof fn lemma_offsets(width: int, height: int, x: int, y: int, px: int, py: int)
    by (nonlinear_arith)
    requires
        0 <= x < width,
        0 <= y < height,
        0 <= px < width,
        0 <= py < height,
    ensures
        0 <= offset_of(width, x, y),
        offset_of(width, x, y) + 4 <= width * height * 4,
        0 <= y * width <= y * width + x < width * height,
        (px != x || py != y) ==> (offset_of(width, px, py) + 4 <= offset_of(width, x, y)
            || offset_of(width, x, y) + 4 <= offset_of(width, px, py)),
{
}

/// `bytes` with the pixel that starts at `offset` replaced by `color`.
pub open spec fn stored(bytes: Seq<u8>, offset: int, color: Color) -> Seq<u8> {
    bytes.update(offset + BLUE_AT as int, color.b).update(
        offset + GREEN_AT as int,
        color.g,
    ).update(offset + RED_AT as int, color.r).update(offset + ALPHA_AT as int, color.a)
}

/// Whether a sweep over the box from `x_lo` to `x_hi` and from `y_lo` to
/// `y_hi`, far edges excluded, has passed `(px, py)` when it stands at the
/// column `col` of the row `row`. Rows are swept from the top, each from the
/// left.
pub open spec fn swept(
    x_lo: int,
    x_hi: int,
    y_lo: int,
    y_hi: int,
    row: int,
    col: int,
    px: int,
    py: int,
) -> bool {
    &&& x_lo <= px < x_hi
    &&& y_lo <= py < y_hi
    &&& (py < row || (py == row && px < col))
}

/// The product of two 32-bit numbers fits easily in 64 bits.
proof fn lemma_u32_product(a: u32, b: u32)
    by (nonlinear_arith)
    ensures
        0 <= a * b <= 0xffff_fffe_0000_0001,
{
}

/// Why a drawing command was refused.
#[derive(Clone, Copy, PartialEq, Eq, Structural, Debug)]
pub enum DrawError {
    /// The segment runs along neither axis.
    UnsupportedGeometry,
}

impl DrawError {
    /// Says in words why the command was refused.
    pub fn message(&self) -> (text: &'static str)
        ensures
            text@ == (match self {
                DrawError::UnsupportedGeometry => "only segments along an axis can be drawn"@,
            }),
    {
        match self {
            DrawError::UnsupportedGeometry => "only segments along an axis can be drawn",
        }
    }
}

/// What a pixel at `(px, py)` holds after a rectangle was drawn over it, if it
/// held `existing` before: the stroke color laid over it once for every edge
/// that passes through it, then the fill color if it lies in the interior.
pub open spec fn outlined_and_filled(
    rect: Rect,
    stroke: Option<Color>,
    fill: Option<Color>,
    px: int,
    py: int,
    existing: Color,
) -> Color {
    let outlined = match stroke {
        Some(color) => composited_times(existing, color, rect.edges_through(px, py)),
        None => existing,
    };
    match fill {
        Some(color) => if rect.interior(px, py) {
            composited(outlined, color)
        } else {
            outlined
        },
        None => outlined,
    }
}

/// `value` held between `0` and `limit`.
pub open spec fn clamp(value: int, limit: int) -> int {
    if value < 0 {
        0
    } else if value > limit {
        limit
    } else {
        value
    }
}

/// Holds a coordinate between `0` and `limit`.
pub(crate) fn clamped(value: i64, limit: u32) -> (held: u32)
    ensures
        held == clamp(value as int, limit as int),
{
    if value < 0 {
        0
    } else if value > limit as i64 {
        limit
    } else {
        value as u32
    }
}

/// The shape of the buffer of a surface, as the display that shows it wants
/// it: four bytes per pixel, row after row without gaps.
#[derive(Clone, Copy, PartialEq, Eq, Structural, Debug)]
pub struct BufferLayout {
    /// Pixels in one row.
    pub width: i32,
    /// Rows.
    pub height: i32,
    /// Bytes from the start of one row to the start of the next.
    pub stride: i32,
    /// Bytes in all.
    pub size: usize,
}

/// The layout of the buffer of a surface of `width` by `height` pixels:
/// `None` if the stride or the height does not fit the 32 bits with a sign
/// that a display takes, or if the machine cannot address that many bytes.
pub fn buffer_layout(width: u32, height: u32) -> (layout: Option<BufferLayout>)
    ensures
        layout.is_some() <==> width * 4 <= i32::MAX && height <= i32::MAX && width * height * 4
            <= usize::MAX,
        layout matches Some(found) ==> {
            &&& found.width == width
            &&& found.height == height
            &&& found.stride == width * 4
            &&& found.size == width * height * 4
        },
{
    proof {
        lemma_u32_product(width, height);
    }
    let size: u128 = width as u128 * height as u128 * 4;
    if width <= 0x1fff_ffff && height <= 0x7fff_ffff && size <= usize::MAX as u128 {
        Some(
            BufferLayout {
                width: width as i32,
                height: height as i32,
                stride: (width * 4) as i32,
                size: size as usize,
            },
        )
    } else {
        None
    }
}

/// Marks the pixel `(x, y)` of a buffer whose rows hold `w` pixels, by setting
/// its first byte to `255`. A position right of the row, or beyond the end of
/// the buffer, is left alone.
pub fn draw_point(buf: &mut [u8], x: u32, y: u32, w: u32)
    ensures
        final(buf)@ == (if x < w && offset_of(w as int, x as int, y as int) < old(buf)@.len() {
            old(buf)@.update(offset_of(w as int, x as int, y as int), 255u8)
        } else {
            old(buf)@
        }),
{
    if x < w {
        proof {
            lemma_u32_product(y, w);
        }
        let at: u128 = x as u128 * 4 + y as u128 * w as u128 * 4;
        if at < buf.len() as u128 {
            buf[at as usize] = 255;
        }
    }
}

/// A buffer is known byte for byte once each of its pixels is known: two
/// buffers of `width * height` pixels that agree on every pixel are equal.
pub proof fn lemma_pixels_fix_bytes(width: int, height: int, one: Seq<u8>, other: Seq<u8>)
    requires
        0 <= width,
        0 <= height,
        one.len() == width * height * 4,
        other.len() == width * height * 4,
        forall|px: int, py: int|
            0 <= px < width && 0 <= py < height ==> decoded(
                one,
                #[trigger] offset_of(width, px, py),
            ) == decoded(other, offset_of(width, px, py)),
    ensures
        one == other,
{
    assert forall|i: int| 0 <= i < one.len() implies one[i] == other[i] by {
        let pixel = i / 4;
        assert(0 <= pixel < width * height);
        assert(width > 0) by (nonlinear_arith)
            requires
                0 <= pixel < width * height,
                0 <= width,
        ;
        let px = pixel % width;
        let py = pixel / width;
        vstd::arithmetic::div_mod::lemma_fundamental_div_mod(pixel, width);
        vstd::arithmetic::div_mod::lemma_div_pos_is_pos(pixel, width);
        assert(py < height) by (nonlinear_arith)
            requires
                pixel == width * py + px,
                0 <= px,
                pixel < width * height,
                0 < width,
        ;
        assert(offset_of(width, px, py) == pixel * 4) by (nonlinear_arith)
            requires
                pixel == width * py + px,
                offset_of(width, px, py) == px * 4 + py * width * 4,
        ;
        let at = offset_of(width, px, py);
        assert(decoded(one, at) == decoded(other, at));
    }
    assert(one =~= other);
}

impl<'a> Draw<'a> {
    /// The bytes of the buffer.
    pub open spec fn bytes(&self) -> Seq<u8> {
        self.buff@
    }

    /// The buffer holds exactly `width * height` pixels.
    pub open spec fn wf(&self) -> bool {
        self.bytes().len() == self.width * self.height * 4
    }

    /// Whether `(x, y)` names a pixel of the surface.
    pub open spec fn in_bounds(&self, x: int, y: int) -> bool {
        0 <= x < self.width && 0 <= y < self.height
    }

    /// Whether the clip lets `(x, y)` be written: always without a clip
    /// rectangle, else within it, far edges included.
    pub open spec fn visible(&self, x: int, y: int) -> bool {
        match self.draw_rect {
            Some(clip) => clip.admits(x, y),
            None => true,
        }
    }

    /// What the pixel `(x, y)` holds.
    pub open spec fn pixel(&self, x: int, y: int) -> Color {
        decoded(self.bytes(), offset_of(self.width as int, x, y))
    }

    /// Same size, same clip, same number of bytes as `before`.
    pub open spec fn same_frame(&self, before: &Self) -> bool {
        &&& self.width == before.width
        &&& self.height == before.height
        &&& self.draw_rect == before.draw_rect
        &&& self.bytes().len() == before.bytes().len()
    }

    /// A surface over `buff`, without a clip. `None` if the buffer does not
    /// hold exactly `width * height` pixels.
    pub fn new(width: u32, height: u32, buff: &'a mut [u8]) -> (made: Option<Self>)
        ensures
            made.is_some() <==> old(buff)@.len() == width * height * 4,
            made matches Some(draw) ==> {
                &&& draw.wf()
                &&& draw.width == width
                &&& draw.height == height
                &&& draw.draw_rect.is_none()
                &&& draw.bytes() == old(buff)@
            },
    {
        proof {
            lemma_u32_product(width, height);
        }
        let wanted: u128 = width as u128 * height as u128 * 4;
        if buff.len() as u128 == wanted {
            Some(Draw { width, height, buff, draw_rect: None })
        } else {
            None
        }
    }

    /// Makes `rect` the clip rectangle, or clears the clip with `None`.
    pub fn set_clip(&mut self, rect: Option<Rect>)
        ensures
            final(self).draw_rect == rect,
            final(self).width == old(self).width,
            final(self).height == old(self).height,
            final(self).bytes() == old(self).bytes(),
    {
        self.draw_rect = rect;
    }

    /// Whether the clip lets the pixel `(x, y)` be written.
    pub fn is_visible(&self, x: u32, y: u32) -> (seen: bool)
        ensures
            seen == self.visible(x as int, y as int),
    {
        match self.draw_rect {
            Some(clip) => clip.contains(x as i64, y as i64),
            None => true,
        }
    }

    /// Where the bytes of the pixel `(x, y)` start in the buffer: `None` for
    /// a position off the surface.
    pub fn offset(&self, x: u32, y: u32) -> (at: Option<usize>)
        requires
            self.wf(),
        ensures
            at.is_some() <==> self.in_bounds(x as int, y as int),
            at matches Some(start) ==> {
                &&& start == offset_of(self.width as int, x as int, y as int)
                &&& start + BYTES_PER_PIXEL <= self.bytes().len()
            },
    {
        if x < self.width && y < self.height {
            proof {
                lemma_offsets(
                    self.width as int,
                    self.height as int,
                    x as int,
                    y as int,
                    x as int,
                    y as int,
                );
                assert(self.bytes().len() == self.buff.len());
            }
            Some((y as usize * self.width as usize + x as usize) * 4)
        } else {
            None
        }
    }

    /// Reads the pixel `(x, y)`: `None` for a position off the surface.
    pub fn read_pixel(&self, x: u32, y: u32) -> (held: Option<Color>)
        requires
            self.wf(),
        ensures
            held.is_some() <==> self.in_bounds(x as int, y as int),
            held matches Some(color) ==> color == self.pixel(x as int, y as int),
    {
        match self.offset(x, y) {
            Some(at) => Some(
                Color {
                    r: self.buff[at + RED_AT],
                    g: self.buff[at + GREEN_AT],
                    b: self.buff[at + BLUE_AT],
                    a: self.buff[at + ALPHA_AT],
                },
            ),
            None => None,
        }
    }

    /// Overwrites the pixel `(x, y)` with `color`, all four channels as given.
    /// A position off the surface is left alone. This is the one place where
    /// a drawing command writes a pixel.
    fn store(&mut self, x: u32, y: u32, color: Color)
        requires
            old(self).wf(),
        ensures
            final(self).wf(),
            final(self).same_frame(old(self)),
            final(self).bytes() == (if old(self).in_bounds(x as int, y as int) {
                stored(
                    old(self).bytes(),
                    offset_of(old(self).width as int, x as int, y as int),
                    color,
                )
            } else {
                old(self).bytes()
            }),
            forall|px: int, py: int|
                #![trigger final(self).pixel(px, py)]
                old(self).in_bounds(px, py) ==> final(self).pixel(px, py) == (if px == x && py
                    == y {
                    color
                } else {
                    old(self).pixel(px, py)
                }),
    {
        match self.offset(x, y) {
            Some(at) => {
                self.buff[at + BLUE_AT] = color.b;
                self.buff[at + GREEN_AT] = color.g;
                self.buff[at + RED_AT] = color.r;
                self.buff[at + ALPHA_AT] = color.a;
                proof {
                    assert(self.bytes() == stored(old(self).bytes(), at as int, color));
                    assert forall|px: int, py: int|
                        old(self).in_bounds(px, py) implies #[trigger] self.pixel(px, py) == (if px
                        == x && py == y {
                        color
                    } else {
                        old(self).pixel(px, py)
                    }) by {
                        lemma_offsets(
                            self.width as int,
                            self.height as int,
                            x as int,
                            y as int,
                            px,
                            py,
                        );
                        lemma_offsets(
                            self.width as int,
                            self.height as int,
                            px,
                            py,
                            x as int,
                            y as int,
                        );
                    }
                }
            },
            None => {},
        }
    }

    /// Overwrites the whole buffer with `color`, all four channels as given,
    /// whatever the clip.
    pub fn fill(&mut self, color: Color)
        requires
            old(self).wf(),
        ensures
            final(self).wf(),
            final(self).same_frame(old(self)),
            forall|i: int|
                0 <= i < final(self).bytes().len() ==> #[trigger] final(self).bytes()[i]
                    == color.encoded()[i % 4],
            forall|px: int, py: int|
                #![trigger final(self).pixel(px, py)]
                old(self).in_bounds(px, py) ==> final(self).pixel(px, py) == color,
    {
        let pixels: usize = self.buff.len() / BYTES_PER_PIXEL;
        let mut done: usize = 0;
        while done < pixels
            invariant
                self.wf(),
                self.same_frame(old(self)),
                done <= pixels,
                pixels * 4 == self.bytes().len(),
                pixels * 4 <= usize::MAX,
                forall|i: int|
                    0 <= i < done * 4 ==> #[trigger] self.bytes()[i] == color.encoded()[i % 4],
            decreases pixels - done,
        {
            let at: usize = done * BYTES_PER_PIXEL;
            self.buff[at + BLUE_AT] = color.b;
            self.buff[at + GREEN_AT] = color.g;
            self.buff[at + RED_AT] = color.r;
            self.buff[at + ALPHA_AT] = color.a;
            done = done + 1;
        }
        proof {
            assert forall|px: int, py: int|
                old(self).in_bounds(px, py) implies #[trigger] self.pixel(px, py) == color by {
                lemma_offsets(self.width as int, self.height as int, px, py, px, py);
                let at = offset_of(self.width as int, px, py);
                assert(at % 4 == 0) by (nonlinear_arith)
                    requires
                        at == px * 4 + py * self.width * 4,
                ;
            }
        }
    }

    /// Lays `color` over the pixel `(x, y)`, if the position lies on the
    /// surface and the clip lets it be written. The pixel is opaque afterwards.
    pub fn point(&mut self, x: u32, y: u32, color: Color)
        requires
            old(self).wf(),
        ensures
            final(self).wf(),
            final(self).same_frame(old(self)),
            forall|px: int, py: int|
                #![trigger final(self).pixel(px, py)]
                old(self).in_bounds(px, py) ==> final(self).pixel(px, py) == (if px == x && py
                    == y && old(self).visible(px, py) {
                    composited(old(self).pixel(px, py), color)
                } else {
                    old(self).pixel(px, py)
                }),
    {
        if self.is_visible(x, y) {
            match self.read_pixel(x, y) {
                Some(existing) => {
                    self.store(x, y, composite(existing, color));
                },
                None => {},
            }
        }
    }

    /// Lays `color` over every pixel from `x_lo` to `x_hi` and from `y_lo` to
    /// `y_hi`, far edges excluded, that lies on the surface and that the clip
    /// lets be written.
    fn paint_box(&mut self, x_lo: i64, x_hi: i64, y_lo: i64, y_hi: i64, color: Color)
        requires
            old(self).wf(),
        ensures
            final(self).wf(),
            final(self).same_frame(old(self)),
            forall|px: int, py: int|
                #![trigger final(self).pixel(px, py)]
                old(self).in_bounds(px, py) ==> final(self).pixel(px, py) == (if x_lo <= px < x_hi
                    && y_lo <= py < y_hi && old(self).visible(px, py) {
                    composited(old(self).pixel(px, py), color)
                } else {
                    old(self).pixel(px, py)
                }),
    {
        let left: u32 = clamped(x_lo, self.width);
        let right: u32 = clamped(x_hi, self.width);
        let top: u32 = clamped(y_lo, self.height);
        let bottom: u32 = clamped(y_hi, self.height);
        let mut y: u32 = top;
        while y < bottom
            invariant
                self.wf(),
                self.same_frame(old(self)),
                left == clamp(x_lo as int, self.width as int),
                right == clamp(x_hi as int, self.width as int),
                top == clamp(y_lo as int, self.height as int),
                bottom == clamp(y_hi as int, self.height as int),
                top <= y,
                forall|px: int, py: int|
                    #![trigger self.pixel(px, py)]
                    old(self).in_bounds(px, py) ==> self.pixel(px, py) == (if swept(
                        x_lo as int,
                        x_hi as int,
                        y_lo as int,
                        y_hi as int,
                        y as int,
                        x_lo as int,
                        px,
                        py,
                    ) && old(self).visible(px, py) {
                        composited(old(self).pixel(px, py), color)
                    } else {
                        old(self).pixel(px, py)
                    }),
            decreases bottom - y,
        {
            let mut x: u32 = left;
            while x < right
                invariant
                    self.wf(),
                    self.same_frame(old(self)),
                    left == clamp(x_lo as int, self.width as int),
                    right == clamp(x_hi as int, self.width as int),
                    top == clamp(y_lo as int, self.height as int),
                    bottom == clamp(y_hi as int, self.height as int),
                    top <= y < bottom,
                    left <= x,
                    forall|px: int, py: int|
                        #![trigger self.pixel(px, py)]
                        old(self).in_bounds(px, py) ==> self.pixel(px, py) == (if swept(
                            x_lo as int,
                            x_hi as int,
                            y_lo as int,
                            y_hi as int,
                            y as int,
                            x as int,
                            px,
                            py,
                        ) && old(self).visible(px, py) {
                            composited(old(self).pixel(px, py), color)
                        } else {
                            old(self).pixel(px, py)
                        }),
                decreases right - x,
            {
                self.point(x, y, color);
                x = x + 1;
            }
            y = y + 1;
        }
    }

    /// Lays `color` over the run from `(x0, y0)` to `(x1, y1)`.
    fn run(&mut self, x0: i64, y0: i64, x1: i64, y1: i64, color: Color)
        requires
            old(self).wf(),
            x1 < i64::MAX,
            y1 < i64::MAX,
            x0 < i64::MAX,
            y0 < i64::MAX,
        ensures
            final(self).wf(),
            final(self).same_frame(old(self)),
            forall|px: int, py: int|
                #![trigger final(self).pixel(px, py)]
                old(self).in_bounds(px, py) ==> final(self).pixel(px, py) == (if on_run(
                    x0 as int,
                    y0 as int,
                    x1 as int,
                    y1 as int,
                    px,
                    py,
                ) && old(self).visible(px, py) {
                    composited(old(self).pixel(px, py), color)
                } else {
                    old(self).pixel(px, py)
                }),
    {
        if x0 != x1 {
            self.paint_box(x0, x1 + 1, y0, y0 + 1, color);
        } else {
            self.paint_box(x0, x0 + 1, y0, y1 + 1, color);
        }
    }

    /// Draws the segment from `start` to `end`, both ends included, by laying
    /// `color` over each of its pixels.
    ///
    /// Only segments along an axis are drawn. One whose ends differ in `x`
    /// runs from left to right, any other from top to bottom; a segment whose
    /// start lies after its end holds no pixel. A segment that runs along
    /// neither axis is refused, and nothing is drawn.
    pub fn draw_line(&mut self, start: Point, end: Point, color: Color) -> (done: Result<
        (),
        DrawError,
    >)
        requires
            old(self).wf(),
        ensures
            final(self).wf(),
            final(self).same_frame(old(self)),
            done.is_ok() <==> start.aligned_with(end),
            done.is_err() ==> done == Err::<(), DrawError>(DrawError::UnsupportedGeometry)
                && final(self).bytes() == old(self).bytes(),
            done.is_ok() ==> forall|px: int, py: int|
                #![trigger final(self).pixel(px, py)]
                old(self).in_bounds(px, py) ==> final(self).pixel(px, py) == (if on_run(
                    start.x as int,
                    start.y as int,
                    end.x as int,
                    end.y as int,
                    px,
                    py,
                ) && old(self).visible(px, py) {
                    composited(old(self).pixel(px, py), color)
                } else {
                    old(self).pixel(px, py)
                }),
    {
        if start.x != end.x && start.y != end.y {
            return Err(DrawError::UnsupportedGeometry);
        }
        self.run(start.x as i64, start.y as i64, end.x as i64, end.y as i64, color);
        Ok(())
    }

    /// Draws a rectangle: its outline if `stroke` is given, its inside if
    /// `fill` is given.
    ///
    /// The outline is four segments from corner to corner, along the top, the
    /// left, the right and the bottom, so the stroke color is laid twice over
    /// each corner. The fill covers what lies one pixel in from the left and
    /// top edges and two pixels in from the corner `(x + w, y + h)`; it never
    /// touches the outline. A rectangle of negative width or height has
    /// neither an inside nor edges across that direction.
    pub fn draw_rect(&mut self, rect: Rect, stroke: Option<Color>, fill: Option<Color>)
        requires
            old(self).wf(),
        ensures
            final(self).wf(),
            final(self).same_frame(old(self)),
            forall|px: int, py: int|
                #![trigger final(self).pixel(px, py)]
                old(self).in_bounds(px, py) ==> final(self).pixel(px, py) == (if old(
                    self,
                ).visible(px, py) {
                    outlined_and_filled(rect, stroke, fill, px, py, old(self).pixel(px, py))
                } else {
                    old(self).pixel(px, py)
                }),
    {
        let left: i64 = rect.x as i64;
        let top: i64 = rect.y as i64;
        let right: i64 = rect.x as i64 + rect.w as i64;
        let bottom: i64 = rect.y as i64 + rect.h as i64;
        match stroke {
            Some(color) => {
                self.run(left, top, right, top, color);
                self.run(left, top, left, bottom, color);
                self.run(right, top, right, bottom, color);
                self.run(left, bottom, right, bottom, color);
            },
            None => {},
        }
        match fill {
            Some(color) => {
                self.paint_box(left + 1, right - 1, top + 1, bottom - 1, color);
            },
            None => {},
        }
        proof {
            reveal_with_fuel(composited_times, 5);
        }
    }
}

} // verus!
