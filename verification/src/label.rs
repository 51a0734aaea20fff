//! Text: glyphs that a shaping step has already placed, and their drawing.
//!
//! The surface neither reads fonts nor lays text out. It is handed glyphs
//! that already know where they stand, each with the coverage of every pixel
//! of its box, and lays the label's color over the surface, weighted by that
//! coverage.

use vstd::prelude::*;
use crate::color::{composited, Color};
use crate::draw::{clamp, clamped, lemma_offsets, swept, Draw};
use crate::geometry::{Point, Rect};

verus! {

/// A glyph that stands at its place in the line.
pub struct Glyph {
    /// Where the glyph is anchored, in surface pixel space.
    pub anchor: Point,
    /// The box of pixels that the glyph covers, measured from the anchor, or
    /// `None` for a glyph that has nothing to draw, such as a space.
    pub bounding_box: Option<Rect>,
    /// How much of each pixel of the box the glyph covers, row after row from
    /// the top: `0` for none of it, `255` for all of it.
    pub coverage: Vec<u8>,
}

/// A line of text, shaped and placed.
pub struct Label {
    /// The glyphs, in the order in which they are drawn.
    pub glyphs: Vec<Glyph>,
    /// The ascent of the font: how far every glyph is moved down, so that
    /// glyphs anchored on a baseline at the top of the surface are not cut off.
    pub ascent: i32,
}

impl Glyph {
    /// The box, if the glyph can be drawn: it has a box of positive width and
    /// height, and one coverage value for each pixel of it. Any other glyph
    /// takes its place in the line but draws nothing.
    pub open spec fn raster(&self) -> Option<Rect> {
        match self.bounding_box {
            Some(bounds) => if bounds.w > 0 && bounds.h > 0 && self.coverage@.len() == bounds.w
                * bounds.h {
                Some(bounds)
            } else {
                None
            },
            None => None,
        }
    }

    /// The column of the leftmost pixels of the box.
    pub open spec fn left(&self) -> int {
        self.anchor.x + self.raster().unwrap().x
    }

    /// The row of the topmost pixels of the box, for a font of this ascent.
    pub open spec fn top(&self, ascent: int) -> int {
        self.anchor.y + self.raster().unwrap().y + ascent
    }

    /// The column just right of the box.
    pub open spec fn right(&self) -> int {
        self.left() + self.raster().unwrap().w
    }

    /// The row just below the box.
    pub open spec fn bottom(&self, ascent: int) -> int {
        self.top(ascent) + self.raster().unwrap().h
    }

    /// Whether the glyph has a coverage sample for the position `(px, py)`.
    /// Rows at or above the row `0` are never drawn.
    pub open spec fn covers(&self, ascent: int, px: int, py: int) -> bool {
        &&& self.raster().is_some()
        &&& self.left() <= px < self.right()
        &&& self.top(ascent) <= py < self.bottom(ascent)
        &&& py > 0
    }

    /// The coverage that the glyph has for the position `(px, py)`.
    pub open spec fn coverage_at(&self, ascent: int, px: int, py: int) -> u8 {
        self.coverage@[(py - self.top(ascent)) * self.raster().unwrap().w + (px - self.left())]
    }

    /// What a pixel at `(px, py)` holds after the glyph was drawn in `color`,
    /// if it held `existing` before.
    pub open spec fn painted(&self, ascent: int, color: Color, px: int, py: int, existing: Color)
        -> Color {
        if self.covers(ascent, px, py) {
            composited(existing, color.scaled_by(self.coverage_at(ascent, px, py)))
        } else {
            existing
        }
    }

    /// Whether the glyph covers any position right of or in the column `0`.
    pub open spec fn shows(&self, ascent: int) -> bool {
        &&& self.raster().is_some()
        &&& self.right() > 0
        &&& self.bottom(ascent) > 1
    }

    /// The box of the glyph, if it can be drawn.
    pub fn drawable(&self) -> (found: Option<Rect>)
        ensures
            found == self.raster(),
    {
        match self.bounding_box {
            Some(bounds) => {
                if bounds.w > 0 && bounds.h > 0 {
                    proof {
                        assert(0 < bounds.w * bounds.h <= 0x7fff_ffff * 0x7fff_ffff)
                            by (nonlinear_arith)
                            requires
                                0 < bounds.w <= 0x7fff_ffff,
                                0 < bounds.h <= 0x7fff_ffff,
                        ;
                    }
                    let area: u64 = bounds.w as u64 * bounds.h as u64;
                    if self.coverage.len() as u64 == area {
                        Some(bounds)
                    } else {
                        None
                    }
                } else {
                    None
                }
            },
            None => None,
        }
    }
}

/// What a pixel at `(px, py)` holds after the first `count` of `glyphs` were
/// drawn in `color`, one after the other, if it held `existing` before.
pub open spec fn painted_by(
    glyphs: Seq<Glyph>,
    ascent: int,
    color: Color,
    count: nat,
    px: int,
    py: int,
    existing: Color,
) -> Color
    decreases count,
{
    if count == 0 {
        existing
    } else {
        glyphs[count - 1].painted(
            ascent,
            color,
            px,
            py,
            painted_by(glyphs, ascent, color, (count - 1) as nat, px, py, existing),
        )
    }
}

/// The larger of two numbers.
pub open spec fn larger(a: int, b: int) -> int {
    if a >= b {
        a
    } else {
        b
    }
}

/// How far right and how far down the first `count` of `glyphs` reach: the
/// column just right of, and the row just below, everything that they cover
/// in or right of the column `0`.
pub open spec fn reach_of(glyphs: Seq<Glyph>, ascent: int, count: nat) -> (int, int)
    decreases count,
{
    if count == 0 {
        (0, 0)
    } else {
        let before = reach_of(glyphs, ascent, (count - 1) as nat);
        let glyph = glyphs[count - 1];
        if glyph.shows(ascent) {
            (larger(before.0, glyph.right()), larger(before.1, glyph.bottom(ascent)))
        } else {
            before
        }
    }
}

impl Label {
    /// Whether some glyph of the label has a coverage sample for `(px, py)`.
    pub open spec fn covers(&self, px: int, py: int) -> bool {
        exists|k: int|
            0 <= k < self.glyphs@.len() && (#[trigger] self.glyphs@[k]).covers(
                self.ascent as int,
                px,
                py,
            )
    }

    /// What a pixel at `(px, py)` holds after the label was drawn in `color`,
    /// if it held `existing` before.
    pub open spec fn painted(&self, color: Color, px: int, py: int, existing: Color) -> Color {
        painted_by(self.glyphs@, self.ascent as int, color, self.glyphs@.len(), px, py, existing)
    }

    /// The width and the height of the label: how far right and how far down
    /// it reaches from the origin of the surface.
    pub open spec fn reach(&self) -> (int, int) {
        reach_of(self.glyphs@, self.ascent as int, self.glyphs@.len())
    }
}

/// A position that none of the first `count` glyphs covers is left as it was
/// when they are drawn.
pub proof fn lemma_uncovered_is_kept(
    glyphs: Seq<Glyph>,
    ascent: int,
    color: Color,
    count: nat,
    px: int,
    py: int,
    existing: Color,
)
    requires
        count <= glyphs.len(),
        forall|k: int| 0 <= k < count ==> !(#[trigger] glyphs[k]).covers(ascent, px, py),
    ensures
        painted_by(glyphs, ascent, color, count, px, py, existing) == existing,
    decreases count,
{
    if count > 0 {
        lemma_uncovered_is_kept(glyphs, ascent, color, (count - 1) as nat, px, py, existing);
    }
}

/// The reach is never negative, and every position in or right of the column
/// `0` that one of the first `count` glyphs covers lies within it.
pub proof fn lemma_reach_holds_covered(glyphs: Seq<Glyph>, ascent: int, count: nat)
    requires
        count <= glyphs.len(),
    ensures
        reach_of(glyphs, ascent, count).0 >= 0,
        reach_of(glyphs, ascent, count).1 >= 0,
        forall|k: int, px: int, py: int|
            0 <= k < count && 0 <= px && #[trigger] glyphs[k].covers(ascent, px, py) ==> px
                < reach_of(glyphs, ascent, count).0 && py < reach_of(glyphs, ascent, count).1,
    decreases count,
{
    if count > 0 {
        lemma_reach_holds_covered(glyphs, ascent, (count - 1) as nat);
    }
}

/// The reach is no larger than it must be: a glyph among the first `count`
/// covers a position in its last column, and one covers a position in its
/// last row.
pub proof fn lemma_reach_is_tight(glyphs: Seq<Glyph>, ascent: int, count: nat)
    requires
        count <= glyphs.len(),
    ensures
        reach_of(glyphs, ascent, count).0 > 0 ==> exists|k: int, py: int|
            0 <= k < count && #[trigger] glyphs[k].covers(
                ascent,
                reach_of(glyphs, ascent, count).0 - 1,
                py,
            ),
        reach_of(glyphs, ascent, count).1 > 0 ==> exists|k: int, px: int|
            0 <= k < count && 0 <= px && #[trigger] glyphs[k].covers(
                ascent,
                px,
                reach_of(glyphs, ascent, count).1 - 1,
            ),
    decreases count,
{
    if count > 0 {
        let before = (count - 1) as nat;
        lemma_reach_is_tight(glyphs, ascent, before);
        lemma_reach_holds_covered(glyphs, ascent, before);
        let reach = reach_of(glyphs, ascent, count);
        let glyph = glyphs[count - 1];
        if glyph.shows(ascent) && glyph.right() >= reach_of(glyphs, ascent, before).0 {
            let py = larger(glyph.top(ascent), 1);
            assert(glyphs[count - 1].covers(ascent, reach.0 - 1, py));
        } else if reach.0 > 0 {
            let (k, py) = choose|k: int, py: int|
                0 <= k < before && #[trigger] glyphs[k].covers(
                    ascent,
                    reach_of(glyphs, ascent, before).0 - 1,
                    py,
                );
            assert(glyphs[k].covers(ascent, reach.0 - 1, py));
        }
        if glyph.shows(ascent) && glyph.bottom(ascent) >= reach_of(glyphs, ascent, before).1 {
            let px = larger(glyph.left(), 0);
            assert(glyphs[count - 1].covers(ascent, px, reach.1 - 1));
        } else if reach.1 > 0 {
            let (k, px) = choose|k: int, px: int|
                0 <= k < before && 0 <= px && #[trigger] glyphs[k].covers(
                    ascent,
                    px,
                    reach_of(glyphs, ascent, before).1 - 1,
                );
            assert(glyphs[k].covers(ascent, px, reach.1 - 1));
        }
    }
}

/// Drawing a label changes nothing outside what measuring it reports: a
/// position in or right of the column `0` that lies at or beyond the measured
/// width, or at or beyond the measured height, holds after the drawing what it
/// held before.
pub proof fn lemma_label_drawn_within_measure(
    label: Label,
    color: Color,
    px: int,
    py: int,
    existing: Color,
)
    requires
        0 <= px,
        px >= label.reach().0 || py >= label.reach().1,
    ensures
        !label.covers(px, py),
        label.painted(color, px, py, existing) == existing,
{
    lemma_reach_holds_covered(label.glyphs@, label.ascent as int, label.glyphs@.len());
    lemma_uncovered_is_kept(
        label.glyphs@,
        label.ascent as int,
        color,
        label.glyphs@.len(),
        px,
        py,
        existing,
    );
}

/// A label changes only positions that one of its glyphs covers.
pub proof fn lemma_label_changes_covered_only(
    label: Label,
    color: Color,
    px: int,
    py: int,
    existing: Color,
)
    requires
        !label.covers(px, py),
    ensures
        label.painted(color, px, py, existing) == existing,
{
    lemma_uncovered_is_kept(
        label.glyphs@,
        label.ascent as int,
        color,
        label.glyphs@.len(),
        px,
        py,
        existing,
    );
}

/// The measure of a label is exact: it holds every position that the label
/// covers in or right of the column `0`, and the label covers a position in
/// its last column and one in its last row.
pub proof fn lemma_measure_is_exact(label: Label)
    ensures
        label.reach().0 >= 0,
        label.reach().1 >= 0,
        forall|px: int, py: int|
            0 <= px && #[trigger] label.covers(px, py) ==> px < label.reach().0 && py
                < label.reach().1,
        label.reach().0 > 0 ==> exists|py: int| #[trigger] label.covers(label.reach().0 - 1, py),
        label.reach().1 > 0 ==> exists|px: int|
            0 <= px && #[trigger] label.covers(px, label.reach().1 - 1),
{
    let glyphs = label.glyphs@;
    let ascent = label.ascent as int;
    lemma_reach_holds_covered(glyphs, ascent, glyphs.len());
    lemma_reach_is_tight(glyphs, ascent, glyphs.len());
    if label.reach().0 > 0 {
        let (k, py) = choose|k: int, py: int|
            0 <= k < glyphs.len() && #[trigger] glyphs[k].covers(
                ascent,
                label.reach().0 - 1,
                py,
            );
        assert(label.covers(label.reach().0 - 1, py));
    }
    if label.reach().1 > 0 {
        let (k, px) = choose|k: int, px: int|
            0 <= k < glyphs.len() && 0 <= px && #[trigger] glyphs[k].covers(
                ascent,
                px,
                label.reach().1 - 1,
            );
        assert(label.covers(px, label.reach().1 - 1));
    }
}

impl<'a> Draw<'a> {
    /// Draws one glyph of a label: lays `color`, weighted by the coverage of
    /// each sample, over the pixel that the sample stands for.
    fn draw_glyph(&mut self, glyph: &Glyph, ascent: i32, color: Color)
        requires
            old(self).wf(),
        ensures
            final(self).wf(),
            final(self).same_frame(old(self)),
            forall|px: int, py: int|
                #![trigger final(self).pixel(px, py)]
                old(self).in_bounds(px, py) ==> final(self).pixel(px, py) == (if old(
                    self,
                ).visible(px, py) {
                    glyph.painted(ascent as int, color, px, py, old(self).pixel(px, py))
                } else {
                    old(self).pixel(px, py)
                }),
    {
        let bounds = match glyph.drawable() {
            Some(bounds) => bounds,
            None => {
                return;
            },
        };
        proof {
            assert(glyph.coverage@.len() == glyph.coverage.len());
        }
        let left: i64 = glyph.anchor.x as i64 + bounds.x as i64;
        let top: i64 = glyph.anchor.y as i64 + bounds.y as i64 + ascent as i64;
        let right: i64 = left + bounds.w as i64;
        let bottom: i64 = top + bounds.h as i64;
        let first_col: u32 = clamped(left, self.width);
        let end_col: u32 = clamped(right, self.width);
        let first_row: u32 = clamped(if top < 1 { 1 } else { top }, self.height);
        let end_row: u32 = clamped(bottom, self.height);
        let mut y: u32 = first_row;
        while y < end_row
            invariant
                self.wf(),
                self.same_frame(old(self)),
                glyph.raster() == Some(bounds),
                glyph.coverage@.len() <= usize::MAX,
                left == glyph.left(),
                top == glyph.top(ascent as int),
                right == glyph.right(),
                bottom == glyph.bottom(ascent as int),
                first_col == clamp(left as int, self.width as int),
                end_col == clamp(right as int, self.width as int),
                first_row == clamp(larger(top as int, 1), self.height as int),
                end_row == clamp(bottom as int, self.height as int),
                first_row <= y,
                forall|px: int, py: int|
                    #![trigger self.pixel(px, py)]
                    old(self).in_bounds(px, py) ==> self.pixel(px, py) == (if glyph.covers(
                        ascent as int,
                        px,
                        py,
                    ) && swept(
                        left as int,
                        right as int,
                        top as int,
                        bottom as int,
                        y as int,
                        left as int,
                        px,
                        py,
                    ) && old(self).visible(px, py) {
                        composited(
                            old(self).pixel(px, py),
                            color.scaled_by(glyph.coverage_at(ascent as int, px, py)),
                        )
                    } else {
                        old(self).pixel(px, py)
                    }),
            decreases end_row - y,
        {
            let mut x: u32 = first_col;
            while x < end_col
                invariant
                    self.wf(),
                    self.same_frame(old(self)),
                    glyph.raster() == Some(bounds),
                    glyph.coverage@.len() <= usize::MAX,
                    left == glyph.left(),
                    top == glyph.top(ascent as int),
                    right == glyph.right(),
                    bottom == glyph.bottom(ascent as int),
                    first_col == clamp(left as int, self.width as int),
                    end_col == clamp(right as int, self.width as int),
                    first_row == clamp(larger(top as int, 1), self.height as int),
                    end_row == clamp(bottom as int, self.height as int),
                    first_row <= y < end_row,
                    first_col <= x,
                    forall|px: int, py: int|
                        #![trigger self.pixel(px, py)]
                        old(self).in_bounds(px, py) ==> self.pixel(px, py) == (if glyph.covers(
                            ascent as int,
                            px,
                            py,
                        ) && swept(
                            left as int,
                            right as int,
                            top as int,
                            bottom as int,
                            y as int,
                            x as int,
                            px,
                            py,
                        ) && old(self).visible(px, py) {
                            composited(
                                old(self).pixel(px, py),
                                color.scaled_by(glyph.coverage_at(ascent as int, px, py)),
                            )
                        } else {
                            old(self).pixel(px, py)
                        }),
                decreases end_col - x,
            {
                let down: i64 = y as i64 - top;
                let across: i64 = x as i64 - left;
                proof {
                    lemma_offsets(
                        bounds.w as int,
                        bounds.h as int,
                        across as int,
                        down as int,
                        across as int,
                        down as int,
                    );
                    assert(bounds.w * bounds.h <= 0x7fff_ffff * 0x7fff_ffff) by (nonlinear_arith)
                        requires
                            0 < bounds.w <= 0x7fff_ffff,
                            0 < bounds.h <= 0x7fff_ffff,
                    ;
                }
                let sample: u8 = glyph.coverage[(down * bounds.w as i64 + across) as usize];
                self.point(x, y, color.scale(sample));
                x = x + 1;
            }
            y = y + 1;
        }
    }

    /// Draws a label in `color`.
    ///
    /// The glyphs are drawn one after the other. Each sample of a glyph lays
    /// `color`, with all four channels scaled by the coverage of the sample,
    /// over the pixel at the anchor of the glyph plus the corner of its box
    /// plus the place of the sample in the box, moved down by the ascent.
    /// Samples for rows at or above the row `0`, samples off the surface and
    /// samples that the clip hides are skipped. A glyph without a box, or with
    /// a box that its coverage does not fill, draws nothing.
    pub fn draw_label(&mut self, label: &Label, color: Color)
        requires
            old(self).wf(),
        ensures
            final(self).wf(),
            final(self).same_frame(old(self)),
            forall|px: int, py: int|
                #![trigger final(self).pixel(px, py)]
                old(self).in_bounds(px, py) ==> final(self).pixel(px, py) == (if old(
                    self,
                ).visible(px, py) {
                    label.painted(color, px, py, old(self).pixel(px, py))
                } else {
                    old(self).pixel(px, py)
                }),
            forall|px: int, py: int|
                #![trigger final(self).pixel(px, py)]
                old(self).in_bounds(px, py) && (px >= label.reach().0 || py >= label.reach().1)
                    ==> final(self).pixel(px, py) == old(self).pixel(px, py),
    {
        let mut drawn: usize = 0;
        while drawn < label.glyphs.len()
            invariant
                self.wf(),
                self.same_frame(old(self)),
                drawn <= label.glyphs@.len(),
                forall|px: int, py: int|
                    #![trigger self.pixel(px, py)]
                    old(self).in_bounds(px, py) ==> self.pixel(px, py) == (if old(self).visible(
                        px,
                        py,
                    ) {
                        painted_by(
                            label.glyphs@,
                            label.ascent as int,
                            color,
                            drawn as nat,
                            px,
                            py,
                            old(self).pixel(px, py),
                        )
                    } else {
                        old(self).pixel(px, py)
                    }),
            decreases label.glyphs@.len() - drawn,
        {
            self.draw_glyph(&label.glyphs[drawn], label.ascent, color);
            drawn = drawn + 1;
        }
        proof {
            assert forall|px: int, py: int|
                old(self).in_bounds(px, py) && (px >= label.reach().0 || py
                    >= label.reach().1) implies #[trigger] self.pixel(px, py) == old(self).pixel(
                px,
                py,
            ) by {
                lemma_label_drawn_within_measure(*label, color, px, py, old(self).pixel(px, py));
            }
        }
    }

    /// The width and the height of a label: how far right and how far down
    /// its glyphs reach from the origin of the surface. Nothing that
    /// `draw_label` changes lies outside them.
    pub fn measure_label(&self, label: &Label) -> (size: (u64, u64))
        ensures
            size.0 == label.reach().0,
            size.1 == label.reach().1,
            forall|px: int, py: int|
                0 <= px && #[trigger] label.covers(px, py) ==> px < size.0 && py < size.1,
    {
        proof {
            lemma_measure_is_exact(*label);
        }
        let mut width: u64 = 0;
        let mut height: u64 = 0;
        let mut seen: usize = 0;
        while seen < label.glyphs.len()
            invariant
                seen <= label.glyphs@.len(),
                width == reach_of(label.glyphs@, label.ascent as int, seen as nat).0,
                height == reach_of(label.glyphs@, label.ascent as int, seen as nat).1,
            decreases label.glyphs@.len() - seen,
        {
            let glyph = &label.glyphs[seen];
            match glyph.drawable() {
                Some(bounds) => {
                    let right: i64 = glyph.anchor.x as i64 + bounds.x as i64 + bounds.w as i64;
                    let bottom: i64 = glyph.anchor.y as i64 + bounds.y as i64 + label.ascent as i64
                        + bounds.h as i64;
                    if right > 0 && bottom > 1 {
                        if right as u64 > width {
                            width = right as u64;
                        }
                        if bottom as u64 > height {
                            height = bottom as u64;
                        }
                    }
                },
                None => {},
            }
            seen = seen + 1;
        }
        (width, height)
    }
}

} // verus!
