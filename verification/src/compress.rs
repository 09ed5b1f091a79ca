//! The block transform.
//!
//! A block is four pixels: top left, top right, bottom left, bottom right.
//! Channel by channel, the forward transform replaces them by their average
//! and three differences, and the inverse transform computes them back.
//!
//! The transform is lossy for integers, by this policy:
//! - Every result is computed in a 32-bit accumulator and stored in the
//!   channel kind of the input, clamped to the kind's range. The average
//!   always fits; a difference may not.
//! - The average is the sum divided by four, rounded toward negative
//!   infinity. The remainder that this drops can be told from the differences
//!   (see [`remainder_of`]), and the inverse puts it back.
//! - So a block none of whose differences was clamped comes back exactly
//!   (see [`Superpixel::lemma_block_round_trip`]); any other block comes back
//!   as an approximation.

use vstd::prelude::*;
use crate::error::TransformError;
use crate::my_image::{split_rows, Image};
use crate::pixel_type::{valid_count, ChannelKind, Pixel};
use crate::pyramid::{decompose_level, decomposed};

verus! {

/// Average of the four values of a block, rounded toward negative infinity.
pub open spec fn average_of(tl: int, tr: int, bl: int, br: int) -> int {
    (tl + tr + bl + br) / 4
}

/// Vertical difference of a block: bottom row minus top row.
pub open spec fn vertical_of(tl: int, tr: int, bl: int, br: int) -> int {
    -tl - tr + bl + br
}

/// Horizontal difference of a block: right column minus left column.
pub open spec fn horizontal_of(tl: int, tr: int, bl: int, br: int) -> int {
    -tl + tr - bl + br
}

/// Diagonal difference of a block: main diagonal minus the other one.
pub open spec fn diagonal_of(tl: int, tr: int, bl: int, br: int) -> int {
    tl - tr - bl + br
}

/// What the division by four dropped from a block's sum, as far as the three
/// differences tell: the sum and the negated sum of the differences leave the
/// same remainder modulo four.
pub open spec fn remainder_of(v: int, h: int, d: int) -> int {
    (-(v + h + d)) % 4
}

/// The sum of a block's four values as recovered from its coefficients.
pub open spec fn sum_of(a: int, v: int, h: int, d: int) -> int {
    4 * a + remainder_of(v, h, d)
}

/// Top-left value recovered from the four coefficients.
pub open spec fn top_left_of(a: int, v: int, h: int, d: int) -> int {
    (sum_of(a, v, h, d) - v - h + d) / 4
}

/// Top-right value recovered from the four coefficients.
pub open spec fn top_right_of(a: int, v: int, h: int, d: int) -> int {
    (sum_of(a, v, h, d) - v + h - d) / 4
}

/// Bottom-left value recovered from the four coefficients.
pub open spec fn bottom_left_of(a: int, v: int, h: int, d: int) -> int {
    (sum_of(a, v, h, d) + v - h - d) / 4
}

/// Bottom-right value recovered from the four coefficients.
pub open spec fn bottom_right_of(a: int, v: int, h: int, d: int) -> int {
    (sum_of(a, v, h, d) + v + h + d) / 4
}

/// The four linear combinations of a block are exactly invertible: four
/// times each value of the block is the matching signed sum of the block's
/// total and its three differences.
pub proof fn lemma_combinations_invert(tl: int, tr: int, bl: int, br: int)
    ensures
        ({
            let s = tl + tr + bl + br;
            let v = vertical_of(tl, tr, bl, br);
            let h = horizontal_of(tl, tr, bl, br);
            let d = diagonal_of(tl, tr, bl, br);
            &&& s - v - h + d == 4 * tl
            &&& s - v + h - d == 4 * tr
            &&& s + v - h - d == 4 * bl
            &&& s + v + h + d == 4 * br
        }),
{
}

/// The stored average is the arithmetic mean of the four values rounded
/// down: it lies less than one below the mean and never above it, and
/// within any bounds `lo` and `hi` that hold of all four values.
pub proof fn lemma_average_is_mean(tl: int, tr: int, bl: int, br: int, lo: int, hi: int)
    requires
        lo <= tl <= hi,
        lo <= tr <= hi,
        lo <= bl <= hi,
        lo <= br <= hi,
    ensures
        4 * average_of(tl, tr, bl, br) <= tl + tr + bl + br < 4 * average_of(tl, tr, bl, br) + 4,
        (tl + tr + bl + br) % 4 == 0 ==> 4 * average_of(tl, tr, bl, br) == tl + tr + bl + br,
        lo <= average_of(tl, tr, bl, br) <= hi,
{
}

/// The coefficients of a block give the block back: the recovered sum is the
/// block's sum, and each recovered value is the value it came from.
pub proof fn lemma_round_trip(tl: int, tr: int, bl: int, br: int)
    ensures
        ({
            let a = average_of(tl, tr, bl, br);
            let v = vertical_of(tl, tr, bl, br);
            let h = horizontal_of(tl, tr, bl, br);
            let d = diagonal_of(tl, tr, bl, br);
            &&& sum_of(a, v, h, d) == tl + tr + bl + br
            &&& top_left_of(a, v, h, d) == tl
            &&& top_right_of(a, v, h, d) == tr
            &&& bottom_left_of(a, v, h, d) == bl
            &&& bottom_right_of(a, v, h, d) == br
        }),
{
    let s = tl + tr + bl + br;
    let v = vertical_of(tl, tr, bl, br);
    let h = horizontal_of(tl, tr, bl, br);
    let d = diagonal_of(tl, tr, bl, br);
    assert(-(v + h + d) == s - 4 * br);
    assert(remainder_of(v, h, d) == s % 4);
    assert(sum_of(average_of(tl, tr, bl, br), v, h, d) == s);
    lemma_combinations_invert(tl, tr, bl, br);
}

/// The four coefficients of a block.
#[derive(Debug, Clone, Copy, PartialEq, Eq, Structural)]
pub enum Band {
    Average,
    Vertical,
    Horizontal,
    Diagonal,
}

/// The four places of a block.
#[derive(Debug, Clone, Copy, PartialEq, Eq, Structural)]
pub enum Corner {
    TopLeft,
    TopRight,
    BottomLeft,
    BottomRight,
}

/// Coefficient `band` of the four values of a block, before it is stored.
pub open spec fn band_of(band: Band, tl: int, tr: int, bl: int, br: int) -> int {
    match band {
        Band::Average => average_of(tl, tr, bl, br),
        Band::Vertical => vertical_of(tl, tr, bl, br),
        Band::Horizontal => horizontal_of(tl, tr, bl, br),
        Band::Diagonal => diagonal_of(tl, tr, bl, br),
    }
}

/// Value at `corner` recovered from the four coefficients, before it is
/// stored.
pub open spec fn corner_of(corner: Corner, a: int, v: int, h: int, d: int) -> int {
    match corner {
        Corner::TopLeft => top_left_of(a, v, h, d),
        Corner::TopRight => top_right_of(a, v, h, d),
        Corner::BottomLeft => bottom_left_of(a, v, h, d),
        Corner::BottomRight => bottom_right_of(a, v, h, d),
    }
}

/// One channel of a block survives the transform and its inverse when its
/// three differences are values of the channel kind.
proof fn lemma_channel_round_trip(k: ChannelKind, tl: int, tr: int, bl: int, br: int)
    requires
        k.holds(tl),
        k.holds(tr),
        k.holds(bl),
        k.holds(br),
        k.holds(vertical_of(tl, tr, bl, br)),
        k.holds(horizontal_of(tl, tr, bl, br)),
        k.holds(diagonal_of(tl, tr, bl, br)),
    ensures
        ({
            let a = k.clamped(average_of(tl, tr, bl, br));
            let v = k.clamped(vertical_of(tl, tr, bl, br));
            let h = k.clamped(horizontal_of(tl, tr, bl, br));
            let d = k.clamped(diagonal_of(tl, tr, bl, br));
            &&& k.clamped(top_left_of(a, v, h, d)) == tl
            &&& k.clamped(top_right_of(a, v, h, d)) == tr
            &&& k.clamped(bottom_left_of(a, v, h, d)) == bl
            &&& k.clamped(bottom_right_of(a, v, h, d)) == br
        }),
{
    lemma_average_is_mean(tl, tr, bl, br, k.min_value(), k.max_value());
    lemma_round_trip(tl, tr, bl, br);
}

/// Quotient of `n` by four, rounded toward negative infinity.
fn quarter(n: i32) -> (q: i32)
    requires
        -0x4_0000 <= n <= 0x4_0000,
    ensures
        q == n as int / 4,
{
    let shifted: u32 = (n + 0x4_0000) as u32;
    (shifted / 4) as i32 - 0x1_0000
}

/// Coefficient `band` of one channel of a block, as it is stored.
fn band_value(kind: ChannelKind, band: Band, tl: i16, tr: i16, bl: i16, br: i16) -> (r: i16)
    ensures
        r == kind.clamped(band_of(band, tl as int, tr as int, bl as int, br as int)),
{
    let tl: i32 = tl as i32;
    let tr: i32 = tr as i32;
    let bl: i32 = bl as i32;
    let br: i32 = br as i32;
    match band {
        Band::Average => kind.clamp(quarter(tl + tr + bl + br)),
        Band::Vertical => kind.clamp(-tl - tr + bl + br),
        Band::Horizontal => kind.clamp(-tl + tr - bl + br),
        Band::Diagonal => kind.clamp(tl - tr - bl + br),
    }
}

/// The four values of a block recovered from one channel of its
/// coefficients, in the order top left, top right, bottom left, bottom right.
fn corner_values(kind: ChannelKind, a: i16, v: i16, h: i16, d: i16) -> (r: (i16, i16, i16, i16))
    ensures
        r.0 == kind.clamped(top_left_of(a as int, v as int, h as int, d as int)),
        r.1 == kind.clamped(top_right_of(a as int, v as int, h as int, d as int)),
        r.2 == kind.clamped(bottom_left_of(a as int, v as int, h as int, d as int)),
        r.3 == kind.clamped(bottom_right_of(a as int, v as int, h as int, d as int)),
{
    let v: i32 = v as i32;
    let h: i32 = h as i32;
    let d: i32 = d as i32;
    let t: i32 = -(v + h + d);
    let s: i32 = 4 * (a as i32) + (t - 4 * quarter(t));
    (
        kind.clamp(quarter(s - v - h + d)),
        kind.clamp(quarter(s - v + h - d)),
        kind.clamp(quarter(s + v - h - d)),
        kind.clamp(quarter(s + v + h + d)),
    )
}

/// One 2x2 block of pixels that share one layout.
#[derive(Debug, Clone, Copy, PartialEq, Eq, Structural)]
pub struct Superpixel {
    pub(crate) tl: Pixel,
    pub(crate) tr: Pixel,
    pub(crate) bl: Pixel,
    pub(crate) br: Pixel,
}

impl Superpixel {
    /// The top-left pixel.
    pub open(crate) spec fn top_left(self) -> Pixel {
        self.tl
    }

    /// The top-right pixel.
    pub open(crate) spec fn top_right(self) -> Pixel {
        self.tr
    }

    /// The bottom-left pixel.
    pub open(crate) spec fn bottom_left(self) -> Pixel {
        self.bl
    }

    /// The bottom-right pixel.
    pub open(crate) spec fn bottom_right(self) -> Pixel {
        self.br
    }

    /// The block of the four given pixels.
    pub open(crate) spec fn spec_of(tl: Pixel, tr: Pixel, bl: Pixel, br: Pixel) -> Superpixel {
        Superpixel { tl, tr, bl, br }
    }

    /// The block of single-channel pixels that holds channel `channel` of
    /// each pixel of this block.
    pub open spec fn spec_channel(self, channel: int) -> Superpixel {
        Superpixel::spec_of(
            self.top_left().spec_single(channel),
            self.top_right().spec_single(channel),
            self.bottom_left().spec_single(channel),
            self.bottom_right().spec_single(channel),
        )
    }

    /// The channel kind of the four pixels.
    pub open spec fn spec_kind(self) -> ChannelKind {
        self.top_left().spec_kind()
    }

    /// The channel count of the four pixels.
    pub open spec fn spec_count(self) -> int {
        self.top_left().spec_count()
    }

    /// The block is well formed: its pixels are, and they share one layout.
    #[verifier::type_invariant]
    pub open(crate) spec fn wf(self) -> bool {
        &&& self.tl.wf()
        &&& self.tr.wf()
        &&& self.bl.wf()
        &&& self.br.wf()
        &&& self.tl.same_layout(self.tr)
        &&& self.tl.same_layout(self.bl)
        &&& self.tl.same_layout(self.br)
    }

    /// What well-formedness says of the four pixels.
    pub proof fn lemma_wf(self)
        requires
            self.wf(),
        ensures
            self.top_left().wf(),
            self.top_right().wf(),
            self.bottom_left().wf(),
            self.bottom_right().wf(),
            self.top_left().same_layout(self.top_right()),
            self.top_left().same_layout(self.bottom_left()),
            self.top_left().same_layout(self.bottom_right()),
    {
    }

    /// The pixel at column `dx`, row `dy` of the block, each 0 or 1.
    pub open spec fn corner(self, dx: int, dy: int) -> Pixel {
        if dy == 0 {
            if dx == 0 {
                self.top_left()
            } else {
                self.top_right()
            }
        } else {
            if dx == 0 {
                self.bottom_left()
            } else {
                self.bottom_right()
            }
        }
    }

    /// What the coefficient pixel `band` stores for channel `i`.
    pub(crate) open spec fn band_slot(self, band: Band, i: int) -> int {
        self.tl.kind.clamped(
            band_of(band, self.tl.slot(i), self.tr.slot(i), self.bl.slot(i), self.br.slot(i)),
        )
    }

    /// What the pixel recovered for `corner` stores for channel `i`.
    pub(crate) open spec fn corner_slot(self, corner: Corner, i: int) -> int {
        self.tl.kind.clamped(
            corner_of(corner, self.tl.slot(i), self.tr.slot(i), self.bl.slot(i), self.br.slot(i)),
        )
    }

    /// The coefficient pixel `band` of the block (see [`Self::lemma_band`]).
    pub closed spec fn spec_band(self, band: Band) -> Pixel {
        Pixel::build(
            self.tl.kind,
            self.tl.count,
            self.band_slot(band, 0),
            self.band_slot(band, 1),
            self.band_slot(band, 2),
            self.band_slot(band, 3),
        )
    }

    /// The pixel at `corner` recovered from a block of coefficients (see
    /// [`Self::lemma_corner`]).
    pub closed spec fn spec_corner(self, corner: Corner) -> Pixel {
        Pixel::build(
            self.tl.kind,
            self.tl.count,
            self.corner_slot(corner, 0),
            self.corner_slot(corner, 1),
            self.corner_slot(corner, 2),
            self.corner_slot(corner, 3),
        )
    }

    /// The channel values of the coefficient pixel `band`: channel `c` is the
    /// coefficient of the four pixels' channels `c`, clamped to the channel
    /// kind.
    pub open spec fn band_view(self, band: Band) -> Seq<int> {
        Seq::new(
            self.spec_count() as nat,
            |c: int|
                self.spec_kind().clamped(
                    band_of(
                        band,
                        self.top_left()@[c],
                        self.top_right()@[c],
                        self.bottom_left()@[c],
                        self.bottom_right()@[c],
                    ),
                ),
        )
    }

    /// The channel values of the pixel recovered for `corner`: channel `c` is
    /// recovered from the four coefficients' channels `c` and clamped to the
    /// channel kind.
    pub open spec fn corner_view(self, corner: Corner) -> Seq<int> {
        Seq::new(
            self.spec_count() as nat,
            |c: int|
                self.spec_kind().clamped(
                    corner_of(
                        corner,
                        self.top_left()@[c],
                        self.top_right()@[c],
                        self.bottom_left()@[c],
                        self.bottom_right()@[c],
                    ),
                ),
        )
    }

    /// The block of coefficients: average at the top left, vertical
    /// difference at the top right, horizontal difference at the bottom left,
    /// diagonal difference at the bottom right.
    pub open(crate) spec fn compressed(self) -> Superpixel {
        Superpixel {
            tl: self.spec_band(Band::Average),
            tr: self.spec_band(Band::Vertical),
            bl: self.spec_band(Band::Horizontal),
            br: self.spec_band(Band::Diagonal),
        }
    }

    /// The block recovered from a block of coefficients laid out as
    /// [`Self::compressed`] lays them out.
    pub open(crate) spec fn decompressed(self) -> Superpixel {
        Superpixel {
            tl: self.spec_corner(Corner::TopLeft),
            tr: self.spec_corner(Corner::TopRight),
            bl: self.spec_corner(Corner::BottomLeft),
            br: self.spec_corner(Corner::BottomRight),
        }
    }

    /// Whether no difference of the block leaves the range of the channel
    /// kind, so that the coefficients are stored unclamped.
    pub open spec fn exact(self) -> bool {
        forall|c: int|
            #![trigger self.top_left()@[c]]
            0 <= c < self.spec_count() ==> {
                let tl = self.top_left()@[c];
                let tr = self.top_right()@[c];
                let bl = self.bottom_left()@[c];
                let br = self.bottom_right()@[c];
                &&& self.spec_kind().holds(vertical_of(tl, tr, bl, br))
                &&& self.spec_kind().holds(horizontal_of(tl, tr, bl, br))
                &&& self.spec_kind().holds(diagonal_of(tl, tr, bl, br))
            }
    }

    /// Groups four pixels into a block.
    ///
    /// Fails with `ChannelCountMismatch` unless the four pixels have the same
    /// channel count and channel kind.
    pub fn new(tl: Pixel, tr: Pixel, bl: Pixel, br: Pixel) -> (r: Result<Superpixel, TransformError>)
        ensures
            match r {
                Ok(s) => {
                    &&& s.wf()
                    &&& s.top_left() == tl
                    &&& s.top_right() == tr
                    &&& s.bottom_left() == bl
                    &&& s.bottom_right() == br
                    &&& tl.same_layout(tr) && tl.same_layout(bl) && tl.same_layout(br)
                },
                Err(e) => e == TransformError::ChannelCountMismatch && !(tl.same_layout(tr)
                    && tl.same_layout(bl) && tl.same_layout(br)),
            },
    {
        proof {
            use_type_invariant(tl);
            use_type_invariant(tr);
            use_type_invariant(bl);
            use_type_invariant(br);
        }
        let k = tl.kind();
        let n = tl.channels_count();
        if tr.kind() != k || bl.kind() != k || br.kind() != k {
            return Err(TransformError::ChannelCountMismatch);
        }
        if tr.channels_count() != n || bl.channels_count() != n || br.channels_count() != n {
            return Err(TransformError::ChannelCountMismatch);
        }
        Ok(Superpixel { tl, tr, bl, br })
    }

    /// The block of four pixels, which must share one layout.
    pub(crate) fn of(tl: Pixel, tr: Pixel, bl: Pixel, br: Pixel) -> (s: Superpixel)
        requires
            tl.wf(),
            tr.wf(),
            bl.wf(),
            br.wf(),
            tl.same_layout(tr),
            tl.same_layout(bl),
            tl.same_layout(br),
        ensures
            s == Superpixel::spec_of(tl, tr, bl, br),
            s.wf(),
            s.spec_kind() == tl.spec_kind(),
            s.spec_count() == tl.spec_count(),
    {
        Superpixel { tl, tr, bl, br }
    }

    /// The top-left pixel.
    pub fn get_top_left(&self) -> (p: Pixel)
        ensures
            p == self.top_left(),
            p.wf(),
            p.spec_kind() == self.spec_kind(),
            p.spec_count() == self.spec_count(),
    {
        proof {
            use_type_invariant(self);
        }
        self.tl
    }

    /// The top-right pixel.
    pub fn get_top_right(&self) -> (p: Pixel)
        ensures
            p == self.top_right(),
            p.wf(),
            p.spec_kind() == self.spec_kind(),
            p.spec_count() == self.spec_count(),
    {
        proof {
            use_type_invariant(self);
        }
        self.tr
    }

    /// The bottom-left pixel.
    pub fn get_bottom_left(&self) -> (p: Pixel)
        ensures
            p == self.bottom_left(),
            p.wf(),
            p.spec_kind() == self.spec_kind(),
            p.spec_count() == self.spec_count(),
    {
        proof {
            use_type_invariant(self);
        }
        self.bl
    }

    /// The bottom-right pixel.
    pub fn get_bottom_right(&self) -> (p: Pixel)
        ensures
            p == self.bottom_right(),
            p.wf(),
            p.spec_kind() == self.spec_kind(),
            p.spec_count() == self.spec_count(),
    {
        proof {
            use_type_invariant(self);
        }
        self.br
    }

    /// The coefficient pixel `band` of the block.
    pub fn coefficient(&self, band: Band) -> (p: Pixel)
        ensures
            p == self.spec_band(band),
            p.wf(),
            p.same_layout(self.top_left()),
            p@ == self.band_view(band),
    {
        proof {
            use_type_invariant(self);
            self.lemma_band_stored(band);
            self.lemma_inputs();
        }
        let k = self.tl.kind;
        let c0: i16 = band_value(k, band, self.tl.c0, self.tr.c0, self.bl.c0, self.br.c0);
        let c1: i16 = band_value(k, band, self.tl.c1, self.tr.c1, self.bl.c1, self.br.c1);
        let c2: i16 = band_value(k, band, self.tl.c2, self.tr.c2, self.bl.c2, self.br.c2);
        let c3: i16 = band_value(k, band, self.tl.c3, self.tr.c3, self.bl.c3, self.br.c3);
        proof {
            assert(c0 == self.band_slot(band, 0) && c1 == self.band_slot(band, 1));
            assert(c2 == self.band_slot(band, 2) && c3 == self.band_slot(band, 3));
            assert(self.spec_band(band).slot(0) == c0 && self.spec_band(band).slot(1) == c1);
            assert(self.spec_band(band).slot(2) == c2 && self.spec_band(band).slot(3) == c3);
        }
        Pixel { kind: k, count: self.tl.count, c0, c1, c2, c3 }
    }

    /// The forward block transform: the block of coefficients, with the
    /// average at the top left, the vertical difference at the top right, the
    /// horizontal difference at the bottom left and the diagonal difference
    /// at the bottom right.
    pub fn forward(&self) -> (c: Superpixel)
        ensures
            c == self.compressed(),
            c.wf(),
            c.spec_kind() == self.spec_kind(),
            c.spec_count() == self.spec_count(),
            c.top_left()@ == self.band_view(Band::Average),
            c.top_right()@ == self.band_view(Band::Vertical),
            c.bottom_left()@ == self.band_view(Band::Horizontal),
            c.bottom_right()@ == self.band_view(Band::Diagonal),
    {
        let average = self.coefficient(Band::Average);
        let vertical = self.coefficient(Band::Vertical);
        let horizontal = self.coefficient(Band::Horizontal);
        let diagonal = self.coefficient(Band::Diagonal);
        Superpixel { tl: average, tr: vertical, bl: horizontal, br: diagonal }
    }

    /// The inverse block transform: reads the block as coefficients laid out
    /// as [`Self::forward`] lays them out and recovers the four pixels, each
    /// channel clamped to the channel kind.
    pub fn inverse(&self) -> (b: Superpixel)
        ensures
            b == self.decompressed(),
            b.wf(),
            b.spec_kind() == self.spec_kind(),
            b.spec_count() == self.spec_count(),
            b.top_left()@ == self.corner_view(Corner::TopLeft),
            b.top_right()@ == self.corner_view(Corner::TopRight),
            b.bottom_left()@ == self.corner_view(Corner::BottomLeft),
            b.bottom_right()@ == self.corner_view(Corner::BottomRight),
    {
        proof {
            use_type_invariant(self);
            self.lemma_corner_stored(Corner::TopLeft);
            self.lemma_corner_stored(Corner::TopRight);
            self.lemma_corner_stored(Corner::BottomLeft);
            self.lemma_corner_stored(Corner::BottomRight);
            self.lemma_inputs();
        }
        let k = self.tl.kind;
        let n = self.tl.count;
        let r0 = corner_values(k, self.tl.c0, self.tr.c0, self.bl.c0, self.br.c0);
        let r1 = corner_values(k, self.tl.c1, self.tr.c1, self.bl.c1, self.br.c1);
        let r2 = corner_values(k, self.tl.c2, self.tr.c2, self.bl.c2, self.br.c2);
        let r3 = corner_values(k, self.tl.c3, self.tr.c3, self.bl.c3, self.br.c3);
        proof {
            self.lemma_corner_slots(Corner::TopLeft, r0.0 as int, r1.0 as int, r2.0 as int, r3.0 as int);
            self.lemma_corner_slots(Corner::TopRight, r0.1 as int, r1.1 as int, r2.1 as int, r3.1 as int);
            self.lemma_corner_slots(Corner::BottomLeft, r0.2 as int, r1.2 as int, r2.2 as int, r3.2 as int);
            self.lemma_corner_slots(Corner::BottomRight, r0.3 as int, r1.3 as int, r2.3 as int, r3.3 as int);
        }
        let tl = Pixel { kind: k, count: n, c0: r0.0, c1: r1.0, c2: r2.0, c3: r3.0 };
        let tr = Pixel { kind: k, count: n, c0: r0.1, c1: r1.1, c2: r2.1, c3: r3.1 };
        let bl = Pixel { kind: k, count: n, c0: r0.2, c1: r1.2, c2: r2.2, c3: r3.2 };
        let br = Pixel { kind: k, count: n, c0: r0.3, c1: r1.3, c2: r2.3, c3: r3.3 };
        Superpixel { tl, tr, bl, br }
    }

    /// The pixel recovered for `corner` stores the four values computed for
    /// it.
    proof fn lemma_corner_slots(self, corner: Corner, a: int, b: int, c: int, d: int)
        requires
            self.wf(),
            a == self.corner_slot(corner, 0),
            b == self.corner_slot(corner, 1),
            c == self.corner_slot(corner, 2),
            d == self.corner_slot(corner, 3),
        ensures
            self.spec_corner(corner) == Pixel::build(self.tl.kind, self.tl.count, a, b, c, d),
            self.spec_corner(corner).wf(),
            self.spec_corner(corner).slot(0) == a,
            self.spec_corner(corner).slot(1) == b,
            self.spec_corner(corner).slot(2) == c,
            self.spec_corner(corner).slot(3) == d,
    {
        self.lemma_corner_stored(corner);
    }

    /// The four pixels of a well-formed block, value by value.
    proof fn lemma_inputs(self)
        requires
            self.wf(),
        ensures
            valid_count(self.tl.count as int),
            self.tr.count == self.tl.count,
            self.bl.count == self.tl.count,
            self.br.count == self.tl.count,
            self.tl@.len() == self.tl.count,
            forall|i: int|
                0 <= i < 4 ==> {
                    &&& self.tl.kind.holds(#[trigger] self.tl.slot(i))
                    &&& self.tl.kind.holds(self.tr.slot(i))
                    &&& self.tl.kind.holds(self.bl.slot(i))
                    &&& self.tl.kind.holds(self.br.slot(i))
                },
            forall|i: int|
                self.tl.count <= i < 4 ==> {
                    &&& #[trigger] self.tl.slot(i) == 0
                    &&& self.tr.slot(i) == 0
                    &&& self.bl.slot(i) == 0
                    &&& self.br.slot(i) == 0
                },
            forall|i: int|
                0 <= i < self.tl.count ==> {
                    &&& #[trigger] self.tl@[i] == self.tl.slot(i)
                    &&& self.tr@[i] == self.tr.slot(i)
                    &&& self.bl@[i] == self.bl.slot(i)
                    &&& self.br@[i] == self.br.slot(i)
                },
    {
        self.tl.lemma_slots();
        self.tr.lemma_slots();
        self.bl.lemma_slots();
        self.br.lemma_slots();
    }

    /// What the coefficient pixel `band` of a well-formed block holds: it
    /// has the block's layout, and its channel values are
    /// [`Self::band_view`]. The average is never clamped.
    pub proof fn lemma_band(self, band: Band)
        requires
            self.wf(),
        ensures
            self.spec_band(band).wf(),
            self.spec_band(band).same_layout(self.top_left()),
            self.spec_band(band)@ == self.band_view(band),
            forall|c: int|
                0 <= c < self.spec_count() ==> #[trigger] self.band_view(Band::Average)[c]
                    == average_of(
                    self.top_left()@[c],
                    self.top_right()@[c],
                    self.bottom_left()@[c],
                    self.bottom_right()@[c],
                ),
    {
        self.lemma_band_stored(band);
    }

    /// [`Self::lemma_band`], and what the coefficient pixel stores.
    pub(crate) proof fn lemma_band_stored(self, band: Band)
        requires
            self.wf(),
        ensures
            self.spec_band(band).wf(),
            self.spec_band(band).same_layout(self.top_left()),
            self.spec_band(band)@ == self.band_view(band),
            forall|i: int|
                0 <= i < 4 ==> #[trigger] self.spec_band(band).slot(i) == self.band_slot(band, i),
            forall|c: int|
                0 <= c < self.spec_count() ==> #[trigger] self.band_view(Band::Average)[c]
                    == average_of(
                    self.top_left()@[c],
                    self.top_right()@[c],
                    self.bottom_left()@[c],
                    self.bottom_right()@[c],
                ),
    {
        self.lemma_inputs();
        let k = self.tl.kind;
        assert forall|i: int| 0 <= i < 4 implies k.holds(#[trigger] self.band_slot(band, i)) by {}
        assert forall|i: int| self.tl.count <= i < 4 implies #[trigger] self.band_slot(band, i)
            == 0 by {
            assert(self.tl.slot(i) == 0);
        }
        Pixel::lemma_build(
            k,
            self.tl.count,
            self.band_slot(band, 0),
            self.band_slot(band, 1),
            self.band_slot(band, 2),
            self.band_slot(band, 3),
        );
        let p = self.spec_band(band);
        p.lemma_slots();
        assert forall|c: int| 0 <= c < self.tl.count implies #[trigger] p@[c] == self.band_slot(
            band,
            c,
        ) by {
            assert(p@[c] == p.slot(c));
            assert(self.tl@[c] == self.tl.slot(c));
        }
        assert(p@ =~= self.band_view(band));
        assert forall|c: int| 0 <= c < self.spec_count() implies #[trigger] self.band_view(
            Band::Average,
        )[c] == average_of(
            self.top_left()@[c],
            self.top_right()@[c],
            self.bottom_left()@[c],
            self.bottom_right()@[c],
        ) by {
            assert(self.tl@[c] == self.tl.slot(c));
            lemma_average_is_mean(
                self.tl@[c],
                self.tr@[c],
                self.bl@[c],
                self.br@[c],
                k.min_value(),
                k.max_value(),
            );
        }
    }

    /// What the pixel recovered for `corner` from a well-formed block of
    /// coefficients holds: it has the block's layout, and its channel values
    /// are [`Self::corner_view`].
    pub proof fn lemma_corner(self, corner: Corner)
        requires
            self.wf(),
        ensures
            self.spec_corner(corner).wf(),
            self.spec_corner(corner).same_layout(self.top_left()),
            self.spec_corner(corner)@ == self.corner_view(corner),
    {
        self.lemma_corner_stored(corner);
    }

    /// [`Self::lemma_corner`], and what the recovered pixel stores.
    pub(crate) proof fn lemma_corner_stored(self, corner: Corner)
        requires
            self.wf(),
        ensures
            self.spec_corner(corner).wf(),
            self.spec_corner(corner).same_layout(self.top_left()),
            self.spec_corner(corner)@ == self.corner_view(corner),
            forall|i: int|
                0 <= i < 4 ==> #[trigger] self.spec_corner(corner).slot(i) == self.corner_slot(
                    corner,
                    i,
                ),
    {
        self.lemma_inputs();
        let k = self.tl.kind;
        assert forall|i: int| 0 <= i < 4 implies k.holds(#[trigger] self.corner_slot(corner, i)) by {}
        assert forall|i: int| self.tl.count <= i < 4 implies #[trigger] self.corner_slot(corner, i)
            == 0 by {
            assert(self.tl.slot(i) == 0);
        }
        Pixel::lemma_build(
            k,
            self.tl.count,
            self.corner_slot(corner, 0),
            self.corner_slot(corner, 1),
            self.corner_slot(corner, 2),
            self.corner_slot(corner, 3),
        );
        let p = self.spec_corner(corner);
        p.lemma_slots();
        assert forall|c: int| 0 <= c < self.tl.count implies #[trigger] p@[c] == self.corner_slot(
            corner,
            c,
        ) by {
            assert(p@[c] == p.slot(c));
            assert(self.tl@[c] == self.tl.slot(c));
        }
        assert(p@ =~= self.corner_view(corner));
    }

    /// The coefficients of a well-formed block form a well-formed block of
    /// the same layout.
    pub proof fn lemma_coefficients(self)
        requires
            self.wf(),
        ensures
            self.compressed().wf(),
            self.compressed().spec_kind() == self.spec_kind(),
            self.compressed().spec_count() == self.spec_count(),
            self.compressed().top_left() == self.spec_band(Band::Average),
            self.compressed().top_right() == self.spec_band(Band::Vertical),
            self.compressed().bottom_left() == self.spec_band(Band::Horizontal),
            self.compressed().bottom_right() == self.spec_band(Band::Diagonal),
    {
        self.lemma_band(Band::Average);
        self.lemma_band(Band::Vertical);
        self.lemma_band(Band::Horizontal);
        self.lemma_band(Band::Diagonal);
    }

    /// The pixels recovered from a well-formed block of coefficients form a
    /// well-formed block of the same layout.
    pub proof fn lemma_recovered(self)
        requires
            self.wf(),
        ensures
            self.decompressed().wf(),
            self.decompressed().spec_kind() == self.spec_kind(),
            self.decompressed().spec_count() == self.spec_count(),
            self.decompressed().top_left() == self.spec_corner(Corner::TopLeft),
            self.decompressed().top_right() == self.spec_corner(Corner::TopRight),
            self.decompressed().bottom_left() == self.spec_corner(Corner::BottomLeft),
            self.decompressed().bottom_right() == self.spec_corner(Corner::BottomRight),
    {
        self.lemma_corner(Corner::TopLeft);
        self.lemma_corner(Corner::TopRight);
        self.lemma_corner(Corner::BottomLeft);
        self.lemma_corner(Corner::BottomRight);
    }

    /// A block whose differences all fit the channel kind is recovered
    /// exactly from its coefficients.
    pub proof fn lemma_block_round_trip(self)
        requires
            self.wf(),
            self.exact(),
        ensures
            self.compressed().decompressed() == self,
    {
        self.lemma_coefficients();
        let c = self.compressed();
        c.lemma_recovered();
        assert forall|i: int| 0 <= i < 4 implies {
            &&& c.corner_slot(Corner::TopLeft, i) == self.tl.slot(i)
            &&& c.corner_slot(Corner::TopRight, i) == self.tr.slot(i)
            &&& c.corner_slot(Corner::BottomLeft, i) == self.bl.slot(i)
            &&& c.corner_slot(Corner::BottomRight, i) == self.br.slot(i)
        } by {
            self.lemma_slot_round_trip(i);
        }
        c.lemma_corner_stored(Corner::TopLeft);
        c.lemma_corner_stored(Corner::TopRight);
        c.lemma_corner_stored(Corner::BottomLeft);
        c.lemma_corner_stored(Corner::BottomRight);
        c.spec_corner(Corner::TopLeft).lemma_equal_by_slots(self.tl);
        c.spec_corner(Corner::TopRight).lemma_equal_by_slots(self.tr);
        c.spec_corner(Corner::BottomLeft).lemma_equal_by_slots(self.bl);
        c.spec_corner(Corner::BottomRight).lemma_equal_by_slots(self.br);
    }

    /// What the coefficients of an exact block give back for the stored
    /// value `i` of each corner.
    proof fn lemma_slot_round_trip(self, i: int)
        requires
            self.wf(),
            self.exact(),
            0 <= i < 4,
        ensures
            self.compressed().corner_slot(Corner::TopLeft, i) == self.tl.slot(i),
            self.compressed().corner_slot(Corner::TopRight, i) == self.tr.slot(i),
            self.compressed().corner_slot(Corner::BottomLeft, i) == self.bl.slot(i),
            self.compressed().corner_slot(Corner::BottomRight, i) == self.br.slot(i),
    {
        self.lemma_inputs();
        if i < self.tl.count {
            assert(self.tl@[i] == self.tl.slot(i));
        } else {
            assert(self.tl.slot(i) == 0);
        }
        lemma_channel_round_trip(
            self.tl.kind,
            self.tl.slot(i),
            self.tr.slot(i),
            self.bl.slot(i),
            self.br.slot(i),
        );
        self.lemma_band_stored(Band::Average);
        self.lemma_band_stored(Band::Vertical);
        self.lemma_band_stored(Band::Horizontal);
        self.lemma_band_stored(Band::Diagonal);
        let c = self.compressed();
        assert(c.tl.slot(i) == self.band_slot(Band::Average, i));
        assert(c.tr.slot(i) == self.band_slot(Band::Vertical, i));
        assert(c.bl.slot(i) == self.band_slot(Band::Horizontal, i));
        assert(c.br.slot(i) == self.band_slot(Band::Diagonal, i));
    }
}

/// The four coefficients of a block, by name. Each is a pixel of the block's
/// layout.
pub trait Calculate {
    /// The pixel that [`Self::horizontal_diff`] returns.
    spec fn horizontal_pixel(&self) -> Pixel;

    /// The pixel that [`Self::vertical_diff`] returns.
    spec fn vertical_pixel(&self) -> Pixel;

    /// The pixel that [`Self::diagonal_diff`] returns.
    spec fn diagonal_pixel(&self) -> Pixel;

    /// The pixel that [`Self::average`] returns.
    spec fn average_pixel(&self) -> Pixel;

    /// Right column minus left column.
    fn horizontal_diff(&self) -> (p: Pixel)
        ensures
            p == self.horizontal_pixel(),
    ;

    /// Bottom row minus top row.
    fn vertical_diff(&self) -> (p: Pixel)
        ensures
            p == self.vertical_pixel(),
    ;

    /// Main diagonal minus the other diagonal.
    fn diagonal_diff(&self) -> (p: Pixel)
        ensures
            p == self.diagonal_pixel(),
    ;

    /// Mean of the four pixels.
    fn average(&self) -> (p: Pixel)
        ensures
            p == self.average_pixel(),
    ;
}

impl Calculate for Superpixel {
    open spec fn horizontal_pixel(&self) -> Pixel {
        self.spec_band(Band::Horizontal)
    }

    open spec fn vertical_pixel(&self) -> Pixel {
        self.spec_band(Band::Vertical)
    }

    open spec fn diagonal_pixel(&self) -> Pixel {
        self.spec_band(Band::Diagonal)
    }

    open spec fn average_pixel(&self) -> Pixel {
        self.spec_band(Band::Average)
    }

    /// Per channel, right column minus left column, clamped to the channel
    /// kind.
    fn horizontal_diff(&self) -> (p: Pixel)
        ensures
            p.wf(),
            p.same_layout(self.top_left()),
            p@ == self.band_view(Band::Horizontal),
    {
        self.coefficient(Band::Horizontal)
    }

    /// Per channel, bottom row minus top row, clamped to the channel kind.
    fn vertical_diff(&self) -> (p: Pixel)
        ensures
            p.wf(),
            p.same_layout(self.top_left()),
            p@ == self.band_view(Band::Vertical),
    {
        self.coefficient(Band::Vertical)
    }

    /// Per channel, main diagonal minus the other diagonal, clamped to the
    /// channel kind.
    fn diagonal_diff(&self) -> (p: Pixel)
        ensures
            p.wf(),
            p.same_layout(self.top_left()),
            p@ == self.band_view(Band::Diagonal),
    {
        self.coefficient(Band::Diagonal)
    }

    /// Per channel, the arithmetic mean of the four values, rounded toward
    /// negative infinity.
    fn average(&self) -> (p: Pixel)
        ensures
            p.wf(),
            p.same_layout(self.top_left()),
            p@ == self.band_view(Band::Average),
            forall|c: int|
                0 <= c < self.spec_count() ==> #[trigger] p@[c] == average_of(
                    self.top_left()@[c],
                    self.top_right()@[c],
                    self.bottom_left()@[c],
                    self.bottom_right()@[c],
                ),
    {
        proof {
            use_type_invariant(self);
            self.lemma_band(Band::Average);
        }
        self.coefficient(Band::Average)
    }
}

/// The forward transform of one channel.
pub trait Compress: Sized {
    /// Whether `r` is what [`Self::compress`] returns for `channel`.
    spec fn compresses_to(&self, channel: usize, r: Result<Self, TransformError>) -> bool;

    /// Transforms channel `channel`, or says why it cannot.
    fn compress(&self, channel: usize) -> (r: Result<Self, TransformError>)
        ensures
            self.compresses_to(channel, r),
    ;
}

impl Compress for Superpixel {
    /// The result is the block of coefficients of channel `channel`, a block
    /// of single-channel pixels; it is `ChannelIndexOutOfRange` unless
    /// `channel` is below the channel count.
    open spec fn compresses_to(&self, channel: usize, r: Result<Self, TransformError>) -> bool {
        match r {
            Ok(c) => channel < self.spec_count() && c.wf() && c == self.spec_channel(
                channel as int,
            ).compressed(),
            Err(e) => e == TransformError::ChannelIndexOutOfRange && channel >= self.spec_count(),
        }
    }

    fn compress(&self, channel: usize) -> (r: Result<Self, TransformError>) {
        proof {
            use_type_invariant(self);
        }
        if channel >= self.tl.channels_count() as usize {
            return Err(TransformError::ChannelIndexOutOfRange);
        }
        let plane = Superpixel::of(
            self.tl.only(channel),
            self.tr.only(channel),
            self.bl.only(channel),
            self.br.only(channel),
        );
        Ok(plane.forward())
    }
}

impl Compress for Image {
    /// The result is the decomposition of channel `channel`, an image of
    /// single-channel pixels of the same dimensions; it is
    /// `ChannelIndexOutOfRange` unless `channel` is below the channel count,
    /// and otherwise `OddDimension` if the width or the height is odd.
    open spec fn compresses_to(&self, channel: usize, r: Result<Self, TransformError>) -> bool {
        match r {
            Ok(out) => {
                &&& channel < self.spec_count()
                &&& self.spec_width() % 2 == 0
                &&& self.spec_height() % 2 == 0
                &&& out.wf()
                &&& out.spec_width() == self.spec_width()
                &&& out.spec_height() == self.spec_height()
                &&& out.spec_kind() == self.spec_kind()
                &&& out.spec_count() == 1
                &&& out@ == decomposed(split_rows(self@, channel as int))
            },
            Err(e) => if channel >= self.spec_count() {
                e == TransformError::ChannelIndexOutOfRange
            } else {
                e == TransformError::OddDimension && (self.spec_width() % 2 != 0
                    || self.spec_height() % 2 != 0)
            },
        }
    }

    fn compress(&self, channel: usize) -> (r: Result<Self, TransformError>) {
        if channel >= self.channels_count() as usize {
            return Err(TransformError::ChannelIndexOutOfRange);
        }
        if self.get_width() % 2 != 0 || self.get_height() % 2 != 0 {
            return Err(TransformError::OddDimension);
        }
        let plane = match self.split_channel(channel) {
            Ok(plane) => plane,
            Err(e) => {
                return Err(e);
            },
        };
        match decompose_level(&plane) {
            Ok(level) => Ok(level.into_coefficients()),
            Err(e) => Err(e),
        }
    }
}

} // verus!
