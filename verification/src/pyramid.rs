use vstd::prelude::*;
use vstd::arithmetic::power2::{lemma_pow2_pos, lemma_pow2_unfold, pow2};
use crate::compress::{lemma_average_is_mean, Band, Superpixel};
use crate::error::TransformError;
use crate::my_image::{block_at, even_up, uniform_rows, Image, MAX_PIXELS};
use crate::pixel_type::{ChannelKind, Pixel};

verus! {

/// Number of rows of a grid.
pub open spec fn height_of(rows: Seq<Seq<Pixel>>) -> int {
    rows.len() as int
}

/// Number of columns of a grid: the length of its first row.
pub open spec fn width_of(rows: Seq<Seq<Pixel>>) -> int {
    if rows.len() > 0 {
        rows[0].len() as int
    } else {
        0
    }
}

/// The grid with both dimensions rounded up to even by repeating its last
/// column and its last row. A grid of even dimensions is left as it is.
pub open spec fn padded(rows: Seq<Seq<Pixel>>) -> Seq<Seq<Pixel>> {
    let w = width_of(rows);
    let h = height_of(rows);
    Seq::new(
        even_up(h) as nat,
        |y: int|
            Seq::new(
                even_up(w) as nat,
                |x: int|
                    rows[if y < h {
                        y
                    } else {
                        h - 1
                    }][if x < w {
                        x
                    } else {
                        w - 1
                    }],
            ),
    )
}

/// Pixel `(x, y)` of the decomposition of a grid of even dimensions. The
/// grid of coefficients has four quadrants: the averages of the blocks at the
/// top left, their vertical differences at the top right, their horizontal
/// differences at the bottom left and their diagonal differences at the
/// bottom right; within each quadrant the block `(bx, by)` is at `(bx, by)`.
pub open spec fn decomposed_pixel(rows: Seq<Seq<Pixel>>, x: int, y: int) -> Pixel {
    let hw = width_of(rows) / 2;
    let hh = height_of(rows) / 2;
    let bx = if x < hw {
        x
    } else {
        x - hw
    };
    let by = if y < hh {
        y
    } else {
        y - hh
    };
    block_at(rows, bx, by).compressed().corner(
        if x < hw {
            0
        } else {
            1
        },
        if y < hh {
            0
        } else {
            1
        },
    )
}

/// The decomposition of a grid of even dimensions: a grid of the same
/// dimensions that holds [`decomposed_pixel`] at every place.
pub open spec fn decomposed(rows: Seq<Seq<Pixel>>) -> Seq<Seq<Pixel>> {
    Seq::new(
        height_of(rows) as nat,
        |y: int| Seq::new(width_of(rows) as nat, |x: int| decomposed_pixel(rows, x, y)),
    )
}

/// The four coefficients of block `(bx, by)` in a grid of coefficients: one
/// from each quadrant.
pub open spec fn bands_at(rows: Seq<Seq<Pixel>>, bx: int, by: int) -> Superpixel {
    let hw = width_of(rows) / 2;
    let hh = height_of(rows) / 2;
    Superpixel::spec_of(
        rows[by][bx],
        rows[by][bx + hw],
        rows[by + hh][bx],
        rows[by + hh][bx + hw],
    )
}

/// Pixel `(x, y)` of the grid recovered from a grid of coefficients.
pub open spec fn reconstructed_pixel(rows: Seq<Seq<Pixel>>, x: int, y: int) -> Pixel {
    bands_at(rows, x / 2, y / 2).decompressed().corner(x % 2, y % 2)
}

/// The top-left `width` by `height` pixels of the grid recovered from a grid
/// of coefficients.
pub open spec fn reconstructed(rows: Seq<Seq<Pixel>>, width: int, height: int) -> Seq<Seq<Pixel>> {
    Seq::new(
        height as nat,
        |y: int| Seq::new(width as nat, |x: int| reconstructed_pixel(rows, x, y)),
    )
}

/// The top-left quadrant of a grid of coefficients: the averages.
pub open spec fn average_rows(rows: Seq<Seq<Pixel>>) -> Seq<Seq<Pixel>> {
    Seq::new(
        (height_of(rows) / 2) as nat,
        |y: int| Seq::new((width_of(rows) / 2) as nat, |x: int| rows[y][x]),
    )
}

/// Pixel `(x, y)` of a grid of coefficients whose average quadrant is
/// replaced by the grid `average`.
pub open spec fn with_average_pixel(
    rows: Seq<Seq<Pixel>>,
    average: Seq<Seq<Pixel>>,
    x: int,
    y: int,
) -> Pixel {
    if x < width_of(rows) / 2 && y < height_of(rows) / 2 {
        average[y][x]
    } else {
        rows[y][x]
    }
}

/// A grid of coefficients with its average quadrant replaced by the grid
/// `average`.
pub open spec fn with_average_rows(rows: Seq<Seq<Pixel>>, average: Seq<Seq<Pixel>>) -> Seq<
    Seq<Pixel>,
> {
    Seq::new(
        height_of(rows) as nat,
        |y: int|
            Seq::new(width_of(rows) as nat, |x: int| with_average_pixel(rows, average, x, y)),
    )
}

/// What a decomposition level is, as plain values.
pub struct LevelView {
    /// The grid of coefficients; both its dimensions are even.
    pub rows: Seq<Seq<Pixel>>,
    /// Width of the image that was decomposed, before any padding.
    pub source_width: int,
    /// Height of the image that was decomposed, before any padding.
    pub source_height: int,
}

/// The level that decomposing a grid gives, padding it first where a
/// dimension is odd.
pub open spec fn level_of(rows: Seq<Seq<Pixel>>) -> LevelView {
    LevelView {
        rows: decomposed(padded(rows)),
        source_width: width_of(rows),
        source_height: height_of(rows),
    }
}

/// One pass of the block transform over an image: the coefficients, in an
/// image whose dimensions are those of the source rounded up to even.
pub struct DecompositionLevel {
    image: Image,
    source_width: u32,
    source_height: u32,
}

impl DecompositionLevel {
    /// The level as plain values.
    pub closed spec fn view(&self) -> LevelView {
        LevelView {
            rows: self.image@,
            source_width: self.source_width as int,
            source_height: self.source_height as int,
        }
    }

    /// Channel kind of the coefficients.
    pub closed spec fn spec_kind(&self) -> ChannelKind {
        self.image.spec_kind()
    }

    /// Channel count of the coefficients.
    pub closed spec fn spec_count(&self) -> int {
        self.image.spec_count()
    }

    /// The level is well formed: its grid of coefficients is a well-formed
    /// image whose dimensions are those of the source rounded up to even.
    #[verifier::type_invariant]
    pub closed spec fn wf(&self) -> bool {
        &&& self.image.wf()
        &&& self.source_width > 0
        &&& self.source_height > 0
        &&& self.image.spec_width() == even_up(self.source_width as int)
        &&& self.image.spec_height() == even_up(self.source_height as int)
    }

    /// What well-formedness says of the view.
    pub proof fn lemma_wf(&self)
        requires
            self.wf(),
        ensures
            0 < self@.source_width,
            0 < self@.source_height,
            even_up(self@.source_width) * even_up(self@.source_height) <= MAX_PIXELS,
            uniform_rows(
                self@.rows,
                even_up(self@.source_width),
                even_up(self@.source_height),
                self.spec_kind(),
                self.spec_count(),
            ),
    {
        self.image.lemma_wf();
    }

    /// The grid of coefficients.
    pub fn coefficients(&self) -> (img: &Image)
        ensures
            img@ == self@.rows,
            img.wf(),
            img.spec_width() == even_up(self@.source_width),
            img.spec_height() == even_up(self@.source_height),
            img.spec_kind() == self.spec_kind(),
            img.spec_count() == self.spec_count(),
    {
        proof {
            use_type_invariant(self);
        }
        &self.image
    }

    /// Gives up the level for its grid of coefficients.
    pub fn into_coefficients(self) -> (img: Image)
        ensures
            img@ == self@.rows,
            img.wf(),
            img.spec_width() == even_up(self@.source_width),
            img.spec_height() == even_up(self@.source_height),
            img.spec_kind() == self.spec_kind(),
            img.spec_count() == self.spec_count(),
    {
        proof {
            use_type_invariant(&self);
        }
        self.image
    }

    /// Width of the image that was decomposed.
    pub fn source_width(&self) -> (w: u32)
        ensures
            w == self@.source_width,
            w > 0,
    {
        proof {
            use_type_invariant(self);
        }
        self.source_width
    }

    /// Height of the image that was decomposed.
    pub fn source_height(&self) -> (h: u32)
        ensures
            h == self@.source_height,
            h > 0,
    {
        proof {
            use_type_invariant(self);
        }
        self.source_height
    }

    /// The average plane of the level: the top-left quadrant of the
    /// coefficients, half as wide and half as high as their grid.
    pub fn average_plane(&self) -> (plane: Image)
        ensures
            plane.wf(),
            plane.spec_width() == even_up(self@.source_width) / 2,
            plane.spec_height() == even_up(self@.source_height) / 2,
            plane.spec_kind() == self.spec_kind(),
            plane.spec_count() == self.spec_count(),
            plane@ == average_rows(self@.rows),
    {
        proof {
            use_type_invariant(self);
            self.image.lemma_wf();
            lemma_even_sides(self.source_width as int, self.source_height as int);
        }
        let hw: u32 = self.image.get_width() / 2;
        let hh: u32 = self.image.get_height() / 2;
        proof {
            lemma_quadrant_fits(hw as int, hh as int);
        }
        let mut plane = Image::filled(hw, hh, self.image.at(0, 0));
        let ghost rows = self.image@;
        let mut y: u32 = 0;
        while y < hh
            invariant
                self.image.wf(),
                rows == self.image@,
                self.image.spec_width() == 2 * hw,
                self.image.spec_height() == 2 * hh,
                y <= hh,
                plane.wf(),
                plane.spec_width() == hw,
                plane.spec_height() == hh,
                plane.spec_kind() == self.image.spec_kind(),
                plane.spec_count() == self.image.spec_count(),
                forall|j: int, i: int|
                    0 <= j < y && 0 <= i < hw ==> #[trigger] plane@[j][i] == rows[j][i],
            decreases hh - y,
        {
            let mut x: u32 = 0;
            while x < hw
                invariant
                    self.image.wf(),
                    rows == self.image@,
                    self.image.spec_width() == 2 * hw,
                    self.image.spec_height() == 2 * hh,
                    y < hh,
                    x <= hw,
                    plane.wf(),
                    plane.spec_width() == hw,
                    plane.spec_height() == hh,
                    plane.spec_kind() == self.image.spec_kind(),
                    plane.spec_count() == self.image.spec_count(),
                    forall|j: int, i: int|
                        0 <= j < hh && 0 <= i < hw && (j < y || (j == y && i < x))
                            ==> #[trigger] plane@[j][i] == rows[j][i],
                decreases hw - x,
            {
                plane.put(x, y, self.image.at(x, y));
                x += 1;
            }
            y += 1;
        }
        proof {
            plane.lemma_wf();
            assert(width_of(rows) == 2 * hw);
            assert forall|j: int| 0 <= j < hh implies #[trigger] plane@[j] == average_rows(
                rows,
            )[j] by {
                assert(plane@[j] =~= average_rows(rows)[j]);
            }
            assert(plane@ =~= average_rows(rows));
        }
        plane
    }

    /// The level with its average plane replaced by `plane`, which must have
    /// the dimensions and the layout of the average plane.
    pub(crate) fn with_average(&self, plane: &Image) -> (level: DecompositionLevel)
        requires
            self.wf(),
            plane.wf(),
            plane.spec_width() == even_up(self@.source_width) / 2,
            plane.spec_height() == even_up(self@.source_height) / 2,
            plane.spec_kind() == self.spec_kind(),
            plane.spec_count() == self.spec_count(),
        ensures
            level.wf(),
            level.spec_kind() == self.spec_kind(),
            level.spec_count() == self.spec_count(),
            level@ == (LevelView {
                rows: with_average_rows(self@.rows, plane@),
                source_width: self@.source_width,
                source_height: self@.source_height,
            }),
    {
        proof {
            self.image.lemma_wf();
            plane.lemma_wf();
            lemma_even_sides(self.source_width as int, self.source_height as int);
        }
        let w: u32 = self.image.get_width();
        let h: u32 = self.image.get_height();
        let hw: u32 = w / 2;
        let hh: u32 = h / 2;
        let mut out = Image::filled(w, h, self.image.at(0, 0));
        let ghost rows = self.image@;
        let ghost average = plane@;
        assert(width_of(rows) == w && height_of(rows) == h);
        let mut y: u32 = 0;
        while y < h
            invariant
                self.image.wf(),
                plane.wf(),
                rows == self.image@,
                average == plane@,
                width_of(rows) == w,
                height_of(rows) == h,
                self.image.spec_width() == w,
                self.image.spec_height() == h,
                w == 2 * hw,
                h == 2 * hh,
                plane.spec_width() == hw,
                plane.spec_height() == hh,
                plane.spec_kind() == self.image.spec_kind(),
                plane.spec_count() == self.image.spec_count(),
                y <= h,
                out.wf(),
                out.spec_width() == w,
                out.spec_height() == h,
                out.spec_kind() == self.image.spec_kind(),
                out.spec_count() == self.image.spec_count(),
                forall|j: int, i: int|
                    0 <= j < y && 0 <= i < w ==> #[trigger] out@[j][i] == with_average_pixel(
                        rows,
                        average,
                        i,
                        j,
                    ),
            decreases h - y,
        {
            let mut x: u32 = 0;
            while x < w
                invariant
                    self.image.wf(),
                    plane.wf(),
                    rows == self.image@,
                    average == plane@,
                    width_of(rows) == w,
                    height_of(rows) == h,
                    self.image.spec_width() == w,
                    self.image.spec_height() == h,
                    w == 2 * hw,
                    h == 2 * hh,
                    plane.spec_width() == hw,
                    plane.spec_height() == hh,
                    plane.spec_kind() == self.image.spec_kind(),
                    plane.spec_count() == self.image.spec_count(),
                    y < h,
                    x <= w,
                    out.wf(),
                    out.spec_width() == w,
                    out.spec_height() == h,
                    out.spec_kind() == self.image.spec_kind(),
                    out.spec_count() == self.image.spec_count(),
                    forall|j: int, i: int|
                        0 <= j < h && 0 <= i < w && (j < y || (j == y && i < x))
                            ==> #[trigger] out@[j][i] == with_average_pixel(rows, average, i, j),
                decreases w - x,
            {
                if x < hw && y < hh {
                    out.put(x, y, plane.at(x, y));
                } else {
                    out.put(x, y, self.image.at(x, y));
                }
                x += 1;
            }
            y += 1;
        }
        proof {
            out.lemma_wf();
            assert(width_of(rows) == w);
            assert forall|j: int| 0 <= j < h implies #[trigger] out@[j] == with_average_rows(
                rows,
                average,
            )[j] by {
                assert(out@[j] =~= with_average_rows(rows, average)[j]);
            }
            assert(out@ =~= with_average_rows(rows, average));
        }
        DecompositionLevel {
            image: out,
            source_width: self.source_width,
            source_height: self.source_height,
        }
    }
}

/// A quadrant of a grid of even sides fits within [`MAX_PIXELS`], also when
/// its own sides are rounded up to even.
proof fn lemma_quadrant_fits(hw: int, hh: int)
    requires
        hw >= 1,
        hh >= 1,
        (2 * hw) * (2 * hh) <= MAX_PIXELS,
    ensures
        even_up(hw) * even_up(hh) <= MAX_PIXELS,
{
    let a = even_up(hw);
    let b = even_up(hh);
    assert(a * b <= (2 * hw) * (2 * hh)) by (nonlinear_arith)
        requires
            0 <= a <= 2 * hw,
            0 <= b <= 2 * hh,
    ;
}

/// Each side of an image, rounded up to even, is at most [`MAX_PIXELS`].
proof fn lemma_even_sides(w: int, h: int)
    requires
        w > 0,
        h > 0,
        even_up(w) * even_up(h) <= MAX_PIXELS,
    ensures
        even_up(w) <= MAX_PIXELS,
        even_up(h) <= MAX_PIXELS,
        even_up(w) == 2 * (w / 2 + w % 2),
        even_up(h) == 2 * (h / 2 + h % 2),
{
    let a = even_up(w);
    let b = even_up(h);
    assert(a <= a * b && b <= a * b) by (nonlinear_arith)
        requires
            a >= 1,
            b >= 1,
    ;
}

/// Whether every pixel at or before `(x, y)` in block order has been written:
/// the pixels of block rows above `by`, and those of block row `by` in block
/// columns left of `bx`.
spec fn block_done(hw: int, hh: int, bx: int, by: int, x: int, y: int) -> bool {
    let cx = if x < hw {
        x
    } else {
        x - hw
    };
    let cy = if y < hh {
        y
    } else {
        y - hh
    };
    cy < by || (cy == by && cx < bx)
}

/// Transforms every block of `src`, padded to even dimensions, into its
/// coefficients.
fn transform_blocks(src: &Image) -> (out: Image)
    ensures
        out.wf(),
        out.spec_width() == even_up(src.spec_width()),
        out.spec_height() == even_up(src.spec_height()),
        out.spec_kind() == src.spec_kind(),
        out.spec_count() == src.spec_count(),
        out@ == decomposed(padded(src@)),
{
    proof {
        use_type_invariant(src);
        src.lemma_wf();
    }
    let sw: u32 = src.get_width();
    let sh: u32 = src.get_height();
    let hw: u32 = sw / 2 + sw % 2;
    let hh: u32 = sh / 2 + sh % 2;
    proof {
        lemma_even_sides(sw as int, sh as int);
    }
    let w: u32 = 2 * hw;
    let h: u32 = 2 * hh;
    let mut out = Image::filled(w, h, src.at(0, 0));
    let ghost rows = padded(src@);
    assert(width_of(rows) == w && height_of(rows) == h);
    let mut by: u32 = 0;
    while by < hh
        invariant
            src.wf(),
            sw == src.spec_width(),
            sh == src.spec_height(),
            hw == sw / 2 + sw % 2,
            hh == sh / 2 + sh % 2,
            w == 2 * hw,
            h == 2 * hh,
            w <= MAX_PIXELS,
            h <= MAX_PIXELS,
            rows == padded(src@),
            width_of(rows) == w,
            height_of(rows) == h,
            by <= hh,
            out.wf(),
            out.spec_width() == w,
            out.spec_height() == h,
            out.spec_kind() == src.spec_kind(),
            out.spec_count() == src.spec_count(),
            forall|y: int, x: int|
                0 <= y < h && 0 <= x < w && block_done(hw as int, hh as int, 0, by as int, x, y)
                    ==> #[trigger] out@[y][x] == decomposed_pixel(rows, x, y),
        decreases hh - by,
    {
        let mut bx: u32 = 0;
        while bx < hw
            invariant
                src.wf(),
                sw == src.spec_width(),
                sh == src.spec_height(),
                hw == sw / 2 + sw % 2,
                hh == sh / 2 + sh % 2,
                w == 2 * hw,
                h == 2 * hh,
                w <= MAX_PIXELS,
                h <= MAX_PIXELS,
                rows == padded(src@),
                width_of(rows) == w,
                height_of(rows) == h,
                by < hh,
                bx <= hw,
                out.wf(),
                out.spec_width() == w,
                out.spec_height() == h,
                out.spec_kind() == src.spec_kind(),
                out.spec_count() == src.spec_count(),
                forall|y: int, x: int|
                    0 <= y < h && 0 <= x < w && block_done(
                        hw as int,
                        hh as int,
                        bx as int,
                        by as int,
                        x,
                        y,
                    ) ==> #[trigger] out@[y][x] == decomposed_pixel(rows, x, y),
            decreases hw - bx,
        {
            let x0: u32 = 2 * bx;
            let y0: u32 = 2 * by;
            let x1: u32 = if x0 + 1 < sw {
                x0 + 1
            } else {
                sw - 1
            };
            let y1: u32 = if y0 + 1 < sh {
                y0 + 1
            } else {
                sh - 1
            };
            let block = Superpixel::of(
                src.at(x0, y0),
                src.at(x1, y0),
                src.at(x0, y1),
                src.at(x1, y1),
            );
            proof {
                src.lemma_wf();
                assert(rows[2 * by][2 * bx] == src@[y0 as int][x0 as int]);
                assert(rows[2 * by][2 * bx + 1] == src@[y0 as int][x1 as int]);
                assert(rows[2 * by + 1][2 * bx] == src@[y1 as int][x0 as int]);
                assert(rows[2 * by + 1][2 * bx + 1] == src@[y1 as int][x1 as int]);
                assert(block == block_at(rows, bx as int, by as int));
            }
            let bands = block.forward();
            let ghost before = out@;
            out.put(bx, by, bands.get_top_left());
            out.put(bx + hw, by, bands.get_top_right());
            out.put(bx, by + hh, bands.get_bottom_left());
            out.put(bx + hw, by + hh, bands.get_bottom_right());
            proof {
                assert forall|y: int, x: int|
                    0 <= y < h && 0 <= x < w && block_done(
                        hw as int,
                        hh as int,
                        bx + 1,
                        by as int,
                        x,
                        y,
                    ) implies #[trigger] out@[y][x] == decomposed_pixel(rows, x, y) by {
                    if block_done(hw as int, hh as int, bx as int, by as int, x, y) {
                        assert(before[y][x] == decomposed_pixel(rows, x, y));
                    }
                }
            }
            bx += 1;
        }
        by += 1;
    }
    proof {
        assert forall|y: int| 0 <= y < h implies #[trigger] out@[y] == decomposed(rows)[y] by {
            out.lemma_wf();
            assert forall|x: int| 0 <= x < w implies out@[y][x] == decomposed(rows)[y][x] by {
                assert(block_done(hw as int, hh as int, 0, hh as int, x, y));
            }
            assert(out@[y] =~= decomposed(rows)[y]);
        }
        out.lemma_wf();
        assert(out@ =~= decomposed(rows));
    }
    out
}

/// Whether every pixel of the blocks before block `(bx, by)` in block order
/// has been written.
spec fn pixel_done(bx: int, by: int, x: int, y: int) -> bool {
    y / 2 < by || (y / 2 == by && x / 2 < bx)
}

/// Recovers the top-left `sw` by `sh` pixels from the grid of coefficients
/// `bands`.
fn restore_blocks(bands: &Image, sw: u32, sh: u32) -> (out: Image)
    requires
        bands.wf(),
        sw > 0,
        sh > 0,
        bands.spec_width() == even_up(sw as int),
        bands.spec_height() == even_up(sh as int),
    ensures
        out.wf(),
        out.spec_width() == sw,
        out.spec_height() == sh,
        out.spec_kind() == bands.spec_kind(),
        out.spec_count() == bands.spec_count(),
        out@ == reconstructed(bands@, sw as int, sh as int),
{
    proof {
        bands.lemma_wf();
        lemma_even_sides(sw as int, sh as int);
    }
    let hw: u32 = sw / 2 + sw % 2;
    let hh: u32 = sh / 2 + sh % 2;
    let mut out = Image::filled(sw, sh, bands.at(0, 0));
    let ghost rows = bands@;
    assert(width_of(rows) == 2 * hw && height_of(rows) == 2 * hh);
    let mut by: u32 = 0;
    while by < hh
        invariant
            bands.wf(),
            rows == bands@,
            sw > 0,
            sh > 0,
            hw == sw / 2 + sw % 2,
            hh == sh / 2 + sh % 2,
            2 * hw <= MAX_PIXELS,
            2 * hh <= MAX_PIXELS,
            bands.spec_width() == 2 * hw,
            bands.spec_height() == 2 * hh,
            width_of(rows) == 2 * hw,
            height_of(rows) == 2 * hh,
            by <= hh,
            out.wf(),
            out.spec_width() == sw,
            out.spec_height() == sh,
            out.spec_kind() == bands.spec_kind(),
            out.spec_count() == bands.spec_count(),
            forall|y: int, x: int|
                0 <= y < sh && 0 <= x < sw && pixel_done(0, by as int, x, y)
                    ==> #[trigger] out@[y][x] == reconstructed_pixel(rows, x, y),
        decreases hh - by,
    {
        let mut bx: u32 = 0;
        while bx < hw
            invariant
                bands.wf(),
                rows == bands@,
                sw > 0,
                sh > 0,
                hw == sw / 2 + sw % 2,
                hh == sh / 2 + sh % 2,
                2 * hw <= MAX_PIXELS,
                2 * hh <= MAX_PIXELS,
                bands.spec_width() == 2 * hw,
                bands.spec_height() == 2 * hh,
                width_of(rows) == 2 * hw,
                height_of(rows) == 2 * hh,
                by < hh,
                bx <= hw,
                out.wf(),
                out.spec_width() == sw,
                out.spec_height() == sh,
                out.spec_kind() == bands.spec_kind(),
                out.spec_count() == bands.spec_count(),
                forall|y: int, x: int|
                    0 <= y < sh && 0 <= x < sw && pixel_done(bx as int, by as int, x, y)
                        ==> #[trigger] out@[y][x] == reconstructed_pixel(rows, x, y),
            decreases hw - bx,
        {
            let coefficients = Superpixel::of(
                bands.at(bx, by),
                bands.at(bx + hw, by),
                bands.at(bx, by + hh),
                bands.at(bx + hw, by + hh),
            );
            assert(coefficients == bands_at(rows, bx as int, by as int));
            let block = coefficients.inverse();
            let x0: u32 = 2 * bx;
            let y0: u32 = 2 * by;
            let ghost before = out@;
            out.put(x0, y0, block.get_top_left());
            if x0 + 1 < sw {
                out.put(x0 + 1, y0, block.get_top_right());
            }
            if y0 + 1 < sh {
                out.put(x0, y0 + 1, block.get_bottom_left());
                if x0 + 1 < sw {
                    out.put(x0 + 1, y0 + 1, block.get_bottom_right());
                }
            }
            proof {
                assert forall|y: int, x: int|
                    0 <= y < sh && 0 <= x < sw && pixel_done(
                        bx + 1,
                        by as int,
                        x,
                        y,
                    ) implies #[trigger] out@[y][x] == reconstructed_pixel(rows, x, y) by {
                    if pixel_done(bx as int, by as int, x, y) {
                        assert(before[y][x] == reconstructed_pixel(rows, x, y));
                    }
                }
            }
            bx += 1;
        }
        by += 1;
    }
    proof {
        out.lemma_wf();
        assert forall|y: int| 0 <= y < sh implies #[trigger] out@[y] == reconstructed(
            rows,
            sw as int,
            sh as int,
        )[y] by {
            assert forall|x: int| 0 <= x < sw implies out@[y][x] == reconstructed(
                rows,
                sw as int,
                sh as int,
            )[y][x] by {
                assert(pixel_done(0, hh as int, x, y));
            }
            assert(out@[y] =~= reconstructed(rows, sw as int, sh as int)[y]);
        }
        assert(out@ =~= reconstructed(rows, sw as int, sh as int));
    }
    out
}

/// Padding changes nothing where both dimensions are even.
pub proof fn lemma_padded_even(rows: Seq<Seq<Pixel>>, kind: ChannelKind, count: int)
    requires
        uniform_rows(rows, width_of(rows), height_of(rows), kind, count),
        width_of(rows) % 2 == 0,
        height_of(rows) % 2 == 0,
    ensures
        padded(rows) == rows,
{
    let p = padded(rows);
    assert forall|y: int| 0 <= y < height_of(rows) implies #[trigger] p[y] == rows[y] by {
        assert(p[y] =~= rows[y]);
    }
    assert(p =~= rows);
}

/// Decomposes an image of even dimensions: every 2x2 block is replaced by
/// its coefficients, and the coefficients of one kind are gathered in one
/// quadrant of the result (see [`decomposed_pixel`]).
///
/// Fails with `OddDimension` if the width or the height is odd.
pub fn decompose_level(image: &Image) -> (r: Result<DecompositionLevel, TransformError>)
    ensures
        match r {
            Ok(level) => {
                &&& image.spec_width() % 2 == 0
                &&& image.spec_height() % 2 == 0
                &&& level.wf()
                &&& level@ == level_of(image@)
                &&& level@.rows == decomposed(image@)
                &&& level@.source_width == image.spec_width()
                &&& level@.source_height == image.spec_height()
                &&& level.spec_kind() == image.spec_kind()
                &&& level.spec_count() == image.spec_count()
            },
            Err(e) => e == TransformError::OddDimension && (image.spec_width() % 2 != 0
                || image.spec_height() % 2 != 0),
        },
{
    if image.get_width() % 2 != 0 || image.get_height() % 2 != 0 {
        return Err(TransformError::OddDimension);
    }
    let level = decompose_level_padded(image);
    proof {
        use_type_invariant(image);
        image.lemma_wf();
        lemma_padded_even(image@, image.spec_kind(), image.spec_count());
    }
    Ok(level)
}

/// Decomposes an image of any dimensions: an odd dimension is first rounded
/// up by repeating the last column or row (see [`padded`]), then the image is
/// decomposed as [`decompose_level`] does. The level remembers the
/// dimensions of `image`.
pub fn decompose_level_padded(image: &Image) -> (level: DecompositionLevel)
    ensures
        level.wf(),
        level@ == level_of(image@),
        level.spec_kind() == image.spec_kind(),
        level.spec_count() == image.spec_count(),
{
    proof {
        use_type_invariant(image);
        image.lemma_wf();
    }
    let coefficients = transform_blocks(image);
    DecompositionLevel {
        image: coefficients,
        source_width: image.get_width(),
        source_height: image.get_height(),
    }
}

/// Recovers the image that a level was made from: every block is computed
/// back from its four coefficients and written to its place, and what the
/// padding added is left out. Values that the forward transform had to clamp
/// come back changed.
pub fn reconstruct_level(level: &DecompositionLevel) -> (image: Image)
    ensures
        image.wf(),
        image.spec_width() == level@.source_width,
        image.spec_height() == level@.source_height,
        image.spec_kind() == level.spec_kind(),
        image.spec_count() == level.spec_count(),
        image@ == reconstructed(level@.rows, level@.source_width, level@.source_height),
{
    proof {
        use_type_invariant(level);
    }
    restore_blocks(&level.image, level.source_width, level.source_height)
}

/// Whether no block of the grid, padded to even dimensions, has a difference
/// that leaves the range of the channel kind.
pub open spec fn all_exact(rows: Seq<Seq<Pixel>>) -> bool {
    forall|bx: int, by: int|
        0 <= bx < even_up(width_of(rows)) / 2 && 0 <= by < even_up(height_of(rows)) / 2 ==> (
        #[trigger] block_at(padded(rows), bx, by)).exact()
}

/// The padded grid of a uniform grid is uniform, and so is its decomposition.
pub proof fn lemma_decomposed_uniform(rows: Seq<Seq<Pixel>>, kind: ChannelKind, count: int)
    requires
        width_of(rows) > 0,
        height_of(rows) > 0,
        uniform_rows(rows, width_of(rows), height_of(rows), kind, count),
    ensures
        width_of(padded(rows)) == even_up(width_of(rows)),
        height_of(padded(rows)) == even_up(height_of(rows)),
        uniform_rows(
            padded(rows),
            even_up(width_of(rows)),
            even_up(height_of(rows)),
            kind,
            count,
        ),
        width_of(decomposed(padded(rows))) == even_up(width_of(rows)),
        height_of(decomposed(padded(rows))) == even_up(height_of(rows)),
        uniform_rows(
            decomposed(padded(rows)),
            even_up(width_of(rows)),
            even_up(height_of(rows)),
            kind,
            count,
        ),
        forall|bx: int, by: int|
            0 <= bx < even_up(width_of(rows)) / 2 && 0 <= by < even_up(height_of(rows)) / 2 ==> (
            #[trigger] block_at(padded(rows), bx, by)).wf(),
{
    let p = padded(rows);
    let w = even_up(width_of(rows));
    let h = even_up(height_of(rows));
    assert(width_of(p) == w);
    assert forall|bx: int, by: int| 0 <= bx < w / 2 && 0 <= by < h / 2 implies (
    #[trigger] block_at(p, bx, by)).wf() by {
        assert(p[2 * by][2 * bx].wf());
        assert(p[2 * by][2 * bx + 1].wf());
        assert(p[2 * by + 1][2 * bx].wf());
        assert(p[2 * by + 1][2 * bx + 1].wf());
    }
    let d = decomposed(p);
    assert(width_of(d) == w);
    assert forall|y: int, x: int| 0 <= y < h && 0 <= x < w implies {
        &&& (#[trigger] d[y][x]).wf()
        &&& d[y][x].spec_kind() == kind
        &&& d[y][x].spec_count() == count
    } by {
        let bx = if x < w / 2 {
            x
        } else {
            x - w / 2
        };
        let by = if y < h / 2 {
            y
        } else {
            y - h / 2
        };
        let b = block_at(p, bx, by);
        assert(b.wf());
        b.lemma_coefficients();
        b.compressed().lemma_wf();
        assert(p[2 * by][2 * bx].spec_kind() == kind);
    }
}

/// Decomposing a grid and reconstructing it gives the grid back, provided
/// no block has a difference that leaves the range of the channel kind.
pub proof fn lemma_level_round_trip(rows: Seq<Seq<Pixel>>, kind: ChannelKind, count: int)
    requires
        width_of(rows) > 0,
        height_of(rows) > 0,
        uniform_rows(rows, width_of(rows), height_of(rows), kind, count),
        all_exact(rows),
    ensures
        reconstructed(level_of(rows).rows, width_of(rows), height_of(rows)) == rows,
{
    let w = width_of(rows);
    let h = height_of(rows);
    let p = padded(rows);
    let d = decomposed(p);
    let r = reconstructed(d, w, h);
    lemma_decomposed_uniform(rows, kind, count);
    let hw = even_up(w) / 2;
    let hh = even_up(h) / 2;
    assert forall|y: int| 0 <= y < h implies #[trigger] r[y] == rows[y] by {
        assert forall|x: int| 0 <= x < w implies r[y][x] == rows[y][x] by {
            let bx = x / 2;
            let by = y / 2;
            let b = block_at(p, bx, by);
            assert(b.wf() && b.exact());
            b.lemma_block_round_trip();
            assert(d[by][bx] == decomposed_pixel(p, bx, by));
            assert(d[by][bx + hw] == decomposed_pixel(p, bx + hw, by));
            assert(d[by + hh][bx] == decomposed_pixel(p, bx, by + hh));
            assert(d[by + hh][bx + hw] == decomposed_pixel(p, bx + hw, by + hh));
            assert(bands_at(d, bx, by) == b.compressed());
            assert(r[y][x] == b.corner(x % 2, y % 2));
            assert(p[y][x] == rows[y][x]);
        }
        assert(r[y] =~= rows[y]);
    }
    assert(r =~= rows);
}

/// The levels that the pyramid of a grid of `w` by `h` pixels has: none for
/// a single pixel; otherwise the level of the grid, followed by the levels of
/// its average plane.
pub open spec fn built_from(rows: Seq<Seq<Pixel>>, w: int, h: int) -> Seq<LevelView>
    decreases w + h,
{
    if w < 1 || h < 1 || (w == 1 && h == 1) {
        Seq::empty()
    } else {
        seq![level_of(rows)] + built_from(
            average_rows(level_of(rows).rows),
            even_up(w) / 2,
            even_up(h) / 2,
        )
    }
}

/// The levels of the pyramid of a grid, finest first.
pub open spec fn built(rows: Seq<Seq<Pixel>>) -> Seq<LevelView> {
    built_from(rows, width_of(rows), height_of(rows))
}

/// Number of levels of the pyramid of a `w` by `h` image: how often both
/// sides must be halved, rounding up, until a single pixel is left.
pub open spec fn depth(w: int, h: int) -> nat
    decreases w + h,
{
    if w < 1 || h < 1 || (w == 1 && h == 1) {
        0
    } else {
        1 + depth(even_up(w) / 2, even_up(h) / 2)
    }
}

/// Whether each level but the first was made from an image of the size of
/// the average plane of the level before it.
pub open spec fn chained(levels: Seq<LevelView>) -> bool {
    forall|i: int, j: int|
        0 <= i && j == i + 1 && j < levels.len() ==> {
            &&& (#[trigger] levels[j]).source_width == even_up(
                (#[trigger] levels[i]).source_width,
            ) / 2
            &&& levels[j].source_height == even_up(levels[i].source_height) / 2
        }
}

/// The image recovered from the levels of a pyramid, finest first: the
/// coarsest level is reconstructed by itself; every other level is
/// reconstructed after its average plane has been replaced by what the
/// levels after it gave.
pub open spec fn rebuilt(levels: Seq<LevelView>) -> Seq<Seq<Pixel>>
    decreases levels.len(),
{
    if levels.len() == 0 {
        Seq::empty()
    } else if levels.len() == 1 {
        reconstructed(levels[0].rows, levels[0].source_width, levels[0].source_height)
    } else {
        reconstructed(
            with_average_rows(levels[0].rows, rebuilt(levels.skip(1))),
            levels[0].source_width,
            levels[0].source_height,
        )
    }
}

/// The views of a sequence of levels.
pub open spec fn views(levels: Seq<DecompositionLevel>) -> Seq<LevelView> {
    Seq::new(levels.len(), |i: int| levels[i]@)
}

/// The decomposition levels of an image, finest first. Each level after the
/// first decomposes the average plane of the level before it.
pub struct Pyramid {
    levels: Vec<DecompositionLevel>,
}

impl Pyramid {
    /// The levels as plain values, finest first.
    pub closed spec fn view(&self) -> Seq<LevelView> {
        views(self.levels@)
    }

    /// The pyramid is well formed: its levels are, they share one pixel
    /// layout, and they are chained.
    #[verifier::type_invariant]
    pub closed spec fn wf(&self) -> bool {
        &&& forall|i: int|
            0 <= i < self.levels@.len() ==> {
                &&& (#[trigger] self.levels@[i]).wf()
                &&& self.levels@[i].spec_kind() == self.levels@[0].spec_kind()
                &&& self.levels@[i].spec_count() == self.levels@[0].spec_count()
            }
        &&& chained(views(self.levels@))
    }

    /// What well-formedness says of the view.
    pub proof fn lemma_wf(&self)
        requires
            self.wf(),
        ensures
            chained(self@),
    {
    }

    /// Number of levels.
    pub fn len(&self) -> (n: usize)
        ensures
            n == self@.len(),
    {
        self.levels.len()
    }

    /// Level `index`, counted from the finest; `None` if there is no such
    /// level.
    pub fn level(&self, index: usize) -> (r: Option<&DecompositionLevel>)
        ensures
            match r {
                Some(level) => index < self@.len() && level@ == self@[index as int] && level.wf(),
                None => index >= self@.len(),
            },
    {
        proof {
            use_type_invariant(self);
        }
        if index < self.levels.len() {
            Some(&self.levels[index])
        } else {
            None
        }
    }
}

/// Builds the pyramid of an image: the image is decomposed, then the average
/// plane of each level in turn, until the average plane is a single pixel.
/// A plane with an odd side is padded as [`decompose_level_padded`] pads it.
/// An image of a single pixel has no levels.
pub fn build_pyramid(image: &Image) -> (pyramid: Pyramid)
    ensures
        pyramid.wf(),
        pyramid@ == built(image@),
        pyramid@.len() == depth(image.spec_width(), image.spec_height()),
        pyramid@.len() > 0 ==> {
            &&& pyramid@[0].source_width == image.spec_width()
            &&& pyramid@[0].source_height == image.spec_height()
            &&& even_up(pyramid@.last().source_width) / 2 == 1
            &&& even_up(pyramid@.last().source_height) / 2 == 1
        },
{
    proof {
        use_type_invariant(image);
        image.lemma_wf();
    }
    let mut levels: Vec<DecompositionLevel> = Vec::new();
    if image.get_width() == 1 && image.get_height() == 1 {
        assert(views(levels@) =~= built(image@));
        return Pyramid { levels };
    }
    let mut level = decompose_level_padded(image);
    let ghost kind = image.spec_kind();
    let ghost count = image.spec_count();
    let ghost mut rows = image@;
    let ghost mut w = image.spec_width();
    let ghost mut h = image.spec_height();
    let ghost mut first = level@;
    loop
        invariant_except_break
            level.wf(),
            level.spec_kind() == kind,
            level.spec_count() == count,
            level@ == level_of(rows),
            w == width_of(rows),
            h == height_of(rows),
            w >= 1,
            h >= 1,
            !(w == 1 && h == 1),
            built(image@) == views(levels@) + built_from(rows, w, h),
            depth(image.spec_width(), image.spec_height()) == levels@.len() + depth(w, h),
            levels@.len() > 0 ==> {
                &&& w == even_up(levels@.last()@.source_width) / 2
                &&& h == even_up(levels@.last()@.source_height) / 2
            },
            first == if levels@.len() > 0 {
                levels@[0]@
            } else {
                level@
            },
        invariant
            first.source_width == image.spec_width(),
            first.source_height == image.spec_height(),
            forall|i: int|
                0 <= i < levels@.len() ==> {
                    &&& (#[trigger] levels@[i]).wf()
                    &&& levels@[i].spec_kind() == kind
                    &&& levels@[i].spec_count() == count
                },
            chained(views(levels@)),
        ensures
            levels@.len() > 0,
            first == levels@[0]@,
            built(image@) == views(levels@),
            depth(image.spec_width(), image.spec_height()) == levels@.len(),
            even_up(levels@.last()@.source_width) / 2 == 1,
            even_up(levels@.last()@.source_height) / 2 == 1,
        decreases w + h,
    {
        let plane = level.average_plane();
        let ghost before = levels@;
        let ghost pushed = level@;
        levels.push(level);
        proof {
            assert(views(levels@) =~= views(before).push(pushed));
            assert(views(before) + (seq![pushed] + built_from(plane@, even_up(w) / 2, even_up(h) / 2))
                =~= views(levels@) + built_from(plane@, even_up(w) / 2, even_up(h) / 2));
            assert forall|i: int, j: int| 0 <= i && j == i + 1 && j < levels@.len() implies {
                &&& (#[trigger] views(levels@)[j]).source_width == even_up(
                    (#[trigger] views(levels@)[i]).source_width,
                ) / 2
                &&& views(levels@)[j].source_height == even_up(views(levels@)[i].source_height)
                    / 2
            } by {
                if j < before.len() {
                    assert(views(before)[j].source_width == even_up(
                        views(before)[i].source_width,
                    ) / 2);
                }
            }
            plane.lemma_wf();
            assert(depth(w, h) == 1 + depth(even_up(w) / 2, even_up(h) / 2));
            rows = plane@;
            w = even_up(w) / 2;
            h = even_up(h) / 2;
        }
        if plane.get_width() == 1 && plane.get_height() == 1 {
            proof {
                assert(views(levels@) + Seq::<LevelView>::empty() =~= views(levels@));
                assert(depth(w, h) == 0);
            }
            break ;
        }
        level = decompose_level_padded(&plane);
    }
    Pyramid { levels }
}

/// Recovers the image that a pyramid was built from. The levels are walked
/// from the coarsest to the finest: each is reconstructed after its average
/// plane has been replaced by the image recovered so far.
///
/// Fails with `InvalidDimension` if the pyramid has no level.
pub fn reconstruct_pyramid(pyramid: &Pyramid) -> (r: Result<Image, TransformError>)
    ensures
        match r {
            Ok(image) => {
                &&& pyramid@.len() > 0
                &&& image.wf()
                &&& image.spec_width() == pyramid@[0].source_width
                &&& image.spec_height() == pyramid@[0].source_height
                &&& image@ == rebuilt(pyramid@)
            },
            Err(e) => e == TransformError::InvalidDimension && pyramid@.len() == 0,
        },
{
    proof {
        use_type_invariant(pyramid);
    }
    let n: usize = pyramid.levels.len();
    if n == 0 {
        return Err(TransformError::InvalidDimension);
    }
    let mut i: usize = n - 1;
    let mut current = reconstruct_level(&pyramid.levels[i]);
    proof {
        assert(views(pyramid.levels@).skip(i as int).len() == 1);
        assert(views(pyramid.levels@).skip(i as int)[0] == pyramid.levels@[i as int]@);
    }
    while i > 0
        invariant
            pyramid.wf(),
            n == pyramid.levels@.len(),
            i < n,
            current.wf(),
            current.spec_width() == pyramid.levels@[i as int]@.source_width,
            current.spec_height() == pyramid.levels@[i as int]@.source_height,
            current.spec_kind() == pyramid.levels@[0].spec_kind(),
            current.spec_count() == pyramid.levels@[0].spec_count(),
            current@ == rebuilt(views(pyramid.levels@).skip(i as int)),
        decreases i,
    {
        let ghost upper = views(pyramid.levels@).skip(i as int);
        i -= 1;
        let level = &pyramid.levels[i];
        proof {
            let all = views(pyramid.levels@);
            assert(all[i + 1].source_width == even_up(all[i as int].source_width) / 2);
            assert(all[i + 1].source_height == even_up(all[i as int].source_height) / 2);
            assert(level.wf());
        }
        let merged = level.with_average(&current);
        current = reconstruct_level(&merged);
        proof {
            let here = views(pyramid.levels@).skip(i as int);
            assert(here.len() >= 2);
            assert(here[0] == level@);
            assert(here.skip(1) =~= upper);
        }
    }
    proof {
        assert(views(pyramid.levels@).skip(0) =~= views(pyramid.levels@));
    }
    Ok(current)
}

/// The pyramid of a square image whose side is the `k`-th power of two has
/// exactly `k` levels.
pub proof fn lemma_depth_power_of_two(k: nat)
    ensures
        depth(pow2(k) as int, pow2(k) as int) == k,
    decreases k,
{
    lemma_pow2_pos(k);
    if k == 0 {
        assert(pow2(0) == 1) by {
            reveal(pow2);
            vstd::arithmetic::power::lemma_pow0(2);
        }
    } else {
        lemma_pow2_unfold(k);
        lemma_pow2_pos((k - 1) as nat);
        let side = pow2(k) as int;
        assert(even_up(side) / 2 == pow2((k - 1) as nat));
        lemma_depth_power_of_two((k - 1) as nat);
    }
}

/// Whether no block is clamped at any level of the pyramid of a grid of `w`
/// by `h` pixels.
pub open spec fn lossless_from(rows: Seq<Seq<Pixel>>, w: int, h: int) -> bool
    decreases w + h,
{
    if w < 1 || h < 1 || (w == 1 && h == 1) {
        true
    } else {
        &&& all_exact(rows)
        &&& lossless_from(average_rows(level_of(rows).rows), even_up(w) / 2, even_up(h) / 2)
    }
}

/// Whether no block is clamped at any level of the pyramid of a grid.
pub open spec fn lossless(rows: Seq<Seq<Pixel>>) -> bool {
    lossless_from(rows, width_of(rows), height_of(rows))
}

/// The average plane of the level of a uniform grid is uniform and half as
/// large, rounding up.
pub proof fn lemma_average_uniform(rows: Seq<Seq<Pixel>>, kind: ChannelKind, count: int)
    requires
        width_of(rows) > 0,
        height_of(rows) > 0,
        uniform_rows(rows, width_of(rows), height_of(rows), kind, count),
    ensures
        width_of(average_rows(level_of(rows).rows)) == even_up(width_of(rows)) / 2,
        height_of(average_rows(level_of(rows).rows)) == even_up(height_of(rows)) / 2,
        uniform_rows(
            average_rows(level_of(rows).rows),
            even_up(width_of(rows)) / 2,
            even_up(height_of(rows)) / 2,
            kind,
            count,
        ),
{
    lemma_decomposed_uniform(rows, kind, count);
    let d = level_of(rows).rows;
    let a = average_rows(d);
    assert(width_of(a) == even_up(width_of(rows)) / 2);
    assert forall|y: int, x: int|
        0 <= y < even_up(height_of(rows)) / 2 && 0 <= x < even_up(width_of(rows)) / 2 implies {
        &&& (#[trigger] a[y][x]).wf()
        &&& a[y][x].spec_kind() == kind
        &&& a[y][x].spec_count() == count
    } by {
        assert(a[y][x] == d[y][x]);
    }
}

/// Building the pyramid of an image and reconstructing it gives the image
/// back, provided no block is clamped at any level.
pub proof fn lemma_pyramid_round_trip(rows: Seq<Seq<Pixel>>, kind: ChannelKind, count: int)
    requires
        width_of(rows) > 0,
        height_of(rows) > 0,
        !(width_of(rows) == 1 && height_of(rows) == 1),
        uniform_rows(rows, width_of(rows), height_of(rows), kind, count),
        lossless(rows),
    ensures
        rebuilt(built(rows)) == rows,
    decreases width_of(rows) + height_of(rows),
{
    let w = width_of(rows);
    let h = height_of(rows);
    let level = level_of(rows);
    let average = average_rows(level.rows);
    lemma_average_uniform(rows, kind, count);
    lemma_decomposed_uniform(rows, kind, count);
    lemma_level_round_trip(rows, kind, count);
    let rest = built_from(average, even_up(w) / 2, even_up(h) / 2);
    assert(built(rows) == seq![level] + rest);
    if even_up(w) / 2 == 1 && even_up(h) / 2 == 1 {
        assert(rest =~= Seq::<LevelView>::empty());
        assert(seq![level] + rest =~= seq![level]);
        assert(seq![level].len() == 1);
        assert(seq![level][0] == level);
    } else {
        lemma_pyramid_round_trip(average, kind, count);
        assert(rest == built(average));
        assert(rest.len() >= 1);
        let all = seq![level] + rest;
        assert(all.len() >= 2);
        assert(all[0] == level);
        assert(all.skip(1) =~= rest);
        let merged = with_average_rows(level.rows, average);
        assert forall|y: int| 0 <= y < even_up(h) implies #[trigger] merged[y] == level.rows[y] by {
            assert(merged[y] =~= level.rows[y]);
        }
        assert(merged =~= level.rows);
    }
}

/// Whether every channel value of the grid lies between `lo` and `hi`.
pub open spec fn within(rows: Seq<Seq<Pixel>>, lo: int, hi: int) -> bool {
    forall|y: int, x: int, c: int|
        0 <= y < rows.len() && 0 <= x < rows[y].len() && 0 <= c < rows[y][x]@.len() ==> lo
            <= #[trigger] rows[y][x]@[c] <= hi
}

/// Where the channel values of a grid lie so close together that twice their
/// spread, with either sign, is a value of the channel kind, no block is
/// clamped, and the averages lie within the same bounds.
pub proof fn lemma_bounded_exact(
    rows: Seq<Seq<Pixel>>,
    kind: ChannelKind,
    count: int,
    lo: int,
    hi: int,
)
    requires
        width_of(rows) > 0,
        height_of(rows) > 0,
        uniform_rows(rows, width_of(rows), height_of(rows), kind, count),
        within(rows, lo, hi),
        kind.holds(2 * (hi - lo)),
        kind.holds(-2 * (hi - lo)),
    ensures
        all_exact(rows),
        within(average_rows(level_of(rows).rows), lo, hi),
{
    let w = width_of(rows);
    let h = height_of(rows);
    let p = padded(rows);
    let hw = even_up(w) / 2;
    let hh = even_up(h) / 2;
    lemma_decomposed_uniform(rows, kind, count);
    lemma_average_uniform(rows, kind, count);
    assert forall|bx: int, by: int| 0 <= bx < hw && 0 <= by < hh implies {
        &&& (#[trigger] block_at(p, bx, by)).exact()
        &&& forall|c: int|
            0 <= c < count ==> lo <= #[trigger] block_at(p, bx, by).band_view(Band::Average)[c]
                <= hi
    } by {
        let b = block_at(p, bx, by);
        b.lemma_wf();
        b.lemma_band(Band::Average);
        let y0 = if 2 * by < h {
            2 * by
        } else {
            h - 1
        };
        let y1 = if 2 * by + 1 < h {
            2 * by + 1
        } else {
            h - 1
        };
        let x0 = if 2 * bx < w {
            2 * bx
        } else {
            w - 1
        };
        let x1 = if 2 * bx + 1 < w {
            2 * bx + 1
        } else {
            w - 1
        };
        assert(b.top_left() == rows[y0][x0]);
        assert(b.top_right() == rows[y0][x1]);
        assert(b.bottom_left() == rows[y1][x0]);
        assert(b.bottom_right() == rows[y1][x1]);
        assert(rows[y0][x0]@.len() == count);
        assert(rows[y0][x1]@.len() == count);
        assert(rows[y1][x0]@.len() == count);
        assert(rows[y1][x1]@.len() == count);
        assert forall|c: int| 0 <= c < count implies {
            &&& lo <= #[trigger] b.top_left()@[c] <= hi
            &&& lo <= b.top_right()@[c] <= hi
            &&& lo <= b.bottom_left()@[c] <= hi
            &&& lo <= b.bottom_right()@[c] <= hi
        } by {
            assert(lo <= rows[y0][x0]@[c] <= hi);
            assert(lo <= rows[y0][x1]@[c] <= hi);
            assert(lo <= rows[y1][x0]@[c] <= hi);
            assert(lo <= rows[y1][x1]@[c] <= hi);
        }
        assert forall|c: int| 0 <= c < count implies lo <= #[trigger] b.band_view(
            Band::Average,
        )[c] <= hi by {
            assert(lo <= b.top_left()@[c] <= hi);
            lemma_average_is_mean(
                b.top_left()@[c],
                b.top_right()@[c],
                b.bottom_left()@[c],
                b.bottom_right()@[c],
                lo,
                hi,
            );
        }
    }
    let a = average_rows(level_of(rows).rows);
    assert forall|y: int, x: int, c: int|
        0 <= y < a.len() && 0 <= x < a[y].len() && 0 <= c < a[y][x]@.len() implies lo
        <= #[trigger] a[y][x]@[c] <= hi by {
        let b = block_at(p, x, y);
        assert(b.exact());
        b.lemma_wf();
        b.lemma_coefficients();
        b.lemma_band(Band::Average);
        assert(a[y][x] == decomposed_pixel(p, x, y));
        assert(a[y][x] == b.spec_band(Band::Average));
        assert(lo <= b.band_view(Band::Average)[c] <= hi);
    }
}

/// Where the channel values of an image lie so close together that twice
/// their spread, with either sign, is a value of the channel kind, no block
/// is clamped at any level of its pyramid. An image of equal pixels is the
/// simplest case, with `lo == hi`.
pub proof fn lemma_bounded_lossless(
    rows: Seq<Seq<Pixel>>,
    kind: ChannelKind,
    count: int,
    lo: int,
    hi: int,
)
    requires
        width_of(rows) > 0,
        height_of(rows) > 0,
        uniform_rows(rows, width_of(rows), height_of(rows), kind, count),
        within(rows, lo, hi),
        kind.holds(2 * (hi - lo)),
        kind.holds(-2 * (hi - lo)),
    ensures
        lossless(rows),
    decreases width_of(rows) + height_of(rows),
{
    if !(width_of(rows) == 1 && height_of(rows) == 1) {
        lemma_bounded_exact(rows, kind, count, lo, hi);
        lemma_average_uniform(rows, kind, count);
        lemma_bounded_lossless(average_rows(level_of(rows).rows), kind, count, lo, hi);
    }
}

} // verus!
