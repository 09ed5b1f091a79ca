use vstd::prelude::*;
use vstd::arithmetic::div_mod::lemma_fundamental_div_mod_converse;
use crate::color::{Rgb, Rgba};
use crate::compress::Superpixel;
use crate::conversion::{rgb2rgba, rgba2rgb, OPAQUE};
use crate::error::TransformError;
use crate::grid::{grid_cells, grid_filled, grid_get, grid_set, PixelGrid};
use crate::pixel_type::{all_hold, valid_count, ChannelKind, Pixel};

verus! {

/// The largest number of pixels an image may have, counted after rounding
/// both dimensions up to the next even number.
pub const MAX_PIXELS: usize = 0x0800_0000;

/// `n` rounded up to the next even number.
pub open spec fn even_up(n: int) -> int {
    n + n % 2
}

/// Whether `rows` is a grid of `height` rows of `width` well-formed pixels
/// that all have `count` channels of `kind`.
pub open spec fn uniform_rows(
    rows: Seq<Seq<Pixel>>,
    width: int,
    height: int,
    kind: ChannelKind,
    count: int,
) -> bool {
    &&& rows.len() == height
    &&& forall|y: int| 0 <= y < height ==> (#[trigger] rows[y]).len() == width
    &&& forall|y: int, x: int|
        0 <= y < height && 0 <= x < width ==> {
            &&& (#[trigger] rows[y][x]).wf()
            &&& rows[y][x].spec_kind() == kind
            &&& rows[y][x].spec_count() == count
        }
}

/// The grid that keeps only channel `index` of every pixel of `rows`.
pub open spec fn split_rows(rows: Seq<Seq<Pixel>>, index: int) -> Seq<Seq<Pixel>> {
    Seq::new(
        rows.len(),
        |y: int| Seq::new(rows[y].len(), |x: int| rows[y][x].spec_single(index)),
    )
}

/// The 2x2 block of a grid whose top-left pixel is at `(2 * bx, 2 * by)`.
pub open spec fn block_at(rows: Seq<Seq<Pixel>>, bx: int, by: int) -> Superpixel {
    Superpixel::spec_of(
        rows[2 * by][2 * bx],
        rows[2 * by][2 * bx + 1],
        rows[2 * by + 1][2 * bx],
        rows[2 * by + 1][2 * bx + 1],
    )
}

/// Where the four bytes of pixel `(x, y)` start in the row-major RGBA bytes of
/// an image `width` pixels wide.
pub open spec fn byte_offset(width: int, x: int, y: int) -> int {
    4 * (y * width + x)
}

/// The four bytes of a pixel lie within the bytes of its image.
pub proof fn lemma_byte_offset(width: int, height: int, x: int, y: int)
    requires
        0 <= x < width,
        0 <= y < height,
    ensures
        0 <= byte_offset(width, x, y),
        byte_offset(width, x, y) + 4 <= 4 * (width * height),
        byte_offset(width, x, y) == 4 * (y * width) + 4 * x,
{
    assert(y * width + x + 1 <= width * height) by (nonlinear_arith)
        requires
            0 <= x < width,
            0 <= y < height,
    ;
    assert(0 <= y * width) by (nonlinear_arith)
        requires
            0 <= y,
            0 <= width,
    ;
}

/// Red, green, blue and alpha of a pixel whose channels are read as colour:
/// a pixel of one channel is grey, a pixel without alpha is opaque, and every
/// value is clamped to 0..=255.
pub open spec fn rgba_of(p: Pixel) -> Seq<int> {
    let k = ChannelKind::U8;
    if p.spec_count() == 1 {
        seq![k.clamped(p@[0]), k.clamped(p@[0]), k.clamped(p@[0]), OPAQUE as int]
    } else if p.spec_count() == 3 {
        seq![k.clamped(p@[0]), k.clamped(p@[1]), k.clamped(p@[2]), OPAQUE as int]
    } else {
        seq![k.clamped(p@[0]), k.clamped(p@[1]), k.clamped(p@[2]), k.clamped(p@[3])]
    }
}

/// The pixel of three colour channels that a pixel of three or four 8-bit
/// channels stands for: alpha is dropped.
pub open spec fn rgb_values(p: Pixel) -> Seq<int> {
    p@.take(3)
}

/// The pixel of four colour channels that a pixel of three or four 8-bit
/// channels stands for: a pixel without alpha is opaque.
pub open spec fn rgba_values(p: Pixel) -> Seq<int> {
    if p.spec_count() == 3 {
        p@.push(OPAQUE as int)
    } else {
        p@
    }
}

/// A rectangular image whose pixels all have the same channel kind and
/// channel count. Pixel `(x, y)` is in column `x` of row `y`, with `(0, 0)`
/// at the top left.
///
/// The pixels are kept in a dense matrix with one matrix row per image row;
/// the matrix stores its entries column by column.
pub struct Image {
    width: u32,
    height: u32,
    kind: ChannelKind,
    count: u8,
    data: PixelGrid,
}

impl Image {
    /// The rows of the image, top to bottom, each left to right.
    pub closed spec fn view(&self) -> Seq<Seq<Pixel>> {
        grid_cells(self.data)
    }

    /// Width in pixels.
    pub closed spec fn spec_width(&self) -> int {
        self.width as int
    }

    /// Height in pixels.
    pub closed spec fn spec_height(&self) -> int {
        self.height as int
    }

    /// Channel kind of every pixel.
    pub closed spec fn spec_kind(&self) -> ChannelKind {
        self.kind
    }

    /// Channel count of every pixel.
    pub closed spec fn spec_count(&self) -> int {
        self.count as int
    }

    /// The image is well formed: neither dimension is zero, the pixel count
    /// with both dimensions rounded up to even is at most [`MAX_PIXELS`], and
    /// its rows are uniform.
    #[verifier::type_invariant]
    pub closed spec fn wf(&self) -> bool {
        &&& self.width > 0
        &&& self.height > 0
        &&& even_up(self.width as int) * even_up(self.height as int) <= MAX_PIXELS
        &&& valid_count(self.count as int)
        &&& uniform_rows(
            grid_cells(self.data),
            self.width as int,
            self.height as int,
            self.kind,
            self.count as int,
        )
    }

    /// What well-formedness says of the view.
    pub proof fn lemma_wf(&self)
        requires
            self.wf(),
        ensures
            0 < self.spec_width() <= u32::MAX,
            0 < self.spec_height() <= u32::MAX,
            even_up(self.spec_width()) * even_up(self.spec_height()) <= MAX_PIXELS,
            valid_count(self.spec_count()),
            uniform_rows(
                self@,
                self.spec_width(),
                self.spec_height(),
                self.spec_kind(),
                self.spec_count(),
            ),
    {
    }

    /// Creates an image of `width` by `height` pixels of `count` channels of
    /// `kind`, every channel zero.
    ///
    /// Fails with `InvalidDimension` if `width` or `height` is zero or the
    /// product of the two, each rounded up to even, exceeds [`MAX_PIXELS`],
    /// and otherwise with `ChannelCountMismatch` unless `count` is one, three
    /// or four.
    pub fn new(width: u32, height: u32, kind: ChannelKind, count: u8) -> (r: Result<
        Image,
        TransformError,
    >)
        ensures
            match r {
                Ok(img) => {
                    &&& width > 0 && height > 0
                    &&& even_up(width as int) * even_up(height as int) <= MAX_PIXELS
                    &&& valid_count(count as int)
                    &&& img.wf()
                    &&& img.spec_width() == width
                    &&& img.spec_height() == height
                    &&& img.spec_kind() == kind
                    &&& img.spec_count() == count
                    &&& forall|y: int, x: int|
                        0 <= y < height && 0 <= x < width ==> (#[trigger] img@[y][x])@
                            == Seq::new(count as nat, |i: int| 0int)
                },
                Err(e) => {
                    if width == 0 || height == 0 || even_up(width as int) * even_up(height as int)
                        > MAX_PIXELS {
                        e == TransformError::InvalidDimension
                    } else {
                        e == TransformError::ChannelCountMismatch && !valid_count(count as int)
                    }
                },
            },
    {
        if width == 0 || height == 0 {
            return Err(TransformError::InvalidDimension);
        }
        let even_width: u64 = width as u64 + (width % 2) as u64;
        let even_height: u64 = height as u64 + (height % 2) as u64;
        if even_width > MAX_PIXELS as u64 || even_height > MAX_PIXELS as u64 {
            assert(even_width * even_height > MAX_PIXELS) by (nonlinear_arith)
                requires
                    even_width >= 1,
                    even_height >= 1,
                    even_width > MAX_PIXELS || even_height > MAX_PIXELS,
            ;
            return Err(TransformError::InvalidDimension);
        }
        assert(even_width * even_height <= 0x0800_0000u64 * 0x0800_0000u64) by (nonlinear_arith)
            requires
                even_width <= 0x0800_0000u64,
                even_height <= 0x0800_0000u64,
        ;
        if even_width * even_height > MAX_PIXELS as u64 {
            return Err(TransformError::InvalidDimension);
        }
        match Pixel::zero(kind, count) {
            Err(e) => Err(e),
            Ok(fill) => {
                let img = Image::filled(width, height, fill);
                proof {
                    assert(fill@.len() == count);
                    assert forall|y: int, x: int| 0 <= y < height && 0 <= x < width implies (
                    #[trigger] img@[y][x]) == fill by {
                        assert(img@[y] == Seq::new(width as nat, |x: int| fill));
                    }
                }
                Ok(img)
            },
        }
    }

    /// An image of `width` by `height` copies of `fill`.
    pub(crate) fn filled(width: u32, height: u32, fill: Pixel) -> (img: Image)
        requires
            width > 0,
            height > 0,
            even_up(width as int) * even_up(height as int) <= MAX_PIXELS,
            fill.wf(),
        ensures
            img.wf(),
            img.spec_width() == width,
            img.spec_height() == height,
            img.spec_kind() == fill.spec_kind(),
            img.spec_count() == fill.spec_count(),
            img@ == Seq::new(height as nat, |y: int| Seq::new(width as nat, |x: int| fill)),
    {
        assert(height as usize * width as usize <= even_up(width as int) * even_up(height as int))
            by (nonlinear_arith)
            requires
                0 <= width as int <= even_up(width as int),
                0 <= height as int <= even_up(height as int),
        ;
        let data = grid_filled(height as usize, width as usize, fill);
        Image { width, height, kind: fill.kind(), count: fill.channels_count(), data }
    }

    /// Width in pixels.
    pub fn get_width(&self) -> (w: u32)
        ensures
            w == self.spec_width(),
            w > 0,
    {
        proof {
            use_type_invariant(self);
        }
        self.width
    }

    /// Height in pixels.
    pub fn get_height(&self) -> (h: u32)
        ensures
            h == self.spec_height(),
            h > 0,
    {
        proof {
            use_type_invariant(self);
        }
        self.height
    }

    /// Channel kind of every pixel.
    pub fn kind(&self) -> (k: ChannelKind)
        ensures
            k == self.spec_kind(),
    {
        self.kind
    }

    /// Channel count of every pixel.
    pub fn channels_count(&self) -> (n: u8)
        ensures
            n == self.spec_count(),
            valid_count(n as int),
    {
        proof {
            use_type_invariant(self);
        }
        self.count
    }

    /// The pixel at `(x, y)`, which must lie inside the image.
    pub(crate) fn at(&self, x: u32, y: u32) -> (p: Pixel)
        requires
            x < self.spec_width(),
            y < self.spec_height(),
        ensures
            p == self@[y as int][x as int],
            p.wf(),
            p.spec_kind() == self.spec_kind(),
            p.spec_count() == self.spec_count(),
    {
        proof {
            use_type_invariant(self);
        }
        grid_get(&self.data, y as usize, x as usize)
    }

    /// Overwrites the pixel at `(x, y)`, which must lie inside the image,
    /// with a pixel of the image's layout.
    pub(crate) fn put(&mut self, x: u32, y: u32, p: Pixel)
        requires
            x < old(self).spec_width(),
            y < old(self).spec_height(),
            p.wf(),
            p.spec_kind() == old(self).spec_kind(),
            p.spec_count() == old(self).spec_count(),
        ensures
            final(self)@ == old(self)@.update(y as int, old(self)@[y as int].update(x as int, p)),
            forall|j: int, i: int|
                0 <= j < old(self).spec_height() && 0 <= i < old(self).spec_width()
                    ==> #[trigger] final(self)@[j][i] == if i == x && j == y {
                    p
                } else {
                    old(self)@[j][i]
                },
            final(self).spec_width() == old(self).spec_width(),
            final(self).spec_height() == old(self).spec_height(),
            final(self).spec_kind() == old(self).spec_kind(),
            final(self).spec_count() == old(self).spec_count(),
            final(self).wf(),
    {
        proof {
            use_type_invariant(&*self);
        }
        grid_set(&mut self.data, y as usize, x as usize, p);
    }

    /// Reads the pixel at `(x, y)`.
    ///
    /// Fails with `OutOfBounds` unless `x` is below the width and `y` below
    /// the height.
    pub fn get_pixel(&self, x: u32, y: u32) -> (r: Result<Pixel, TransformError>)
        ensures
            match r {
                Ok(p) => x < self.spec_width() && y < self.spec_height() && p
                    == self@[y as int][x as int] && p.wf(),
                Err(e) => e == TransformError::OutOfBounds && (x >= self.spec_width() || y
                    >= self.spec_height()),
            },
    {
        if x >= self.width || y >= self.height {
            return Err(TransformError::OutOfBounds);
        }
        Ok(self.at(x, y))
    }

    /// Overwrites the pixel at `(x, y)` with the channel values `value`.
    ///
    /// Fails with `OutOfBounds` unless `x` is below the width and `y` below
    /// the height; otherwise with `ChannelCountMismatch` unless `value` has
    /// as many entries as the image has channels; otherwise with `Overflow`
    /// if an entry is no value of the image's channel kind. On failure the
    /// image is unchanged.
    pub fn set_pixel(&mut self, x: u32, y: u32, value: &[i16]) -> (r: Result<(), TransformError>)
        ensures
            final(self).wf(),
            final(self).spec_width() == old(self).spec_width(),
            final(self).spec_height() == old(self).spec_height(),
            final(self).spec_kind() == old(self).spec_kind(),
            final(self).spec_count() == old(self).spec_count(),
            match r {
                Ok(_) => {
                    &&& x < old(self).spec_width() && y < old(self).spec_height()
                    &&& value@.len() == old(self).spec_count()
                    &&& all_hold(old(self).spec_kind(), value@)
                    &&& final(self)@[y as int][x as int]@ == value@.map_values(|v: i16| v as int)
                    &&& forall|j: int, i: int|
                        0 <= j < old(self).spec_height() && 0 <= i < old(self).spec_width() && (i
                            != x || j != y) ==> #[trigger] final(self)@[j][i] == old(self)@[j][i]
                },
                Err(e) => {
                    &&& final(self)@ == old(self)@
                    &&& if x >= old(self).spec_width() || y >= old(self).spec_height() {
                        e == TransformError::OutOfBounds
                    } else if value@.len() != old(self).spec_count() {
                        e == TransformError::ChannelCountMismatch
                    } else {
                        e == TransformError::Overflow && !all_hold(old(self).spec_kind(), value@)
                    }
                },
            },
    {
        proof {
            use_type_invariant(&*self);
        }
        if x >= self.width || y >= self.height {
            return Err(TransformError::OutOfBounds);
        }
        if value.len() != self.count as usize {
            return Err(TransformError::ChannelCountMismatch);
        }
        match Pixel::new(self.kind, value) {
            Err(e) => Err(e),
            Ok(p) => {
                assert(p@.len() == value@.len());
                self.put(x, y, p);
                Ok(())
            },
        }
    }

    /// Extracts one channel: the image of the same dimensions whose pixels
    /// have the single channel `channel_index` of this image's pixels.
    ///
    /// Fails with `ChannelIndexOutOfRange` unless `channel_index` is below the
    /// channel count.
    pub fn split_channel(&self, channel_index: usize) -> (r: Result<Image, TransformError>)
        ensures
            match r {
                Ok(plane) => {
                    &&& channel_index < self.spec_count()
                    &&& plane.wf()
                    &&& plane.spec_width() == self.spec_width()
                    &&& plane.spec_height() == self.spec_height()
                    &&& plane.spec_kind() == self.spec_kind()
                    &&& plane.spec_count() == 1
                    &&& plane@ == split_rows(self@, channel_index as int)
                    &&& forall|y: int, x: int|
                        0 <= y < self.spec_height() && 0 <= x < self.spec_width() ==> (
                        #[trigger] plane@[y][x])@ == seq![self@[y][x]@[channel_index as int]]
                },
                Err(e) => e == TransformError::ChannelIndexOutOfRange && channel_index
                    >= self.spec_count(),
            },
    {
        proof {
            use_type_invariant(self);
        }
        if channel_index >= self.count as usize {
            return Err(TransformError::ChannelIndexOutOfRange);
        }
        let w: u32 = self.width;
        let h: u32 = self.height;
        let mut plane = Image::filled(w, h, self.at(0, 0).only(channel_index));
        let ghost rows = self@;
        let mut y: u32 = 0;
        while y < h
            invariant
                self.wf(),
                rows == self@,
                w == self.spec_width(),
                h == self.spec_height(),
                channel_index < self.spec_count(),
                y <= h,
                plane.wf(),
                plane.spec_width() == w,
                plane.spec_height() == h,
                plane.spec_kind() == self.spec_kind(),
                plane.spec_count() == 1,
                forall|j: int, i: int|
                    0 <= j < y && 0 <= i < w ==> #[trigger] plane@[j][i] == rows[j][i].spec_single(
                        channel_index as int,
                    ),
            decreases h - y,
        {
            let mut x: u32 = 0;
            while x < w
                invariant
                    self.wf(),
                    rows == self@,
                    w == self.spec_width(),
                    h == self.spec_height(),
                    channel_index < self.spec_count(),
                    y < h,
                    x <= w,
                    plane.wf(),
                    plane.spec_width() == w,
                    plane.spec_height() == h,
                    plane.spec_kind() == self.spec_kind(),
                    plane.spec_count() == 1,
                    forall|j: int, i: int|
                        0 <= j < h && 0 <= i < w && (j < y || (j == y && i < x))
                            ==> #[trigger] plane@[j][i] == rows[j][i].spec_single(
                            channel_index as int,
                        ),
                decreases w - x,
            {
                plane.put(x, y, self.at(x, y).only(channel_index));
                x += 1;
            }
            y += 1;
        }
        proof {
            self.lemma_wf();
            plane.lemma_wf();
            assert forall|j: int| 0 <= j < h implies #[trigger] plane@[j] == split_rows(
                rows,
                channel_index as int,
            )[j] by {
                assert(plane@[j] =~= split_rows(rows, channel_index as int)[j]);
            }
            assert(plane@ =~= split_rows(rows, channel_index as int));
            assert forall|j: int, i: int| 0 <= j < h && 0 <= i < w implies (
            #[trigger] plane@[j][i])@ == seq![rows[j][i]@[channel_index as int]] by {
                rows[j][i].lemma_single(channel_index as int);
            }
        }
        Ok(plane)
    }

    /// Splits the image into its first three channels, one single-channel
    /// image each.
    ///
    /// Fails with `ChannelIndexOutOfRange` if the image has fewer than three
    /// channels.
    pub fn split(&self) -> (r: Result<(Image, Image, Image), TransformError>)
        ensures
            match r {
                Ok(planes) => {
                    &&& self.spec_count() >= 3
                    &&& planes.0.wf() && planes.1.wf() && planes.2.wf()
                    &&& planes.0@ == split_rows(self@, 0)
                    &&& planes.1@ == split_rows(self@, 1)
                    &&& planes.2@ == split_rows(self@, 2)
                },
                Err(e) => e == TransformError::ChannelIndexOutOfRange && self.spec_count() < 3,
            },
    {
        proof {
            use_type_invariant(self);
        }
        let first = match self.split_channel(0) {
            Ok(p) => p,
            Err(e) => {
                return Err(e);
            },
        };
        let second = match self.split_channel(1) {
            Ok(p) => p,
            Err(e) => {
                return Err(e);
            },
        };
        let third = match self.split_channel(2) {
            Ok(p) => p,
            Err(e) => {
                return Err(e);
            },
        };
        Ok((first, second, third))
    }

    /// The 2x2 blocks of one channel of the image, row of blocks by row of
    /// blocks and left to right within a row: block `(bx, by)` is entry
    /// `by * (width / 2) + bx`.
    ///
    /// Fails with `ChannelIndexOutOfRange` unless `channel` is below the
    /// channel count, and otherwise with `OddDimension` if the width or the
    /// height is odd.
    pub fn get_superpixels(&self, channel: usize) -> (r: Result<Vec<Superpixel>, TransformError>)
        ensures
            match r {
                Ok(blocks) => {
                    &&& channel < self.spec_count()
                    &&& self.spec_width() % 2 == 0
                    &&& self.spec_height() % 2 == 0
                    &&& blocks@.len() == (self.spec_width() / 2) * (self.spec_height() / 2)
                    &&& forall|k: int|
                        0 <= k < blocks@.len() ==> {
                            &&& (#[trigger] blocks@[k]).wf()
                            &&& blocks@[k] == block_at(
                                split_rows(self@, channel as int),
                                k % (self.spec_width() / 2),
                                k / (self.spec_width() / 2),
                            )
                        }
                },
                Err(e) => {
                    if channel >= self.spec_count() {
                        e == TransformError::ChannelIndexOutOfRange
                    } else {
                        e == TransformError::OddDimension && (self.spec_width() % 2 != 0
                            || self.spec_height() % 2 != 0)
                    }
                },
            },
    {
        proof {
            use_type_invariant(self);
            self.lemma_wf();
        }
        if channel >= self.count as usize {
            return Err(TransformError::ChannelIndexOutOfRange);
        }
        if self.width % 2 != 0 || self.height % 2 != 0 {
            return Err(TransformError::OddDimension);
        }
        let hw: u32 = self.width / 2;
        let hh: u32 = self.height / 2;
        let ghost rows = split_rows(self@, channel as int);
        let mut blocks: Vec<Superpixel> = Vec::new();
        let mut by: u32 = 0;
        while by < hh
            invariant
                self.wf(),
                rows == split_rows(self@, channel as int),
                channel < self.spec_count(),
                self.spec_width() == 2 * hw,
                self.spec_height() == 2 * hh,
                hw > 0,
                by <= hh,
                blocks@.len() == by * hw,
                forall|k: int|
                    0 <= k < blocks@.len() ==> {
                        &&& (#[trigger] blocks@[k]).wf()
                        &&& blocks@[k] == block_at(rows, k % (hw as int), k / (hw as int))
                    },
            decreases hh - by,
        {
            let mut bx: u32 = 0;
            while bx < hw
                invariant
                    self.wf(),
                    rows == split_rows(self@, channel as int),
                    channel < self.spec_count(),
                    self.spec_width() == 2 * hw,
                    self.spec_height() == 2 * hh,
                    hw > 0,
                    by < hh,
                    bx <= hw,
                    blocks@.len() == by * hw + bx,
                    forall|k: int|
                        0 <= k < blocks@.len() ==> {
                            &&& (#[trigger] blocks@[k]).wf()
                            &&& blocks@[k] == block_at(rows, k % (hw as int), k / (hw as int))
                        },
                decreases hw - bx,
            {
                let block = self.block(channel, bx, by);
                proof {
                    lemma_fundamental_div_mod_converse(
                        blocks@.len() as int,
                        hw as int,
                        by as int,
                        bx as int,
                    );
                }
                blocks.push(block);
                bx += 1;
            }
            proof {
                assert(by * hw + hw == (by + 1) * hw) by (nonlinear_arith);
            }
            by += 1;
        }
        proof {
            assert(blocks@.len() == hw * hh) by (nonlinear_arith)
                requires
                    blocks@.len() == by * hw,
                    by == hh,
            ;
        }
        Ok(blocks)
    }

    /// Block `(bx, by)` of channel `channel`.
    fn block(&self, channel: usize, bx: u32, by: u32) -> (block: Superpixel)
        requires
            self.wf(),
            channel < self.spec_count(),
            2 * bx + 1 < self.spec_width(),
            2 * by + 1 < self.spec_height(),
        ensures
            block.wf(),
            block == block_at(split_rows(self@, channel as int), bx as int, by as int),
    {
        let x: u32 = 2 * bx;
        let y: u32 = 2 * by;
        proof {
            self.lemma_wf();
        }
        Superpixel::of(
            self.at(x, y).only(channel),
            self.at(x + 1, y).only(channel),
            self.at(x, y + 1).only(channel),
            self.at(x + 1, y + 1).only(channel),
        )
    }

    /// Builds an image of four 8-bit channels from decoded RGBA bytes: four
    /// bytes per pixel, rows from top to bottom, each row left to right.
    ///
    /// Fails with `InvalidDimension` if `width` or `height` is zero, if the
    /// image would be larger than [`MAX_PIXELS`] allows, or unless `rgba` has
    /// exactly four bytes for each pixel.
    pub fn from_png(width: u32, height: u32, rgba: &[u8]) -> (r: Result<Image, TransformError>)
        ensures
            match r {
                Ok(img) => {
                    &&& width > 0 && height > 0
                    &&& even_up(width as int) * even_up(height as int) <= MAX_PIXELS
                    &&& rgba@.len() == 4 * (width * height)
                    &&& img.wf()
                    &&& img.spec_width() == width
                    &&& img.spec_height() == height
                    &&& img.spec_kind() == ChannelKind::U8
                    &&& img.spec_count() == 4
                    &&& forall|y: int, x: int|
                        0 <= y < height && 0 <= x < width ==> (#[trigger] img@[y][x])@
                            == rgba@.subrange(
                            byte_offset(width as int, x, y),
                            byte_offset(width as int, x, y) + 4,
                        ).map_values(|b: u8| b as int)
                },
                Err(e) => e == TransformError::InvalidDimension && (width == 0 || height == 0
                    || even_up(width as int) * even_up(height as int) > MAX_PIXELS || rgba@.len()
                    != 4 * (width * height)),
            },
    {
        let mut img = match Image::new(width, height, ChannelKind::U8, 4) {
            Ok(img) => img,
            Err(e) => {
                return Err(TransformError::InvalidDimension);
            },
        };
        assert(width * height <= MAX_PIXELS) by (nonlinear_arith)
            requires
                0 <= width as int <= even_up(width as int),
                0 <= height as int <= even_up(height as int),
                even_up(width as int) * even_up(height as int) <= MAX_PIXELS,
        ;
        let w: usize = width as usize;
        let h: usize = height as usize;
        if rgba.len() != 4 * (w * h) {
            return Err(TransformError::InvalidDimension);
        }
        let mut y: u32 = 0;
        while y < height
            invariant
                rgba@.len() == 4 * (width * height),
                width * height <= MAX_PIXELS,
                y <= height,
                img.wf(),
                img.spec_width() == width,
                img.spec_height() == height,
                img.spec_kind() == ChannelKind::U8,
                img.spec_count() == 4,
                forall|j: int, i: int|
                    0 <= j < y && 0 <= i < width ==> (#[trigger] img@[j][i])@ == rgba@.subrange(
                        byte_offset(width as int, i, j),
                        byte_offset(width as int, i, j) + 4,
                    ).map_values(|b: u8| b as int),
            decreases height - y,
        {
            let mut x: u32 = 0;
            while x < width
                invariant
                    rgba@.len() == 4 * (width * height),
                    width * height <= MAX_PIXELS,
                    y < height,
                    x <= width,
                    img.wf(),
                    img.spec_width() == width,
                    img.spec_height() == height,
                    img.spec_kind() == ChannelKind::U8,
                    img.spec_count() == 4,
                    forall|j: int, i: int|
                        0 <= j < height && 0 <= i < width && (j < y || (j == y && i < x)) ==> (
                        #[trigger] img@[j][i])@ == rgba@.subrange(
                            byte_offset(width as int, i, j),
                            byte_offset(width as int, i, j) + 4,
                        ).map_values(|b: u8| b as int),
                decreases width - x,
            {
                proof {
                    lemma_byte_offset(width as int, height as int, x as int, y as int);
                }
                let row: usize = y as usize * width as usize;
                let at: usize = 4 * (row + x as usize);
                let colour = Rgba::new(rgba[at], rgba[at + 1], rgba[at + 2], rgba[at + 3]);
                let p = colour.to_pixel();
                proof {
                    assert(p@ =~= rgba@.subrange(at as int, at + 4).map_values(|b: u8| b as int));
                }
                img.put(x, y, p);
                x += 1;
            }
            y += 1;
        }
        Ok(img)
    }

    /// Red, green, blue and alpha of a pixel read as colour (see
    /// [`rgba_of`]).
    fn colour_at(&self, x: u32, y: u32) -> (c: Rgba)
        requires
            self.wf(),
            x < self.spec_width(),
            y < self.spec_height(),
        ensures
            c@ == rgba_of(self@[y as int][x as int]),
    {
        let p = self.at(x, y);
        proof {
            p.lemma_slots();
        }
        let k = ChannelKind::U8;
        let r: u8 = k.clamp(p.raw(0) as i32) as u8;
        let c = if p.channels_count() == 1 {
            Rgba::new(r, r, r, OPAQUE)
        } else if p.channels_count() == 3 {
            Rgba::new(r, k.clamp(p.raw(1) as i32) as u8, k.clamp(p.raw(2) as i32) as u8, OPAQUE)
        } else {
            Rgba::new(
                r,
                k.clamp(p.raw(1) as i32) as u8,
                k.clamp(p.raw(2) as i32) as u8,
                k.clamp(p.raw(3) as i32) as u8,
            )
        };
        assert(c@ =~= rgba_of(p));
        c
    }

    /// The image as RGBA bytes for an encoder: four bytes per pixel, rows
    /// from top to bottom, each row left to right. The channels are read as
    /// colour as [`rgba_of`] says.
    pub fn to_rgba_bytes(&self) -> (bytes: Vec<u8>)
        ensures
            bytes@.len() == 4 * (self.spec_width() * self.spec_height()),
            forall|y: int, x: int|
                0 <= y < self.spec_height() && 0 <= x < self.spec_width() ==> bytes@.subrange(
                    byte_offset(self.spec_width(), x, y),
                    byte_offset(self.spec_width(), x, y) + 4,
                ).map_values(|b: u8| b as int) == rgba_of(#[trigger] self@[y][x]),
    {
        proof {
            use_type_invariant(self);
        }
        let w: u32 = self.width;
        let h: u32 = self.height;
        let mut bytes: Vec<u8> = Vec::new();
        let mut y: u32 = 0;
        while y < h
            invariant
                self.wf(),
                w == self.spec_width(),
                h == self.spec_height(),
                y <= h,
                bytes@.len() == 4 * (y * w),
                forall|j: int, i: int|
                    0 <= j < y && 0 <= i < w ==> bytes@.subrange(
                        byte_offset(w as int, i, j),
                        byte_offset(w as int, i, j) + 4,
                    ).map_values(|b: u8| b as int) == rgba_of(#[trigger] self@[j][i]),
            decreases h - y,
        {
            let mut x: u32 = 0;
            while x < w
                invariant
                    self.wf(),
                    w == self.spec_width(),
                    h == self.spec_height(),
                    y < h,
                    x <= w,
                    bytes@.len() == 4 * (y * w) + 4 * x,
                    forall|j: int, i: int|
                        0 <= j < h && 0 <= i < w && (j < y || (j == y && i < x))
                            ==> bytes@.subrange(
                            byte_offset(w as int, i, j),
                            byte_offset(w as int, i, j) + 4,
                        ).map_values(|b: u8| b as int) == rgba_of(#[trigger] self@[j][i]),
                decreases w - x,
            {
                let c = self.colour_at(x, y);
                let ghost before = bytes@;
                bytes.push(c.get_red());
                bytes.push(c.get_green());
                bytes.push(c.get_blue());
                bytes.push(c.get_alpha());
                proof {
                    c.lemma_view();
                    lemma_byte_offset(w as int, h as int, x as int, y as int);
                    let at = byte_offset(w as int, x as int, y as int);
                    assert(at == before.len());
                    assert(bytes@.subrange(at, at + 4).map_values(|b: u8| b as int) =~= c@);
                    assert forall|j: int, i: int|
                        0 <= j < h && 0 <= i < w && (j < y || (j == y && i < x))
                        implies bytes@.subrange(
                        byte_offset(w as int, i, j),
                        byte_offset(w as int, i, j) + 4,
                    ).map_values(|b: u8| b as int) == rgba_of(#[trigger] self@[j][i]) by {
                        lemma_byte_offset(w as int, h as int, i, j);
                        let o = byte_offset(w as int, i, j);
                        assert(o + 4 <= before.len()) by {
                            lemma_offsets_ordered(w as int, i, j, x as int, y as int);
                        }
                        assert(bytes@.subrange(o, o + 4) =~= before.subrange(o, o + 4));
                    }
                }
                x += 1;
            }
            proof {
                assert(4 * (y * w) + 4 * w == 4 * ((y + 1) * w)) by (nonlinear_arith);
            }
            y += 1;
        }
        proof {
            assert(y * w == w * h) by (nonlinear_arith)
                requires
                    y == h,
            ;
        }
        bytes
    }

    /// The image with alpha added to every pixel, or dropped from it.
    fn recoloured(&self, alpha: bool) -> (out: Image)
        requires
            self.wf(),
            self.spec_kind() == ChannelKind::U8,
            self.spec_count() == 3 || self.spec_count() == 4,
        ensures
            out.wf(),
            out.spec_width() == self.spec_width(),
            out.spec_height() == self.spec_height(),
            out.spec_kind() == ChannelKind::U8,
            out.spec_count() == if alpha {
                4int
            } else {
                3int
            },
            forall|y: int, x: int|
                0 <= y < self.spec_height() && 0 <= x < self.spec_width() ==> (
                #[trigger] out@[y][x])@ == if alpha {
                    rgba_values(self@[y][x])
                } else {
                    rgb_values(self@[y][x])
                },
    {
        let w: u32 = self.width;
        let h: u32 = self.height;
        let mut out = Image::filled(w, h, recoloured_pixel(&self.at(0, 0), alpha));
        let mut y: u32 = 0;
        while y < h
            invariant
                self.wf(),
                self.spec_kind() == ChannelKind::U8,
                self.spec_count() == 3 || self.spec_count() == 4,
                w == self.spec_width(),
                h == self.spec_height(),
                y <= h,
                out.wf(),
                out.spec_width() == w,
                out.spec_height() == h,
                out.spec_kind() == ChannelKind::U8,
                out.spec_count() == if alpha {
                    4int
                } else {
                    3int
                },
                forall|j: int, i: int|
                    0 <= j < y && 0 <= i < w ==> (#[trigger] out@[j][i])@ == if alpha {
                        rgba_values(self@[j][i])
                    } else {
                        rgb_values(self@[j][i])
                    },
            decreases h - y,
        {
            let mut x: u32 = 0;
            while x < w
                invariant
                    self.wf(),
                    self.spec_kind() == ChannelKind::U8,
                    self.spec_count() == 3 || self.spec_count() == 4,
                    w == self.spec_width(),
                    h == self.spec_height(),
                    y < h,
                    x <= w,
                    out.wf(),
                    out.spec_width() == w,
                    out.spec_height() == h,
                    out.spec_kind() == ChannelKind::U8,
                    out.spec_count() == if alpha {
                        4int
                    } else {
                        3int
                    },
                    forall|j: int, i: int|
                        0 <= j < h && 0 <= i < w && (j < y || (j == y && i < x)) ==> (
                        #[trigger] out@[j][i])@ == if alpha {
                            rgba_values(self@[j][i])
                        } else {
                            rgb_values(self@[j][i])
                        },
                decreases w - x,
            {
                out.put(x, y, recoloured_pixel(&self.at(x, y), alpha));
                x += 1;
            }
            y += 1;
        }
        out
    }

    /// The image as red, green and blue: a pixel of four channels loses its
    /// alpha, a pixel of three channels is kept.
    ///
    /// Fails with `ChannelCountMismatch` unless the image has three or four
    /// 8-bit unsigned channels.
    pub fn to_rgb(&self) -> (r: Result<Image, TransformError>)
        ensures
            match r {
                Ok(out) => {
                    &&& self.spec_kind() == ChannelKind::U8
                    &&& self.spec_count() == 3 || self.spec_count() == 4
                    &&& out.wf()
                    &&& out.spec_width() == self.spec_width()
                    &&& out.spec_height() == self.spec_height()
                    &&& out.spec_kind() == ChannelKind::U8
                    &&& out.spec_count() == 3
                    &&& forall|y: int, x: int|
                        0 <= y < self.spec_height() && 0 <= x < self.spec_width() ==> (
                        #[trigger] out@[y][x])@ == rgb_values(self@[y][x])
                },
                Err(e) => e == TransformError::ChannelCountMismatch && !(self.spec_kind()
                    == ChannelKind::U8 && (self.spec_count() == 3 || self.spec_count() == 4)),
            },
    {
        proof {
            use_type_invariant(self);
        }
        if self.kind != ChannelKind::U8 || (self.count != 3 && self.count != 4) {
            return Err(TransformError::ChannelCountMismatch);
        }
        Ok(self.recoloured(false))
    }

    /// The image as red, green, blue and alpha: a pixel of three channels
    /// becomes opaque, a pixel of four channels is kept.
    ///
    /// Fails with `ChannelCountMismatch` unless the image has three or four
    /// 8-bit unsigned channels.
    pub fn to_rgba(&self) -> (r: Result<Image, TransformError>)
        ensures
            match r {
                Ok(out) => {
                    &&& self.spec_kind() == ChannelKind::U8
                    &&& self.spec_count() == 3 || self.spec_count() == 4
                    &&& out.wf()
                    &&& out.spec_width() == self.spec_width()
                    &&& out.spec_height() == self.spec_height()
                    &&& out.spec_kind() == ChannelKind::U8
                    &&& out.spec_count() == 4
                    &&& forall|y: int, x: int|
                        0 <= y < self.spec_height() && 0 <= x < self.spec_width() ==> (
                        #[trigger] out@[y][x])@ == rgba_values(self@[y][x])
                },
                Err(e) => e == TransformError::ChannelCountMismatch && !(self.spec_kind()
                    == ChannelKind::U8 && (self.spec_count() == 3 || self.spec_count() == 4)),
            },
    {
        proof {
            use_type_invariant(self);
        }
        if self.kind != ChannelKind::U8 || (self.count != 3 && self.count != 4) {
            return Err(TransformError::ChannelCountMismatch);
        }
        Ok(self.recoloured(true))
    }
}

/// The bytes of an earlier pixel end where the bytes of a later pixel start,
/// or before.
proof fn lemma_offsets_ordered(w: int, i: int, j: int, x: int, y: int)
    requires
        0 <= i < w,
        0 <= x < w,
        0 <= j,
        j < y || (j == y && i < x),
    ensures
        byte_offset(w, i, j) + 4 <= byte_offset(w, x, y),
{
    if j < y {
        assert((j + 1) * w <= y * w) by (nonlinear_arith)
            requires
                j + 1 <= y,
                0 <= w,
        ;
        assert((j + 1) * w == j * w + w) by (nonlinear_arith);
    }
}

/// A pixel of three or four 8-bit channels with alpha added or dropped.
fn recoloured_pixel(p: &Pixel, alpha: bool) -> (out: Pixel)
    requires
        p.wf(),
        p.spec_kind() == ChannelKind::U8,
        p.spec_count() == 3 || p.spec_count() == 4,
    ensures
        out.wf(),
        out.spec_kind() == ChannelKind::U8,
        out.spec_count() == if alpha {
            4int
        } else {
            3int
        },
        out@ == if alpha {
            rgba_values(*p)
        } else {
            rgb_values(*p)
        },
{
    if p.channels_count() == 3 {
        if alpha {
            let rgb = Rgb::from_pixel(p).unwrap();
            proof {
                rgb.lemma_view();
            }
            rgb2rgba(rgb).to_pixel()
        } else {
            assert(p@.take(3) =~= p@);
            *p
        }
    } else {
        if alpha {
            *p
        } else {
            rgba2rgb(Rgba::from_pixel(p).unwrap()).to_pixel()
        }
    }
}

} // verus!
