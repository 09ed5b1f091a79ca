use vstd::prelude::*;
use crate::color::{Rgb, Rgba, YCbCr};
use crate::error::TransformError;

verus! {

/// The colour spaces a pixel can be read in.
#[derive(Debug, Clone, Copy, PartialEq, Eq, Structural)]
pub enum PixelType {
    Rgb,
    Rgba,
    YCbCr,
    Yuv,
}

impl PixelType {
    /// Number of channels of a pixel of this colour space.
    pub open spec fn channels(self) -> int {
        match self {
            PixelType::Rgba => 4,
            _ => 3,
        }
    }

    /// Number of channels of a pixel of this colour space.
    pub fn channels_count(self) -> (n: u8)
        ensures
            n == self.channels(),
    {
        match self {
            PixelType::Rgba => 4,
            _ => 3,
        }
    }
}

/// The integer type of a channel, which fixes the range of its values.
#[derive(Debug, Clone, Copy, PartialEq, Eq, Structural)]
pub enum ChannelKind {
    /// 8-bit unsigned, 0 to 255.
    U8,
    /// 8-bit signed, -128 to 127.
    I8,
    /// 16-bit signed, -32768 to 32767.
    I16,
}

impl ChannelKind {
    /// Smallest value of the kind.
    pub open spec fn min_value(self) -> int {
        match self {
            ChannelKind::U8 => 0,
            ChannelKind::I8 => -128,
            ChannelKind::I16 => -32768,
        }
    }

    /// Largest value of the kind.
    pub open spec fn max_value(self) -> int {
        match self {
            ChannelKind::U8 => 255,
            ChannelKind::I8 => 127,
            ChannelKind::I16 => 32767,
        }
    }

    /// Whether `v` is a value of the kind.
    pub open spec fn holds(self, v: int) -> bool {
        self.min_value() <= v <= self.max_value()
    }

    /// The value of the kind nearest to `v`.
    pub open spec fn clamped(self, v: int) -> int {
        if v < self.min_value() {
            self.min_value()
        } else if v > self.max_value() {
            self.max_value()
        } else {
            v
        }
    }

    /// Smallest value of the kind.
    pub fn lowest(self) -> (v: i16)
        ensures
            v == self.min_value(),
    {
        match self {
            ChannelKind::U8 => 0,
            ChannelKind::I8 => -128,
            ChannelKind::I16 => -32768,
        }
    }

    /// Largest value of the kind.
    pub fn highest(self) -> (v: i16)
        ensures
            v == self.max_value(),
    {
        match self {
            ChannelKind::U8 => 255,
            ChannelKind::I8 => 127,
            ChannelKind::I16 => 32767,
        }
    }

    /// Brings an accumulator back into the kind's range: values below the
    /// range become its minimum, values above it its maximum.
    pub fn clamp(self, v: i32) -> (c: i16)
        ensures
            c == self.clamped(v as int),
    {
        let lo: i16 = self.lowest();
        let hi: i16 = self.highest();
        if v < lo as i32 {
            lo
        } else if v > hi as i32 {
            hi
        } else {
            v as i16
        }
    }
}

/// A pixel: one, three or four channel values of one channel kind.
#[derive(Debug, Clone, Copy, PartialEq, Eq, Structural)]
pub struct Pixel {
    pub(crate) kind: ChannelKind,
    pub(crate) count: u8,
    pub(crate) c0: i16,
    pub(crate) c1: i16,
    pub(crate) c2: i16,
    pub(crate) c3: i16,
}

/// Whether `n` is a channel count that a pixel can have.
pub open spec fn valid_count(n: int) -> bool {
    n == 1 || n == 3 || n == 4
}

/// Whether every value of `values` is a value of `kind`.
pub open spec fn all_hold(kind: ChannelKind, values: Seq<i16>) -> bool {
    forall|i: int| 0 <= i < values.len() ==> kind.holds(#[trigger] values[i] as int)
}

impl Pixel {
    /// The value stored for channel `i`; zero where the pixel has no such
    /// channel.
    pub open(crate) spec fn slot(self, i: int) -> int {
        if i == 0 {
            self.c0 as int
        } else if i == 1 {
            self.c1 as int
        } else if i == 2 {
            self.c2 as int
        } else if i == 3 {
            self.c3 as int
        } else {
            0
        }
    }

    /// The pixel of `count` channels of `kind` that stores the four given
    /// values.
    pub open(crate) spec fn build(kind: ChannelKind, count: u8, a: int, b: int, c: int, d: int) -> Pixel {
        Pixel { kind, count, c0: a as i16, c1: b as i16, c2: c as i16, c3: d as i16 }
    }

    /// The channel kind of the pixel.
    pub open(crate) spec fn spec_kind(self) -> ChannelKind {
        self.kind
    }

    /// The number of channels of the pixel.
    pub open(crate) spec fn spec_count(self) -> int {
        self.count as int
    }

    /// The pixel is well formed: it has one, three or four channels, each
    /// within the range of its kind, and nothing stored beyond them.
    #[verifier::type_invariant]
    pub open(crate) spec fn wf(self) -> bool {
        &&& valid_count(self.count as int)
        &&& forall|i: int| 0 <= i < 4 ==> self.kind.holds(#[trigger] self.slot(i))
        &&& forall|i: int| self.count <= i < 4 ==> #[trigger] self.slot(i) == 0
    }

    /// The channel values, in order.
    pub open spec fn view(self) -> Seq<int> {
        Seq::new(self.spec_count() as nat, |i: int| self.slot(i))
    }

    /// The channel kind of the pixel.
    pub fn kind(&self) -> (k: ChannelKind)
        ensures
            k == self.spec_kind(),
    {
        self.kind
    }

    /// The number of channels of the pixel.
    pub fn channels_count(&self) -> (n: u8)
        ensures
            n == self.spec_count(),
            valid_count(n as int),
    {
        proof {
            use_type_invariant(self);
        }
        self.count
    }

    /// Builds a pixel from its channel values.
    ///
    /// Fails with `ChannelCountMismatch` unless one, three or four values are
    /// given, and with `Overflow` if one of them is no value of `kind`.
    pub fn new(kind: ChannelKind, values: &[i16]) -> (r: Result<Pixel, TransformError>)
        ensures
            match r {
                Ok(p) => {
                    &&& valid_count(values@.len() as int)
                    &&& all_hold(kind, values@)
                    &&& p.wf()
                    &&& p.spec_kind() == kind
                    &&& p.spec_count() == values@.len()
                    &&& p@ == values@.map_values(|v: i16| v as int)
                },
                Err(e) => {
                    if !valid_count(values@.len() as int) {
                        e == TransformError::ChannelCountMismatch
                    } else {
                        e == TransformError::Overflow && !all_hold(kind, values@)
                    }
                },
            },
    {
        let n: usize = values.len();
        if n != 1 && n != 3 && n != 4 {
            return Err(TransformError::ChannelCountMismatch);
        }
        let lo: i16 = kind.lowest();
        let hi: i16 = kind.highest();
        let mut i: usize = 0;
        while i < n
            invariant
                n == values@.len(),
                valid_count(n as int),
                i <= n,
                lo == kind.min_value(),
                hi == kind.max_value(),
                forall|j: int| 0 <= j < i ==> kind.holds(#[trigger] values@[j] as int),
            decreases n - i,
        {
            if values[i] < lo || values[i] > hi {
                assert(!kind.holds(values@[i as int] as int));
                return Err(TransformError::Overflow);
            }
            i += 1;
        }
        let c0: i16 = values[0];
        let c1: i16 = if n > 1 { values[1] } else { 0 };
        let c2: i16 = if n > 2 { values[2] } else { 0 };
        let c3: i16 = if n > 3 { values[3] } else { 0 };
        let p = Pixel { kind, count: n as u8, c0, c1, c2, c3 };
        assert(p@ =~= values@.map_values(|v: i16| v as int));
        Ok(p)
    }

    /// The pixel of `count` channels of `kind` whose channels are all zero.
    ///
    /// Fails with `ChannelCountMismatch` unless `count` is one, three or four.
    pub fn zero(kind: ChannelKind, count: u8) -> (r: Result<Pixel, TransformError>)
        ensures
            match r {
                Ok(p) => {
                    &&& valid_count(count as int)
                    &&& p.wf()
                    &&& p.spec_kind() == kind
                    &&& p.spec_count() == count
                    &&& p@ == Seq::new(count as nat, |i: int| 0int)
                },
                Err(e) => e == TransformError::ChannelCountMismatch && !valid_count(count as int),
            },
    {
        if count != 1 && count != 3 && count != 4 {
            return Err(TransformError::ChannelCountMismatch);
        }
        let p = Pixel { kind, count, c0: 0, c1: 0, c2: 0, c3: 0 };
        assert(p@ =~= Seq::new(count as nat, |i: int| 0int));
        Ok(p)
    }

    /// Reads channel `index`.
    ///
    /// Fails with `ChannelIndexOutOfRange` unless `index` is below the
    /// channel count.
    pub fn channel(&self, index: usize) -> (r: Result<i16, TransformError>)
        ensures
            match r {
                Ok(v) => index < self@.len() && v == self@[index as int],
                Err(e) => e == TransformError::ChannelIndexOutOfRange && index >= self@.len(),
            },
    {
        if index >= self.count as usize {
            return Err(TransformError::ChannelIndexOutOfRange);
        }
        Ok(self.raw(index))
    }

    /// The value stored for channel `index`, zero beyond the channel count.
    pub(crate) fn raw(&self, index: usize) -> (v: i16)
        ensures
            v == self.slot(index as int),
    {
        if index == 0 {
            self.c0
        } else if index == 1 {
            self.c1
        } else if index == 2 {
            self.c2
        } else if index == 3 {
            self.c3
        } else {
            0
        }
    }

    /// What [`Self::build`] gives when the values are within the kind's range
    /// and zero beyond the channel count.
    pub(crate) proof fn lemma_build(kind: ChannelKind, count: u8, a: int, b: int, c: int, d: int)
        requires
            valid_count(count as int),
            kind.holds(a),
            kind.holds(b),
            kind.holds(c),
            kind.holds(d),
            count <= 1 ==> b == 0,
            count <= 2 ==> c == 0,
            count <= 3 ==> d == 0,
        ensures
            Pixel::build(kind, count, a, b, c, d).wf(),
            Pixel::build(kind, count, a, b, c, d).spec_kind() == kind,
            Pixel::build(kind, count, a, b, c, d).spec_count() == count,
            Pixel::build(kind, count, a, b, c, d).slot(0) == a,
            Pixel::build(kind, count, a, b, c, d).slot(1) == b,
            Pixel::build(kind, count, a, b, c, d).slot(2) == c,
            Pixel::build(kind, count, a, b, c, d).slot(3) == d,
    {
    }

    /// Well-formedness, spelled out for each of the four stored values.
    pub(crate) proof fn lemma_slots(self)
        requires
            self.wf(),
        ensures
            valid_count(self.count as int),
            self.kind.holds(self.c0 as int),
            self.kind.holds(self.c1 as int),
            self.kind.holds(self.c2 as int),
            self.kind.holds(self.c3 as int),
            self.count <= 1 ==> self.c1 == 0,
            self.count <= 2 ==> self.c2 == 0,
            self.count <= 3 ==> self.c3 == 0,
            self@.len() == self.count,
            forall|i: int| 0 <= i < self.count ==> #[trigger] self@[i] == self.slot(i),
    {
        assert(self.slot(0) == self.c0);
        assert(self.slot(1) == self.c1);
        assert(self.slot(2) == self.c2);
        assert(self.slot(3) == self.c3);
    }

    /// Pixels of one layout that store the same four values are equal.
    pub(crate) proof fn lemma_equal_by_slots(self, other: Pixel)
        requires
            self.same_layout(other),
            forall|i: int| 0 <= i < 4 ==> self.slot(i) == other.slot(i),
        ensures
            self == other,
    {
        assert(self.slot(0) == other.slot(0));
        assert(self.slot(1) == other.slot(1));
        assert(self.slot(2) == other.slot(2));
        assert(self.slot(3) == other.slot(3));
    }

    /// The single-channel pixel that holds channel `index` of this pixel.
    pub closed spec fn spec_single(self, index: int) -> Pixel {
        Pixel::build(self.kind, 1, self.slot(index), 0, 0, 0)
    }

    /// What [`Self::spec_single`] holds.
    pub proof fn lemma_single(self, index: int)
        requires
            self.wf(),
            0 <= index < self.spec_count(),
        ensures
            self.spec_single(index).wf(),
            self.spec_single(index).spec_kind() == self.spec_kind(),
            self.spec_single(index).spec_count() == 1,
            self.spec_single(index)@ == seq![self@[index]],
    {
        self.lemma_slots();
        assert(self.kind.holds(self.slot(index)));
        Pixel::lemma_build(self.kind, 1, self.slot(index), 0, 0, 0);
        assert(self.spec_single(index)@ =~= seq![self@[index]]);
    }

    /// The single-channel pixel that holds channel `index` of this pixel.
    ///
    /// Fails with `ChannelIndexOutOfRange` unless `index` is below the
    /// channel count.
    pub fn single(&self, index: usize) -> (r: Result<Pixel, TransformError>)
        ensures
            match r {
                Ok(p) => {
                    &&& index < self@.len()
                    &&& p == self.spec_single(index as int)
                    &&& p.wf()
                    &&& p.spec_kind() == self.spec_kind()
                    &&& p.spec_count() == 1
                    &&& p@ == seq![self@[index as int]]
                },
                Err(e) => e == TransformError::ChannelIndexOutOfRange && index >= self@.len(),
            },
    {
        if index >= self.count as usize {
            return Err(TransformError::ChannelIndexOutOfRange);
        }
        proof {
            use_type_invariant(self);
        }
        Ok(self.only(index))
    }

    /// The single-channel pixel that holds channel `index`, which must be
    /// below the channel count.
    pub(crate) fn only(&self, index: usize) -> (p: Pixel)
        requires
            self.wf(),
            index < self.spec_count(),
        ensures
            p == self.spec_single(index as int),
            p.wf(),
            p.spec_kind() == self.spec_kind(),
            p.spec_count() == 1,
            p@ == seq![self@[index as int]],
    {
        proof {
            self.lemma_single(index as int);
            self.lemma_slots();
        }
        let v: i16 = self.raw(index);
        Pixel { kind: self.kind, count: 1, c0: v, c1: 0, c2: 0, c3: 0 }
    }

    /// Whether two pixels have the same channel kind and channel count.
    pub open spec fn same_layout(self, other: Pixel) -> bool {
        self.spec_kind() == other.spec_kind() && self.spec_count() == other.spec_count()
    }

    /// A well-formed pixel is determined by its kind and its channel values.
    pub proof fn lemma_equal_by_view(self, other: Pixel)
        requires
            self.wf(),
            other.wf(),
            self.spec_kind() == other.spec_kind(),
            self@ == other@,
        ensures
            self == other,
    {
        assert(self@.len() == self.count);
        assert(other@.len() == other.count);
        assert forall|i: int| 0 <= i < 4 implies self.slot(i) == other.slot(i) by {
            if i < self.count {
                assert(self@[i] == self.slot(i));
                assert(other@[i] == other.slot(i));
            }
        }
        assert(self.slot(0) == other.slot(0));
        assert(self.slot(1) == other.slot(1));
        assert(self.slot(2) == other.slot(2));
        assert(self.slot(3) == other.slot(3));
    }
}

/// Channel values of the default colour of a colour space: every channel
/// zero, alpha fully opaque.
pub open spec fn default_values(t: PixelType) -> Seq<int> {
    if t == PixelType::Rgba {
        seq![0int, 0int, 0int, 255int]
    } else {
        seq![0int, 0int, 0int]
    }
}

/// Whether a colour of colour space `t` can be made from `n` channel values:
/// from three, or from four where the colour space has alpha.
pub open spec fn accepts(t: PixelType, n: int) -> bool {
    n == 3 || (t == PixelType::Rgba && n == 4)
}

/// The channel values of the colour of colour space `t` made from `v`: alpha,
/// where it is missing, is fully opaque.
pub open spec fn completed(t: PixelType, v: Seq<u8>) -> Seq<int> {
    if t == PixelType::Rgba && v.len() == 3 {
        v.map_values(|b: u8| b as int).push(255int)
    } else {
        v.map_values(|b: u8| b as int)
    }
}

/// What the colours of the 8-bit colour spaces have in common.
pub trait PixelTrait: Sized {
    /// The colour space.
    spec fn pixel_type() -> PixelType;

    /// The channel values of the colour.
    spec fn values(&self) -> Seq<int>;

    /// Number of channels of the colour space.
    fn channels_count() -> (n: u8)
        ensures
            n == Self::pixel_type().channels(),
    ;

    /// The colour as a pixel of 8-bit unsigned channels.
    fn channels(&self) -> (p: Pixel)
        ensures
            p.wf(),
            p.spec_kind() == ChannelKind::U8,
            p@ == self.values(),
    ;

    /// The default colour: every channel zero, alpha fully opaque.
    fn default_pixel() -> (c: Self)
        ensures
            c.values() == default_values(Self::pixel_type()),
    ;

    /// Makes a colour from its channel values. Three values make a colour of
    /// any colour space, opaque where it has alpha; four make one with alpha.
    ///
    /// Fails with `ChannelCountMismatch` for any other number of values.
    fn from_channels(v: &[u8]) -> (r: Result<Self, TransformError>)
        ensures
            match r {
                Ok(c) => accepts(Self::pixel_type(), v@.len() as int) && c.values() == completed(
                    Self::pixel_type(),
                    v@,
                ),
                Err(e) => e == TransformError::ChannelCountMismatch && !accepts(
                    Self::pixel_type(),
                    v@.len() as int,
                ),
            },
    ;

    /// The colour space.
    fn get_type() -> (t: PixelType)
        ensures
            t == Self::pixel_type(),
    ;

    /// The first channel.
    fn get_first_channel(&self) -> (v: u8)
        ensures
            self.values().len() > 0,
            v == self.values()[0],
    ;

    /// The second channel.
    fn get_second_channel(&self) -> (v: u8)
        ensures
            self.values().len() > 1,
            v == self.values()[1],
    ;

    /// The third channel.
    fn get_third_channel(&self) -> (v: u8)
        ensures
            self.values().len() > 2,
            v == self.values()[2],
    ;

    /// The fourth channel.
    ///
    /// Fails with `ChannelIndexOutOfRange` where the colour has three
    /// channels.
    fn get_fourth_channel(&self) -> (r: Result<u8, TransformError>)
        ensures
            match r {
                Ok(v) => self.values().len() > 3 && v == self.values()[3],
                Err(e) => e == TransformError::ChannelIndexOutOfRange && self.values().len() <= 3,
            },
    ;

    /// The default colour with channel `channel` set to `value`.
    ///
    /// Fails with `ChannelIndexOutOfRange` unless `channel` is below the
    /// channel count.
    fn from_one_channel(value: u8, channel: usize) -> (r: Result<Self, TransformError>)
        ensures
            match r {
                Ok(c) => channel < Self::pixel_type().channels() && c.values() == default_values(
                    Self::pixel_type(),
                ).update(channel as int, value as int),
                Err(e) => e == TransformError::ChannelIndexOutOfRange && channel
                    >= Self::pixel_type().channels(),
            },
    ;
}

impl PixelTrait for Rgb {
    open spec fn pixel_type() -> PixelType {
        PixelType::Rgb
    }

    open spec fn values(&self) -> Seq<int> {
        self@
    }

    fn channels_count() -> (n: u8) {
        3
    }

    fn channels(&self) -> (p: Pixel) {
        self.to_pixel()
    }

    fn default_pixel() -> (c: Self) {
        Rgb::new(0, 0, 0)
    }

    fn from_channels(v: &[u8]) -> (r: Result<Self, TransformError>) {
        if v.len() != 3 {
            return Err(TransformError::ChannelCountMismatch);
        }
        let c = Rgb::new(v[0], v[1], v[2]);
        assert(c@ =~= v@.map_values(|b: u8| b as int));
        Ok(c)
    }

    fn get_type() -> (t: PixelType) {
        PixelType::Rgb
    }

    fn get_first_channel(&self) -> (v: u8) {
        proof {
            self.lemma_view();
        }
        self.get_red()
    }

    fn get_second_channel(&self) -> (v: u8) {
        proof {
            self.lemma_view();
        }
        self.get_green()
    }

    fn get_third_channel(&self) -> (v: u8) {
        proof {
            self.lemma_view();
        }
        self.get_blue()
    }

    fn get_fourth_channel(&self) -> (r: Result<u8, TransformError>) {
        proof {
            self.lemma_view();
        }
        Err(TransformError::ChannelIndexOutOfRange)
    }

    fn from_one_channel(value: u8, channel: usize) -> (r: Result<Self, TransformError>) {
        let c = if channel == 0 {
            Rgb::new(value, 0, 0)
        } else if channel == 1 {
            Rgb::new(0, value, 0)
        } else if channel == 2 {
            Rgb::new(0, 0, value)
        } else {
            return Err(TransformError::ChannelIndexOutOfRange);
        };
        assert(c@ =~= default_values(PixelType::Rgb).update(channel as int, value as int));
        Ok(c)
    }
}

impl PixelTrait for Rgba {
    open spec fn pixel_type() -> PixelType {
        PixelType::Rgba
    }

    open spec fn values(&self) -> Seq<int> {
        self@
    }

    fn channels_count() -> (n: u8) {
        4
    }

    fn channels(&self) -> (p: Pixel) {
        self.to_pixel()
    }

    fn default_pixel() -> (c: Self) {
        Rgba::new(0, 0, 0, 255)
    }

    fn from_channels(v: &[u8]) -> (r: Result<Self, TransformError>) {
        if v.len() == 3 {
            let c = Rgba::new(v[0], v[1], v[2], 255);
            assert(c@ =~= v@.map_values(|b: u8| b as int).push(255int));
            Ok(c)
        } else if v.len() == 4 {
            let c = Rgba::new(v[0], v[1], v[2], v[3]);
            assert(c@ =~= v@.map_values(|b: u8| b as int));
            Ok(c)
        } else {
            Err(TransformError::ChannelCountMismatch)
        }
    }

    fn get_type() -> (t: PixelType) {
        PixelType::Rgba
    }

    fn get_first_channel(&self) -> (v: u8) {
        proof {
            self.lemma_view();
        }
        self.get_red()
    }

    fn get_second_channel(&self) -> (v: u8) {
        proof {
            self.lemma_view();
        }
        self.get_green()
    }

    fn get_third_channel(&self) -> (v: u8) {
        proof {
            self.lemma_view();
        }
        self.get_blue()
    }

    fn get_fourth_channel(&self) -> (r: Result<u8, TransformError>) {
        proof {
            self.lemma_view();
        }
        Ok(self.get_alpha())
    }

    fn from_one_channel(value: u8, channel: usize) -> (r: Result<Self, TransformError>) {
        let c = if channel == 0 {
            Rgba::new(value, 0, 0, 255)
        } else if channel == 1 {
            Rgba::new(0, value, 0, 255)
        } else if channel == 2 {
            Rgba::new(0, 0, value, 255)
        } else if channel == 3 {
            Rgba::new(0, 0, 0, value)
        } else {
            return Err(TransformError::ChannelIndexOutOfRange);
        };
        assert(c@ =~= default_values(PixelType::Rgba).update(channel as int, value as int));
        Ok(c)
    }
}

impl PixelTrait for YCbCr {
    open spec fn pixel_type() -> PixelType {
        PixelType::YCbCr
    }

    open spec fn values(&self) -> Seq<int> {
        self@
    }

    fn channels_count() -> (n: u8) {
        3
    }

    fn channels(&self) -> (p: Pixel) {
        self.to_pixel()
    }

    fn default_pixel() -> (c: Self) {
        YCbCr::new(0, 0, 0)
    }

    fn from_channels(v: &[u8]) -> (r: Result<Self, TransformError>) {
        if v.len() != 3 {
            return Err(TransformError::ChannelCountMismatch);
        }
        let c = YCbCr::new(v[0], v[1], v[2]);
        assert(c@ =~= v@.map_values(|b: u8| b as int));
        Ok(c)
    }

    fn get_type() -> (t: PixelType) {
        PixelType::YCbCr
    }

    fn get_first_channel(&self) -> (v: u8) {
        proof {
            self.lemma_view();
        }
        self.get_y()
    }

    fn get_second_channel(&self) -> (v: u8) {
        proof {
            self.lemma_view();
        }
        self.get_cb()
    }

    fn get_third_channel(&self) -> (v: u8) {
        proof {
            self.lemma_view();
        }
        self.get_cr()
    }

    fn get_fourth_channel(&self) -> (r: Result<u8, TransformError>) {
        proof {
            self.lemma_view();
        }
        Err(TransformError::ChannelIndexOutOfRange)
    }

    fn from_one_channel(value: u8, channel: usize) -> (r: Result<Self, TransformError>) {
        let c = if channel == 0 {
            YCbCr::new(value, 0, 0)
        } else if channel == 1 {
            YCbCr::new(0, value, 0)
        } else if channel == 2 {
            YCbCr::new(0, 0, value)
        } else {
            return Err(TransformError::ChannelIndexOutOfRange);
        };
        assert(c@ =~= default_values(PixelType::YCbCr).update(channel as int, value as int));
        Ok(c)
    }
}

} // verus!
