use vstd::prelude::*;
use crate::error::TransformError;
use crate::pixel_type::{ChannelKind, Pixel};

verus! {

/// A colour in the YCbCr colour space: luminance, blue-difference chroma and
/// red-difference chroma, eight bits each.
#[derive(Debug, Clone, Copy, PartialEq, Eq, Structural)]
pub struct YCbCr {
    y: u8,
    cb: u8,
    cr: u8,
}

impl YCbCr {
    /// The three channel values: luminance, blue difference, red difference.
    pub closed spec fn view(self) -> Seq<int> {
        seq![self.y as int, self.cb as int, self.cr as int]
    }

    /// A colour has three channels, each an 8-bit unsigned value.
    pub proof fn lemma_view(self)
        ensures
            self@.len() == 3,
            forall|i: int| 0 <= i < 3 ==> 0 <= #[trigger] self@[i] <= 255,
    {
    }

    pub fn new(y: u8, cb: u8, cr: u8) -> (c: YCbCr)
        ensures
            c@ == seq![y as int, cb as int, cr as int],
    {
        YCbCr { y, cb, cr }
    }

    pub fn get_y(&self) -> (v: u8)
        ensures
            v == self@[0],
    {
        self.y
    }

    pub fn get_cb(&self) -> (v: u8)
        ensures
            v == self@[1],
    {
        self.cb
    }

    pub fn get_cr(&self) -> (v: u8)
        ensures
            v == self@[2],
    {
        self.cr
    }

    /// The colour as a pixel of three 8-bit unsigned channels.
    pub fn to_pixel(&self) -> (p: Pixel)
        ensures
            p.wf(),
            p.spec_kind() == ChannelKind::U8,
            p.spec_count() == 3,
            p@ == self@,
    {
        let p = Pixel {
            kind: ChannelKind::U8,
            count: 3,
            c0: self.y as i16,
            c1: self.cb as i16,
            c2: self.cr as i16,
            c3: 0,
        };
        assert(p@ =~= self@);
        p
    }

    /// Reads a pixel of three 8-bit unsigned channels as a colour.
    ///
    /// Fails with `ChannelCountMismatch` for any other pixel.
    pub fn from_pixel(p: &Pixel) -> (r: Result<YCbCr, TransformError>)
        ensures
            match r {
                Ok(c) => p.spec_kind() == ChannelKind::U8 && p.spec_count() == 3 && c@ == p@,
                Err(e) => e == TransformError::ChannelCountMismatch && !(p.spec_kind()
                    == ChannelKind::U8 && p.spec_count() == 3),
            },
    {
        proof {
            use_type_invariant(p);
            p.lemma_slots();
        }
        if p.kind != ChannelKind::U8 || p.count != 3 {
            return Err(TransformError::ChannelCountMismatch);
        }
        let c = YCbCr { y: p.c0 as u8, cb: p.c1 as u8, cr: p.c2 as u8 };
        assert(c@ =~= p@);
        Ok(c)
    }
}

/// A colour in the RGB colour space: red, green and blue, eight bits each.
#[derive(Debug, Clone, Copy, PartialEq, Eq, Structural)]
pub struct Rgb {
    r: u8,
    g: u8,
    b: u8,
}

impl Rgb {
    /// The three channel values: red, green, blue.
    pub closed spec fn view(self) -> Seq<int> {
        seq![self.r as int, self.g as int, self.b as int]
    }

    /// A colour has three channels, each an 8-bit unsigned value.
    pub proof fn lemma_view(self)
        ensures
            self@.len() == 3,
            forall|i: int| 0 <= i < 3 ==> 0 <= #[trigger] self@[i] <= 255,
    {
    }

    pub fn new(r: u8, g: u8, b: u8) -> (c: Rgb)
        ensures
            c@ == seq![r as int, g as int, b as int],
    {
        Rgb { r, g, b }
    }

    pub fn get_red(&self) -> (v: u8)
        ensures
            v == self@[0],
    {
        self.r
    }

    pub fn get_green(&self) -> (v: u8)
        ensures
            v == self@[1],
    {
        self.g
    }

    pub fn get_blue(&self) -> (v: u8)
        ensures
            v == self@[2],
    {
        self.b
    }

    /// The colour as a pixel of three 8-bit unsigned channels.
    pub fn to_pixel(&self) -> (p: Pixel)
        ensures
            p.wf(),
            p.spec_kind() == ChannelKind::U8,
            p.spec_count() == 3,
            p@ == self@,
    {
        let p = Pixel {
            kind: ChannelKind::U8,
            count: 3,
            c0: self.r as i16,
            c1: self.g as i16,
            c2: self.b as i16,
            c3: 0,
        };
        assert(p@ =~= self@);
        p
    }

    /// Reads a pixel of three 8-bit unsigned channels as a colour.
    ///
    /// Fails with `ChannelCountMismatch` for any other pixel.
    pub fn from_pixel(p: &Pixel) -> (r: Result<Rgb, TransformError>)
        ensures
            match r {
                Ok(c) => p.spec_kind() == ChannelKind::U8 && p.spec_count() == 3 && c@ == p@,
                Err(e) => e == TransformError::ChannelCountMismatch && !(p.spec_kind()
                    == ChannelKind::U8 && p.spec_count() == 3),
            },
    {
        proof {
            use_type_invariant(p);
            p.lemma_slots();
        }
        if p.kind != ChannelKind::U8 || p.count != 3 {
            return Err(TransformError::ChannelCountMismatch);
        }
        let c = Rgb { r: p.c0 as u8, g: p.c1 as u8, b: p.c2 as u8 };
        assert(c@ =~= p@);
        Ok(c)
    }
}

/// A colour in the RGBA colour space: red, green, blue and alpha, eight bits
/// each.
#[derive(Debug, Clone, Copy, PartialEq, Eq, Structural)]
pub struct Rgba {
    r: u8,
    g: u8,
    b: u8,
    a: u8,
}

impl Rgba {
    /// The four channel values: red, green, blue, alpha.
    pub closed spec fn view(self) -> Seq<int> {
        seq![self.r as int, self.g as int, self.b as int, self.a as int]
    }

    /// A colour has four channels, each an 8-bit unsigned value.
    pub proof fn lemma_view(self)
        ensures
            self@.len() == 4,
            forall|i: int| 0 <= i < 4 ==> 0 <= #[trigger] self@[i] <= 255,
    {
    }

    pub fn new(r: u8, g: u8, b: u8, a: u8) -> (c: Rgba)
        ensures
            c@ == seq![r as int, g as int, b as int, a as int],
    {
        Rgba { r, g, b, a }
    }

    pub fn get_red(&self) -> (v: u8)
        ensures
            v == self@[0],
    {
        self.r
    }

    pub fn get_green(&self) -> (v: u8)
        ensures
            v == self@[1],
    {
        self.g
    }

    pub fn get_blue(&self) -> (v: u8)
        ensures
            v == self@[2],
    {
        self.b
    }

    pub fn get_alpha(&self) -> (v: u8)
        ensures
            v == self@[3],
    {
        self.a
    }

    /// The colour as a pixel of four 8-bit unsigned channels.
    pub fn to_pixel(&self) -> (p: Pixel)
        ensures
            p.wf(),
            p.spec_kind() == ChannelKind::U8,
            p.spec_count() == 4,
            p@ == self@,
    {
        let p = Pixel {
            kind: ChannelKind::U8,
            count: 4,
            c0: self.r as i16,
            c1: self.g as i16,
            c2: self.b as i16,
            c3: self.a as i16,
        };
        assert(p@ =~= self@);
        p
    }

    /// Reads a pixel of four 8-bit unsigned channels as a colour.
    ///
    /// Fails with `ChannelCountMismatch` for any other pixel.
    pub fn from_pixel(p: &Pixel) -> (r: Result<Rgba, TransformError>)
        ensures
            match r {
                Ok(c) => p.spec_kind() == ChannelKind::U8 && p.spec_count() == 4 && c@ == p@,
                Err(e) => e == TransformError::ChannelCountMismatch && !(p.spec_kind()
                    == ChannelKind::U8 && p.spec_count() == 4),
            },
    {
        proof {
            use_type_invariant(p);
            p.lemma_slots();
        }
        if p.kind != ChannelKind::U8 || p.count != 4 {
            return Err(TransformError::ChannelCountMismatch);
        }
        let c = Rgba { r: p.c0 as u8, g: p.c1 as u8, b: p.c2 as u8, a: p.c3 as u8 };
        assert(c@ =~= p@);
        Ok(c)
    }
}

} // verus!
