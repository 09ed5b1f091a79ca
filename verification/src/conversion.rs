use vstd::prelude::*;
use crate::color::{Rgb, Rgba};

verus! {

/// Alpha value of a fully opaque colour.
pub const OPAQUE: u8 = 255;

/// The RGBA colour with the red, green and blue of `rgb`, fully opaque.
pub fn rgb2rgba(rgb: Rgb) -> (rgba: Rgba)
    ensures
        rgba@ == rgb@.push(OPAQUE as int),
{
    let rgba = Rgba::new(rgb.get_red(), rgb.get_green(), rgb.get_blue(), OPAQUE);
    proof {
        rgb.lemma_view();
    }
    assert(rgba@ =~= rgb@.push(OPAQUE as int));
    rgba
}

/// The RGB colour with the red, green and blue of `rgba`; alpha is dropped.
pub fn rgba2rgb(rgba: Rgba) -> (rgb: Rgb)
    ensures
        rgb@ == rgba@.take(3),
{
    let rgb = Rgb::new(rgba.get_red(), rgba.get_green(), rgba.get_blue());
    proof {
        rgba.lemma_view();
    }
    assert(rgb@ =~= rgba@.take(3));
    rgb
}

} // verus!
