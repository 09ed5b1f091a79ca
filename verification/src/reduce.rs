use vstd::prelude::*;
use crate::color::YCbCr;
use crate::compress::{band_of, Band, Superpixel};
use crate::error::TransformError;
use crate::pixel_type::ChannelKind;

verus! {

/// The coefficient at place `i` of a reduced block: the average first, then
/// the vertical, the horizontal and the diagonal difference.
pub open spec fn band_at(i: int) -> Band {
    if i == 0 {
        Band::Average
    } else if i == 1 {
        Band::Vertical
    } else if i == 2 {
        Band::Horizontal
    } else {
        Band::Diagonal
    }
}

/// One channel of the colour at place `i` of a reduced block: the coefficient
/// of the values `tl`, `tr`, `bl` and `br`, clamped to 0..=255.
pub open spec fn reduced_value(i: int, tl: int, tr: int, bl: int, br: int) -> int {
    ChannelKind::U8.clamped(band_of(band_at(i), tl, tr, bl, br))
}

/// Whether `out` is the reduction of the block `block`, whose first four
/// colours are its top-left, top-right, bottom-left and bottom-right pixel:
/// four colours, the average, the vertical, the horizontal and the diagonal
/// difference, channel by channel.
pub open spec fn reduces_to(block: Seq<YCbCr>, out: Seq<YCbCr>) -> bool {
    &&& out.len() == 4
    &&& forall|i: int, c: int|
        0 <= i < 4 && 0 <= c < 3 ==> (#[trigger] out[i]@[c]) == reduced_value(
            i,
            block[0]@[c],
            block[1]@[c],
            block[2]@[c],
            block[3]@[c],
        )
}

/// Reduces one block of at least four colours.
fn reduce_sp(superpixel: &Vec<YCbCr>) -> (r: Vec<YCbCr>)
    requires
        superpixel@.len() >= 4,
    ensures
        reduces_to(superpixel@, r@),
{
    let tl = superpixel[0].to_pixel();
    let tr = superpixel[1].to_pixel();
    let bl = superpixel[2].to_pixel();
    let br = superpixel[3].to_pixel();
    let block = Superpixel::of(tl, tr, bl, br);
    let bands = block.forward();
    proof {
        block.lemma_coefficients();
        bands.lemma_wf();
        superpixel@[0].lemma_view();
        superpixel@[1].lemma_view();
        superpixel@[2].lemma_view();
        superpixel@[3].lemma_view();
    }
    let average = YCbCr::from_pixel(&bands.get_top_left()).unwrap();
    let vertical = YCbCr::from_pixel(&bands.get_top_right()).unwrap();
    let horizontal = YCbCr::from_pixel(&bands.get_bottom_left()).unwrap();
    let diagonal = YCbCr::from_pixel(&bands.get_bottom_right()).unwrap();
    let mut r: Vec<YCbCr> = Vec::new();
    r.push(average);
    r.push(vertical);
    r.push(horizontal);
    r.push(diagonal);
    proof {
        assert forall|i: int, c: int| 0 <= i < 4 && 0 <= c < 3 implies (
        #[trigger] r@[i]@[c]) == reduced_value(
            i,
            superpixel@[0]@[c],
            superpixel@[1]@[c],
            superpixel@[2]@[c],
            superpixel@[3]@[c],
        ) by {}
    }
    r
}

/// Reduces every block of an image given block by block: each block is
/// replaced by its average, its vertical, its horizontal and its diagonal
/// difference, in that order. The first four colours of a block are its
/// top-left, top-right, bottom-left and bottom-right pixel; further colours
/// are ignored.
///
/// Fails with `InvalidDimension` if a block has fewer than four colours.
pub fn reduce_image(superpixels: Vec<Vec<YCbCr>>) -> (r: Result<Vec<Vec<YCbCr>>, TransformError>)
    ensures
        match r {
            Ok(reduced) => {
                &&& reduced@.len() == superpixels@.len()
                &&& forall|k: int|
                    0 <= k < superpixels@.len() ==> (#[trigger] superpixels@[k])@.len() >= 4
                        && reduces_to(superpixels@[k]@, reduced@[k]@)
            },
            Err(e) => e == TransformError::InvalidDimension && exists|k: int|
                0 <= k < superpixels@.len() && (#[trigger] superpixels@[k])@.len() < 4,
        },
{
    let mut reduced: Vec<Vec<YCbCr>> = Vec::new();
    let n: usize = superpixels.len();
    let mut k: usize = 0;
    while k < n
        invariant
            n == superpixels@.len(),
            k <= n,
            reduced@.len() == k,
            forall|j: int|
                0 <= j < k ==> (#[trigger] superpixels@[j])@.len() >= 4 && reduces_to(
                    superpixels@[j]@,
                    reduced@[j]@,
                ),
        decreases n - k,
    {
        if superpixels[k].len() < 4 {
            return Err(TransformError::InvalidDimension);
        }
        let block = reduce_sp(&superpixels[k]);
        reduced.push(block);
        k += 1;
    }
    Ok(reduced)
}

} // verus!
