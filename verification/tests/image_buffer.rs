use superpixel::compress::Superpixel;
use superpixel::error::TransformError;
use superpixel::my_image::{Image, MAX_PIXELS};
use superpixel::pixel_type::{ChannelKind, Pixel};

fn px(kind: ChannelKind, v: &[i16]) -> Pixel {
    Pixel::new(kind, v).unwrap()
}

/// A `w` by `h` image of three U8 channels whose pixel (x, y) is (x, y, x + y).
fn ramp(w: u32, h: u32) -> Image {
    let mut img = Image::new(w, h, ChannelKind::U8, 3).unwrap();
    for y in 0..h {
        for x in 0..w {
            img.set_pixel(x, y, &[x as i16, y as i16, (x + y) as i16]).unwrap();
        }
    }
    img
}

#[test]
fn new_image_is_zero_everywhere() {
    let img = Image::new(3, 2, ChannelKind::I8, 4).unwrap();
    assert_eq!(img.get_width(), 3);
    assert_eq!(img.get_height(), 2);
    assert_eq!(img.kind(), ChannelKind::I8);
    assert_eq!(img.channels_count(), 4);
    for y in 0..2 {
        for x in 0..3 {
            assert_eq!(img.get_pixel(x, y), Ok(px(ChannelKind::I8, &[0, 0, 0, 0])));
        }
    }
}

#[test]
fn new_image_rejects_bad_dimensions() {
    let k = ChannelKind::U8;
    assert_eq!(Image::new(0, 5, k, 1).err(), Some(TransformError::InvalidDimension));
    assert_eq!(Image::new(5, 0, k, 1).err(), Some(TransformError::InvalidDimension));
    assert_eq!(Image::new(0, 0, k, 1).err(), Some(TransformError::InvalidDimension));
    assert_eq!(Image::new(u32::MAX, u32::MAX, k, 1).err(), Some(TransformError::InvalidDimension));
    assert_eq!(Image::new(u32::MAX, 1, k, 1).err(), Some(TransformError::InvalidDimension));
    // one column more than the limit allows
    let side = (MAX_PIXELS / 2) as u32;
    assert_eq!(Image::new(side + 1, 2, k, 1).err(), Some(TransformError::InvalidDimension));
    // an odd side counts as the next even one
    assert_eq!(Image::new(side, 3, k, 1).err(), Some(TransformError::InvalidDimension));
    // the dimension is looked at before the channel count
    assert_eq!(Image::new(0, 5, k, 2).err(), Some(TransformError::InvalidDimension));
}

#[test]
fn new_image_rejects_bad_channel_counts() {
    let k = ChannelKind::U8;
    assert_eq!(Image::new(2, 2, k, 0).err(), Some(TransformError::ChannelCountMismatch));
    assert_eq!(Image::new(2, 2, k, 2).err(), Some(TransformError::ChannelCountMismatch));
    assert_eq!(Image::new(2, 2, k, 5).err(), Some(TransformError::ChannelCountMismatch));
    assert!(Image::new(2, 2, k, 1).is_ok());
    assert!(Image::new(2, 2, k, 3).is_ok());
    assert!(Image::new(2, 2, k, 4).is_ok());
}

#[test]
fn get_and_set_check_bounds() {
    let mut img = Image::new(4, 3, ChannelKind::U8, 1).unwrap();
    assert_eq!(img.get_pixel(4, 0), Err(TransformError::OutOfBounds));
    assert_eq!(img.get_pixel(0, 3), Err(TransformError::OutOfBounds));
    assert_eq!(img.get_pixel(4, 3), Err(TransformError::OutOfBounds));
    assert_eq!(img.get_pixel(u32::MAX, u32::MAX), Err(TransformError::OutOfBounds));
    assert_eq!(img.set_pixel(4, 0, &[1]), Err(TransformError::OutOfBounds));
    assert_eq!(img.set_pixel(0, 3, &[1]), Err(TransformError::OutOfBounds));
    assert_eq!(img.set_pixel(3, 2, &[9]), Ok(()));
    assert_eq!(img.get_pixel(3, 2), Ok(px(ChannelKind::U8, &[9])));
    assert_eq!(img.set_pixel(0, 0, &[7]), Ok(()));
    assert_eq!(img.get_pixel(0, 0), Ok(px(ChannelKind::U8, &[7])));
}

#[test]
fn set_changes_one_pixel_only() {
    let mut img = Image::new(3, 3, ChannelKind::I16, 3).unwrap();
    img.set_pixel(1, 2, &[-5, 6, 7]).unwrap();
    for y in 0..3 {
        for x in 0..3 {
            let want = if (x, y) == (1, 2) { [-5, 6, 7] } else { [0, 0, 0] };
            assert_eq!(img.get_pixel(x, y), Ok(px(ChannelKind::I16, &want)));
        }
    }
    // x is the column and y the row
    img.set_pixel(2, 0, &[1, 1, 1]).unwrap();
    assert_eq!(img.get_pixel(0, 2), Ok(px(ChannelKind::I16, &[0, 0, 0])));
    assert_eq!(img.get_pixel(2, 0), Ok(px(ChannelKind::I16, &[1, 1, 1])));
}

#[test]
fn set_rejects_pixels_of_another_layout() {
    let mut img = Image::new(2, 2, ChannelKind::U8, 3).unwrap();
    assert_eq!(img.set_pixel(0, 0, &[1]), Err(TransformError::ChannelCountMismatch));
    assert_eq!(img.set_pixel(0, 0, &[1, 2, 3, 4]), Err(TransformError::ChannelCountMismatch));
    assert_eq!(img.set_pixel(0, 0, &[1, 2, 256]), Err(TransformError::Overflow));
    assert_eq!(img.set_pixel(0, 0, &[-1, 2, 3]), Err(TransformError::Overflow));
    // bounds come first, then the count, then the values
    assert_eq!(img.set_pixel(2, 0, &[1]), Err(TransformError::OutOfBounds));
    assert_eq!(img.set_pixel(0, 0, &[300]), Err(TransformError::ChannelCountMismatch));
    // a failed set changes nothing
    assert_eq!(img.get_pixel(0, 0), Ok(px(ChannelKind::U8, &[0, 0, 0])));
}

#[test]
fn rectangular_image_keeps_rows_and_columns_apart() {
    let img = ramp(5, 2);
    assert_eq!(img.get_pixel(4, 1), Ok(px(ChannelKind::U8, &[4, 1, 5])));
    assert_eq!(img.get_pixel(1, 0), Ok(px(ChannelKind::U8, &[1, 0, 1])));
    assert_eq!(img.get_pixel(1, 4), Err(TransformError::OutOfBounds));
}

#[test]
fn split_channel_extracts_one_plane() {
    let img = ramp(3, 2);
    let plane = img.split_channel(2).unwrap();
    assert_eq!(plane.get_width(), 3);
    assert_eq!(plane.get_height(), 2);
    assert_eq!(plane.channels_count(), 1);
    assert_eq!(plane.kind(), ChannelKind::U8);
    for y in 0..2 {
        for x in 0..3 {
            assert_eq!(plane.get_pixel(x, y), Ok(px(ChannelKind::U8, &[(x + y) as i16])));
        }
    }
    assert_eq!(img.split_channel(3).err(), Some(TransformError::ChannelIndexOutOfRange));
    assert_eq!(plane.split_channel(1).err(), Some(TransformError::ChannelIndexOutOfRange));
    // the source is untouched
    assert_eq!(img.get_pixel(2, 1), Ok(px(ChannelKind::U8, &[2, 1, 3])));
}

#[test]
fn split_gives_the_first_three_planes() {
    let img = ramp(2, 2);
    let (a, b, c) = img.split().unwrap();
    assert_eq!(a.get_pixel(1, 0), Ok(px(ChannelKind::U8, &[1])));
    assert_eq!(b.get_pixel(1, 0), Ok(px(ChannelKind::U8, &[0])));
    assert_eq!(c.get_pixel(1, 1), Ok(px(ChannelKind::U8, &[2])));
    let mono = Image::new(2, 2, ChannelKind::U8, 1).unwrap();
    assert_eq!(mono.split().err(), Some(TransformError::ChannelIndexOutOfRange));
    let mut rgba = Image::new(1, 1, ChannelKind::U8, 4).unwrap();
    rgba.set_pixel(0, 0, &[1, 2, 3, 4]).unwrap();
    let (r, g, b) = rgba.split().unwrap();
    assert_eq!(r.get_pixel(0, 0), Ok(px(ChannelKind::U8, &[1])));
    assert_eq!(g.get_pixel(0, 0), Ok(px(ChannelKind::U8, &[2])));
    assert_eq!(b.get_pixel(0, 0), Ok(px(ChannelKind::U8, &[3])));
}

#[test]
fn superpixels_come_in_raster_order() {
    let img = ramp(4, 4);
    let blocks = img.get_superpixels(0).unwrap();
    assert_eq!(blocks.len(), 4);
    let k = ChannelKind::U8;
    let block = |tl, tr, bl, br| Superpixel::new(px(k, &[tl]), px(k, &[tr]), px(k, &[bl]), px(k, &[br])).unwrap();
    // channel 0 is the column
    assert_eq!(blocks[0], block(0, 1, 0, 1));
    assert_eq!(blocks[1], block(2, 3, 2, 3));
    assert_eq!(blocks[2], block(0, 1, 0, 1));
    assert_eq!(blocks[3], block(2, 3, 2, 3));
    // channel 1 is the row
    let blocks = img.get_superpixels(1).unwrap();
    assert_eq!(blocks[0], block(0, 0, 1, 1));
    assert_eq!(blocks[1], block(0, 0, 1, 1));
    assert_eq!(blocks[2], block(2, 2, 3, 3));
    assert_eq!(blocks[3], block(2, 2, 3, 3));
    let wide = ramp(6, 2);
    let blocks = wide.get_superpixels(2).unwrap();
    assert_eq!(blocks.len(), 3);
    assert_eq!(blocks[2], block(4, 5, 5, 6));
}

#[test]
fn superpixels_need_a_channel_and_even_sides() {
    assert_eq!(ramp(4, 4).get_superpixels(3).err(), Some(TransformError::ChannelIndexOutOfRange));
    assert_eq!(ramp(3, 4).get_superpixels(0).err(), Some(TransformError::OddDimension));
    assert_eq!(ramp(4, 1).get_superpixels(0).err(), Some(TransformError::OddDimension));
    // the channel is looked at first
    assert_eq!(ramp(3, 3).get_superpixels(9).err(), Some(TransformError::ChannelIndexOutOfRange));
}

#[test]
fn image_from_decoded_bytes() {
    let bytes: Vec<u8> = (0..24).collect();
    let img = Image::from_png(3, 2, &bytes).unwrap();
    assert_eq!(img.get_width(), 3);
    assert_eq!(img.get_height(), 2);
    assert_eq!(img.kind(), ChannelKind::U8);
    assert_eq!(img.channels_count(), 4);
    assert_eq!(img.get_pixel(0, 0), Ok(px(ChannelKind::U8, &[0, 1, 2, 3])));
    assert_eq!(img.get_pixel(2, 0), Ok(px(ChannelKind::U8, &[8, 9, 10, 11])));
    assert_eq!(img.get_pixel(0, 1), Ok(px(ChannelKind::U8, &[12, 13, 14, 15])));
    assert_eq!(img.get_pixel(2, 1), Ok(px(ChannelKind::U8, &[20, 21, 22, 23])));
    assert_eq!(img.to_rgba_bytes(), bytes);
}

#[test]
fn image_from_bytes_rejects_wrong_sizes() {
    let bytes = vec![0u8; 24];
    assert_eq!(Image::from_png(3, 3, &bytes).err(), Some(TransformError::InvalidDimension));
    assert_eq!(Image::from_png(0, 2, &bytes).err(), Some(TransformError::InvalidDimension));
    assert_eq!(Image::from_png(2, 0, &bytes).err(), Some(TransformError::InvalidDimension));
    assert_eq!(Image::from_png(0, 0, &[]).err(), Some(TransformError::InvalidDimension));
    assert_eq!(Image::from_png(3, 2, &bytes[..23]).err(), Some(TransformError::InvalidDimension));
    assert_eq!(Image::from_png(u32::MAX, u32::MAX, &bytes).err(), Some(TransformError::InvalidDimension));
    assert!(Image::from_png(6, 1, &bytes).is_ok());
}

#[test]
fn bytes_for_an_encoder() {
    let rgb = ramp(2, 2);
    assert_eq!(
        rgb.to_rgba_bytes(),
        vec![0, 0, 0, 255, 1, 0, 1, 255, 0, 1, 1, 255, 1, 1, 2, 255]
    );
    let mut grey = Image::new(2, 1, ChannelKind::U8, 1).unwrap();
    grey.set_pixel(1, 0, &[77]).unwrap();
    assert_eq!(grey.to_rgba_bytes(), vec![0, 0, 0, 255, 77, 77, 77, 255]);
    let mut signed = Image::new(1, 2, ChannelKind::I16, 4).unwrap();
    signed.set_pixel(0, 0, &[-1, 0, 255, 256]).unwrap();
    signed.set_pixel(0, 1, &[32767, -32768, 100, 3]).unwrap();
    assert_eq!(signed.to_rgba_bytes(), vec![0, 0, 255, 255, 255, 0, 100, 3]);
}

#[test]
fn alpha_added_and_dropped_over_an_image() {
    let rgb = ramp(2, 2);
    let rgba = rgb.to_rgba().unwrap();
    assert_eq!(rgba.channels_count(), 4);
    assert_eq!(rgba.get_pixel(1, 1), Ok(px(ChannelKind::U8, &[1, 1, 2, 255])));
    assert_eq!(rgba.get_pixel(0, 1), Ok(px(ChannelKind::U8, &[0, 1, 1, 255])));
    let back = rgba.to_rgb().unwrap();
    assert_eq!(back.channels_count(), 3);
    for y in 0..2 {
        for x in 0..2 {
            assert_eq!(back.get_pixel(x, y), rgb.get_pixel(x, y));
        }
    }
    // an image that has the asked layout already is copied
    assert_eq!(rgb.to_rgb().unwrap().get_pixel(1, 0), Ok(px(ChannelKind::U8, &[1, 0, 1])));
    let mut with_alpha = Image::new(1, 1, ChannelKind::U8, 4).unwrap();
    with_alpha.set_pixel(0, 0, &[1, 2, 3, 4]).unwrap();
    assert_eq!(with_alpha.to_rgba().unwrap().get_pixel(0, 0), Ok(px(ChannelKind::U8, &[1, 2, 3, 4])));
    assert_eq!(with_alpha.to_rgb().unwrap().get_pixel(0, 0), Ok(px(ChannelKind::U8, &[1, 2, 3])));
}

#[test]
fn colour_conversion_needs_colour_pixels() {
    let grey = Image::new(2, 2, ChannelKind::U8, 1).unwrap();
    assert_eq!(grey.to_rgb().err(), Some(TransformError::ChannelCountMismatch));
    assert_eq!(grey.to_rgba().err(), Some(TransformError::ChannelCountMismatch));
    let signed = Image::new(2, 2, ChannelKind::I16, 3).unwrap();
    assert_eq!(signed.to_rgb().err(), Some(TransformError::ChannelCountMismatch));
    assert_eq!(signed.to_rgba().err(), Some(TransformError::ChannelCountMismatch));
}
