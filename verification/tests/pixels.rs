use superpixel::color::{Rgb, Rgba, YCbCr};
use superpixel::conversion::{rgb2rgba, rgba2rgb};
use superpixel::error::TransformError;
use superpixel::pixel_type::{ChannelKind, Pixel, PixelTrait, PixelType};
use superpixel::reduce::reduce_image;

#[test]
fn pixel_holds_its_channels() {
    let p = Pixel::new(ChannelKind::I16, &[-3, 0, 32767]).unwrap();
    assert_eq!(p.kind(), ChannelKind::I16);
    assert_eq!(p.channels_count(), 3);
    assert_eq!(p.channel(0), Ok(-3));
    assert_eq!(p.channel(1), Ok(0));
    assert_eq!(p.channel(2), Ok(32767));
    assert_eq!(p.channel(3), Err(TransformError::ChannelIndexOutOfRange));
    let q = Pixel::new(ChannelKind::U8, &[1, 2, 3, 4]).unwrap();
    assert_eq!(q.channels_count(), 4);
    assert_eq!(q.channel(3), Ok(4));
    assert_eq!(q.channel(4), Err(TransformError::ChannelIndexOutOfRange));
}

#[test]
fn pixel_equality_is_by_kind_and_channels() {
    let a = Pixel::new(ChannelKind::U8, &[1, 2, 3]).unwrap();
    assert_eq!(a, Pixel::new(ChannelKind::U8, &[1, 2, 3]).unwrap());
    assert_ne!(a, Pixel::new(ChannelKind::U8, &[1, 2, 4]).unwrap());
    assert_ne!(a, Pixel::new(ChannelKind::I16, &[1, 2, 3]).unwrap());
    assert_ne!(a, Pixel::new(ChannelKind::U8, &[1, 2, 3, 0]).unwrap());
}

#[test]
fn pixel_rejects_bad_channel_counts() {
    let k = ChannelKind::U8;
    assert_eq!(Pixel::new(k, &[]), Err(TransformError::ChannelCountMismatch));
    assert_eq!(Pixel::new(k, &[1, 2]), Err(TransformError::ChannelCountMismatch));
    assert_eq!(Pixel::new(k, &[1, 2, 3, 4, 5]), Err(TransformError::ChannelCountMismatch));
    // the count is looked at before the values
    assert_eq!(Pixel::new(k, &[-1, 2]), Err(TransformError::ChannelCountMismatch));
    assert_eq!(Pixel::zero(k, 0), Err(TransformError::ChannelCountMismatch));
    assert_eq!(Pixel::zero(k, 2), Err(TransformError::ChannelCountMismatch));
    assert_eq!(Pixel::zero(k, 5), Err(TransformError::ChannelCountMismatch));
}

#[test]
fn pixel_rejects_values_outside_its_kind() {
    assert_eq!(Pixel::new(ChannelKind::U8, &[-1]), Err(TransformError::Overflow));
    assert_eq!(Pixel::new(ChannelKind::U8, &[0, 0, 256]), Err(TransformError::Overflow));
    assert_eq!(Pixel::new(ChannelKind::I8, &[128]), Err(TransformError::Overflow));
    assert_eq!(Pixel::new(ChannelKind::I8, &[0, -129, 0, 0]), Err(TransformError::Overflow));
    assert!(Pixel::new(ChannelKind::U8, &[0, 255, 128]).is_ok());
    assert!(Pixel::new(ChannelKind::I8, &[-128, 127, 0]).is_ok());
    assert!(Pixel::new(ChannelKind::I16, &[-32768, 32767, 0, 1]).is_ok());
}

#[test]
fn zero_pixel() {
    let z = Pixel::zero(ChannelKind::I8, 3).unwrap();
    assert_eq!(z, Pixel::new(ChannelKind::I8, &[0, 0, 0]).unwrap());
    assert_eq!(Pixel::zero(ChannelKind::U8, 1).unwrap().channels_count(), 1);
    assert_eq!(Pixel::zero(ChannelKind::U8, 4).unwrap().channel(3), Ok(0));
}

#[test]
fn single_channel_of_a_pixel() {
    let p = Pixel::new(ChannelKind::U8, &[7, 8, 9]).unwrap();
    assert_eq!(p.single(0), Pixel::new(ChannelKind::U8, &[7]));
    assert_eq!(p.single(2), Pixel::new(ChannelKind::U8, &[9]));
    assert_eq!(p.single(3), Err(TransformError::ChannelIndexOutOfRange));
}

#[test]
fn ranges_of_the_channel_kinds() {
    assert_eq!((ChannelKind::U8.lowest(), ChannelKind::U8.highest()), (0, 255));
    assert_eq!((ChannelKind::I8.lowest(), ChannelKind::I8.highest()), (-128, 127));
    assert_eq!((ChannelKind::I16.lowest(), ChannelKind::I16.highest()), (-32768, 32767));
    assert_eq!(ChannelKind::U8.clamp(-1), 0);
    assert_eq!(ChannelKind::U8.clamp(256), 255);
    assert_eq!(ChannelKind::U8.clamp(100), 100);
    assert_eq!(ChannelKind::I8.clamp(-1000), -128);
    assert_eq!(ChannelKind::I8.clamp(1000), 127);
    assert_eq!(ChannelKind::I16.clamp(i32::MIN), -32768);
    assert_eq!(ChannelKind::I16.clamp(i32::MAX), 32767);
    assert_eq!(ChannelKind::I16.clamp(-32768), -32768);
}

#[test]
fn channel_counts_of_the_colour_spaces() {
    assert_eq!(PixelType::Rgb.channels_count(), 3);
    assert_eq!(PixelType::Rgba.channels_count(), 4);
    assert_eq!(PixelType::YCbCr.channels_count(), 3);
    assert_eq!(PixelType::Yuv.channels_count(), 3);
}

#[test]
fn colours_give_back_their_channels() {
    let c = Rgb::new(1, 2, 3);
    assert_eq!((c.get_red(), c.get_green(), c.get_blue()), (1, 2, 3));
    let c = Rgba::new(1, 2, 3, 4);
    assert_eq!((c.get_red(), c.get_green(), c.get_blue(), c.get_alpha()), (1, 2, 3, 4));
    let c = YCbCr::new(5, 6, 7);
    assert_eq!((c.get_y(), c.get_cb(), c.get_cr()), (5, 6, 7));
}

#[test]
fn colours_and_pixels() {
    let k = ChannelKind::U8;
    assert_eq!(Rgb::new(1, 2, 255).to_pixel(), Pixel::new(k, &[1, 2, 255]).unwrap());
    assert_eq!(Rgba::new(1, 2, 3, 255).to_pixel(), Pixel::new(k, &[1, 2, 3, 255]).unwrap());
    assert_eq!(YCbCr::new(9, 8, 7).to_pixel(), Pixel::new(k, &[9, 8, 7]).unwrap());
    let three = Pixel::new(k, &[1, 2, 3]).unwrap();
    let four = Pixel::new(k, &[1, 2, 3, 4]).unwrap();
    let signed = Pixel::new(ChannelKind::I16, &[1, 2, 3]).unwrap();
    assert_eq!(Rgb::from_pixel(&three), Ok(Rgb::new(1, 2, 3)));
    assert_eq!(YCbCr::from_pixel(&three), Ok(YCbCr::new(1, 2, 3)));
    assert_eq!(Rgba::from_pixel(&four), Ok(Rgba::new(1, 2, 3, 4)));
    assert_eq!(Rgb::from_pixel(&four), Err(TransformError::ChannelCountMismatch));
    assert_eq!(Rgba::from_pixel(&three), Err(TransformError::ChannelCountMismatch));
    assert_eq!(Rgb::from_pixel(&signed), Err(TransformError::ChannelCountMismatch));
    assert_eq!(YCbCr::from_pixel(&signed), Err(TransformError::ChannelCountMismatch));
}

#[test]
fn alpha_is_added_opaque_and_dropped() {
    assert_eq!(rgb2rgba(Rgb::new(10, 20, 30)), Rgba::new(10, 20, 30, 255));
    assert_eq!(rgba2rgb(Rgba::new(10, 20, 30, 40)), Rgb::new(10, 20, 30));
    assert_eq!(rgba2rgb(rgb2rgba(Rgb::new(0, 128, 255))), Rgb::new(0, 128, 255));
}

#[test]
fn colour_spaces_through_the_trait() {
    assert_eq!(Rgb::channels_count(), 3);
    assert_eq!(Rgba::channels_count(), 4);
    assert_eq!(YCbCr::channels_count(), 3);
    assert_eq!(Rgb::get_type(), PixelType::Rgb);
    assert_eq!(Rgba::get_type(), PixelType::Rgba);
    assert_eq!(YCbCr::get_type(), PixelType::YCbCr);
    assert_eq!(Rgb::default_pixel(), Rgb::new(0, 0, 0));
    assert_eq!(Rgba::default_pixel(), Rgba::new(0, 0, 0, 255));
    assert_eq!(YCbCr::default_pixel(), YCbCr::new(0, 0, 0));
    assert_eq!(Rgba::new(1, 2, 3, 4).channels(), Pixel::new(ChannelKind::U8, &[1, 2, 3, 4]).unwrap());
    assert_eq!(YCbCr::new(1, 2, 3).channels(), Pixel::new(ChannelKind::U8, &[1, 2, 3]).unwrap());
}

#[test]
fn colours_from_channel_values() {
    assert_eq!(Rgb::from_channels(&[1, 2, 3]), Ok(Rgb::new(1, 2, 3)));
    assert_eq!(Rgb::from_channels(&[1, 2, 3, 4]), Err(TransformError::ChannelCountMismatch));
    assert_eq!(Rgb::from_channels(&[1, 2]), Err(TransformError::ChannelCountMismatch));
    assert_eq!(Rgba::from_channels(&[1, 2, 3]), Ok(Rgba::new(1, 2, 3, 255)));
    assert_eq!(Rgba::from_channels(&[1, 2, 3, 4]), Ok(Rgba::new(1, 2, 3, 4)));
    assert_eq!(Rgba::from_channels(&[1, 2, 3, 4, 5]), Err(TransformError::ChannelCountMismatch));
    assert_eq!(Rgba::from_channels(&[]), Err(TransformError::ChannelCountMismatch));
    assert_eq!(YCbCr::from_channels(&[9, 8, 7]), Ok(YCbCr::new(9, 8, 7)));
    assert_eq!(YCbCr::from_channels(&[9]), Err(TransformError::ChannelCountMismatch));
}

#[test]
fn channels_by_position() {
    let c = Rgba::new(1, 2, 3, 4);
    assert_eq!(c.get_first_channel(), 1);
    assert_eq!(c.get_second_channel(), 2);
    assert_eq!(c.get_third_channel(), 3);
    assert_eq!(c.get_fourth_channel(), Ok(4));
    let c = Rgb::new(5, 6, 7);
    assert_eq!(c.get_first_channel(), 5);
    assert_eq!(c.get_second_channel(), 6);
    assert_eq!(c.get_third_channel(), 7);
    assert_eq!(c.get_fourth_channel(), Err(TransformError::ChannelIndexOutOfRange));
    let c = YCbCr::new(8, 9, 10);
    assert_eq!(c.get_first_channel(), 8);
    assert_eq!(c.get_second_channel(), 9);
    assert_eq!(c.get_third_channel(), 10);
    assert_eq!(c.get_fourth_channel(), Err(TransformError::ChannelIndexOutOfRange));
}

#[test]
fn colour_with_one_channel_set() {
    assert_eq!(Rgb::from_one_channel(9, 0), Ok(Rgb::new(9, 0, 0)));
    assert_eq!(Rgb::from_one_channel(9, 1), Ok(Rgb::new(0, 9, 0)));
    assert_eq!(Rgb::from_one_channel(9, 2), Ok(Rgb::new(0, 0, 9)));
    assert_eq!(Rgb::from_one_channel(9, 3), Err(TransformError::ChannelIndexOutOfRange));
    assert_eq!(Rgba::from_one_channel(9, 1), Ok(Rgba::new(0, 9, 0, 255)));
    assert_eq!(Rgba::from_one_channel(9, 3), Ok(Rgba::new(0, 0, 0, 9)));
    assert_eq!(Rgba::from_one_channel(9, 4), Err(TransformError::ChannelIndexOutOfRange));
    assert_eq!(YCbCr::from_one_channel(200, 2), Ok(YCbCr::new(0, 0, 200)));
    assert_eq!(YCbCr::from_one_channel(200, 7), Err(TransformError::ChannelIndexOutOfRange));
}

#[test]
fn reduce_image_reduces_every_block() {
    let blocks = vec![
        vec![YCbCr::new(10, 0, 255), YCbCr::new(20, 0, 255), YCbCr::new(30, 0, 255), YCbCr::new(40, 4, 255)],
        vec![YCbCr::new(200, 1, 1), YCbCr::new(10, 1, 1), YCbCr::new(10, 1, 1), YCbCr::new(10, 1, 1)],
    ];
    let reduced = reduce_image(blocks).unwrap();
    assert_eq!(reduced.len(), 2);
    assert_eq!(
        reduced[0],
        vec![YCbCr::new(25, 1, 255), YCbCr::new(40, 4, 0), YCbCr::new(20, 4, 0), YCbCr::new(0, 4, 0)]
    );
    assert_eq!(
        reduced[1],
        vec![YCbCr::new(57, 1, 1), YCbCr::new(0, 0, 0), YCbCr::new(0, 0, 0), YCbCr::new(190, 0, 0)]
    );
}

#[test]
fn reduce_image_edge_cases() {
    assert_eq!(reduce_image(vec![]), Ok(vec![]));
    let short = vec![vec![YCbCr::new(1, 1, 1); 4], vec![YCbCr::new(1, 1, 1); 3]];
    assert_eq!(reduce_image(short), Err(TransformError::InvalidDimension));
    // colours after the fourth are ignored
    let long = vec![vec![YCbCr::new(8, 8, 8); 6]];
    assert_eq!(
        reduce_image(long),
        Ok(vec![vec![YCbCr::new(8, 8, 8), YCbCr::new(0, 0, 0), YCbCr::new(0, 0, 0), YCbCr::new(0, 0, 0)]])
    );
}
