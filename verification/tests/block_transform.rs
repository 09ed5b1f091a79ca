use superpixel::compress::{Band, Calculate, Compress, Superpixel};
use superpixel::error::TransformError;
use superpixel::pixel_type::{ChannelKind, Pixel};

fn mono(kind: ChannelKind, v: i16) -> Pixel {
    Pixel::new(kind, &[v]).unwrap()
}

fn block(kind: ChannelKind, tl: i16, tr: i16, bl: i16, br: i16) -> Superpixel {
    Superpixel::new(mono(kind, tl), mono(kind, tr), mono(kind, bl), mono(kind, br)).unwrap()
}

fn values(b: &Superpixel) -> [i16; 4] {
    [
        b.get_top_left().channel(0).unwrap(),
        b.get_top_right().channel(0).unwrap(),
        b.get_bottom_left().channel(0).unwrap(),
        b.get_bottom_right().channel(0).unwrap(),
    ]
}

#[test]
fn block_of_ten_twenty_thirty_forty() {
    let b = block(ChannelKind::U8, 10, 20, 30, 40);
    assert_eq!(b.average().channel(0), Ok(25));
    assert_eq!(b.vertical_diff().channel(0), Ok(40));
    assert_eq!(b.horizontal_diff().channel(0), Ok(20));
    assert_eq!(b.diagonal_diff().channel(0), Ok(0));
    let back = b.forward().inverse();
    assert_eq!(values(&back), [10, 20, 30, 40]);
    assert_eq!(back, b);
}

#[test]
fn forward_places_coefficients_by_corner() {
    let b = block(ChannelKind::I16, 1, 2, 4, 8);
    let c = b.forward();
    // average, vertical, horizontal, diagonal
    assert_eq!(values(&c), [3, 9, 5, 3]);
    assert_eq!(c.get_top_left(), b.average());
    assert_eq!(c.get_top_right(), b.vertical_diff());
    assert_eq!(c.get_bottom_left(), b.horizontal_diff());
    assert_eq!(c.get_bottom_right(), b.diagonal_diff());
}

#[test]
fn average_rounds_toward_negative_infinity() {
    assert_eq!(block(ChannelKind::U8, 1, 1, 1, 0).average().channel(0), Ok(0));
    assert_eq!(block(ChannelKind::U8, 255, 255, 255, 254).average().channel(0), Ok(254));
    assert_eq!(block(ChannelKind::I8, -1, -1, -1, 0).average().channel(0), Ok(-1));
    assert_eq!(block(ChannelKind::I8, -1, 0, 0, 0).average().channel(0), Ok(-1));
    assert_eq!(block(ChannelKind::I16, -5, -5, -5, -5).average().channel(0), Ok(-5));
    assert_eq!(block(ChannelKind::I16, -32768, -32768, -32768, -32768).average().channel(0), Ok(-32768));
    assert_eq!(block(ChannelKind::I16, 32767, 32767, 32767, 32767).average().channel(0), Ok(32767));
}

#[test]
fn differences_are_clamped_not_wrapped() {
    let b = block(ChannelKind::U8, 255, 255, 0, 0);
    assert_eq!(b.vertical_diff().channel(0), Ok(0));
    assert_eq!(b.horizontal_diff().channel(0), Ok(0));
    assert_eq!(b.diagonal_diff().channel(0), Ok(0));
    let b = block(ChannelKind::U8, 0, 0, 255, 255);
    assert_eq!(b.vertical_diff().channel(0), Ok(255));
    let b = block(ChannelKind::I8, -128, -128, 127, 127);
    assert_eq!(b.vertical_diff().channel(0), Ok(127));
    let b = block(ChannelKind::I8, 127, 127, -128, -128);
    assert_eq!(b.vertical_diff().channel(0), Ok(-128));
    let b = block(ChannelKind::I16, -32768, 32767, -32768, 32767);
    assert_eq!(b.horizontal_diff().channel(0), Ok(32767));
    assert_eq!(b.diagonal_diff().channel(0), Ok(0));
}

#[test]
fn round_trip_is_exact_when_nothing_is_clamped() {
    let cases: [[i16; 4]; 6] = [
        [0, 0, 0, 0],
        [1, 2, 3, 5],
        [-7, 11, -13, 2],
        [100, -100, 33, -34],
        [-8191, 8191, -8191, 8191],
        [8000, 8000, -8000, -7999],
    ];
    for c in cases {
        let b = block(ChannelKind::I16, c[0], c[1], c[2], c[3]);
        assert_eq!(values(&b.forward().inverse()), c);
    }
}

#[test]
fn round_trip_with_every_remainder() {
    for extra in 0..4 {
        let b = block(ChannelKind::I16, 10 + extra, 10, 10, 10);
        assert_eq!(b.average().channel(0), Ok(10));
        assert_eq!(values(&b.forward().inverse()), [10 + extra, 10, 10, 10]);
    }
}

#[test]
fn inverse_of_given_coefficients() {
    // average 25, vertical 40, horizontal 20, diagonal 0
    let c = block(ChannelKind::U8, 25, 40, 20, 0);
    assert_eq!(values(&c.inverse()), [10, 20, 30, 40]);
    // coefficients that no block has: the result is clamped to the kind
    let c = block(ChannelKind::U8, 255, 255, 255, 255);
    assert_eq!(values(&c.inverse()), [192, 192, 192, 255]);
    let c = block(ChannelKind::U8, 0, 255, 0, 0);
    assert_eq!(values(&c.inverse()), [0, 0, 64, 64]);
}

#[test]
fn clamped_block_comes_back_changed() {
    let b = block(ChannelKind::U8, 200, 10, 10, 10);
    let c = b.forward();
    // vertical and horizontal are -190, stored as 0
    assert_eq!(values(&c), [57, 0, 0, 190]);
    assert_ne!(c.inverse(), b);
}

#[test]
fn transform_works_channel_by_channel() {
    let k = ChannelKind::U8;
    let tl = Pixel::new(k, &[10, 0, 255]).unwrap();
    let tr = Pixel::new(k, &[20, 0, 255]).unwrap();
    let bl = Pixel::new(k, &[30, 0, 255]).unwrap();
    let br = Pixel::new(k, &[40, 4, 255]).unwrap();
    let b = Superpixel::new(tl, tr, bl, br).unwrap();
    assert_eq!(b.average(), Pixel::new(k, &[25, 1, 255]).unwrap());
    assert_eq!(b.vertical_diff(), Pixel::new(k, &[40, 4, 0]).unwrap());
    assert_eq!(b.horizontal_diff(), Pixel::new(k, &[20, 4, 0]).unwrap());
    assert_eq!(b.diagonal_diff(), Pixel::new(k, &[0, 4, 0]).unwrap());
    assert_eq!(b.forward().inverse(), b);
}

#[test]
fn four_channel_block_round_trip() {
    let k = ChannelKind::I16;
    let tl = Pixel::new(k, &[1, -2, 3, -4]).unwrap();
    let tr = Pixel::new(k, &[5, 6, -7, 8]).unwrap();
    let bl = Pixel::new(k, &[-9, 10, 11, 12]).unwrap();
    let br = Pixel::new(k, &[13, -14, 15, -16]).unwrap();
    let b = Superpixel::new(tl, tr, bl, br).unwrap();
    let back = b.forward().inverse();
    assert_eq!(back.get_top_left(), tl);
    assert_eq!(back.get_top_right(), tr);
    assert_eq!(back.get_bottom_left(), bl);
    assert_eq!(back.get_bottom_right(), br);
}

#[test]
fn block_needs_one_layout() {
    let a = Pixel::new(ChannelKind::U8, &[1]).unwrap();
    let b = Pixel::new(ChannelKind::U8, &[1, 2, 3]).unwrap();
    let c = Pixel::new(ChannelKind::I8, &[1]).unwrap();
    assert_eq!(Superpixel::new(a, a, a, b), Err(TransformError::ChannelCountMismatch));
    assert_eq!(Superpixel::new(a, b, a, a), Err(TransformError::ChannelCountMismatch));
    assert_eq!(Superpixel::new(b, b, a, b), Err(TransformError::ChannelCountMismatch));
    assert_eq!(Superpixel::new(a, a, c, a), Err(TransformError::ChannelCountMismatch));
    assert!(Superpixel::new(b, b, b, b).is_ok());
}

#[test]
fn compress_takes_one_channel_of_a_block() {
    let k = ChannelKind::U8;
    let tl = Pixel::new(k, &[10, 0, 255]).unwrap();
    let tr = Pixel::new(k, &[20, 0, 255]).unwrap();
    let bl = Pixel::new(k, &[30, 0, 255]).unwrap();
    let br = Pixel::new(k, &[40, 4, 255]).unwrap();
    let b = Superpixel::new(tl, tr, bl, br).unwrap();
    assert_eq!(values(&b.compress(0).unwrap()), [25, 40, 20, 0]);
    assert_eq!(values(&b.compress(1).unwrap()), [1, 4, 4, 4]);
    assert_eq!(values(&b.compress(2).unwrap()), [255, 0, 0, 0]);
    assert_eq!(b.compress(3), Err(TransformError::ChannelIndexOutOfRange));
}

#[test]
fn coefficients_by_band() {
    let b = block(ChannelKind::I16, 1, 2, 4, 8);
    assert_eq!(b.coefficient(Band::Average), b.average());
    assert_eq!(b.coefficient(Band::Vertical), b.vertical_diff());
    assert_eq!(b.coefficient(Band::Horizontal), b.horizontal_diff());
    assert_eq!(b.coefficient(Band::Diagonal), b.diagonal_diff());
    assert_eq!(b.coefficient(Band::Vertical).channel(0), Ok(9));
    assert_eq!(b.coefficient(Band::Horizontal).channel(0), Ok(5));
    assert_eq!(b.coefficient(Band::Diagonal).channel(0), Ok(3));
}
