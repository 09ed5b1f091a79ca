use superpixel::compress::Compress;
use superpixel::error::TransformError;
use superpixel::my_image::Image;
use superpixel::pixel_type::{ChannelKind, Pixel};
use superpixel::pyramid::{
    build_pyramid, decompose_level, decompose_level_padded, reconstruct_level, reconstruct_pyramid,
};

fn plane(kind: ChannelKind, rows: &[&[i16]]) -> Image {
    let h = rows.len() as u32;
    let w = rows[0].len() as u32;
    let mut img = Image::new(w, h, kind, 1).unwrap();
    for y in 0..h {
        for x in 0..w {
            img.set_pixel(x, y, &[rows[y as usize][x as usize]]).unwrap();
        }
    }
    img
}

fn grid(img: &Image) -> Vec<Vec<i16>> {
    (0..img.get_height())
        .map(|y| (0..img.get_width()).map(|x| img.get_pixel(x, y).unwrap().channel(0).unwrap()).collect())
        .collect()
}

/// A deterministic image of signed values small enough that no difference
/// is clamped at any level.
fn noise(w: u32, h: u32) -> Image {
    let mut img = Image::new(w, h, ChannelKind::I16, 3).unwrap();
    let mut state: u32 = 12345;
    for y in 0..h {
        for x in 0..w {
            let mut v = [0i16; 3];
            for c in v.iter_mut() {
                state = state.wrapping_mul(1103515245).wrapping_add(12345);
                *c = ((state >> 16) % 16001) as i16 - 8000;
            }
            img.set_pixel(x, y, &v).unwrap();
        }
    }
    img
}

fn same(a: &Image, b: &Image) -> bool {
    a.get_width() == b.get_width()
        && a.get_height() == b.get_height()
        && (0..a.get_height()).all(|y| (0..a.get_width()).all(|x| a.get_pixel(x, y) == b.get_pixel(x, y)))
}

#[test]
fn level_has_four_quadrants() {
    let img = plane(
        ChannelKind::I16,
        &[&[10, 20, 1, 2], &[30, 40, 4, 8]],
    );
    let level = decompose_level(&img).unwrap();
    assert_eq!(level.source_width(), 4);
    assert_eq!(level.source_height(), 2);
    // averages on the left, vertical differences on the right, and below
    // them the horizontal and the diagonal differences
    assert_eq!(grid(level.coefficients()), vec![vec![25, 3, 40, 9], vec![20, 5, 0, 3]]);
}

#[test]
fn level_of_a_taller_image() {
    let img = plane(
        ChannelKind::I16,
        &[&[10, 20], &[30, 40], &[1, 2], &[4, 8]],
    );
    let level = decompose_level(&img).unwrap();
    assert_eq!(grid(level.coefficients()), vec![vec![25, 40], vec![3, 9], vec![20, 0], vec![5, 3]]);
    assert_eq!(grid(&level.average_plane()), vec![vec![25], vec![3]]);
}

#[test]
fn level_needs_even_sides() {
    let odd_w = Image::new(3, 2, ChannelKind::U8, 1).unwrap();
    let odd_h = Image::new(2, 3, ChannelKind::U8, 1).unwrap();
    let one = Image::new(1, 1, ChannelKind::U8, 1).unwrap();
    assert_eq!(decompose_level(&odd_w).err(), Some(TransformError::OddDimension));
    assert_eq!(decompose_level(&odd_h).err(), Some(TransformError::OddDimension));
    assert_eq!(decompose_level(&one).err(), Some(TransformError::OddDimension));
    assert!(decompose_level(&Image::new(2, 2, ChannelKind::U8, 1).unwrap()).is_ok());
}

#[test]
fn constant_image_has_no_differences_at_any_level() {
    for v in [0i16, 1, 77, 255] {
        let img = plane(ChannelKind::U8, &[&[v; 4], &[v; 4], &[v; 4], &[v; 4]]);
        let pyramid = build_pyramid(&img);
        assert_eq!(pyramid.len(), 2);
        let first = pyramid.level(0).unwrap();
        assert_eq!(
            grid(first.coefficients()),
            vec![vec![v, v, 0, 0], vec![v, v, 0, 0], vec![0, 0, 0, 0], vec![0, 0, 0, 0]]
        );
        assert_eq!(grid(&first.average_plane()), vec![vec![v, v], vec![v, v]]);
        let second = pyramid.level(1).unwrap();
        assert_eq!(grid(second.coefficients()), vec![vec![v, 0], vec![0, 0]]);
        assert_eq!(grid(&second.average_plane()), vec![vec![v]]);
        assert!(same(&reconstruct_pyramid(&pyramid).unwrap(), &img));
    }
}

#[test]
fn level_round_trip() {
    for (w, h) in [(2, 2), (4, 2), (2, 6), (8, 8), (10, 4)] {
        let img = noise(w, h);
        let level = decompose_level(&img).unwrap();
        assert_eq!(level.coefficients().get_width(), w);
        assert_eq!(level.coefficients().get_height(), h);
        assert!(same(&reconstruct_level(&level), &img));
    }
}

#[test]
fn padded_level_repeats_the_last_row_and_column() {
    let img = plane(ChannelKind::I16, &[&[1, 2, 3], &[4, 5, 6], &[7, 8, 9]]);
    let level = decompose_level_padded(&img);
    assert_eq!(level.source_width(), 3);
    assert_eq!(level.source_height(), 3);
    assert_eq!(level.coefficients().get_width(), 4);
    assert_eq!(level.coefficients().get_height(), 4);
    let padded = plane(
        ChannelKind::I16,
        &[&[1, 2, 3, 3], &[4, 5, 6, 6], &[7, 8, 9, 9], &[7, 8, 9, 9]],
    );
    let strict = decompose_level(&padded).unwrap();
    assert_eq!(grid(level.coefficients()), grid(strict.coefficients()));
    assert_eq!(
        grid(level.coefficients()),
        vec![vec![3, 4, 6, 6], vec![7, 9, 0, 0], vec![2, 0, 0, 0], vec![2, 0, 0, 0]]
    );
    // the padding is left out again
    assert!(same(&reconstruct_level(&level), &img));
    assert!(same(&reconstruct_level(&strict), &padded));
}

#[test]
fn padded_level_round_trip() {
    for (w, h) in [(1, 1), (1, 2), (3, 1), (3, 3), (5, 2), (7, 9)] {
        let img = noise(w, h);
        let level = decompose_level_padded(&img);
        assert_eq!(level.coefficients().get_width(), w + w % 2);
        assert_eq!(level.coefficients().get_height(), h + h % 2);
        assert!(same(&reconstruct_level(&level), &img));
    }
}

#[test]
fn clamped_level_is_an_approximation() {
    let img = plane(ChannelKind::U8, &[&[200, 10], &[10, 10]]);
    let level = decompose_level(&img).unwrap();
    assert_eq!(grid(level.coefficients()), vec![vec![57, 0], vec![0, 190]]);
    let back = reconstruct_level(&level);
    assert_eq!(grid(&back), vec![vec![105, 10], vec![10, 105]]);
}

#[test]
fn pyramid_of_a_power_of_two_square() {
    for k in 0..6u32 {
        let side = 1u32 << k;
        let img = noise(side, side);
        let pyramid = build_pyramid(&img);
        assert_eq!(pyramid.len(), k as usize);
        if k > 0 {
            let last = pyramid.level(k as usize - 1).unwrap();
            let top = last.average_plane();
            assert_eq!((top.get_width(), top.get_height()), (1, 1));
            assert_eq!(pyramid.level(0).unwrap().source_width(), side);
        }
        assert!(pyramid.level(k as usize).is_none());
    }
}

#[test]
fn pyramid_levels_halve() {
    let img = noise(8, 4);
    let pyramid = build_pyramid(&img);
    assert_eq!(pyramid.len(), 3);
    let sizes: Vec<(u32, u32)> =
        (0..3).map(|i| pyramid.level(i).unwrap()).map(|l| (l.source_width(), l.source_height())).collect();
    assert_eq!(sizes, vec![(8, 4), (4, 2), (2, 1)]);
    // each level decomposes the average plane of the one before
    let first = decompose_level(&img).unwrap();
    assert!(same(pyramid.level(0).unwrap().coefficients(), first.coefficients()));
    let second = decompose_level(&first.average_plane()).unwrap();
    assert!(same(pyramid.level(1).unwrap().coefficients(), second.coefficients()));
    let third = decompose_level_padded(&second.average_plane());
    assert!(same(pyramid.level(2).unwrap().coefficients(), third.coefficients()));
}

#[test]
fn pyramid_of_odd_sizes() {
    for (w, h, levels) in [(1, 1, 0), (2, 1, 1), (1, 2, 1), (3, 3, 2), (5, 3, 3), (9, 2, 4), (6, 7, 3)] {
        let img = noise(w, h);
        let pyramid = build_pyramid(&img);
        assert_eq!(pyramid.len(), levels);
    }
}

#[test]
fn pyramid_round_trip() {
    for (w, h) in [(2, 2), (4, 4), (8, 8), (16, 16), (8, 2), (3, 3), (5, 7), (1, 6), (13, 1)] {
        let img = noise(w, h);
        let pyramid = build_pyramid(&img);
        let back = reconstruct_pyramid(&pyramid).unwrap();
        assert!(same(&back, &img));
    }
}

#[test]
fn pyramid_of_one_pixel_has_nothing_to_reconstruct() {
    let img = noise(1, 1);
    let pyramid = build_pyramid(&img);
    assert_eq!(pyramid.len(), 0);
    assert_eq!(reconstruct_pyramid(&pyramid).err(), Some(TransformError::InvalidDimension));
}

#[test]
fn compress_decomposes_one_channel_of_an_image() {
    let mut img = Image::new(2, 2, ChannelKind::U8, 3).unwrap();
    img.set_pixel(0, 0, &[10, 0, 255]).unwrap();
    img.set_pixel(1, 0, &[20, 0, 255]).unwrap();
    img.set_pixel(0, 1, &[30, 0, 255]).unwrap();
    img.set_pixel(1, 1, &[40, 4, 255]).unwrap();
    assert_eq!(grid(&img.compress(0).unwrap()), vec![vec![25, 40], vec![20, 0]]);
    assert_eq!(grid(&img.compress(1).unwrap()), vec![vec![1, 4], vec![4, 4]]);
    assert_eq!(grid(&img.compress(2).unwrap()), vec![vec![255, 0], vec![0, 0]]);
    assert_eq!(img.compress(0).unwrap().channels_count(), 1);
    assert_eq!(img.compress(3).err(), Some(TransformError::ChannelIndexOutOfRange));
    let odd = Image::new(3, 2, ChannelKind::U8, 3).unwrap();
    assert_eq!(odd.compress(0).err(), Some(TransformError::OddDimension));
    assert_eq!(odd.compress(5).err(), Some(TransformError::ChannelIndexOutOfRange));
}

#[test]
fn level_keeps_every_channel() {
    let img = noise(4, 4);
    let level = decompose_level(&img).unwrap();
    assert_eq!(level.coefficients().channels_count(), 3);
    for c in 0..3 {
        let one = decompose_level(&img.split_channel(c).unwrap()).unwrap();
        let all = level.coefficients().split_channel(c).unwrap();
        assert!(same(one.coefficients(), &all));
    }
    let p: Pixel = level.coefficients().get_pixel(0, 0).unwrap();
    assert_eq!(p.kind(), ChannelKind::I16);
}

#[test]
fn into_coefficients_gives_the_grid() {
    let img = plane(ChannelKind::I16, &[&[10, 20], &[30, 40]]);
    let level = decompose_level(&img).unwrap();
    assert_eq!(grid(&level.into_coefficients()), vec![vec![25, 40], vec![20, 0]]);
}
