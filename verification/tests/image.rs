//! Pixel, channel and row access, and the walks over an image.

use farbfeld::{FarbfeldImage, CHANNELS_PER_PIXEL};

fn all_rows(img: &FarbfeldImage) -> Vec<&[u16]> {
    let mut walk = img.rows();
    let mut out = Vec::new();
    while let Some(row) = walk.next() {
        out.push(row);
    }
    out
}

fn all_rows_from_bottom(img: &FarbfeldImage) -> Vec<&[u16]> {
    let mut walk = img.rows();
    let mut out = Vec::new();
    while let Some(row) = walk.next_back() {
        out.push(row);
    }
    out
}

fn all_quads(img: &FarbfeldImage) -> Vec<[u16; 4]> {
    let mut walk = img.pixels();
    let mut out = Vec::new();
    while let Some(quad) = walk.next() {
        out.push(quad);
    }
    out
}

fn all_quads_from_end(img: &FarbfeldImage) -> Vec<[u16; 4]> {
    let mut walk = img.pixels();
    let mut out = Vec::new();
    while let Some(quad) = walk.next_back() {
        out.push(quad);
    }
    out
}

fn red_green_image() -> FarbfeldImage {
    FarbfeldImage::new(
        2,
        1,
        vec![
            0xFFFF, 0x0000, 0x0000, 0xFFFF,
            0x0000, 0xFFFF, 0x0000, 0xFFFF,
        ],
    )
    .unwrap()
}

#[test]
fn new_rejects_mismatched_pixel_buffer() {
    assert!(FarbfeldImage::new(2, 2, vec![0u16; 4]).is_none());
    assert!(FarbfeldImage::new(1, 1, vec![]).is_none());
}

#[test]
fn new_accepts_zero_dim_with_empty_buffer() {
    let img = FarbfeldImage::new(0, 0, vec![]).unwrap();
    assert_eq!(img.pixel_count(), 0);
    let img = FarbfeldImage::new(0, 5, vec![]).unwrap();
    assert_eq!(img.pixel_count(), 0);
}

#[test]
fn pixel_reads_each_channel_in_rgba_order() {
    let img = red_green_image();
    assert_eq!(img.pixel(0, 0), Some([0xFFFF, 0x0000, 0x0000, 0xFFFF]));
    assert_eq!(img.pixel(1, 0), Some([0x0000, 0xFFFF, 0x0000, 0xFFFF]));
}

#[test]
fn pixel_returns_none_out_of_bounds() {
    let img = red_green_image();
    assert_eq!(img.pixel(2, 0), None);
    assert_eq!(img.pixel(0, 1), None);
    assert_eq!(img.pixel(u32::MAX, u32::MAX), None);
}

#[test]
fn set_pixel_overwrites_one_slot_only() {
    let mut img = red_green_image();
    assert!(img.set_pixel(0, 0, [0x1234, 0x5678, 0x9ABC, 0xDEF0]));
    assert_eq!(img.pixel(0, 0), Some([0x1234, 0x5678, 0x9ABC, 0xDEF0]));
    assert_eq!(img.pixel(1, 0), Some([0x0000, 0xFFFF, 0x0000, 0xFFFF]));
}

#[test]
fn set_pixel_returns_false_and_no_op_out_of_bounds() {
    let mut img = red_green_image();
    let before = img.pixels.clone();
    assert!(!img.set_pixel(5, 5, [0, 0, 0, 0]));
    assert_eq!(img.pixels, before, "out-of-bounds set must not mutate");
}

#[test]
fn channel_reads_individual_components() {
    let img = red_green_image();
    assert_eq!(img.channel(0, 0, 0), Some(0xFFFF));
    assert_eq!(img.channel(0, 0, 1), Some(0x0000));
    assert_eq!(img.channel(0, 0, 2), Some(0x0000));
    assert_eq!(img.channel(0, 0, 3), Some(0xFFFF));
    assert_eq!(img.channel(1, 0, 1), Some(0xFFFF));
}

#[test]
fn channel_returns_none_for_oob_coord_or_channel() {
    let img = red_green_image();
    assert_eq!(img.channel(2, 0, 0), None);
    assert_eq!(img.channel(0, 0, 4), None);
    assert_eq!(img.channel(0, 0, usize::MAX), None);
}

#[test]
fn row_returns_width_times_four_samples() {
    let img = red_green_image();
    let r = img.row(0).unwrap();
    assert_eq!(r.len(), 2 * CHANNELS_PER_PIXEL);
    assert_eq!(
        r,
        &[0xFFFF, 0x0000, 0x0000, 0xFFFF, 0x0000, 0xFFFF, 0x0000, 0xFFFF]
    );
}

#[test]
fn row_oob_returns_none() {
    let img = red_green_image();
    assert!(img.row(1).is_none());
    assert!(img.row(u32::MAX).is_none());
}

#[test]
fn row_zero_width_returns_empty_slice() {
    let img = FarbfeldImage::new(0, 3, vec![]).unwrap();
    for y in 0..3 {
        let r = img.row(y).expect("row in-bounds");
        assert!(r.is_empty(), "row {y} should be empty for width=0");
    }
    assert!(img.row(3).is_none());
}

#[test]
fn row_mut_lets_caller_overwrite_one_scan_line() {
    let mut img = FarbfeldImage::new(
        2,
        2,
        vec![
            0, 0, 0, 0, 0, 0, 0, 0,
            0, 0, 0, 0, 0, 0, 0, 0,
        ],
    )
    .unwrap();
    let r1 = img.row_mut(1).unwrap();
    for s in r1.iter_mut() {
        *s = 0xABCD;
    }
    assert_eq!(img.row(0).unwrap(), &[0u16; 8]);
    assert_eq!(img.row(1).unwrap(), &[0xABCDu16; 8]);
}

#[test]
fn pixel_count_matches_width_times_height() {
    assert_eq!(FarbfeldImage::new(0, 0, vec![]).unwrap().pixel_count(), 0);
    assert_eq!(red_green_image().pixel_count(), 2);
    let big = FarbfeldImage::new(64, 32, vec![0u16; 64 * 32 * 4]).unwrap();
    assert_eq!(big.pixel_count(), 64 * 32);
}

#[test]
fn rows_iter_yields_every_scan_line_in_order() {
    let img = FarbfeldImage::new(
        1,
        3,
        vec![
            0x0001, 0, 0, 0xFFFF,
            0x0002, 0, 0, 0xFFFF,
            0x0003, 0, 0, 0xFFFF,
        ],
    )
    .unwrap();
    let collected: Vec<&[u16]> = all_rows(&img);
    assert_eq!(collected.len(), 3);
    assert_eq!(collected[0], &[0x0001, 0, 0, 0xFFFF]);
    assert_eq!(collected[1], &[0x0002, 0, 0, 0xFFFF]);
    assert_eq!(collected[2], &[0x0003, 0, 0, 0xFFFF]);
}

#[test]
fn rows_iter_agrees_with_row_accessor() {
    let img = FarbfeldImage::new(
        2,
        2,
        vec![
            0, 1, 2, 3, 4, 5, 6, 7,
            8, 9, 10, 11, 12, 13, 14, 15,
        ],
    )
    .unwrap();
    for (y, r) in all_rows(&img).into_iter().enumerate() {
        assert_eq!(r, img.row(y as u32).unwrap());
    }
}

#[test]
fn rows_iter_is_exact_sized() {
    let img = FarbfeldImage::new(2, 3, vec![0u16; 2 * 3 * 4]).unwrap();
    let mut it = img.rows();
    assert_eq!(it.len(), 3);
    assert_eq!(it.size_hint(), (3, Some(3)));
    it.next();
    assert_eq!(it.len(), 2);
}

#[test]
fn rows_iter_zero_width_yields_height_empty_rows() {
    let img = FarbfeldImage::new(0, 3, vec![]).unwrap();
    let collected: Vec<&[u16]> = all_rows(&img);
    assert_eq!(collected.len(), 3);
    assert!(collected.iter().all(|r| r.is_empty()));
    assert_eq!(img.rows().len(), 3);
}

#[test]
fn rows_iter_zero_height_yields_nothing() {
    let img = FarbfeldImage::new(5, 0, vec![]).unwrap();
    assert_eq!(all_rows(&img).len(), 0);
    assert_eq!(img.rows().len(), 0);
}

#[test]
fn rows_mut_lets_caller_rewrite_each_row_in_one_pass() {
    let mut img = FarbfeldImage::new(2, 2, vec![0u16; 2 * 2 * 4]).unwrap();
    let mut rows = img.rows_mut();
    let mut y = 0usize;
    while let Some(r) = rows.next() {
        for s in r.iter_mut() {
            *s = (y as u16) + 1;
        }
        y += 1;
    }
    assert_eq!(img.row(0).unwrap(), &[1u16; 8]);
    assert_eq!(img.row(1).unwrap(), &[2u16; 8]);
}

#[test]
fn rows_mut_zero_width_yields_height_empty_rows() {
    let mut img = FarbfeldImage::new(0, 4, vec![]).unwrap();
    let mut count = 0;
    let mut rows = img.rows_mut();
    while let Some(r) = rows.next() {
        assert!(r.is_empty());
        count += 1;
    }
    assert_eq!(count, 4);
}

#[test]
fn pixels_iter_yields_every_pixel_in_scan_order() {
    let img = red_green_image();
    let quads: Vec<[u16; 4]> = all_quads(&img);
    assert_eq!(
        quads,
        vec![
            [0xFFFF, 0x0000, 0x0000, 0xFFFF],
            [0x0000, 0xFFFF, 0x0000, 0xFFFF],
        ]
    );
}

#[test]
fn pixels_iter_agrees_with_pixel_accessor() {
    let mut pixels = vec![0u16; 3 * 2 * CHANNELS_PER_PIXEL];
    for (i, p) in pixels.iter_mut().enumerate() {
        *p = i as u16;
    }
    let img = FarbfeldImage::new(3, 2, pixels).unwrap();
    let mut iter = img.pixels();
    for y in 0..2 {
        for x in 0..3 {
            assert_eq!(iter.next(), img.pixel(x, y));
        }
    }
    assert_eq!(iter.next(), None);
}

#[test]
fn pixels_iter_count_matches_pixel_count_and_is_exact_sized() {
    let img = FarbfeldImage::new(4, 5, vec![0u16; 4 * 5 * 4]).unwrap();
    assert_eq!(all_quads(&img).len(), img.pixel_count());
    assert_eq!(img.pixels().len(), 20);
    assert_eq!(img.pixels().size_hint(), (20, Some(20)));
}

#[test]
fn pixels_iter_empty_for_zero_dim() {
    let img = FarbfeldImage::new(0, 0, vec![]).unwrap();
    assert_eq!(all_quads(&img).len(), 0);
    let img = FarbfeldImage::new(0, 7, vec![]).unwrap();
    assert_eq!(all_quads(&img).len(), 0);
}

#[test]
fn pixel_offset_is_consistent_with_row_major_layout() {
    let mut pixels = vec![0u16; 3 * 2 * CHANNELS_PER_PIXEL];
    for y in 0..2 {
        for x in 0..3 {
            let base = (y * 3 + x) * CHANNELS_PER_PIXEL;
            pixels[base] = (y * 3 + x) as u16;
        }
    }
    let img = FarbfeldImage::new(3, 2, pixels).unwrap();
    for y in 0..2 {
        for x in 0..3 {
            assert_eq!(img.channel(x, y, 0), Some((y * 3 + x) as u16));
        }
    }
}

#[test]
fn rows_iter_reversed_yields_scan_lines_bottom_up() {
    let img = FarbfeldImage::new(
        1,
        3,
        vec![
            0x0001, 0, 0, 0xFFFF,
            0x0002, 0, 0, 0xFFFF,
            0x0003, 0, 0, 0xFFFF,
        ],
    )
    .unwrap();
    let bottom_up: Vec<&[u16]> = all_rows_from_bottom(&img);
    assert_eq!(bottom_up.len(), 3);
    assert_eq!(bottom_up[0], &[0x0003, 0, 0, 0xFFFF]);
    assert_eq!(bottom_up[1], &[0x0002, 0, 0, 0xFFFF]);
    assert_eq!(bottom_up[2], &[0x0001, 0, 0, 0xFFFF]);
    let mut forward: Vec<&[u16]> = all_rows(&img);
    forward.reverse();
    assert_eq!(forward, bottom_up);
}

#[test]
fn rows_iter_meets_in_the_middle_from_both_ends() {
    let img = FarbfeldImage::new(
        1,
        4,
        vec![10, 0, 0, 1, 20, 0, 0, 1, 30, 0, 0, 1, 40, 0, 0, 1],
    )
    .unwrap();
    let mut it = img.rows();
    assert_eq!(it.next().unwrap()[0], 10);
    assert_eq!(it.next_back().unwrap()[0], 40);
    assert_eq!(it.next().unwrap()[0], 20);
    assert_eq!(it.next_back().unwrap()[0], 30);
    assert_eq!(it.next(), None);
    assert_eq!(it.next_back(), None);
}

#[test]
fn rows_iter_reversed_zero_width_yields_height_empty_rows() {
    let img = FarbfeldImage::new(0, 3, vec![]).unwrap();
    let collected: Vec<&[u16]> = all_rows_from_bottom(&img);
    assert_eq!(collected.len(), 3);
    assert!(collected.iter().all(|r| r.is_empty()));
}

#[test]
fn rows_mut_reversed_rewrites_each_row_bottom_up() {
    let mut img = FarbfeldImage::new(1, 3, vec![0u16; 3 * 4]).unwrap();
    let mut tag = 0u16;
    let mut rows = img.rows_mut();
    while let Some(r) = rows.next_back() {
        tag += 1;
        for s in r.iter_mut() {
            *s = tag;
        }
    }
    assert_eq!(img.row(0).unwrap(), &[3u16; 4]);
    assert_eq!(img.row(1).unwrap(), &[2u16; 4]);
    assert_eq!(img.row(2).unwrap(), &[1u16; 4]);
}

#[test]
fn rows_mut_reversed_zero_width_yields_height_empty_rows() {
    let mut img = FarbfeldImage::new(0, 4, vec![]).unwrap();
    let mut count = 0;
    let mut rows = img.rows_mut();
    while let Some(r) = rows.next_back() {
        assert!(r.is_empty());
        count += 1;
    }
    assert_eq!(count, 4);
}

#[test]
fn pixels_iter_reversed_yields_pixels_last_to_first() {
    let img = red_green_image();
    let back_to_front: Vec<[u16; 4]> = all_quads_from_end(&img);
    assert_eq!(
        back_to_front,
        vec![
            [0x0000, 0xFFFF, 0x0000, 0xFFFF],
            [0xFFFF, 0x0000, 0x0000, 0xFFFF],
        ]
    );
}

#[test]
fn pixels_iter_meets_in_the_middle_from_both_ends() {
    let img =
        FarbfeldImage::new(4, 1, vec![0, 0, 0, 1, 1, 0, 0, 1, 2, 0, 0, 1, 3, 0, 0, 1]).unwrap();
    let mut it = img.pixels();
    assert_eq!(it.next().unwrap()[0], 0);
    assert_eq!(it.next_back().unwrap()[0], 3);
    assert_eq!(it.next().unwrap()[0], 1);
    assert_eq!(it.next_back().unwrap()[0], 2);
    assert_eq!(it.next(), None);
    assert_eq!(it.next_back(), None);
}

#[test]
fn pixels_iter_reversed_is_full_mirror_of_forward() {
    let mut pixels = vec![0u16; 3 * 2 * CHANNELS_PER_PIXEL];
    for (i, p) in pixels.chunks_exact_mut(4).enumerate() {
        p[0] = i as u16;
    }
    let img = FarbfeldImage::new(3, 2, pixels).unwrap();
    let mut forward: Vec<[u16; 4]> = all_quads(&img);
    forward.reverse();
    let reversed: Vec<[u16; 4]> = all_quads_from_end(&img);
    assert_eq!(forward, reversed);
    assert_eq!(reversed.first().unwrap()[0], 5);
    assert_eq!(reversed.last().unwrap()[0], 0);
}
