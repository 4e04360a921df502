use bspwm_cyberquote::blur::{box_blur, soften, GLOW_PASSES};
use bspwm_cyberquote::halo::{glow_mask_size, halo_size, recolor, Pixel};

#[test]
fn one_bright_pixel_spreads_evenly() {
    let mut data = vec![0u8; 5 * 5];
    data[2 * 5 + 2] = 90;
    box_blur(&mut data, 5, 5, 5, 1);
    let mut want = vec![0u8; 5 * 5];
    for y in 1..4 {
        for x in 1..4 {
            want[y * 5 + x] = 10;
        }
    }
    assert_eq!(data, want);
}

#[test]
fn windows_shrink_at_the_edges() {
    let mut row = vec![10u8, 20, 60, 0];
    box_blur(&mut row, 4, 1, 4, 1);
    assert_eq!(row, [15, 30, 26, 30]);
    let mut column = vec![10u8, 20, 60, 0];
    box_blur(&mut column, 1, 4, 1, 2);
    assert_eq!(column, [30, 22, 22, 26]);
}

#[test]
fn kernel_below_one_counts_as_one() {
    let mut zero = vec![9u8, 0, 3, 200, 1, 7];
    let mut one = zero.clone();
    box_blur(&mut zero, 3, 2, 3, 0);
    box_blur(&mut one, 3, 2, 3, 1);
    assert_eq!(zero, one);
}

#[test]
fn bytes_beyond_the_width_are_left_alone() {
    let mut data = vec![100u8, 0, 77, 0, 0, 88];
    box_blur(&mut data, 2, 2, 3, 5);
    assert_eq!(data, [25, 25, 77, 25, 25, 88]);
}

#[test]
fn empty_image_is_left_alone() {
    let mut data = vec![1u8, 2, 3];
    box_blur(&mut data, 0, 3, 1, 2);
    assert_eq!(data, [1, 2, 3]);
    box_blur(&mut data, 3, 0, 3, 2);
    assert_eq!(data, [1, 2, 3]);
}

#[test]
fn flat_image_stays_as_it_is() {
    let mut data = vec![137u8; 7 * 4];
    soften(&mut data, 7, 4, 7, 3);
    assert_eq!(data, vec![137u8; 7 * 4]);
}

#[test]
fn softening_is_four_blurs() {
    assert_eq!(GLOW_PASSES, 4);
    let mut once: Vec<u8> = (0..48u32).map(|i| (i * i * 7 % 256) as u8).collect();
    let mut soft = once.clone();
    for _ in 0..4 {
        box_blur(&mut once, 8, 6, 8, 2);
    }
    soften(&mut soft, 8, 6, 8, 2);
    assert_eq!(soft, once);
}

/// The windows summed afresh for each pixel.
fn slow_blur(data: &[u8], w: usize, h: usize, stride: usize, k: usize) -> Vec<u8> {
    let mut tall = data.to_vec();
    for x in 0..w {
        for y in 0..h {
            let (lo, hi) = (y.saturating_sub(k), (y + k).min(h - 1));
            let sum: usize = (lo..=hi).map(|i| data[i * stride + x] as usize).sum();
            tall[y * stride + x] = (sum / (hi - lo + 1)) as u8;
        }
    }
    let mut out = data.to_vec();
    for y in 0..h {
        for x in 0..w {
            let (lo, hi) = (x.saturating_sub(k), (x + k).min(w - 1));
            let sum: usize = (lo..=hi).map(|i| tall[y * stride + i] as usize).sum();
            out[y * stride + x] = (sum / (hi - lo + 1)) as u8;
        }
    }
    out
}

#[test]
fn sliding_windows_agree_with_fresh_sums() {
    for (w, h, stride, k) in [(9, 5, 12, 1), (5, 9, 5, 3), (1, 6, 4, 2), (6, 1, 8, 40)] {
        let start: Vec<u8> = (0..stride * h).map(|i| (i * 57 % 251) as u8).collect();
        let mut data = start.clone();
        box_blur(&mut data, w, h, stride, k);
        assert_eq!(data, slow_blur(&start, w, h, stride, k));
    }
}

#[test]
fn mask_is_half_as_large_again_plus_room() {
    assert_eq!(glow_mask_size(100, 20, 12), Some((174, 54)));
    assert_eq!(glow_mask_size(101, 1, 8), Some((168, 18)));
    assert_eq!(glow_mask_size(0, 20, 12), None);
    assert_eq!(glow_mask_size(20, 0, 12), None);
    assert_eq!(glow_mask_size(i32::MAX, 1, 0), Some((i32::MAX, 2)));
}

#[test]
fn halo_is_scaled_back_down() {
    assert_eq!(halo_size(174, 54), Some((116, 36)));
    assert_eq!(halo_size(1, 2), Some((1, 2)));
    assert_eq!(halo_size(0, 2), None);
    assert_eq!(halo_size(2, -1), None);
    for ink in 1..200 {
        for pad in [0u32, 8, 13] {
            let (w, _) = glow_mask_size(ink, 1, pad).unwrap();
            let (hw, _) = halo_size(w, 1).unwrap();
            assert!(3 * hw >= 3 * ink + 4 * pad as i32);
        }
    }
}

#[test]
fn coverage_is_looked_up_in_the_palette() {
    let palette: Vec<Pixel> = (0..=255u8)
        .map(|m| Pixel { blue: m, green: m / 2, red: m / 3, alpha: m / 4 })
        .collect();
    let src = vec![0u8, 200, 9, 60, 255];
    let out = recolor(&src, 2, 2, 3, 12, &palette);
    let mut want = vec![0u8; 24];
    want[4..8].copy_from_slice(&[200, 100, 66, 50]);
    want[12..16].copy_from_slice(&[60, 30, 20, 15]);
    want[16..20].copy_from_slice(&[255, 127, 85, 63]);
    assert_eq!(out, want);
}
