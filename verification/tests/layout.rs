use bspwm_cyberquote::caret::{blink, caret_index, cursor_rect, overlay_caret, Cell, Repaint};
use bspwm_cyberquote::layout::{
    author_x, block_frame, halo_frame, place_block, quote_frame, quote_x, surface_size, Frame,
    HaloBox, Ink, GRAINS_PER_PX,
};
use bspwm_cyberquote::scanlines::{
    scanline_tile_height, scanline_tile_size, scanlines_roll, Sweep, SWEEP_STEPS,
};
use bspwm_cyberquote::text::Alignment;

fn px(grains: i64) -> f64 {
    grains as f64 / GRAINS_PER_PX as f64
}

fn close(a: f64, b: f64) -> bool {
    (a - b).abs() < 1e-6
}

const QUOTE: Ink = Ink { x: 3, y: 5, width: 401, height: 60 };
const AUTHOR: Ink = Ink { x: -2, y: 4, width: 120, height: 17 };

#[test]
fn author_anchors_to_justified_quote() {
    let (w, iw, aw) = (900.0, 400.0, 220.0);
    let aink_x = 0.0;

    let left = author_x(Alignment::Left, 900, 400, 0, 220) as f64 / 2.0;
    assert!((left + aink_x - (w / 2.0 - iw / 2.0)).abs() < 1e-9, "author left edge == quote left edge");

    let right = author_x(Alignment::Right, 900, 400, 0, 220) as f64 / 2.0;
    assert!(
        (right + aink_x + aw - (w / 2.0 + iw / 2.0)).abs() < 1e-9,
        "author right edge == quote right edge"
    );

    let center = author_x(Alignment::Center, 900, 400, 0, 220) as f64 / 2.0;
    assert!(
        (center + aink_x + aw / 2.0 - w / 2.0).abs() < 1e-9,
        "author stays centered for center alignment"
    );
}

#[test]
fn odd_widths_keep_their_half_pixel() {
    assert_eq!(quote_x(900, 3, 401), 493);
    assert_eq!(author_x(Alignment::Left, 901, 400, 7, 33), 487);
    assert_eq!(author_x(Alignment::Right, 901, 400, 7, 33), 1221);
    assert_eq!(author_x(Alignment::Center, 901, 400, 7, 33), 854);
}

#[test]
fn block_is_placed_above_the_middle() {
    for align in [Alignment::Left, Alignment::Center, Alignment::Right] {
        let place = place_block(1920, 1080, align, QUOTE, AUTHOR);
        let top = (1080.0 - (60.0 + 24.0 + 17.0)) / 2.0 - 1080.0 * 0.04;
        assert!(close(px(place.quote_x), 1920.0 / 2.0 - 3.0 - 401.0 / 2.0));
        assert!(close(px(place.quote_y), top - 5.0));
        assert!(close(px(place.author_x), author_x(align, 1920, 401, -2, 120) as f64 / 2.0));
        assert!(close(px(place.author_y), top + 60.0 + 24.0 - 4.0));
    }
    let place = place_block(900, 400, Alignment::Center, QUOTE, AUTHOR);
    assert_eq!(place.quote_x, 493 * 38_400);
    assert_eq!(place.quote_y, (23 * 400 - 25 * 101) * 1536 - 5 * 76_800);
}

#[test]
fn block_frame_takes_in_everything() {
    let (w, h) = (900, 400);
    let plain = block_frame(w, h, Alignment::Center, QUOTE, AUTHOR, None);
    assert_eq!(surface_size(plain), Some((401, 101)));
    let wide = Ink { width: 500, ..AUTHOR };
    let frame = block_frame(w, h, Alignment::Center, QUOTE, wide, None);
    assert_eq!(surface_size(frame), Some((500, 101)));

    let body = quote_frame(w, h, QUOTE, AUTHOR);
    assert_eq!(surface_size(body), Some((401, 60)));
    assert_eq!((body.left, body.top), (plain.left, plain.top));

    let halo = HaloBox { pad: 13, width: 420, height: 80 };
    let around = halo_frame(w, h, QUOTE, AUTHOR, halo);
    let place = place_block(w, h, Alignment::Center, QUOTE, AUTHOR);
    assert!(close(px(around.left), px(place.quote_x) + 3.0 - 13.0 / 1.5));
    assert!(close(px(around.top), px(place.quote_y) + 5.0 - 13.0 / 1.5));
    assert!(close(px(around.right - around.left), 420.0));
    assert!(close(px(around.bottom - around.top), 80.0));
    let whole = block_frame(w, h, Alignment::Center, QUOTE, AUTHOR, Some(halo));
    assert_eq!(whole.left, around.left);
    assert_eq!(whole.top, around.top);
    assert_eq!(whole.right, around.right);
    assert_eq!(whole.bottom, plain.bottom);
    assert_eq!(surface_size(whole), Some((420, 110)));
}

#[test]
fn surface_sizes_round_up() {
    let frame = Frame { left: 0, top: -1, right: 76_801, bottom: 0 };
    assert_eq!(surface_size(frame), Some((2, 1)));
    assert_eq!(surface_size(Frame { right: 0, ..frame }), None);
    assert_eq!(surface_size(Frame { bottom: -1, ..frame }), None);
    let vast = Frame { left: i64::MIN, top: 0, right: i64::MAX, bottom: 1 };
    assert_eq!(surface_size(vast), Some((i32::MAX, 1)));
}

#[test]
fn caret_stands_on_its_cell() {
    let cell = Cell { x: 2048, y: 1024, width: 10 * 1024, height: 30 * 1024 };
    let rect = cursor_rect(900, 400, QUOTE, AUTHOR, cell, 17 * GRAINS_PER_PX);
    let place = place_block(900, 400, Alignment::Left, QUOTE, AUTHOR);
    assert_eq!(rect.x - place.quote_x, 2 * GRAINS_PER_PX);
    assert_eq!(rect.y - place.quote_y, GRAINS_PER_PX);
    assert_eq!(rect.width, 10 * GRAINS_PER_PX);
    assert_eq!(rect.height, 30 * GRAINS_PER_PX);
    let cell = Cell { width: 0, height: 0, ..cell };
    let rect = cursor_rect(900, 400, QUOTE, AUTHOR, cell, 17 * GRAINS_PER_PX);
    assert_eq!((rect.width, rect.height), (2 * GRAINS_PER_PX, 2 * GRAINS_PER_PX));
    let cell = Cell { width: 90 * 1024, ..cell };
    let rect = cursor_rect(900, 400, QUOTE, AUTHOR, cell, 17 * GRAINS_PER_PX);
    assert_eq!(rect.width, 17 * GRAINS_PER_PX);
}

#[test]
fn caret_ends_after_the_last_byte() {
    assert_eq!(caret_index("aé—z", 0), 0);
    assert_eq!(caret_index("aé—z", 2), 3);
    assert_eq!(caret_index("aé—z", 3), 6);
    assert_eq!(caret_index("aé—z", 4), 7);
    assert_eq!(caret_index("aé—z", 99), 7);
    assert_eq!(caret_index("", 0), 0);
}

#[test]
fn blinking_spares_the_text_layer() {
    let mut on = true;
    assert_eq!(blink(&mut on, true), Repaint::Overlay);
    assert!(!on);
    assert_eq!(blink(&mut on, false), Repaint::Main);
    assert!(on);
}

#[test]
fn overlay_caret_hides_during_bursts() {
    assert!(overlay_caret(true, false));
    assert!(!overlay_caret(true, true));
    assert!(!overlay_caret(false, false));
    assert!(!overlay_caret(false, true));
}

#[test]
fn tile_heights_round_up() {
    assert_eq!(scanline_tile_height(1080, 100), 11);
    assert_eq!(scanline_tile_height(1000, 100), 10);
    assert_eq!(scanline_tile_height(1080, 0), 1080);
    assert_eq!(scanline_tile_height(100, 1000), 2);
    assert_eq!(scanline_tile_height(0, 5), 2);
    assert_eq!(scanline_tile_height(-7, 2), 2);
    assert_eq!(scanline_tile_height(i32::MAX, 1), i32::MAX);
    for h in 1..400i32 {
        for lines in 1..60u32 {
            let want = (h as f64 / lines as f64).max(2.0).ceil() as i32;
            assert_eq!(scanline_tile_height(h, lines), want);
            assert!(want * lines as i32 >= h);
        }
    }
}

#[test]
fn no_tile_without_lines_to_show() {
    assert_eq!(scanline_tile_size(true, 100, 640, 480), Some((640, 5)));
    assert_eq!(scanline_tile_size(false, 100, 640, 480), None);
    assert_eq!(scanline_tile_size(true, 0, 640, 480), None);
    assert_eq!(scanline_tile_size(true, 100, 0, 480), None);
    assert_eq!(scanline_tile_size(true, 100, 640, -1), None);
    assert!(scanlines_roll(480, 100));
    assert!(!scanlines_roll(0, 100));
    assert!(!scanlines_roll(480, 0));
}

#[test]
fn mesh_sweeps_the_window_in_ninety_seconds() {
    let (h, lines) = (1080, 100);
    let period = scanline_tile_height(h, lines);
    let whole = period as u64 * SWEEP_STEPS;
    let mut sweep = Sweep::new();
    let mut wraps = 0u64;
    for _ in 0..SWEEP_STEPS {
        let before = sweep.phase;
        sweep.roll(h, period);
        assert!(sweep.phase < whole);
        if sweep.phase < before {
            wraps += 1;
        }
    }
    assert_eq!(sweep.phase + wraps * whole, h as u64 * SWEEP_STEPS);
    assert_eq!(wraps, 98);
}
