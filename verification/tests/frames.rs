use bspwm_cyberquote::cache::{
    pack_dims, pack_fonts, tile_is_stale, GlowCache, GlowKey, TextKey, TextSurfaceCache,
};
use bspwm_cyberquote::frame::{frame_layers, steady_block, text_block, Layer, Scene, Stroke};
use bspwm_cyberquote::text::Alignment;

const STILL: Scene = Scene {
    typed: 3,
    glitch: false,
    blank: false,
    invert: false,
    echo: false,
    overlay: true,
    cursor_on: true,
};

fn key(text: &str) -> TextKey {
    TextKey {
        dims: pack_dims(900, 400),
        text: text.to_string(),
        author: "Mira Voss".to_string(),
        font_family: "monospace".to_string(),
        fonts: pack_fonts(2400, 2400, Alignment::Center),
        ink: (1000, 1000, 1000),
        author_ink: (630, 160, 900),
        glow: 450,
        glow_color: (220, 900, 1000),
        glow_radius: 4000,
        glow_thickness: 2000,
    }
}

#[test]
fn still_scanlines_only_without_an_overlay() {
    assert_eq!(
        frame_layers(true, false),
        [
            Layer::Background,
            Layer::BirthGradient,
            Layer::TextBlock,
            Layer::Scanlines,
            Layer::Vignette
        ]
    );
    assert_eq!(frame_layers(false, true), [Layer::Background, Layer::TextBlock, Layer::Vignette]);
}

#[test]
fn steady_block_is_painted_or_shown_again() {
    assert!(STILL.is_steady("né!"));
    assert!(!STILL.is_steady("née!"));
    assert_eq!(text_block("né!", &STILL, true, true), [Stroke::Block]);
    assert_eq!(
        text_block("né!", &STILL, false, true),
        [Stroke::Halo, Stroke::Quote, Stroke::Author]
    );
    assert_eq!(steady_block(true), [Stroke::Halo, Stroke::Quote, Stroke::Author]);
    assert_eq!(steady_block(false), [Stroke::Quote, Stroke::Author]);
}

#[test]
fn caret_is_painted_with_the_text_without_an_overlay() {
    let alone = Scene { overlay: false, ..STILL };
    assert_eq!(text_block("né!", &alone, true, false), [Stroke::Block, Stroke::Caret { at: 4 }]);
    assert_eq!(
        text_block("né!", &alone, false, false),
        [Stroke::Quote, Stroke::Caret { at: 4 }, Stroke::Author]
    );
    let off = Scene { cursor_on: false, ..alone };
    assert_eq!(text_block("né!", &off, true, false), [Stroke::Block]);
}

#[test]
fn typing_uncovers_the_quote_and_holds_the_author_back() {
    let typing = Scene { typed: 2, overlay: false, ..STILL };
    assert_eq!(
        text_block("né!", &typing, true, true),
        [
            Stroke::Uncover { bytes: 3 },
            Stroke::Halo,
            Stroke::Quote,
            Stroke::CoverOff,
            Stroke::Caret { at: 3 }
        ]
    );
}

#[test]
fn glitch_steps_bypass_the_block() {
    let glitch = Scene { glitch: true, echo: true, overlay: false, ..STILL };
    assert_eq!(
        text_block("né!", &glitch, true, true),
        [Stroke::EchoRight, Stroke::EchoLeft, Stroke::GlitchedQuote, Stroke::GlitchedAuthor]
    );
    let flash = Scene { invert: true, echo: false, ..glitch };
    assert_eq!(
        text_block("né!", &flash, true, true),
        [Stroke::InvertBar, Stroke::InvertedQuote, Stroke::GlitchedAuthor]
    );
    let typing = Scene { typed: 0, echo: false, ..glitch };
    assert_eq!(
        text_block("né!", &typing, false, true),
        [Stroke::Uncover { bytes: 0 }, Stroke::GlitchedQuote, Stroke::CoverOff]
    );
    let typing = Scene { typed: 2, invert: true, ..glitch };
    assert_eq!(
        text_block("né!", &typing, false, true),
        [
            Stroke::Uncover { bytes: 3 },
            Stroke::EchoRight,
            Stroke::EchoLeft,
            Stroke::InvertBar,
            Stroke::InvertedQuote,
            Stroke::CoverOff
        ]
    );
}

#[test]
fn blanked_step_paints_nothing() {
    let blank = Scene { glitch: true, blank: true, invert: true, echo: true, ..STILL };
    assert!(text_block("né!", &blank, true, true).is_empty());
}

#[test]
fn block_comes_back_until_something_changes() {
    let mut cache: TextSurfaceCache<u32> = TextSurfaceCache::new();
    assert_eq!(cache.lookup(&key("a")), None);
    cache.store(key("a"), 7);
    assert_eq!(cache.lookup(&key("a")), Some(&7));
    assert_eq!(cache.lookup(&key("b")), None);
    let changes = [
        TextKey { dims: pack_dims(400, 900), ..key("a") },
        TextKey { author: "Other".to_string(), ..key("a") },
        TextKey { font_family: "serif".to_string(), ..key("a") },
        TextKey { fonts: pack_fonts(2400, 2400, Alignment::Left), ..key("a") },
        TextKey { ink: (1000, 1000, 999), ..key("a") },
        TextKey { author_ink: (630, 0, 900), ..key("a") },
        TextKey { glow: 0, ..key("a") },
        TextKey { glow_color: (220, 910, 1000), ..key("a") },
        TextKey { glow_radius: 4001, ..key("a") },
        TextKey { glow_thickness: 0, ..key("a") },
    ];
    for changed in changes.iter() {
        assert!(!key("a").matches_key(changed));
        assert_eq!(cache.lookup(changed), None);
    }
    cache.store(key("b"), 8);
    assert_eq!(cache.lookup(&key("a")), None);
    assert_eq!(cache.lookup(&key("b")), Some(&8));
}

#[test]
fn numbers_are_packed_side_by_side() {
    assert_eq!(pack_dims(900, 400), (900u64 << 32) | 400);
    assert_eq!(pack_fonts(2400, 1800, Alignment::Right), (3u64 << 56) | (2400u64 << 32) | 1800);
}

fn glow_key(text: &str) -> GlowKey {
    GlowKey {
        w: 900,
        h: 400,
        text: text.to_string(),
        author: "Mira Voss".to_string(),
        font_family: "monospace".to_string(),
        fonts: pack_fonts(2400, 2400, Alignment::Center),
        glow: 450,
        glow_color: (220, 900, 1000),
        glow_radius: 4000,
        glow_thickness: 2000,
    }
}

#[test]
fn halo_is_built_once_per_look() {
    let mut cache: GlowCache<u32> = GlowCache::new();
    assert!(cache.is_stale(&glow_key("a")));
    cache.store(glow_key("a"), Some(3));
    assert!(!cache.is_stale(&glow_key("a")));
    let changes = [
        glow_key("b"),
        GlowKey { w: 901, ..glow_key("a") },
        GlowKey { h: 401, ..glow_key("a") },
        GlowKey { author: "Other".to_string(), ..glow_key("a") },
        GlowKey { font_family: "serif".to_string(), ..glow_key("a") },
        GlowKey { fonts: pack_fonts(2500, 2400, Alignment::Center), ..glow_key("a") },
        GlowKey { glow: 300, ..glow_key("a") },
        GlowKey { glow_color: (230, 900, 1000), ..glow_key("a") },
        GlowKey { glow_radius: 5000, ..glow_key("a") },
        GlowKey { glow_thickness: 1000, ..glow_key("a") },
    ];
    for changed in changes.iter() {
        assert!(!glow_key("a").matches_key(changed));
        assert!(cache.is_stale(changed));
    }
    assert_eq!(cache.halo, Some(3));
}

#[test]
fn bursts_have_no_use_for_the_halo() {
    assert!(STILL.needs_halo());
    assert!(Scene { typed: 0, ..STILL }.needs_halo());
    assert!(!Scene { glitch: true, ..STILL }.needs_halo());
}

#[test]
fn tile_is_repainted_on_resize() {
    assert!(tile_is_stale(None, 4, 5));
    assert!(tile_is_stale(Some((4, 6)), 4, 5));
    assert!(tile_is_stale(Some((3, 5)), 4, 5));
    assert!(!tile_is_stale(Some((4, 5)), 4, 5));
}
