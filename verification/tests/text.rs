use bspwm_cyberquote::text::{
    alignment_bits, author_line, first_font_family, hex_color, is_blank, text_alignment, trim, white_space,
    Alignment,
};

#[test]
fn alignment_parse() {
    assert_eq!(text_alignment("left"), Alignment::Left);
    assert_eq!(text_alignment("right"), Alignment::Right);
    assert_eq!(text_alignment("center"), Alignment::Center);
    assert_eq!(text_alignment("LEFT"), Alignment::Left);
    assert_eq!(text_alignment(""), Alignment::Center);
    assert_eq!(text_alignment("bogus"), Alignment::Center);
}

#[test]
fn alignment_ignores_space_around_the_word() {
    assert_eq!(text_alignment("  Right\t"), Alignment::Right);
    assert_eq!(text_alignment("le ft"), Alignment::Center);
    assert_eq!(text_alignment("leftmost"), Alignment::Center);
    assert_eq!(text_alignment("ſleft"), Alignment::Center);
}

#[test]
fn alignments_have_distinct_bits() {
    assert_eq!(alignment_bits(Alignment::Left), 1);
    assert_eq!(alignment_bits(Alignment::Center), 2);
    assert_eq!(alignment_bits(Alignment::Right), 3);
}

#[test]
fn hex_colors_split_into_bytes() {
    assert_eq!(hex_color("#38e5ff"), (0x38, 0xe5, 0xff));
    assert_eq!(hex_color("FF3dDE"), (0xff, 0x3d, 0xde));
    assert_eq!(hex_color("##010203"), (1, 2, 3));
    assert_eq!(hex_color("#+10"), (0, 0, 0x10));
    assert_eq!(hex_color("#ab12cd34"), (0x12, 0xcd, 0x34));
}

#[test]
fn bad_colors_are_black() {
    let bad = ["", "#", "+", "-1", "#12 34", "#gg0000", "#123456789", "red", "#é"];
    for s in bad {
        assert_eq!(hex_color(s), (0, 0, 0), "{:?}", s);
    }
}

#[test]
fn hex_colors_agree_with_the_number_parser() {
    let samples = [
        "#000000", "#ffffff", "#00ff00", "7", "0000000000001", "ffffffff", "100000000", "+ff", "++1",
        "#+", "+-1", "a#b", "0x10",
    ];
    for s in samples {
        let v = u32::from_str_radix(s.trim_start_matches('#'), 16).unwrap_or(0);
        let want = ((v >> 16) as u8, (v >> 8) as u8, v as u8);
        assert_eq!(hex_color(s), want, "{:?}", s);
    }
}

#[test]
fn first_family_wins() {
    assert_eq!(first_font_family("JetBrains Mono, monospace"), "JetBrains Mono");
    assert_eq!(first_font_family("  Iosevka  "), "Iosevka");
}

#[test]
fn missing_family_is_monospace() {
    assert_eq!(first_font_family(""), "monospace");
    assert_eq!(first_font_family("  , serif"), "monospace");
    assert_eq!(first_font_family(",serif"), "monospace");
}

#[test]
fn author_follows_a_dash() {
    assert_eq!(author_line("Mira Voss"), "— Mira Voss");
    assert_eq!(author_line(""), "— ");
}

#[test]
fn white_space_is_that_of_unicode() {
    for u in 0..=0x10ffffu32 {
        if let Some(c) = char::from_u32(u) {
            assert_eq!(white_space(c), c.is_whitespace(), "{:x}", u);
        }
    }
}

#[test]
fn trimming_agrees_with_the_standard_library() {
    let samples = ["", " ", "a", " a ", "\u{3000}x y\u{2003}\n", "\t\r\n", "é ", "\u{200b}q"];
    for s in samples {
        assert_eq!(trim(s), s.trim());
        assert_eq!(trim(trim(s)), trim(s));
        assert_eq!(is_blank(s), s.trim().is_empty());
    }
}
