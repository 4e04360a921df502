use bspwm_cyberquote::typewriter::{
    char_byte_index, typewriter_clip, ClipRect, LineBox, Reveal, Tick,
};

#[test]
fn byte_index_agrees_with_char_indices() {
    for text in ["", "abc", "aé—𝄞z", "“System online”"] {
        for n in 0..20 {
            let want = text.char_indices().nth(n).map(|(i, _)| i).unwrap_or(text.len());
            assert_eq!(char_byte_index(text, n), want);
        }
    }
    assert_eq!(char_byte_index("aé—𝄞z", 3), 6);
    assert_eq!(char_byte_index("aé—𝄞z", 4), 10);
}

#[test]
fn phrase_is_typed_one_character_per_tick() {
    let mut state = Reveal::new();
    let timer = state.start("añb").unwrap();
    assert_eq!(state.shown, 0);
    assert_eq!(state.tick(&timer), Tick::Typing);
    assert_eq!(state.shown, 1);
    assert_eq!(state.tick(&timer), Tick::Typing);
    assert_eq!(state.tick(&timer), Tick::Finished);
    assert_eq!(state.shown, 3);
    assert_eq!(state.tick(&timer), Tick::Finished);
    assert_eq!(state.shown, 3);
}

#[test]
fn empty_phrase_needs_no_timer() {
    let mut state = Reveal::new();
    assert!(state.start("").is_none());
    assert_eq!((state.shown, state.token), (0, 1));
}

#[test]
fn new_phrase_retires_the_old_timer() {
    let mut state = Reveal::new();
    let old = state.start("first").unwrap();
    state.tick(&old);
    let new = state.start("second").unwrap();
    let before = state;
    assert_eq!(state.tick(&old), Tick::Superseded);
    assert_eq!(state, before);
    assert_eq!(state.tick(&new), Tick::Typing);
}

#[test]
fn clip_uncovers_up_to_the_caret() {
    let line = |left: i32, top: i32, width: i32| Some(LineBox { left, top, height: 500, width });
    let lines = vec![line(10, 0, 9000), None, line(20, 1000, 8000), line(30, 1500, 7000)];
    let parts = typewriter_clip(&lines, 2, 3000);
    assert_eq!(
        parts,
        [
            ClipRect { left: 10, top: 0, width: 9000, height: 500 },
            ClipRect { left: 20, top: 1000, width: 3000 + 2048, height: 500 },
        ]
    );
    let parts = typewriter_clip(&lines, 0, -5000);
    assert_eq!(parts, [ClipRect { left: 10, top: 0, width: 0, height: 500 }]);
    assert!(typewriter_clip(&lines, -1, 0).is_empty());
    assert_eq!(typewriter_clip(&lines, 9, 0).len(), 3);
}
