use bspwm_cyberquote::monitors::{
    chosen_monitors, cycle_quote, cycle_seconds, cycling_pool, monitor_index_at, opening_quotes,
    rotate, show_quote, Area, Rotation,
};
use bspwm_cyberquote::quotes::{Quote, QuoteSelection};
use bspwm_cyberquote::typewriter::{Reveal, RevealTimer};

fn quote(text: &str) -> Quote {
    Quote { text: text.to_string(), author: "someone".to_string() }
}

fn selection(text: &str) -> QuoteSelection {
    QuoteSelection { quote: quote(text) }
}

#[test]
fn point_is_on_the_first_monitor_that_holds_it() {
    let left = Some(Area { x: 0, y: 0, width: 1920, height: 1080 });
    let right = Some(Area { x: 1920, y: -200, width: 1080, height: 1920 });
    let all = vec![left, None, right, left];
    assert_eq!(monitor_index_at(&all, 0, 0), Some(0));
    assert_eq!(monitor_index_at(&all, 1919, 1079), Some(0));
    assert_eq!(monitor_index_at(&all, 1920, 0), Some(2));
    assert_eq!(monitor_index_at(&all, 1920, -200), Some(2));
    assert_eq!(monitor_index_at(&all, 1920, 1720), None);
    assert_eq!(monitor_index_at(&all, -1, 0), None);
    assert_eq!(monitor_index_at(&vec![], 0, 0), None);
    let far = Some(Area { x: i32::MAX, y: 0, width: i32::MAX, height: 1 });
    assert_eq!(monitor_index_at(&vec![far], i32::MAX, 0), Some(0));
}

#[test]
fn primary_monitor_can_be_the_only_one() {
    let primary = vec![false, true, false];
    assert_eq!(chosen_monitors(&primary, false), [0, 1, 2]);
    assert_eq!(chosen_monitors(&primary, true), [1]);
    assert!(chosen_monitors(&vec![false], true).is_empty());
}

#[test]
fn windows_open_with_a_stand_in_without_quotes() {
    let opening = opening_quotes(Err("none".to_string()), 2);
    assert_eq!(opening.len(), 2);
    for s in opening.iter() {
        assert_eq!(s.quote.text, "System online — awaiting quote feed.");
        assert_eq!(s.quote.author, "bspwm-cyberquote-native");
    }
    let opening = opening_quotes(Ok(vec![selection("a"), selection("b")]), 2);
    let opening: Vec<&str> = opening.iter().map(|s| s.quote.text.as_str()).collect();
    assert_eq!(opening, ["a", "b"]);
}

#[test]
fn windows_rotate_through_what_there_is() {
    let opening = vec![selection("a"), selection("b")];
    let pool = cycling_pool(Ok(vec![quote("x")]), &opening);
    assert_eq!((pool.len(), pool[0].text.as_str()), (1, "x"));
    let pool = cycling_pool(Err("none".to_string()), &opening);
    let pool: Vec<&str> = pool.iter().map(|q| q.text.as_str()).collect();
    assert_eq!(pool, ["a", "b"]);
}

#[test]
fn rotation_is_timed_in_minutes() {
    assert_eq!(cycle_seconds(0), None);
    assert_eq!(cycle_seconds(1), Some(60));
    assert_eq!(cycle_seconds(45), Some(2700));
}

#[test]
fn rotation_types_the_new_quote_out() {
    let pool = vec![quote("née")];
    let mut shown = quote("start");
    let mut state = Reveal { shown: 5, token: 8 };
    let rotation = rotate(&mut shown, &mut state, &pool);
    assert_eq!(shown.text, "née");
    assert_eq!(state, Reveal { shown: 0, token: 9 });
    let timer = Some(RevealTimer { token: 9, total: 3 });
    assert_eq!(rotation, Rotation { changed: true, timer });

    let rotation = rotate(&mut shown, &mut state, &vec![]);
    assert_eq!(rotation, Rotation { changed: false, timer: None });
    assert_eq!((shown.text.as_str(), state), ("née", Reveal { shown: 0, token: 9 }));

    let rotation = rotate(&mut shown, &mut state, &vec![quote("")]);
    assert_eq!(rotation, Rotation { changed: true, timer: None });
}

#[test]
fn rotation_shows_quotes_of_the_pool() {
    let pool = vec![quote("a"), quote("b"), quote("c")];
    let mut shown = quote("start");
    show_quote(&mut shown, &pool, 2);
    assert_eq!((shown.text.as_str(), shown.author.as_str()), ("c", "someone"));
    let mut seen = vec![false; 3];
    for _ in 0..400 {
        assert!(cycle_quote(&mut shown, &pool));
        seen[["a", "b", "c"].iter().position(|t| *t == shown.text).unwrap()] = true;
    }
    assert_eq!(seen, [true; 3]);
    assert!(!cycle_quote(&mut shown, &vec![]));
    assert!(["a", "b", "c"].contains(&shown.text.as_str()));
}
