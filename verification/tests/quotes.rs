use bspwm_cyberquote::quotes::{
    deal, load_all, load_and_pick, load_and_pick_many, pick_at, read_quotes, search_failed,
    shuffle_places, Picker, Quote, QuotesFile, ReadOutcome,
};

fn quote(text: &str) -> Quote {
    Quote { text: text.to_string(), author: format!("by {}", text) }
}

fn file(texts: &[&str]) -> ReadOutcome {
    ReadOutcome::Parsed(QuotesFile { quotes: texts.iter().map(|t| quote(t)).collect() })
}

fn texts(quotes: &Vec<Quote>) -> Vec<String> {
    quotes.iter().map(|q| q.text.clone()).collect()
}

fn missing() -> ReadOutcome {
    ReadOutcome::Missing("No such file or directory (os error 2)".to_string())
}

#[test]
fn blank_quotes_are_empty() {
    assert!(quote("").is_empty());
    assert!(quote(" \t\u{a0}").is_empty());
    assert!(!quote(" x ").is_empty());
    let nameless = Quote { text: "x".to_string(), author: String::new() };
    assert!(!nameless.is_empty());
}

#[test]
fn random_is_the_default_picker() {
    assert_eq!(Picker::default(), Picker::Random);
}

#[test]
fn reading_keeps_what_can_be_shown() {
    let kept = read_quotes("q.json", &file(&["a", " ", "b", "", "c"])).unwrap();
    assert_eq!(texts(&kept), ["a", "b", "c"]);
    assert_eq!(kept[1].author, "by b");
}

#[test]
fn reading_names_what_went_wrong() {
    assert_eq!(
        read_quotes("q.json", &missing()).unwrap_err(),
        "q.json: No such file or directory (os error 2)"
    );
    let locked = ReadOutcome::Unreadable("Permission denied (os error 13)".to_string());
    assert_eq!(
        read_quotes("q.json", &locked).unwrap_err(),
        "q.json: Permission denied (os error 13)"
    );
    let bad = ReadOutcome::Malformed("expected value at line 1 column 1".to_string());
    assert_eq!(
        read_quotes("q.json", &bad).unwrap_err(),
        "Failed to parse q.json: expected value at line 1 column 1"
    );
    assert_eq!(
        read_quotes("q.json", &file(&[" "])).unwrap_err(),
        "q.json contained no usable quotes."
    );
    assert_eq!(
        read_quotes("q.json", &file(&[])).unwrap_err(),
        "q.json contained no usable quotes."
    );
}

#[test]
fn failed_search_lists_files_and_reasons() {
    let shown = vec!["a".to_string(), "b".to_string()];
    let why = vec!["x".to_string(), "y".to_string()];
    assert_eq!(search_failed(&shown, &why), "No readable quotes file (tried a, b): x; y");
}

#[test]
fn first_usable_file_is_loaded() {
    let read = |path: &Vec<u8>| match path.as_slice() {
        b"quotes.json" => file(&[""]),
        b"/c/quotes.json" => file(&["mine", "too"]),
        _ => file(&["packaged"]),
    };
    let pool = load_all(Some(b"quotes.json"), Some(b"/c"), read).unwrap();
    assert_eq!(texts(&pool), ["mine", "too"]);
    let pool = load_all(Some(b"quotes.json"), None, read).unwrap();
    assert_eq!(texts(&pool), ["packaged"]);
    let pool = load_all(None, None, read).unwrap();
    assert_eq!(texts(&pool), ["packaged"]);
}

#[test]
fn absolute_source_has_no_fallback() {
    let read = |path: &Vec<u8>| if path.as_slice() == b"/mine.json" { missing() } else { file(&["x"]) };
    assert_eq!(
        load_all(Some(b"/mine.json"), Some(b"/c"), read).unwrap_err(),
        "No readable quotes file (tried /mine.json): /mine.json: No such file or directory (os error 2)"
    );
}

#[test]
fn missing_relative_source_falls_back_to_the_usual_files() {
    let read = |path: &Vec<u8>| match path.as_slice() {
        b"/c/quotes.json" => file(&["mine"]),
        b"/etc/bspwm-cyberquote/quotes.json" => file(&["packaged"]),
        _ => missing(),
    };
    let pool = load_all(Some(b"mine.json"), Some(b"/c"), read).unwrap();
    assert_eq!(texts(&pool), ["mine"]);
    let pool = load_all(Some(b"sub/mine.json"), None, read).unwrap();
    assert_eq!(texts(&pool), ["packaged"]);
    assert!(load_all(Some(b"/mine.json"), Some(b"/c"), read).is_err());
}

#[test]
fn bad_relative_source_is_reported() {
    let bad = [
        (ReadOutcome::Malformed as fn(String) -> ReadOutcome, "Failed to parse mine.json: why"),
        (ReadOutcome::Unreadable as fn(String) -> ReadOutcome, "mine.json: why"),
    ];
    for (outcome, reason) in bad {
        let read = |path: &Vec<u8>| match path.as_slice() {
            b"mine.json" => outcome("why".to_string()),
            b"/c/quotes.json" => file(&["usual"]),
            _ => ReadOutcome::Missing("gone".to_string()),
        };
        assert_eq!(
            load_all(Some(b"mine.json"), Some(b"/c"), read).unwrap_err(),
            format!(
                "No readable quotes file (tried mine.json, /c/mine.json, \
                 /etc/bspwm-cyberquote/mine.json): {}; /c/mine.json: gone; \
                 /etc/bspwm-cyberquote/mine.json: gone",
                reason
            )
        );
    }
    let blank = |path: &Vec<u8>| if path.as_slice() == b"mine.json" { file(&[" "]) } else { missing() };
    assert!(load_all(Some(b"mine.json"), Some(b"/c"), blank)
        .unwrap_err()
        .contains("mine.json contained no usable quotes."));
    let named = |path: &Vec<u8>| match path.as_slice() {
        b"mine.json" => ReadOutcome::Malformed("why".to_string()),
        b"/c/mine.json" => file(&["same name"]),
        _ => missing(),
    };
    assert_eq!(texts(&load_all(Some(b"mine.json"), Some(b"/c"), named).unwrap()), ["same name"]);
}

#[test]
fn failed_search_after_the_fallback_lists_every_file() {
    let read = |_: &Vec<u8>| ReadOutcome::Missing("gone".to_string());
    assert_eq!(
        load_all(Some(b"mine.json"), None, read).unwrap_err(),
        "No readable quotes file (tried mine.json, /etc/bspwm-cyberquote/mine.json, \
         /etc/bspwm-cyberquote/quotes.json): mine.json: gone; \
         /etc/bspwm-cyberquote/mine.json: gone; /etc/bspwm-cyberquote/quotes.json: gone"
    );
}

#[test]
fn failed_search_shows_odd_names_too() {
    let read = |_: &Vec<u8>| missing();
    assert_eq!(
        load_all(Some(b"/a\xffb\xc3\xa9"), None, read).unwrap_err(),
        "No readable quotes file (tried /a\u{fffd}b\u{e9}): /a\u{fffd}b\u{e9}: No such file or directory (os error 2)"
    );
}

#[test]
fn picks_come_from_the_pool() {
    let read = |_: &Vec<u8>| file(&["a", "b", "c"]);
    let mut seen = vec![false; 3];
    for _ in 0..400 {
        let picked = load_and_pick(None, None, Picker::Random, read).unwrap();
        let at = ["a", "b", "c"].iter().position(|t| *t == picked.quote.text).unwrap();
        seen[at] = true;
    }
    assert_eq!(seen, [true, true, true]);
    let none = |_: &Vec<u8>| missing();
    assert!(load_and_pick(None, None, Picker::Random, none).is_err());
    assert!(load_and_pick_many(None, None, 2, none).is_err());
}

#[test]
fn place_is_picked_exactly() {
    let pool = vec![quote("a"), quote("b")];
    let picked = pick_at(&pool, 1);
    assert_eq!(picked.quote.text, "b");
    assert_eq!(picked.clone().quote.author, "by b");
}

#[test]
fn exchanges_run_from_the_end() {
    assert_eq!(shuffle_places(4, &vec![0, 0, 0]), [1, 2, 3, 0]);
    assert_eq!(shuffle_places(4, &vec![3, 2, 1]), [0, 1, 2, 3]);
    assert_eq!(shuffle_places(1, &vec![]), [0]);
}

#[test]
fn deal_starts_over_when_the_pool_runs_out() {
    let pool = vec![quote("a"), quote("b"), quote("c")];
    let dealt = deal(&pool, &vec![2, 0, 1], 5);
    let dealt: Vec<&str> = dealt.iter().map(|s| s.quote.text.as_str()).collect();
    assert_eq!(dealt, ["c", "a", "b", "c", "a"]);
}

#[test]
fn each_monitor_gets_its_own_quote() {
    let read = |_: &Vec<u8>| file(&["a", "b", "c", "d"]);
    let mut orders = Vec::new();
    for _ in 0..200 {
        let dealt = load_and_pick_many(None, None, 6, read).unwrap();
        let dealt: Vec<String> = dealt.iter().map(|s| s.quote.text.clone()).collect();
        assert_eq!(dealt.len(), 6);
        let mut round = dealt[..4].to_vec();
        round.sort();
        assert_eq!(round, ["a", "b", "c", "d"]);
        assert_eq!(dealt[4], dealt[0]);
        assert_eq!(dealt[5], dealt[1]);
        if !orders.contains(&dealt) {
            orders.push(dealt);
        }
    }
    assert!(orders.len() > 10);
}
