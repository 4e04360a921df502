use bspwm_cyberquote::paths::{
    candidate_paths, default_quotes_paths, fallback_paths, file_name, is_relative, join,
    user_config_dir,
};
use std::path::Path;

fn shown(paths: &Vec<Vec<u8>>) -> Vec<String> {
    paths.iter().map(|p| String::from_utf8_lossy(p).into_owned()).collect()
}

const SAMPLES: [&str; 19] = [
    "", "/", "//", "a", "a/", "a/b", "/a/b", "a/b/", "a/b/.", "a/./b", "a/b/..", "..", ".", "./",
    "../a", "a//b//", "/.", "...", "a/..b",
];

#[test]
fn paths_are_read_as_the_system_reads_them() {
    for s in SAMPLES {
        let p = Path::new(s);
        assert_eq!(is_relative(s.as_bytes()), p.is_relative(), "{:?}", s);
        let name = file_name(s.as_bytes());
        let want = p.file_name().map(|n| n.to_str().unwrap().as_bytes().to_vec());
        assert_eq!(name, want, "{:?}", s);
        for t in SAMPLES {
            let want = p.join(t).to_str().unwrap().as_bytes().to_vec();
            assert_eq!(join(s.as_bytes(), t.as_bytes()), want, "{:?} {:?}", s, t);
        }
    }
}

#[test]
fn xdg_directory_goes_before_home() {
    let dir = user_config_dir(Some(b"/x"), Some(b"/home/u"));
    assert_eq!(dir, Some(b"/x/bspwm-cyberquote".to_vec()));
    let dir = user_config_dir(Some(b""), Some(b"/home/u"));
    assert_eq!(dir, Some(b"/home/u/.config/bspwm-cyberquote".to_vec()));
    let dir = user_config_dir(None, Some(b"/home/u/"));
    assert_eq!(dir, Some(b"/home/u/.config/bspwm-cyberquote".to_vec()));
    assert_eq!(user_config_dir(None, None), None);
    assert_eq!(user_config_dir(Some(b""), None), None);
}

#[test]
fn default_places_in_order() {
    assert_eq!(
        shown(&default_quotes_paths(Some(b"/c"))),
        ["/c/quotes.json", "/etc/bspwm-cyberquote/quotes.json"]
    );
    assert_eq!(shown(&default_quotes_paths(None)), ["/etc/bspwm-cyberquote/quotes.json"]);
    assert_eq!(
        shown(&candidate_paths(None, Some(b"/c"))),
        ["/c/quotes.json", "/etc/bspwm-cyberquote/quotes.json"]
    );
}

#[test]
fn absolute_source_stands_alone() {
    assert_eq!(shown(&candidate_paths(Some(b"/q/mine.json"), Some(b"/c"))), ["/q/mine.json"]);
}

#[test]
fn relative_source_is_followed_by_standing_places() {
    assert_eq!(
        shown(&candidate_paths(Some(b"sub/mine.json"), Some(b"/c"))),
        ["sub/mine.json", "/c/mine.json", "/etc/bspwm-cyberquote/mine.json"]
    );
    assert_eq!(
        shown(&candidate_paths(Some(b"quotes.json"), None)),
        ["quotes.json", "/etc/bspwm-cyberquote/quotes.json"]
    );
}

#[test]
fn usual_files_stand_in_for_a_missing_source() {
    assert_eq!(
        shown(&fallback_paths(Some(b"sub/mine.json"), Some(b"/c"))),
        ["/c/quotes.json", "/etc/bspwm-cyberquote/quotes.json"]
    );
    assert_eq!(
        shown(&fallback_paths(Some(b"mine.json"), None)),
        ["/etc/bspwm-cyberquote/quotes.json"]
    );
    for source in [None, Some(&b"sub/quotes.json"[..]), Some(&b".."[..]), Some(&b"/q.json"[..])] {
        assert!(fallback_paths(source, Some(b"/c")).is_empty());
    }
}

#[test]
fn nameless_source_falls_back_to_the_usual_name() {
    assert_eq!(
        shown(&candidate_paths(Some(b".."), Some(b"/c"))),
        ["..", "/c/quotes.json", "/etc/bspwm-cyberquote/quotes.json"]
    );
    assert_eq!(
        shown(&candidate_paths(Some(b""), None)),
        ["", "/etc/bspwm-cyberquote/quotes.json"]
    );
}
