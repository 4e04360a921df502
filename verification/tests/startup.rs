use bspwm_cyberquote::startup::{
    config_paths, load_cfg, seed_user_config, SeedAction, SeedEvent,
};

const USER: &str = "/home/u/.config/bspwm-cyberquote/config.toml";
const PACKAGED: &str = "/etc/bspwm-cyberquote/config.toml";

fn text(path: &Vec<u8>) -> String {
    String::from_utf8(path.clone()).unwrap()
}

fn places(home: Option<&[u8]>) -> Vec<String> {
    config_paths(home).iter().map(text).collect()
}

#[test]
fn config_is_looked_for_in_order() {
    assert_eq!(places(Some(b"/home/u")), [USER, PACKAGED, "config.toml"]);
    assert_eq!(places(None), [PACKAGED, "config.toml"]);
}

#[test]
fn first_config_that_loads_is_taken() {
    let loads = |path: &Vec<u8>| Ok::<String, String>(text(path));
    let found = load_cfg(Some(b"/home/u"), loads).unwrap();
    assert_eq!((found.config.as_str(), text(&found.from).as_str(), found.seed), (USER, USER, false));

    let no_user = |path: &Vec<u8>| if text(path) == USER { Err("gone".to_string()) } else { Ok(1) };
    let found = load_cfg(Some(b"/home/u"), no_user).unwrap();
    assert_eq!((text(&found.from).as_str(), found.seed), (PACKAGED, true));

    let checkout = |path: &Vec<u8>| if path[0] == b'/' { Err("gone".to_string()) } else { Ok(2) };
    let found = load_cfg(Some(b"/home/u"), checkout).unwrap();
    assert_eq!((found.config, text(&found.from).as_str(), found.seed), (2, "config.toml", false));
}

#[test]
fn last_config_error_is_reported() {
    let none = |path: &Vec<u8>| Err::<u8, String>(format!("no {}", text(path)));
    let (path, why) = load_cfg(Some(b"/home/u"), none).unwrap_err();
    assert_eq!((text(&path).as_str(), why.as_str()), ("config.toml", "no config.toml"));
}

#[test]
fn seeding_makes_the_directory_and_copies() {
    match seed_user_config(b"/home/u", SeedEvent::Begun) {
        SeedAction::Look(path) => assert_eq!(text(&path), USER),
        other => panic!("{:?}", other),
    }
    match seed_user_config(b"/home/u", SeedEvent::Looked { exists: false }) {
        SeedAction::MakeDirectory(path) => {
            assert_eq!(text(&path), "/home/u/.config/bspwm-cyberquote")
        }
        other => panic!("{:?}", other),
    }
    match seed_user_config(b"/home/u", SeedEvent::DirectoryMade { done: true }) {
        SeedAction::CopyTo(path) => assert_eq!(text(&path), USER),
        other => panic!("{:?}", other),
    }
    match seed_user_config(b"/home/u", SeedEvent::Copied) {
        SeedAction::Report(said) => assert_eq!(
            said,
            "bspwm-cyberquote-native: seeded /home/u/.config/bspwm-cyberquote/config.toml from the system default"
        ),
        other => panic!("{:?}", other),
    }
}

#[test]
fn seeding_stops_quietly() {
    let stop = seed_user_config(b"/home/u", SeedEvent::Looked { exists: true });
    assert!(matches!(stop, SeedAction::Stop));
    let stop = seed_user_config(b"/home/u", SeedEvent::DirectoryMade { done: false });
    assert!(matches!(stop, SeedAction::Stop));
}

#[test]
fn failed_copy_is_reported() {
    match seed_user_config(b"/h\xff", SeedEvent::CopyFailed("disk full".to_string())) {
        SeedAction::Report(said) => assert_eq!(
            said,
            "bspwm-cyberquote-native: could not seed /h\u{fffd}/.config/bspwm-cyberquote/config.toml: disk full"
        ),
        other => panic!("{:?}", other),
    }
}
