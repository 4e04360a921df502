//! The start of the program: which configuration is taken, and how a user comes
//! by an editable copy of the packaged one.

use vstd::prelude::*;

use crate::paths::{
    bytes, copy_range, lossy_text, maybe_view, path_views, plainly_shown, same_bytes, shown_path,
};

verus! {

/// Where the user's own configuration stands below the home directory.
pub open spec fn user_config(home: Seq<u8>) -> Seq<u8> {
    home + bytes("/.config/bspwm-cyberquote/config.toml"@)
}

/// The directory that the user's own configuration stands in.
pub open spec fn user_config_home(home: Seq<u8>) -> Seq<u8> {
    home + bytes("/.config/bspwm-cyberquote"@)
}

/// The packaged configuration.
pub open spec fn packaged_config() -> Seq<u8> {
    bytes("/etc/bspwm-cyberquote/config.toml"@)
}

/// Where a configuration is looked for, in order: the user's own, the packaged
/// one, and one in the working directory. Without a home the first falls away.
pub open spec fn config_places(home: Option<Seq<u8>>) -> Seq<Seq<u8>> {
    (match home {
        Some(home) => seq![user_config(home)],
        None => Seq::empty(),
    }) + seq![packaged_config(), bytes("config.toml"@)]
}

fn below(home: &[u8], rest: &str) -> (path: Vec<u8>)
    ensures
        path@ == home@ + bytes(rest@),
{
    let mut path = copy_range(home, 0, home.len());
    let mut tail = copy_range(rest.as_bytes(), 0, rest.as_bytes().len());
    path.append(&mut tail);
    assert(path@ =~= home@ + bytes(rest@));
    path
}

/// Where a configuration is looked for, in order.
pub fn config_paths(home: Option<&[u8]>) -> (places: Vec<Vec<u8>>)
    ensures
        path_views(places@) == config_places(maybe_view(home)),
{
    let mut places: Vec<Vec<u8>> = Vec::new();
    if let Some(home) = home {
        places.push(below(home, "/.config/bspwm-cyberquote/config.toml"));
    }
    let none: [u8; 0] = [];
    places.push(below(&none, "/etc/bspwm-cyberquote/config.toml"));
    places.push(below(&none, "config.toml"));
    assert(path_views(places@) =~= config_places(maybe_view(home)));
    places
}

/// A configuration that was found.
#[derive(Debug)]
pub struct ConfigFound<C> {
    pub config: C,
    /// The file it was read from.
    pub from: Vec<u8>,
    /// Whether the user has yet to be given a copy of their own.
    pub seed: bool,
}

/// Whether `tries` are what loading `paths` in order gave, up to the first that
/// succeeded, or all of them when none did.
pub open spec fn config_trace<C, F: Fn(&Vec<u8>) -> Result<C, String>>(
    load: F,
    paths: Seq<Vec<u8>>,
    tries: Seq<Result<C, String>>,
) -> bool {
    &&& 0 < tries.len() <= paths.len()
    &&& forall|i: int|
        0 <= i < tries.len() ==> call_ensures(load, (&paths[i],), #[trigger] tries[i])
    &&& forall|i: int| 0 <= i < tries.len() - 1 ==> #[trigger] tries[i] is Err
    &&& tries.len() < paths.len() ==> tries.last() is Ok
}

/// Whether a search that loads files with `load` may end in `result`: in the
/// first configuration that loads, or in the last file and what is wrong with it.
pub open spec fn takes<C, F: Fn(&Vec<u8>) -> Result<C, String>>(
    home: Option<Seq<u8>>,
    load: F,
    result: Result<ConfigFound<C>, (Vec<u8>, String)>,
) -> bool {
    exists|paths: Seq<Vec<u8>>, tries: Seq<Result<C, String>>|
        {
            &&& path_views(paths) == config_places(home)
            &&& #[trigger] config_trace(load, paths, tries)
            &&& match result {
                Ok(found) => tries.last() == Ok::<C, String>(found.config) && found.from@
                    == config_places(home)[tries.len() - 1] && (found.seed <==> found.from@
                    == packaged_config()),
                Err((path, why)) => tries.last() == Err::<C, String>(why) && path@
                    == config_places(home).last(),
            }
        }
}

/// Takes the first configuration that loads. `home` is the user's home
/// directory, and `load` reads one file. When none loads, the file tried last is
/// returned with its error.
pub fn load_cfg<C, F: Fn(&Vec<u8>) -> Result<C, String>>(home: Option<&[u8]>, load: F) -> (result:
    Result<ConfigFound<C>, (Vec<u8>, String)>)
    requires
        forall|path: &Vec<u8>| call_requires(load, (path,)),
    ensures
        takes(maybe_view(home), load, result),
{
    let paths = config_paths(home);
    let ghost places = config_places(maybe_view(home));
    let ghost mut tries: Seq<Result<C, String>> = Seq::empty();
    assert(path_views(paths@).len() == paths@.len());
    let last: usize = paths.len() - 1;
    let mut i: usize = 0;
    loop
        invariant
            i <= last,
            last == paths@.len() - 1,
            places == config_places(maybe_view(home)),
            path_views(paths@) == places,
            forall|path: &Vec<u8>| call_requires(load, (path,)),
            tries.len() == i,
            forall|j: int| 0 <= j < i ==> call_ensures(load, (&paths@[j],), #[trigger] tries[j]),
            forall|j: int| 0 <= j < i ==> #[trigger] tries[j] is Err,
        decreases last - i,
    {
        let path = &paths[i];
        let tried = load(path);
        proof {
            tries = tries.push(tried);
            assert(places[i as int] == paths@[i as int]@);
            assert(places.last() == paths@[last as int]@);
        }
        match tried {
            Ok(config) => {
                let seed = same_bytes(
                    path.as_slice(),
                    "/etc/bspwm-cyberquote/config.toml".as_bytes(),
                );
                let from = copy_range(path.as_slice(), 0, path.len());
                assert(from@ =~= path@);
                assert(config_trace(load, paths@, tries));
                return Ok(ConfigFound { config, from, seed });
            },
            Err(why) => {
                if i == last {
                    let from = copy_range(path.as_slice(), 0, path.len());
                    assert(from@ =~= path@);
                    assert(config_trace(load, paths@, tries));
                    return Err((from, why));
                }
            },
        }
        i = i + 1;
    }
}

/// The user's own configuration goes before the packaged one, and that before
/// one in the working directory.
pub proof fn own_config_comes_first(home: Seq<u8>)
    ensures
        config_places(Some(home)) == seq![
            user_config(home),
            packaged_config(),
            bytes("config.toml"@),
        ],
        config_places(None) == config_places(Some(home)).skip(1),
{
    assert(config_places(Some(home)) =~= seq![
        user_config(home),
        packaged_config(),
        bytes("config.toml"@),
    ]);
    assert(config_places(None) =~= config_places(Some(home)).skip(1));
}

// ---------------------------------------------------------------------------
// The user's own copy
// ---------------------------------------------------------------------------

/// What has happened so far on the way to the user's own copy.
#[derive(Debug)]
pub enum SeedEvent {
    /// Nothing yet.
    Begun,
    /// It was found out whether the user has a configuration.
    Looked { exists: bool },
    /// The directory was made, or was there, or could not be made.
    DirectoryMade { done: bool },
    /// The packaged configuration was copied.
    Copied,
    /// It could not be copied; the system's message says why.
    CopyFailed(String),
}

/// What to do next.
#[derive(Debug)]
pub enum SeedAction {
    /// Find out whether this file exists.
    Look(Vec<u8>),
    /// Make this directory and those above it.
    MakeDirectory(Vec<u8>),
    /// Copy the packaged configuration to this file.
    CopyTo(Vec<u8>),
    /// Tell the user, and stop.
    Report(String),
    /// Stop.
    Stop,
}

/// Whether `action` is what `event` calls for.
pub open spec fn seeds(home: Seq<u8>, event: SeedEvent, action: SeedAction) -> bool {
    match event {
        SeedEvent::Begun => action matches SeedAction::Look(path) && path@ == user_config(home),
        SeedEvent::Looked { exists } => if exists {
            action is Stop
        } else {
            action matches SeedAction::MakeDirectory(path) && path@ == user_config_home(home)
        },
        SeedEvent::DirectoryMade { done } => if done {
            action matches SeedAction::CopyTo(path) && path@ == user_config(home)
        } else {
            action is Stop
        },
        SeedEvent::Copied => action matches SeedAction::Report(text) && text@
            == "bspwm-cyberquote-native: seeded "@ + lossy_text(user_config(home))
            + " from the system default"@,
        SeedEvent::CopyFailed(why) => action matches SeedAction::Report(text) && text@
            == "bspwm-cyberquote-native: could not seed "@ + lossy_text(user_config(home)) + ": "@
            + why@,
    }
}

/// The next step in giving the user a copy of the packaged configuration that
/// they can edit. Whatever fails, fails quietly or with a report; a
/// configuration that is there already is left alone.
pub fn seed_user_config(home: &[u8], event: SeedEvent) -> (action: SeedAction)
    ensures
        seeds(home@, event, action),
        action is Report ==> plainly_shown(user_config(home@)),
{
    match event {
        SeedEvent::Begun => SeedAction::Look(below(home, "/.config/bspwm-cyberquote/config.toml")),
        SeedEvent::Looked { exists } => if exists {
            SeedAction::Stop
        } else {
            SeedAction::MakeDirectory(below(home, "/.config/bspwm-cyberquote"))
        },
        SeedEvent::DirectoryMade { done } => if done {
            SeedAction::CopyTo(below(home, "/.config/bspwm-cyberquote/config.toml"))
        } else {
            SeedAction::Stop
        },
        SeedEvent::Copied => {
            let shown = shown_path(&below(home, "/.config/bspwm-cyberquote/config.toml"));
            SeedAction::Report(
                "bspwm-cyberquote-native: seeded ".to_owned().concat(shown.as_str()).concat(
                    " from the system default",
                ),
            )
        },
        SeedEvent::CopyFailed(why) => {
            let shown = shown_path(&below(home, "/.config/bspwm-cyberquote/config.toml"));
            SeedAction::Report(
                "bspwm-cyberquote-native: could not seed ".to_owned().concat(
                    shown.as_str(),
                ).concat(": ").concat(why.as_str()),
            )
        },
    }
}

/// Whether `event` can come of carrying out `action`.
pub open spec fn comes_of(action: SeedAction, event: SeedEvent) -> bool {
    match action {
        SeedAction::Look(_) => event is Looked,
        SeedAction::MakeDirectory(_) => event is DirectoryMade,
        SeedAction::CopyTo(_) => event is Copied || event is CopyFailed,
        SeedAction::Report(_) | SeedAction::Stop => false,
    }
}

/// Whether `steps` is a course that seeding can take: what happened, and what
/// was done about it.
pub open spec fn seed_course(home: Seq<u8>, steps: Seq<(SeedEvent, SeedAction)>) -> bool {
    &&& steps.len() > 0 ==> steps[0].0 is Begun
    &&& forall|i: int| 0 <= i < steps.len() ==> seeds(home, (#[trigger] steps[i]).0, steps[i].1)
    &&& forall|i: int, j: int|
        0 <= i && j == i + 1 && j < steps.len() ==> comes_of(
            (#[trigger] steps[i]).1,
            (#[trigger] steps[j]).0,
        )
}

/// A configuration that the user already has is never written over: a copy is
/// made only after it was found that there is none. And seeding comes to an end.
pub proof fn own_config_is_never_overwritten(home: Seq<u8>, steps: Seq<(SeedEvent, SeedAction)>)
    requires
        seed_course(home, steps),
    ensures
        steps.len() <= 4,
        forall|i: int|
            0 <= i < steps.len() && (#[trigger] steps[i]).1 is CopyTo ==> i == 2 && steps[1].0
                == (SeedEvent::Looked { exists: false }),
{
    if steps.len() > 0 {
        let first = steps[0];
        if steps.len() > 1 {
            let second = steps[1];
            assert(comes_of(first.1, second.0));
            if steps.len() > 2 {
                let third = steps[2];
                assert(comes_of(second.1, third.0));
                if steps.len() > 3 {
                    let fourth = steps[3];
                    assert(comes_of(third.1, fourth.0));
                    if steps.len() > 4 {
                        assert(comes_of(fourth.1, steps[4].0));
                    }
                }
            }
        }
    }
}

// ---------------------------------------------------------------------------
// What a search for the configuration is worth
// ---------------------------------------------------------------------------

/// The configuration taken was loaded from the place it is said to come from, and
/// every place before that was tried and would not load. A copy for the user is
/// called for just when it is the packaged one.
pub proof fn first_config_that_loads_is_taken<C, F: Fn(&Vec<u8>) -> Result<C, String>>(
    home: Option<Seq<u8>>,
    load: F,
    found: ConfigFound<C>,
)
    requires
        takes(home, load, Ok::<ConfigFound<C>, (Vec<u8>, String)>(found)),
    ensures
        found.seed <==> found.from@ == bytes("/etc/bspwm-cyberquote/config.toml"@),
        exists|k: int|
            {
                &&& 0 <= k < config_places(home).len()
                &&& #[trigger] config_places(home)[k] == found.from@
                &&& exists|path: Vec<u8>|
                    path@ == found.from@ && #[trigger] call_ensures(
                        load,
                        (&path,),
                        Ok::<C, String>(found.config),
                    )
                &&& forall|j: int| 0 <= j < k ==> would_not_load(load, #[trigger] config_places(home)[j])
            },
{
    let (paths, tries) = choose|paths: Seq<Vec<u8>>, tries: Seq<Result<C, String>>|
        {
            &&& path_views(paths) == config_places(home)
            &&& #[trigger] config_trace(load, paths, tries)
            &&& tries.last() == Ok::<C, String>(found.config)
            &&& found.from@ == config_places(home)[tries.len() - 1]
            &&& found.seed <==> found.from@ == packaged_config()
        };
    let k = tries.len() - 1;
    assert(path_views(paths)[k] == paths[k]@);
    assert(path_views(paths).len() == paths.len());
    assert(call_ensures(load, (&paths[k],), tries[k]));
    assert(config_places(home)[k] == found.from@);
    assert forall|j: int| 0 <= j < k implies would_not_load(
        load,
        #[trigger] config_places(home)[j],
    ) by {
        assert(path_views(paths)[j] == paths[j]@);
        assert(tries[j] is Err);
        assert(call_ensures(load, (&paths[j],), tries[j]));
        assert(tries[j] == Err::<C, String>(tries[j]->Err_0));
    }
}

/// Whether loading the file at `place` was tried and failed.
pub open spec fn would_not_load<C, F: Fn(&Vec<u8>) -> Result<C, String>>(
    load: F,
    place: Seq<u8>,
) -> bool {
    exists|path: Vec<u8>, why: String|
        path@ == place && #[trigger] call_ensures(load, (&path,), Err::<C, String>(why))
}

/// The defaults are left to the program only after every place was tried and
/// would not load.
pub proof fn defaults_come_after_every_place<C, F: Fn(&Vec<u8>) -> Result<C, String>>(
    home: Option<Seq<u8>>,
    load: F,
    last: (Vec<u8>, String),
    k: int,
)
    requires
        takes(home, load, Err::<ConfigFound<C>, (Vec<u8>, String)>(last)),
        0 <= k < config_places(home).len(),
    ensures
        would_not_load(load, config_places(home)[k]),
        last.0@ == config_places(home).last(),
{
    let (paths, tries) = choose|paths: Seq<Vec<u8>>, tries: Seq<Result<C, String>>|
        {
            &&& path_views(paths) == config_places(home)
            &&& #[trigger] config_trace(load, paths, tries)
            &&& tries.last() == Err::<C, String>(last.1)
            &&& last.0@ == config_places(home).last()
        };
    assert(path_views(paths)[k] == paths[k]@);
    assert(path_views(paths).len() == paths.len());
    assert(tries.len() == paths.len());
    if k < tries.len() - 1 {
        assert(tries[k] is Err);
    } else {
        assert(tries[k] == tries.last());
    }
    assert(call_ensures(load, (&paths[k],), tries[k]));
    assert(tries[k] == Err::<C, String>(tries[k]->Err_0));
}

/// The user's configuration is the file `config.toml` in the directory that is
/// made for it, and both lie below the home.
pub proof fn own_config_lies_in_its_directory(home: Seq<u8>)
    ensures
        user_config(home) == user_config_home(home) + bytes("/config.toml"@),
        home.is_prefix_of(user_config_home(home)),
{
    reveal_strlit("/.config/bspwm-cyberquote/config.toml");
    reveal_strlit("/.config/bspwm-cyberquote");
    reveal_strlit("/config.toml");
    assert("/.config/bspwm-cyberquote/config.toml"@ =~= "/.config/bspwm-cyberquote"@
        + "/config.toml"@);
    crate::typewriter::lemma_encode_concat("/.config/bspwm-cyberquote"@, "/config.toml"@);
    assert(user_config(home) =~= user_config_home(home) + bytes("/config.toml"@));
    assert(home =~= user_config_home(home).subrange(0, home.len() as int));
}

/// Seeding looks for the very file that it copies to, makes the directory of that
/// file, and does nothing but report after a copy.
pub proof fn seeding_copies_to_where_it_looked(
    home: Seq<u8>,
    steps: Seq<(SeedEvent, SeedAction)>,
    i: int,
)
    requires
        seed_course(home, steps),
        0 <= i < steps.len(),
    ensures
        steps[0].1 is Look,
        steps[i].1 matches SeedAction::CopyTo(path) ==> path@ == steps[0].1->Look_0@,
        steps[i].1 matches SeedAction::MakeDirectory(dir) ==> steps[0].1->Look_0@ == dir@ + bytes(
            "/config.toml"@,
        ),
        steps[i].0 is Copied || steps[i].0 is CopyFailed ==> steps[i].1 is Report,
        steps[i].0 == (SeedEvent::Looked { exists: false }) ==> steps[i].1 is MakeDirectory,
        steps[i].0 == (SeedEvent::DirectoryMade { done: true }) ==> steps[i].1 is CopyTo,
        steps[i].0 == (SeedEvent::DirectoryMade { done: false }) ==> steps[i].1 is Stop,
        steps[i].0 == (SeedEvent::Looked { exists: true }) ==> steps[i].1 is Stop,
{
    assert(seeds(home, steps[0].0, steps[0].1));
    assert(seeds(home, steps[i].0, steps[i].1));
    own_config_lies_in_its_directory(home);
}

} // verus!
