//! Where quote files are looked for. A path is the byte string the system knows
//! it by, its parts set apart by `/`.

use vstd::prelude::*;

verus! {

/// The byte that sets the parts of a path apart.
pub const SLASH: u8 = 47;

/// The byte that stands for the current directory, alone, and the parent, doubled.
pub const DOT: u8 = 46;

/// The bytes of a piece of text.
pub open spec fn bytes(text: Seq<char>) -> Seq<u8> {
    vstd::utf8::encode_utf8(text)
}

/// The byte strings a list of paths holds.
pub open spec fn path_views(paths: Seq<Vec<u8>>) -> Seq<Seq<u8>> {
    paths.map_values(|p: Vec<u8>| p@)
}

/// The text that stands for a path in messages, as `String::from_utf8_lossy`
/// gives it.
pub uninterp spec fn lossy_text(path: Seq<u8>) -> Seq<char>;

/// Whether a path that is valid UTF-8 is shown as the characters it encodes.
pub open spec fn plainly_shown(path: Seq<u8>) -> bool {
    vstd::utf8::valid_utf8(path) ==> lossy_text(path) == vstd::utf8::decode_utf8(path)
}

/// Calls `String::from_utf8_lossy`, which reads the bytes as UTF-8. Bytes that
/// are valid UTF-8 come out as the characters they encode; how the others are
/// replaced is left to that function.
#[verifier::external_body]
pub(crate) fn shown_path(path: &Vec<u8>) -> (text: String)
    ensures
        text@ == lossy_text(path@),
        vstd::utf8::valid_utf8(path@) ==> text@ == vstd::utf8::decode_utf8(path@),
{
    String::from_utf8_lossy(path).into_owned()
}

/// Whether a path is read from the root, not from the working directory.
pub open spec fn is_absolute(path: Seq<u8>) -> bool {
    path.len() > 0 && path[0] == SLASH
}

/// `name` under `base`. An absolute `name` stands for itself.
pub open spec fn joined(base: Seq<u8>, name: Seq<u8>) -> Seq<u8> {
    if is_absolute(name) {
        name
    } else if base.len() == 0 || base.last() == SLASH {
        base + name
    } else {
        base.push(SLASH) + name
    }
}

/// Where the last part of a path begins: after its last slash.
pub open spec fn last_part_start(path: Seq<u8>) -> int
    decreases path.len(),
{
    if path.len() == 0 {
        0
    } else if path.last() == SLASH {
        path.len() as int
    } else {
        last_part_start(path.drop_last())
    }
}

/// The file or directory that a path names at its end. Empty parts and the
/// current directory do not count; a path that ends in the parent directory, or
/// has no part at all, names nothing.
pub open spec fn final_name(path: Seq<u8>) -> Option<Seq<u8>>
    decreases path.len(),
    via final_name_shrinks
{
    let start = last_part_start(path);
    let part = path.skip(start);
    if part == Seq::<u8>::empty() || part == seq![DOT] {
        if start > 0 {
            final_name(path.take(start - 1))
        } else {
            None
        }
    } else if part == seq![DOT, DOT] {
        None
    } else {
        Some(part)
    }
}

#[via_fn]
proof fn final_name_shrinks(path: Seq<u8>) {
    lemma_last_part_start(path);
}

proof fn lemma_last_part_start(path: Seq<u8>)
    ensures
        0 <= last_part_start(path) <= path.len(),
        last_part_start(path) > 0 ==> path[last_part_start(path) - 1] == SLASH,
        forall|i: int| last_part_start(path) <= i < path.len() ==> #[trigger] path[i] != SLASH,
    decreases path.len(),
{
    if path.len() > 0 && path.last() != SLASH {
        let rest = path.drop_last();
        lemma_last_part_start(rest);
        let start = last_part_start(rest);
        if start > 0 {
            assert(rest[start - 1] == path[start - 1]);
        }
        assert forall|i: int| start <= i < path.len() implies #[trigger] path[i] != SLASH by {
            if i < rest.len() {
                assert(rest[i] == path[i]);
            }
        }
    }
}

proof fn lemma_last_part_start_unique(path: Seq<u8>, start: int)
    requires
        0 <= start <= path.len(),
        start > 0 ==> path[start - 1] == SLASH,
        forall|i: int| start <= i < path.len() ==> #[trigger] path[i] != SLASH,
    ensures
        last_part_start(path) == start,
{
    lemma_last_part_start(path);
    let found = last_part_start(path);
    if found < start {
        assert(path[start - 1] != SLASH);
    } else if found > start {
        assert(path[found - 1] != SLASH);
    }
}

pub(crate) fn copy_range(path: &[u8], from: usize, to: usize) -> (part: Vec<u8>)
    requires
        from <= to <= path@.len(),
    ensures
        part@ == path@.subrange(from as int, to as int),
{
    let mut part: Vec<u8> = Vec::new();
    let mut i: usize = from;
    while i < to
        invariant
            from <= i <= to <= path@.len(),
            part@ == path@.subrange(from as int, i as int),
        decreases to - i,
    {
        part.push(path[i]);
        i = i + 1;
    }
    part
}

pub(crate) fn same_bytes(a: &[u8], b: &[u8]) -> (same: bool)
    ensures
        same == (a@ == b@),
{
    if a.len() != b.len() {
        return false;
    }
    let mut i: usize = 0;
    while i < a.len()
        invariant
            i <= a@.len(),
            a@.len() == b@.len(),
            forall|j: int| 0 <= j < i ==> a@[j] == b@[j],
        decreases a@.len() - i,
    {
        if a[i] != b[i] {
            assert(a@ != b@);
            return false;
        }
        i = i + 1;
    }
    assert(a@ =~= b@);
    true
}

/// Whether a path depends on the working directory.
pub fn is_relative(path: &[u8]) -> (relative: bool)
    ensures
        relative == !is_absolute(path@),
{
    path.len() == 0 || path[0] != SLASH
}

/// `name` under `base`.
pub fn join(base: &[u8], name: &[u8]) -> (path: Vec<u8>)
    ensures
        path@ == joined(base@, name@),
{
    if !is_relative(name) {
        return copy_range(name, 0, name.len());
    }
    let mut path = copy_range(base, 0, base.len());
    if base.len() > 0 && base[base.len() - 1] != SLASH {
        path.push(SLASH);
    }
    let mut tail = copy_range(name, 0, name.len());
    path.append(&mut tail);
    path
}

/// The name at the end of a path, if it has one.
pub fn file_name(path: &[u8]) -> (name: Option<Vec<u8>>)
    ensures
        match name {
            Some(n) => final_name(path@) == Some(n@),
            None => final_name(path@) is None,
        },
{
    let mut end: usize = path.len();
    assert(path@.take(path@.len() as int) =~= path@);
    loop
        invariant
            end <= path@.len(),
            final_name(path@.take(end as int)) == final_name(path@),
        decreases end,
    {
        let ghost head = path@.take(end as int);
        let mut start: usize = end;
        while start > 0 && path[start - 1] != SLASH
            invariant
                start <= end <= path@.len(),
                forall|i: int| start <= i < end ==> #[trigger] path@[i] != SLASH,
            decreases start,
        {
            start = start - 1;
        }
        proof {
            assert forall|i: int| start <= i < head.len() implies #[trigger] head[i] != SLASH by {
                assert(path@[i] != SLASH);
            }
            lemma_last_part_start_unique(head, start as int);
        }
        let ghost part = head.skip(start as int);
        assert(part =~= path@.subrange(start as int, end as int));
        let empty = start == end;
        let dot = end - start == 1 && path[start] == DOT;
        let parent = end - start == 2 && path[start] == DOT && path[start + 1] == DOT;
        proof {
            assert(empty == (part =~= Seq::<u8>::empty()));
            if part == seq![DOT] {
                assert(part.len() == 1 && part[0] == path@[start as int]);
            }
            assert(dot == (part =~= seq![DOT]));
            if part == seq![DOT, DOT] {
                assert(part[0] == path@[start as int] && part[1] == path@[start + 1]);
            }
            assert(parent == (part =~= seq![DOT, DOT]));
        }
        if empty || dot {
            if start == 0 {
                return None;
            }
            assert(head.take(start - 1) =~= path@.take(start - 1));
            end = start - 1;
        } else if parent {
            return None;
        } else {
            return Some(copy_range(path, start, end));
        }
    }
}

// ---------------------------------------------------------------------------
// The search
// ---------------------------------------------------------------------------

/// The user's configuration directory, from the two variables that name it.
pub open spec fn config_dir(xdg: Option<Seq<u8>>, home: Option<Seq<u8>>) -> Option<Seq<u8>> {
    match xdg {
        Some(dir) if dir.len() > 0 => Some(joined(dir, bytes("bspwm-cyberquote"@))),
        _ => match home {
            Some(dir) => Some(joined(dir, bytes(".config/bspwm-cyberquote"@))),
            None => None,
        },
    }
}

/// The standing places for a quote file called `name`: the user's directory,
/// when there is one, and then the packaged one.
pub open spec fn standing_places(user_dir: Option<Seq<u8>>, name: Seq<u8>) -> Seq<Seq<u8>> {
    let packaged = joined(bytes("/etc/bspwm-cyberquote"@), name);
    match user_dir {
        Some(dir) => seq![joined(dir, name), packaged],
        None => seq![packaged],
    }
}

/// Every place where the configured quotes may be, in the order in which they are
/// tried.
pub open spec fn search_order(
    source: Option<Seq<u8>>,
    user_dir: Option<Seq<u8>>,
) -> Seq<Seq<u8>> {
    match source {
        None => standing_places(user_dir, bytes("quotes.json"@)),
        Some(path) => if is_absolute(path) {
            seq![path]
        } else {
            let name = match final_name(path) {
                Some(name) => name,
                None => bytes("quotes.json"@),
            };
            seq![path] + standing_places(user_dir, name)
        },
    }
}

/// The usual files that stand in for a source that is missing: those for the
/// usual name, where the source is relative and goes by another.
pub open spec fn fallback_places(
    source: Option<Seq<u8>>,
    user_dir: Option<Seq<u8>>,
) -> Seq<Seq<u8>> {
    match source {
        Some(path) if !is_absolute(path) && final_name(path) is Some && final_name(path) != Some(
            bytes("quotes.json"@),
        ) => standing_places(user_dir, bytes("quotes.json"@)),
        _ => Seq::empty(),
    }
}

/// Every place that quotes are loaded from, in the order in which they are tried.
/// `missing` says whether the first of them turned out not to be there.
pub open spec fn load_order(
    source: Option<Seq<u8>>,
    user_dir: Option<Seq<u8>>,
    missing: bool,
) -> Seq<Seq<u8>> {
    if missing {
        search_order(source, user_dir) + fallback_places(source, user_dir)
    } else {
        search_order(source, user_dir)
    }
}

/// What a path argument that may be missing holds.
pub open spec fn maybe_view(path: Option<&[u8]>) -> Option<Seq<u8>> {
    match path {
        Some(p) => Some(p@),
        None => None,
    }
}

/// The user's configuration directory: below `xdg` (the value of
/// `XDG_CONFIG_HOME`) unless it is unset or empty, else below `.config` in `home`.
pub fn user_config_dir(xdg: Option<&[u8]>, home: Option<&[u8]>) -> (dir: Option<Vec<u8>>)
    ensures
        match dir {
            Some(d) => config_dir(maybe_view(xdg), maybe_view(home)) == Some(d@),
            None => config_dir(maybe_view(xdg), maybe_view(home)) is None,
        },
{
    if let Some(dir) = xdg {
        if dir.len() > 0 {
            return Some(join(dir, "bspwm-cyberquote".as_bytes()));
        }
    }
    match home {
        Some(dir) => Some(join(dir, ".config/bspwm-cyberquote".as_bytes())),
        None => None,
    }
}

fn places_for(user_dir: Option<&[u8]>, name: &[u8]) -> (places: Vec<Vec<u8>>)
    ensures
        path_views(places@) == standing_places(maybe_view(user_dir), name@),
{
    let mut places: Vec<Vec<u8>> = Vec::new();
    if let Some(dir) = user_dir {
        places.push(join(dir, name));
    }
    places.push(join("/etc/bspwm-cyberquote".as_bytes(), name));
    assert(path_views(places@) =~= standing_places(maybe_view(user_dir), name@));
    places
}

/// Where quotes are looked for when no source is configured.
pub fn default_quotes_paths(user_dir: Option<&[u8]>) -> (places: Vec<Vec<u8>>)
    ensures
        path_views(places@) == standing_places(maybe_view(user_dir), bytes("quotes.json"@)),
{
    places_for(user_dir, "quotes.json".as_bytes())
}

/// The quote files to try, in order. A configured `source` comes first; an
/// absolute one stands alone, a relative one is followed by the files of the
/// same name in the user's and the packaged directory.
pub fn candidate_paths(source: Option<&[u8]>, user_dir: Option<&[u8]>) -> (places: Vec<Vec<u8>>)
    ensures
        path_views(places@) == search_order(maybe_view(source), maybe_view(user_dir)),
{
    match source {
        None => default_quotes_paths(user_dir),
        Some(path) => {
            let mut places: Vec<Vec<u8>> = Vec::new();
            places.push(copy_range(path, 0, path.len()));
            assert(places@[0]@ =~= path@);
            if is_relative(path) {
                let mut standing = match file_name(path) {
                    Some(name) => places_for(user_dir, name.as_slice()),
                    None => default_quotes_paths(user_dir),
                };
                let ghost after = standing@;
                places.append(&mut standing);
                assert(path_views(places@) =~= seq![path@] + path_views(after));
            } else {
                assert(path_views(places@) =~= seq![path@]);
            }
            places
        },
    }
}

/// The files to try, after those of [`candidate_paths`], where the source turned
/// out to be missing.
pub fn fallback_paths(source: Option<&[u8]>, user_dir: Option<&[u8]>) -> (places: Vec<Vec<u8>>)
    ensures
        path_views(places@) == fallback_places(maybe_view(source), maybe_view(user_dir)),
{
    if let Some(path) = source {
        if is_relative(path) {
            if let Some(name) = file_name(path) {
                if !same_bytes(name.as_slice(), "quotes.json".as_bytes()) {
                    return default_quotes_paths(user_dir);
                }
            }
        }
    }
    let places: Vec<Vec<u8>> = Vec::new();
    assert(path_views(places@) =~= Seq::<Seq<u8>>::empty());
    places
}

/// A configured source is tried before anything else, and an absolute one is
/// the only file tried.
pub proof fn configured_source_comes_first(
    path: Seq<u8>,
    user_dir: Option<Seq<u8>>,
    missing: bool,
)
    ensures
        load_order(Some(path), user_dir, missing).first() == path,
        is_absolute(path) <==> load_order(Some(path), user_dir, missing) == seq![path],
{
    let order = load_order(Some(path), user_dir, missing);
    if is_absolute(path) {
        assert(order =~= seq![path]);
    } else {
        assert(order.len() > 1);
        assert(order[0] == path);
    }
}

/// Where a relative source is missing, the usual files are tried in turn, after
/// those that go by its name: they end the order in which quotes are loaded, as
/// they do when no source is configured.
pub proof fn missing_source_falls_back_to_the_usual_files(
    source: Option<Seq<u8>>,
    user_dir: Option<Seq<u8>>,
    missing: bool,
)
    requires
        source matches Some(path) ==> !is_absolute(path) && missing,
    ensures
        standing_places(user_dir, bytes("quotes.json"@)).is_suffix_of(
            load_order(source, user_dir, missing),
        ),
        search_order(source, user_dir).is_prefix_of(load_order(source, user_dir, missing)),
        source is None ==> load_order(source, user_dir, missing) == standing_places(
            user_dir,
            bytes("quotes.json"@),
        ),
{
    let usual = standing_places(user_dir, bytes("quotes.json"@));
    let order = load_order(source, user_dir, missing);
    assert(usual =~= order.subrange(order.len() - usual.len(), order.len() as int));
    let own = search_order(source, user_dir);
    assert(own =~= order.subrange(0, own.len() as int));
    if source is None {
        assert(order =~= usual);
    }
}

/// A source that is there is honoured: whatever is wrong with it, the usual files
/// do not stand in for it. For an absolute source nothing does, there or not.
pub proof fn present_source_is_honoured(path: Seq<u8>, user_dir: Option<Seq<u8>>, missing: bool)
    ensures
        !missing ==> load_order(Some(path), user_dir, missing) == search_order(
            Some(path),
            user_dir,
        ),
        is_absolute(path) ==> load_order(Some(path), user_dir, missing) == seq![path],
{
    if is_absolute(path) {
        assert(load_order(Some(path), user_dir, missing) =~= seq![path]);
    }
}

/// Of the files that go by the name of a relative source, or by the usual name
/// without a source, the packaged one is tried last, after the user's own.
pub proof fn packaged_quotes_come_last(source: Option<Seq<u8>>, user_dir: Option<Seq<u8>>)
    requires
        source matches Some(path) ==> !is_absolute(path),
    ensures
        ({
            let order = search_order(source, user_dir);
            let name = match source {
                Some(path) => match final_name(path) {
                    Some(name) => name,
                    None => bytes("quotes.json"@),
                },
                None => bytes("quotes.json"@),
            };
            &&& order.last() == joined(bytes("/etc/bspwm-cyberquote"@), name)
            &&& user_dir matches Some(dir) ==> order[order.len() - 2] == joined(dir, name)
        }),
{
}

proof fn lemma_simple_name(name: Seq<u8>)
    requires
        name.len() > 0,
        forall|i: int| 0 <= i < name.len() ==> #[trigger] name[i] != SLASH,
        name != seq![DOT],
        name != seq![DOT, DOT],
    ensures
        final_name(name) == Some(name),
{
    lemma_last_part_start_unique(name, 0);
    assert(name.skip(0) =~= name);
}

/// A plain file name as source is looked for in the working directory and then
/// in the same places as without a source, under that name.
pub proof fn plain_name_adds_the_working_directory(name: Seq<u8>, user_dir: Option<Seq<u8>>)
    requires
        name.len() > 0,
        forall|i: int| 0 <= i < name.len() ==> #[trigger] name[i] != SLASH,
        name != seq![DOT],
        name != seq![DOT, DOT],
    ensures
        search_order(Some(name), user_dir) == seq![name] + standing_places(user_dir, name),
{
    lemma_simple_name(name);
    assert(name[0] != SLASH);
}

// ---------------------------------------------------------------------------
// What paths mean
// ---------------------------------------------------------------------------

/// A relative name stands below its base, with one slash between them and none
/// added where there is one or nothing before it; an absolute name stands for
/// itself. Going down twice is going down at once.
pub proof fn names_stand_below_their_base(base: Seq<u8>, name: Seq<u8>, below: Seq<u8>)
    ensures
        name.len() > 0 && name[0] == 47 ==> joined(base, name) == name,
        !(name.len() > 0 && name[0] == 47) ==> {
            let path = joined(base, name);
            let slash: int = if base.len() == 0 || base.last() == 47 {
                0
            } else {
                1
            };
            &&& path.len() == base.len() + slash + name.len()
            &&& path.take(base.len() as int) == base
            &&& path.skip(base.len() + slash) == name
            &&& slash == 1 ==> path[base.len() as int] == 47
        },
        !is_absolute(name) && !is_absolute(below) ==> joined(joined(base, name), below) == joined(
            base,
            joined(name, below),
        ),
{
    let path = joined(base, name);
    if !is_absolute(name) {
        if base.len() == 0 || base.last() == SLASH {
            assert(path.take(base.len() as int) =~= base);
            assert(path.skip(base.len() as int) =~= name);
        } else {
            assert(path.take(base.len() as int) =~= base);
            assert(path.skip(base.len() as int + 1) =~= name);
        }
        if !is_absolute(below) {
            assert(joined(path, below) =~= joined(base, joined(name, below)));
        }
    }
}

proof fn lemma_last_part_of_join(head: Seq<u8>, name: Seq<u8>)
    requires
        head.len() == 0 || head.last() == SLASH,
        forall|i: int| 0 <= i < name.len() ==> #[trigger] name[i] != SLASH,
    ensures
        last_part_start(head + name) == head.len(),
        (head + name).skip(head.len() as int) == name,
{
    let path = head + name;
    assert forall|i: int| head.len() <= i < path.len() implies #[trigger] path[i] != SLASH by {
        assert(path[i] == name[i - head.len()]);
    }
    if head.len() > 0 {
        assert(path[head.len() - 1] == head.last());
    }
    lemma_last_part_start_unique(path, head.len() as int);
    assert(path.skip(head.len() as int) =~= name);
}

/// What was joined to a base is what the path names, wherever the base is; a slash
/// at the end makes no difference, and neither does the current directory; the
/// parent directory names nothing.
pub proof fn path_names_its_last_part(base: Seq<u8>, name: Seq<u8>)
    requires
        name.len() > 0,
        forall|i: int| 0 <= i < name.len() ==> #[trigger] name[i] != 47,
    ensures
        name != seq![46u8] && name != seq![46u8, 46u8] ==> final_name(joined(base, name)) == Some(
            name,
        ),
        final_name(base.push(47)) == final_name(base),
        final_name(base.push(47).push(46)) == final_name(base),
        name == seq![46u8, 46u8] ==> final_name(joined(base, name)) is None,
        final_name(Seq::<u8>::empty()) is None,
{
    assert(name[0] != SLASH);
    let head = if base.len() == 0 || base.last() == SLASH {
        base
    } else {
        base.push(SLASH)
    };
    assert(joined(base, name) =~= head + name);
    lemma_last_part_of_join(head, name);
    let slashed = base.push(SLASH);
    let nothing = Seq::<u8>::empty();
    lemma_last_part_of_join(slashed, nothing);
    assert(slashed + nothing =~= slashed);
    assert(slashed.take(slashed.len() - 1) =~= base);
    let dot = seq![DOT];
    assert(dot[0] != SLASH);
    lemma_last_part_of_join(slashed, dot);
    let dotted = slashed.push(DOT);
    assert(slashed + dot =~= dotted);
    assert(dotted.take(slashed.len() - 1) =~= base);
    lemma_last_part_of_join(nothing, nothing);
    assert(nothing + nothing =~= nothing);
}

/// What a path names is a proper name: it is not empty, holds no slash and is
/// neither the current nor the parent directory.
pub proof fn names_are_proper(path: Seq<u8>)
    ensures
        final_name(path) matches Some(name) ==> {
            &&& name.len() > 0
            &&& forall|i: int| 0 <= i < name.len() ==> #[trigger] name[i] != 47
            &&& name != seq![46u8]
            &&& name != seq![46u8, 46u8]
        },
    decreases path.len(),
{
    lemma_last_part_start(path);
    let start = last_part_start(path);
    let part = path.skip(start);
    if part == Seq::<u8>::empty() || part == seq![DOT] {
        if start > 0 {
            names_are_proper(path.take(start - 1));
        }
    } else {
        if part.len() == 0 {
            assert(part =~= Seq::<u8>::empty());
        }
        assert forall|i: int| 0 <= i < part.len() implies #[trigger] part[i] != SLASH by {
            assert(part[i] == path[start + i]);
        }
    }
}

/// `XDG_CONFIG_HOME` decides alone where it says anything; else the home does, and
/// without either there is no directory. An empty value is no value.
pub proof fn xdg_goes_before_home(
    xdg: Seq<u8>,
    home: Option<Seq<u8>>,
    other: Option<Seq<u8>>,
)
    ensures
        xdg.len() > 0 ==> config_dir(Some(xdg), home) == config_dir(Some(xdg), other),
        xdg.len() > 0 ==> config_dir(Some(xdg), home) == Some(
            joined(xdg, bytes("bspwm-cyberquote"@)),
        ),
        xdg.len() == 0 ==> config_dir(Some(xdg), home) == config_dir(None, home),
        config_dir(None, home) is Some <==> home is Some,
        home matches Some(h) ==> config_dir(None, home) == Some(
            joined(h, bytes(".config/bspwm-cyberquote"@)),
        ),
{
}

/// A file is looked for in the user's directory, where there is one, and then in
/// the packaged one, under the same name in both.
pub proof fn standing_places_go_by_one_name(user_dir: Option<Seq<u8>>, name: Seq<u8>)
    requires
        name.len() > 0,
        forall|i: int| 0 <= i < name.len() ==> #[trigger] name[i] != 47,
        name != seq![46u8],
        name != seq![46u8, 46u8],
    ensures
        ({
            let places = standing_places(user_dir, name);
            &&& places.len() == if user_dir is Some {
                2int
            } else {
                1
            }
            &&& forall|i: int|
                0 <= i < places.len() ==> final_name(#[trigger] places[i]) == Some(name)
            &&& user_dir matches Some(dir) ==> places[0] == joined(dir, name)
            &&& places.last() == joined(bytes("/etc/bspwm-cyberquote"@), name)
        }),
{
    path_names_its_last_part(bytes("/etc/bspwm-cyberquote"@), name);
    if let Some(dir) = user_dir {
        path_names_its_last_part(dir, name);
    }
}

/// A relative source is looked for where it says and then under its name in the
/// standing places, and nowhere else; without a name of its own it goes by the
/// usual one there. Without a source only the standing places for the usual name
/// are searched.
pub proof fn source_is_looked_for_nowhere_else(path: Seq<u8>, user_dir: Option<Seq<u8>>)
    requires
        !(path.len() > 0 && path[0] == 47),
    ensures
        ({
            let order = search_order(Some(path), user_dir);
            let usual = bytes("quotes.json"@);
            &&& order[0] == path
            &&& final_name(path) matches Some(name) ==> order.skip(1) == standing_places(
                user_dir,
                name,
            )
            &&& final_name(path) is None ==> order.skip(1) == standing_places(user_dir, usual)
            &&& search_order(None, user_dir) == standing_places(user_dir, usual)
        }),
{
    let order = search_order(Some(path), user_dir);
    match final_name(path) {
        Some(name) => {
            assert(order.skip(1) =~= standing_places(user_dir, name));
        },
        None => {
            assert(order.skip(1) =~= standing_places(user_dir, bytes("quotes.json"@)));
        },
    }
}

} // verus!
