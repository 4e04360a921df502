//! The quote pool: what a quotes file yields, where the pool comes from, and
//! which quotes the monitors are given.

use vstd::prelude::*;

use crate::chance::random_between;
use crate::paths::{
    candidate_paths, fallback_paths, load_order, lossy_text, maybe_view, path_views, plainly_shown,
    search_order, shown_path,
};
use crate::text::is_blank;

verus! {

/// A single quote with its attributed source.
#[derive(Debug)]
pub struct Quote {
    pub text: String,
    pub author: String,
}

impl Clone for Quote {
    fn clone(&self) -> (copy: Quote)
        ensures
            copy == *self,
    {
        Quote { text: self.text.clone(), author: self.author.clone() }
    }
}

impl Quote {
    /// Whether there is nothing to show.
    pub open spec fn blank(self) -> bool {
        crate::text::all_white_space(self.text@)
    }

    /// Whether the quote has no text to show, only white space.
    pub fn is_empty(&self) -> (empty: bool)
        ensures
            empty == self.blank(),
    {
        is_blank(self.text.as_str())
    }
}

/// The contents of a quotes file.
#[derive(Debug, Clone)]
pub struct QuotesFile {
    pub quotes: Vec<Quote>,
}

/// How a quote is picked from the pool.
#[derive(Debug, Clone, Copy, PartialEq, Eq, Structural)]
pub enum Picker {
    Random,
}

impl Default for Picker {
    fn default() -> (picker: Picker)
        ensures
            picker == Picker::Random,
    {
        Picker::Random
    }
}

/// A quote chosen for display.
#[derive(Debug)]
pub struct QuoteSelection {
    pub quote: Quote,
}

impl Clone for QuoteSelection {
    fn clone(&self) -> (copy: QuoteSelection)
        ensures
            copy == *self,
    {
        QuoteSelection { quote: self.quote.clone() }
    }
}

/// What came of the attempt to read one quotes file.
#[derive(Debug)]
pub enum ReadOutcome {
    /// There is no such file; the system's message says so.
    Missing(String),
    /// The file could not be read; the system's message says why.
    Unreadable(String),
    /// The file is no quotes file; the parser's message says why.
    Malformed(String),
    /// The file was read.
    Parsed(QuotesFile),
}

/// The quotes of a file that have anything to show, in their order.
pub open spec fn usable(quotes: Seq<Quote>) -> Seq<Quote> {
    quotes.filter(|q: Quote| !q.blank())
}

/// What an attempt to read the file shown as `path` yields: its usable quotes,
/// or the reason why there are none.
pub open spec fn reading(path: Seq<char>, outcome: ReadOutcome) -> Result<Seq<Quote>, Seq<char>> {
    match outcome {
        ReadOutcome::Missing(why) | ReadOutcome::Unreadable(why) => Err(path + ": "@ + why@),
        ReadOutcome::Malformed(why) => Err("Failed to parse "@ + path + ": "@ + why@),
        ReadOutcome::Parsed(file) => if usable(file.quotes@).len() == 0 {
            Err(path + " contained no usable quotes."@)
        } else {
            Ok(usable(file.quotes@))
        },
    }
}

/// What a result holds.
pub open spec fn pool_view(result: Result<Vec<Quote>, String>) -> Result<Seq<Quote>, Seq<char>> {
    match result {
        Ok(quotes) => Ok(quotes@),
        Err(why) => Err(why@),
    }
}

fn keep_usable(quotes: &Vec<Quote>) -> (kept: Vec<Quote>)
    ensures
        kept@ == usable(quotes@),
{
    let mut kept: Vec<Quote> = Vec::new();
    let mut i: usize = 0;
    let ghost pred = |q: Quote| !q.blank();
    assert(quotes@.take(0) =~= Seq::empty());
    reveal(Seq::filter);
    while i < quotes.len()
        invariant
            i <= quotes@.len(),
            pred == (|q: Quote| !q.blank()),
            kept@ == quotes@.take(i as int).filter(pred),
        decreases quotes@.len() - i,
    {
        reveal(Seq::filter);
        assert(quotes@.take(i + 1).drop_last() =~= quotes@.take(i as int));
        if !quotes[i].is_empty() {
            kept.push(quotes[i].clone());
        }
        i = i + 1;
    }
    assert(quotes@.take(quotes@.len() as int) =~= quotes@);
    kept
}

/// Judges one quotes file by what reading it gave. `path` is the file's name as
/// it is shown to the user.
pub fn read_quotes(path: &str, outcome: &ReadOutcome) -> (result: Result<Vec<Quote>, String>)
    ensures
        pool_view(result) == reading(path@, *outcome),
{
    match outcome {
        ReadOutcome::Missing(why) | ReadOutcome::Unreadable(why) => Err(
            path.to_owned().concat(": ").concat(why.as_str()),
        ),
        ReadOutcome::Malformed(why) => Err(
            "Failed to parse ".to_owned().concat(path).concat(": ").concat(why.as_str()),
        ),
        ReadOutcome::Parsed(file) => {
            let kept = keep_usable(&file.quotes);
            if kept.len() == 0 {
                Err(path.to_owned().concat(" contained no usable quotes."))
            } else {
                Ok(kept)
            }
        },
    }
}

// ---------------------------------------------------------------------------
// The search for a quotes file
// ---------------------------------------------------------------------------

/// The texts a list holds.
pub open spec fn texts(list: Seq<String>) -> Seq<Seq<char>> {
    list.map_values(|s: String| s@)
}

/// `parts` one after the other, with `sep` between them.
pub open spec fn separated(parts: Seq<Seq<char>>, sep: Seq<char>) -> Seq<char>
    decreases parts.len(),
{
    if parts.len() == 0 {
        Seq::empty()
    } else if parts.len() == 1 {
        parts[0]
    } else {
        separated(parts.drop_last(), sep) + sep + parts.last()
    }
}

/// The message for a search that found nothing: every file tried, and why each
/// of them would not do.
pub open spec fn failure_message(shown: Seq<Seq<char>>, reasons: Seq<Seq<char>>) -> Seq<char> {
    "No readable quotes file (tried "@ + separated(shown, ", "@) + "): "@ + separated(
        reasons,
        "; "@,
    )
}

fn separate(parts: &Vec<String>, sep: &str) -> (text: String)
    ensures
        text@ == separated(texts(parts@), sep@),
{
    let mut text = String::new();
    let mut i: usize = 0;
    let ghost all = texts(parts@);
    assert(all.take(0) =~= Seq::empty());
    while i < parts.len()
        invariant
            i <= parts@.len(),
            all == texts(parts@),
            text@ == separated(all.take(i as int), sep@),
        decreases parts@.len() - i,
    {
        assert(all.take(i + 1).drop_last() =~= all.take(i as int));
        if i > 0 {
            text.append(sep);
            text.append(parts[i].as_str());
        } else {
            text.append(parts[i].as_str());
            assert(text@ =~= parts@[0]@);
        }
        i = i + 1;
    }
    assert(all.take(all.len() as int) =~= all);
    text
}

/// Words the failure of a search: `shown` are the files tried, `reasons` why
/// each of them would not do.
pub fn search_failed(shown: &Vec<String>, reasons: &Vec<String>) -> (message: String)
    ensures
        message@ == failure_message(texts(shown@), texts(reasons@)),
{
    "No readable quotes file (tried ".to_owned().concat(separate(shown, ", ").as_str()).concat(
        "): ",
    ).concat(separate(reasons, "; ").as_str())
}

/// What the attempt on file `i` yields.
pub open spec fn attempt(
    paths: Seq<Vec<u8>>,
    outcomes: Seq<ReadOutcome>,
    i: int,
) -> Result<Seq<Quote>, Seq<char>> {
    reading(lossy_text(paths[i]@), outcomes[i])
}

/// Whether `outcomes` are what reading `paths` in order gave, up to the first
/// file with usable quotes, or all of them when there is none.
pub open spec fn search_trace<F: Fn(&Vec<u8>) -> ReadOutcome>(
    read: F,
    paths: Seq<Vec<u8>>,
    outcomes: Seq<ReadOutcome>,
) -> bool {
    &&& outcomes.len() <= paths.len()
    &&& forall|i: int|
        0 <= i < outcomes.len() ==> call_ensures(read, (&paths[i],), #[trigger] outcomes[i])
    &&& forall|i: int|
        0 <= i < outcomes.len() - 1 ==> #[trigger] attempt(paths, outcomes, i) is Err
    &&& outcomes.len() < paths.len() ==> outcomes.len() > 0 && attempt(
        paths,
        outcomes,
        outcomes.len() - 1,
    ) is Ok
    &&& forall|i: int| 0 <= i < outcomes.len() ==> plainly_shown((#[trigger] paths[i])@)
}

/// What a search yields: the usable quotes of the file it stopped at, or the
/// message that names every failure.
pub open spec fn search_result(paths: Seq<Vec<u8>>, outcomes: Seq<ReadOutcome>) -> Result<
    Seq<Quote>,
    Seq<char>,
> {
    if outcomes.len() > 0 && attempt(paths, outcomes, outcomes.len() - 1) is Ok {
        attempt(paths, outcomes, outcomes.len() - 1)
    } else {
        Err(
            failure_message(
                paths.map_values(|p: Vec<u8>| lossy_text(p@)),
                Seq::new(outcomes.len(), |i: int| attempt(paths, outcomes, i)->Err_0),
            ),
        )
    }
}

/// Whether the first file tried turned out not to be there.
pub open spec fn first_is_missing(outcomes: Seq<ReadOutcome>) -> bool {
    outcomes.len() > 0 && outcomes[0] is Missing
}

/// Whether a search from `source`, reading files with `read`, may end in `result`.
pub open spec fn loads<F: Fn(&Vec<u8>) -> ReadOutcome>(
    source: Option<&[u8]>,
    user_dir: Option<&[u8]>,
    read: F,
    result: Result<Seq<Quote>, Seq<char>>,
) -> bool {
    exists|paths: Seq<Vec<u8>>, outcomes: Seq<ReadOutcome>|
        {
            &&& path_views(paths) == load_order(
                maybe_view(source),
                maybe_view(user_dir),
                first_is_missing(outcomes),
            )
            &&& #[trigger] search_trace(read, paths, outcomes)
            &&& result == search_result(paths, outcomes)
        }
}

/// Loads all usable quotes from the first file that has any. `source` is the
/// configured file, `user_dir` the user's configuration directory, and `read`
/// reads one file. Where a relative source is missing, the usual files are tried
/// after those that go by its name; one that is there is not replaced by them.
pub fn load_all<F: Fn(&Vec<u8>) -> ReadOutcome>(
    source: Option<&[u8]>,
    user_dir: Option<&[u8]>,
    read: F,
) -> (result: Result<Vec<Quote>, String>)
    requires
        forall|path: &Vec<u8>| call_requires(read, (path,)),
    ensures
        loads(source, user_dir, read, pool_view(result)),
{
    let mut paths = candidate_paths(source, user_dir);
    let ghost own = paths@;
    assert(path_views(own) == search_order(maybe_view(source), maybe_view(user_dir)));
    assert(path_views(own).len() == own.len());
    let mut outcome = read(&paths[0]);
    let ghost mut outcomes: Seq<ReadOutcome> = seq![outcome];
    if let ReadOutcome::Missing(_) = &outcome {
        let mut fallback = fallback_paths(source, user_dir);
        let ghost after = fallback@;
        paths.append(&mut fallback);
        assert(path_views(paths@) =~= path_views(own) + path_views(after));
    }
    assert(paths@[0] == own[0]);
    let mut shown: Vec<String> = Vec::new();
    let mut reasons: Vec<String> = Vec::new();
    let mut i: usize = 0;
    loop
        invariant
            i < paths.len(),
            forall|path: &Vec<u8>| call_requires(read, (path,)),
            path_views(paths@) == load_order(
                maybe_view(source),
                maybe_view(user_dir),
                first_is_missing(outcomes),
            ),
            outcomes.len() == i + 1,
            outcomes[i as int] == outcome,
            shown@.len() == i,
            reasons@.len() == i,
            forall|j: int|
                0 <= j <= i ==> call_ensures(read, (&paths@[j],), #[trigger] outcomes[j]),
            forall|j: int|
                0 <= j < i ==> #[trigger] attempt(paths@, outcomes, j) == Err::<
                    Seq<Quote>,
                    Seq<char>,
                >(reasons@[j]@),
            forall|j: int| 0 <= j < i ==> #[trigger] shown@[j]@ == lossy_text(paths@[j]@),
            forall|j: int| 0 <= j < i ==> plainly_shown((#[trigger] paths@[j])@),
        decreases paths@.len() - i,
    {
        let text = shown_path(&paths[i]);
        assert(plainly_shown(paths@[i as int]@));
        match read_quotes(text.as_str(), &outcome) {
            Ok(quotes) => {
                assert(attempt(paths@, outcomes, i as int) == Ok::<Seq<Quote>, Seq<char>>(quotes@));
                assert(search_trace(read, paths@, outcomes));
                return Ok(quotes);
            },
            Err(why) => {
                shown.push(text);
                reasons.push(why);
            },
        }
        assert(attempt(paths@, outcomes, i as int) == Err::<Seq<Quote>, Seq<char>>(
            reasons@[i as int]@,
        ));
        i = i + 1;
        if i == paths.len() {
            proof {
                assert(search_trace(read, paths@, outcomes));
                assert(texts(shown@) =~= paths@.map_values(|p: Vec<u8>| lossy_text(p@)));
                assert(texts(reasons@) =~= Seq::new(
                    outcomes.len(),
                    |j: int| attempt(paths@, outcomes, j)->Err_0,
                ));
            }
            return Err(search_failed(&shown, &reasons));
        }
        outcome = read(&paths[i]);
        let ghost before = outcomes;
        proof {
            outcomes = outcomes.push(outcome);
            assert forall|j: int| 0 <= j < i implies #[trigger] attempt(paths@, outcomes, j)
                == attempt(paths@, before, j) by {}
        }
    }
}

/// A search never ends in an empty pool, and every quote it loads has something
/// to show.
pub proof fn loaded_quotes_are_usable<F: Fn(&Vec<u8>) -> ReadOutcome>(
    source: Option<&[u8]>,
    user_dir: Option<&[u8]>,
    read: F,
    pool: Seq<Quote>,
)
    requires
        loads(source, user_dir, read, Ok::<Seq<Quote>, Seq<char>>(pool)),
    ensures
        pool.len() > 0,
        forall|i: int| 0 <= i < pool.len() ==> !(#[trigger] pool[i]).blank(),
{
    let (paths, outcomes) = choose|paths: Seq<Vec<u8>>, outcomes: Seq<ReadOutcome>|
        {
            &&& path_views(paths) == load_order(
                maybe_view(source),
                maybe_view(user_dir),
                first_is_missing(outcomes),
            )
            &&& #[trigger] search_trace(read, paths, outcomes)
            &&& Ok::<Seq<Quote>, Seq<char>>(pool) == search_result(paths, outcomes)
        };
    let file = outcomes[outcomes.len() - 1]->Parsed_0;
    let pred = |q: Quote| !q.blank();
    assert(pool == file.quotes@.filter(pred));
    broadcast use vstd::seq_lib::group_filter_ensures;

    assert forall|i: int| 0 <= i < pool.len() implies !(#[trigger] pool[i]).blank() by {
        assert(pred(pool[i]));
    }
}

// ---------------------------------------------------------------------------
// Picking
// ---------------------------------------------------------------------------

/// The selection at place `at` of the pool.
pub fn pick_at(quotes: &Vec<Quote>, at: usize) -> (selection: QuoteSelection)
    requires
        at < quotes@.len(),
    ensures
        selection.quote == quotes@[at as int],
{
    QuoteSelection { quote: quotes[at].clone() }
}

/// A random place in a pool of `len` quotes, as `picker` chooses it.
fn pick_place(len: usize, picker: Picker) -> (at: usize)
    requires
        len > 0,
    ensures
        at < len,
{
    match picker {
        Picker::Random => random_between(0, (len - 1) as u64) as usize,
    }
}

/// Loads the pool and picks one quote from it.
pub fn load_and_pick<F: Fn(&Vec<u8>) -> ReadOutcome>(
    source: Option<&[u8]>,
    user_dir: Option<&[u8]>,
    picker: Picker,
    read: F,
) -> (result: Result<QuoteSelection, String>)
    requires
        forall|path: &Vec<u8>| call_requires(read, (path,)),
    ensures
        exists|pool: Result<Seq<Quote>, Seq<char>>|
            #[trigger] loads(source, user_dir, read, pool) && match (pool, result) {
                (Ok(quotes), Ok(selection)) => quotes.contains(selection.quote),
                (Err(why), Err(message)) => message@ == why,
                _ => false,
            },
{
    let loaded = load_all(source, user_dir, read);
    let ghost pool = pool_view(loaded);
    match loaded {
        Err(why) => {
            assert(loads(source, user_dir, read, pool));
            Err(why)
        },
        Ok(quotes) => {
            proof {
                loaded_quotes_are_usable(source, user_dir, read, quotes@);
            }
            let at = pick_place(quotes.len(), picker);
            assert(quotes@.contains(quotes@[at as int]));
            Ok(pick_at(&quotes, at))
        },
    }
}

/// `order` with the entries at `i` and `j` in each other's place.
pub open spec fn exchanged(order: Seq<usize>, i: int, j: int) -> Seq<usize> {
    order.update(i, order[j]).update(j, order[i])
}

/// The places `0..n` after the exchanges that `draws` ask for: the last place
/// with `draws[0]`, the one before it with `draws[1]`, and so on.
pub open spec fn shuffled(n: nat, draws: Seq<usize>) -> Seq<usize>
    decreases draws.len(),
{
    if draws.len() == 0 {
        Seq::new(n, |i: int| i as usize)
    } else {
        exchanged(shuffled(n, draws.drop_last()), n - draws.len(), draws.last() as int)
    }
}

/// Whether `draws` can shuffle `n` places: one draw for every place but the
/// first, from the last on, each no later than the place it is drawn for.
pub open spec fn draws_fit(n: nat, draws: Seq<usize>) -> bool {
    &&& draws.len() + 1 == n
    &&& forall|s: int| 0 <= s < draws.len() ==> #[trigger] draws[s] <= n - 1 - s
}

/// Whether `order` lists each of the places `0..n` once.
pub open spec fn is_arrangement(n: nat, order: Seq<usize>) -> bool {
    &&& order.len() == n
    &&& order.no_duplicates()
    &&& forall|i: int| 0 <= i < n ==> #[trigger] order[i] < n
}

/// Exchanges leave an arrangement of the same places.
pub proof fn shuffling_arranges(n: nat, draws: Seq<usize>)
    requires
        n <= usize::MAX,
        draws.len() < n,
        forall|s: int| 0 <= s < draws.len() ==> #[trigger] draws[s] <= n - 1 - s,
    ensures
        is_arrangement(n, shuffled(n, draws)),
    decreases draws.len(),
{
    if draws.len() > 0 {
        let before = draws.drop_last();
        assert forall|s: int| 0 <= s < before.len() implies #[trigger] before[s] <= n - 1 - s by {
            assert(before[s] == draws[s]);
        }
        shuffling_arranges(n, before);
        let order = shuffled(n, before);
        let (i, j) = (n - draws.len(), draws[draws.len() - 1] as int);
        assert(0 <= j <= i < n);
        let after = exchanged(order, i, j);
        assert forall|a: int, b: int|
            0 <= a < after.len() && 0 <= b < after.len() && a != b implies after[a]
            != after[b] by {
            let from_a = if a == i {
                j
            } else if a == j {
                i
            } else {
                a
            };
            let from_b = if b == i {
                j
            } else if b == j {
                i
            } else {
                b
            };
            assert(after[a] == order[from_a] && after[b] == order[from_b]);
            assert(order[from_a] != order[from_b]);
        }
    }
}

/// Shuffles the places `0..n` by the exchanges that `draws` ask for.
pub fn shuffle_places(n: usize, draws: &Vec<usize>) -> (order: Vec<usize>)
    requires
        draws_fit(n as nat, draws@),
    ensures
        order@ == shuffled(n as nat, draws@),
        is_arrangement(n as nat, order@),
{
    let mut order: Vec<usize> = Vec::new();
    let mut i: usize = 0;
    while i < n
        invariant
            i <= n,
            order@.len() == i,
            forall|k: int| 0 <= k < i ==> #[trigger] order@[k] == k,
        decreases n - i,
    {
        order.push(i);
        i = i + 1;
    }
    assert(draws@.take(0) =~= Seq::empty());
    assert(order@ =~= shuffled(n as nat, draws@.take(0)));
    let mut s: usize = 0;
    while s < draws.len()
        invariant
            s <= draws@.len(),
            draws_fit(n as nat, draws@),
            order@.len() == n,
            order@ == shuffled(n as nat, draws@.take(s as int)),
        decreases draws@.len() - s,
    {
        let here: usize = n - 1 - s;
        let there: usize = draws[s];
        proof {
            assert(draws@.take(s + 1).drop_last() =~= draws@.take(s as int));
        }
        let a: usize = order[here];
        let b: usize = order[there];
        order.set(here, b);
        order.set(there, a);
        s = s + 1;
    }
    proof {
        assert(draws@.take(draws@.len() as int) =~= draws@);
        shuffling_arranges(n as nat, draws@);
    }
    order
}

/// Draws the exchanges for a fair shuffle of `n` places.
fn draw_exchanges(n: usize) -> (draws: Vec<usize>)
    requires
        n > 0,
    ensures
        draws_fit(n as nat, draws@),
{
    let mut draws: Vec<usize> = Vec::new();
    let mut i: usize = n - 1;
    while i > 0
        invariant
            i < n,
            draws@.len() == n - 1 - i,
            forall|s: int| 0 <= s < draws@.len() ==> #[trigger] draws@[s] <= n - 1 - s,
        decreases i,
    {
        let j: usize = random_between(0, i as u64) as usize;
        draws.push(j);
        i = i - 1;
    }
    draws
}

/// Whether `dealt` is `count` quotes of the pool, in the order given and from
/// its start again whenever it runs out.
pub open spec fn dealt_in_turn(
    dealt: Seq<QuoteSelection>,
    pool: Seq<Quote>,
    order: Seq<usize>,
    count: nat,
) -> bool {
    &&& dealt.len() == count
    &&& forall|i: int|
        0 <= i < count ==> (#[trigger] dealt[i]).quote == pool[order[i % order.len() as int] as int]
}

/// Deals `count` quotes in the order given, starting over when it runs out.
pub fn deal(quotes: &Vec<Quote>, order: &Vec<usize>, count: usize) -> (dealt: Vec<QuoteSelection>)
    requires
        order@.len() > 0,
        forall|i: int| 0 <= i < order@.len() ==> #[trigger] order@[i] < quotes@.len(),
    ensures
        dealt_in_turn(dealt@, quotes@, order@, count as nat),
{
    let mut dealt: Vec<QuoteSelection> = Vec::new();
    let mut i: usize = 0;
    while i < count
        invariant
            i <= count,
            order@.len() > 0,
            forall|k: int| 0 <= k < order@.len() ==> #[trigger] order@[k] < quotes@.len(),
            dealt_in_turn(dealt@, quotes@, order@, i as nat),
        decreases count - i,
    {
        dealt.push(pick_at(quotes, order[i % order.len()]));
        i = i + 1;
    }
    dealt
}

/// Whether `dealt` is `count` quotes of the pool in some shuffled order.
pub open spec fn is_random_deal(
    dealt: Seq<QuoteSelection>,
    pool: Seq<Quote>,
    count: nat,
) -> bool {
    exists|draws: Seq<usize>|
        {
            &&& #[trigger] draws_fit(pool.len(), draws)
            &&& dealt_in_turn(dealt, pool, shuffled(pool.len(), draws), count)
        }
}

/// Whether `result` is what dealing `count` quotes of a shuffled pool may give,
/// or the reason why there is no pool.
pub open spec fn deals_from(
    pool: Result<Seq<Quote>, Seq<char>>,
    result: Result<Vec<QuoteSelection>, String>,
    count: nat,
) -> bool {
    match (pool, result) {
        (Ok(quotes), Ok(dealt)) => is_random_deal(dealt@, quotes, count),
        (Err(why), Err(message)) => message@ == why,
        _ => false,
    }
}

/// Loads the pool and picks `count` quotes at random, one for each monitor. No
/// quote is repeated before every quote of the pool has been given out.
pub fn load_and_pick_many<F: Fn(&Vec<u8>) -> ReadOutcome>(
    source: Option<&[u8]>,
    user_dir: Option<&[u8]>,
    count: usize,
    read: F,
) -> (result: Result<Vec<QuoteSelection>, String>)
    requires
        forall|path: &Vec<u8>| call_requires(read, (path,)),
    ensures
        exists|pool: Result<Seq<Quote>, Seq<char>>| #[trigger]
            loads(source, user_dir, read, pool) && deals_from(pool, result, count as nat),
{
    let loaded = load_all(source, user_dir, read);
    let ghost pool = pool_view(loaded);
    match loaded {
        Err(why) => {
            assert(loads(source, user_dir, read, pool));
            let result: Result<Vec<QuoteSelection>, String> = Err(why);
            assert(deals_from(pool, result, count as nat));
            result
        },
        Ok(quotes) => {
            proof {
                loaded_quotes_are_usable(source, user_dir, read, quotes@);
            }
            let draws = draw_exchanges(quotes.len());
            let order = shuffle_places(quotes.len(), &draws);
            let dealt = deal(&quotes, &order, count);
            assert(draws_fit(quotes@.len(), draws@));
            assert(dealt_in_turn(
                dealt@,
                quotes@,
                shuffled(quotes@.len(), draws@),
                count as nat,
            ));
            assert(is_random_deal(dealt@, quotes@, count as nat));
            let result: Result<Vec<QuoteSelection>, String> = Ok(dealt);
            assert(deals_from(pool, result, count as nat));
            result
        },
    }
}

/// The place of the pool that the quote dealt at turn `i` comes from.
pub open spec fn place_dealt(order: Seq<usize>, i: int) -> usize {
    order[i % order.len() as int]
}

/// No quote of the pool is given out again before every other one has been: any
/// two turns less than a whole pool apart take different places. With no more
/// turns than quotes, all of them differ.
pub proof fn monitors_get_different_quotes(
    dealt: Seq<QuoteSelection>,
    pool: Seq<Quote>,
    order: Seq<usize>,
    count: nat,
)
    requires
        pool.len() > 0,
        is_arrangement(pool.len(), order),
        dealt_in_turn(dealt, pool, order, count),
    ensures
        forall|i: int|
            0 <= i < count ==> (#[trigger] dealt[i]).quote == pool[place_dealt(order, i) as int],
        forall|i: int, j: int|
            0 <= i < j < count && j - i < pool.len() ==> #[trigger] place_dealt(order, i)
                != #[trigger] place_dealt(order, j),
{
    let n = order.len() as int;
    assert forall|i: int, j: int|
        0 <= i < j < count && j - i < pool.len() implies #[trigger] place_dealt(order, i)
        != #[trigger] place_dealt(order, j) by {
        if i % n == j % n {
            vstd::arithmetic::div_mod::lemma_mod_equivalence(j, i, n);
            vstd::arithmetic::div_mod::lemma_small_mod((j - i) as nat, n as nat);
        }
        vstd::arithmetic::div_mod::lemma_mod_bound(i, n);
        vstd::arithmetic::div_mod::lemma_mod_bound(j, n);
    }
}

/// When more quotes are dealt than the pool holds, each comes round again after
/// exactly as many turns as there are quotes.
pub proof fn deal_comes_round(
    dealt: Seq<QuoteSelection>,
    pool: Seq<Quote>,
    order: Seq<usize>,
    count: nat,
    i: int,
)
    requires
        pool.len() > 0,
        is_arrangement(pool.len(), order),
        dealt_in_turn(dealt, pool, order, count),
        0 <= i,
        i + pool.len() < count,
    ensures
        dealt[i + pool.len()].quote == dealt[i].quote,
{
    vstd::arithmetic::div_mod::lemma_mod_add_multiples_vanish(i, pool.len() as int);
}

// ---------------------------------------------------------------------------
// What a search is worth
// ---------------------------------------------------------------------------

/// Whether a quote says anything: some character of its text is no white space.
/// Its author does not matter.
pub open spec fn says_something(quote: Quote) -> bool {
    exists|i: int|
        0 <= i < quote.text@.len() && !crate::text::is_white_space(#[trigger] quote.text@[i])
}

/// How many of the first `n` quotes say something.
pub open spec fn telling(quotes: Seq<Quote>, n: int) -> nat
    decreases n,
{
    if n <= 0 {
        0
    } else if says_something(quotes[n - 1]) {
        telling(quotes, n - 1) + 1
    } else {
        telling(quotes, n - 1)
    }
}

/// Whether `pool` is all that `quotes` have to say: each quote that says
/// something is there once for each time it stands in the list and in the order
/// of the list, and nothing else is.
pub open spec fn keeps_all(pool: Seq<Quote>, quotes: Seq<Quote>) -> bool {
    &&& pool.len() == telling(quotes, quotes.len() as int)
    &&& forall|i: int|
        0 <= i < quotes.len() && says_something(#[trigger] quotes[i]) ==> telling(quotes, i)
            < pool.len() && pool[telling(quotes, i) as int] == quotes[i]
}

proof fn lemma_telling_prefix(quotes: Seq<Quote>, m: int, n: int)
    requires
        0 <= n <= m <= quotes.len(),
    ensures
        telling(quotes.take(m), n) == telling(quotes, n),
        telling(quotes, n) <= telling(quotes, m),
    decreases m + n,
{
    if n > 0 {
        lemma_telling_prefix(quotes, m, n - 1);
    }
    if n < m {
        lemma_telling_prefix(quotes, m - 1, n);
    }
}

/// No quote with text is lost: what is kept of a file is every quote that says
/// something, as often as it stands there and in the same order. Whether a quote
/// is kept depends on its text alone.
pub proof fn no_quote_with_text_is_lost(quotes: Seq<Quote>)
    ensures
        keeps_all(usable(quotes), quotes),
    decreases quotes.len(),
{
    reveal(Seq::filter);
    if quotes.len() > 0 {
        let n = quotes.len() - 1;
        let rest = quotes.drop_last();
        no_quote_with_text_is_lost(rest);
        assert(rest =~= quotes.take(n));
        lemma_telling_prefix(quotes, n, n);
        let pred = |q: Quote| !q.blank();
        assert(usable(quotes) == quotes.filter(pred) && usable(rest) == rest.filter(pred));
        assert(pred(quotes[n]) == says_something(quotes[n]));
        assert(quotes.last() == quotes[n]);
        let pool = usable(quotes);
        assert forall|i: int| 0 <= i < quotes.len() && says_something(#[trigger] quotes[i]) implies
            telling(quotes, i) < pool.len() && pool[telling(quotes, i) as int] == quotes[i] by {
            if i < n {
                assert(rest[i] == quotes[i]);
                lemma_telling_prefix(quotes, n, i);
            }
        }
    }
}

proof fn lemma_telling_anything(quotes: Seq<Quote>, i: int)
    requires
        0 <= i < quotes.len(),
        says_something(quotes[i]),
    ensures
        telling(quotes, quotes.len() as int) > 0,
{
    assert(quotes.take(quotes.len() as int) =~= quotes);
    lemma_telling_prefix(quotes, quotes.len() as int, i + 1);
}

proof fn lemma_telling_something(quotes: Seq<Quote>, n: int)
    requires
        0 <= n <= quotes.len(),
        telling(quotes, n) > 0,
    ensures
        exists|i: int| 0 <= i < quotes.len() && says_something(#[trigger] quotes[i]),
    decreases n,
{
    if !says_something(quotes[n - 1]) {
        lemma_telling_something(quotes, n - 1);
    }
}

/// A file does exactly when it was read and some quote in it says something; then
/// it gives all of them.
pub proof fn file_does_when_a_quote_says_something(path: Seq<char>, outcome: ReadOutcome)
    ensures
        reading(path, outcome) is Ok <==> (outcome matches ReadOutcome::Parsed(file) && exists|
            i: int,
        |
            0 <= i < file.quotes@.len() && says_something(#[trigger] file.quotes@[i])),
        reading(path, outcome) matches Ok(pool) ==> keeps_all(pool, outcome->Parsed_0.quotes@),
{
    if let ReadOutcome::Parsed(file) = outcome {
        let quotes = file.quotes@;
        no_quote_with_text_is_lost(quotes);
        if usable(quotes).len() > 0 {
            lemma_telling_something(quotes, quotes.len() as int);
        }
        if exists|i: int| 0 <= i < quotes.len() && says_something(#[trigger] quotes[i]) {
            let i = choose|i: int| 0 <= i < quotes.len() && says_something(#[trigger] quotes[i]);
            lemma_telling_anything(quotes, i);
        }
    }
}

/// Why a file would not do is said by naming the file and, where reading or
/// parsing failed, by what the system or the parser says.
pub proof fn failures_name_their_file(path: Seq<char>, outcome: ReadOutcome)
    requires
        reading(path, outcome) is Err,
    ensures
        ({
            let message = reading(path, outcome)->Err_0;
            match outcome {
                ReadOutcome::Missing(why) | ReadOutcome::Unreadable(why) => message == path
                    + ": "@ + why@,
                ReadOutcome::Malformed(why) => (path + ": "@ + why@).is_suffix_of(message)
                    && message.len() == "Failed to parse "@.len() + path.len() + ": "@.len()
                    + why@.len(),
                ReadOutcome::Parsed(_) => path.is_prefix_of(message) && message.len()
                    > path.len(),
            }
        }),
{
    reveal_strlit(" contained no usable quotes.");
    let message = reading(path, outcome)->Err_0;
    match outcome {
        ReadOutcome::Malformed(why) => {
            let tail = path + ": "@ + why@;
            assert(message =~= "Failed to parse "@ + tail);
            assert(tail =~= message.subrange(message.len() - tail.len(), message.len() as int));
        },
        ReadOutcome::Parsed(_) => {
            assert(path =~= message.subrange(0, path.len() as int));
        },
        _ => {},
    }
}

/// A pool that was loaded is all that one file has to say, and that file stands
/// in one of the places that are searched.
pub proof fn pool_is_all_of_one_file<F: Fn(&Vec<u8>) -> ReadOutcome>(
    source: Option<&[u8]>,
    user_dir: Option<&[u8]>,
    read: F,
    pool: Seq<Quote>,
)
    requires
        loads(source, user_dir, read, Ok::<Seq<Quote>, Seq<char>>(pool)),
    ensures
        exists|path: Vec<u8>, file: QuotesFile|
            {
                &&& #[trigger] call_ensures(read, (&path,), ReadOutcome::Parsed(file))
                &&& load_order(maybe_view(source), maybe_view(user_dir), true).contains(path@)
                &&& keeps_all(pool, file.quotes@)
            },
{
    let (paths, outcomes) = choose|paths: Seq<Vec<u8>>, outcomes: Seq<ReadOutcome>|
        {
            &&& path_views(paths) == load_order(
                maybe_view(source),
                maybe_view(user_dir),
                first_is_missing(outcomes),
            )
            &&& #[trigger] search_trace(read, paths, outcomes)
            &&& Ok::<Seq<Quote>, Seq<char>>(pool) == search_result(paths, outcomes)
        };
    let last = outcomes.len() - 1;
    let file = outcomes[last]->Parsed_0;
    file_does_when_a_quote_says_something(lossy_text(paths[last]@), outcomes[last]);
    assert(outcomes[last] == ReadOutcome::Parsed(file));
    assert(call_ensures(read, (&paths[last],), ReadOutcome::Parsed(file)));
    let order = load_order(maybe_view(source), maybe_view(user_dir), true);
    assert(path_views(paths)[last] == paths[last]@);
    assert(order[last] == paths[last]@);
}

/// A search fails only after every place for the source was tried and none of
/// the files there had anything to say.
pub proof fn failed_search_tried_every_place<F: Fn(&Vec<u8>) -> ReadOutcome>(
    source: Option<&[u8]>,
    user_dir: Option<&[u8]>,
    read: F,
    why: Seq<char>,
    k: int,
)
    requires
        loads(source, user_dir, read, Err::<Seq<Quote>, Seq<char>>(why)),
        0 <= k < search_order(maybe_view(source), maybe_view(user_dir)).len(),
    ensures
        exists|path: Vec<u8>, outcome: ReadOutcome|
            {
                &&& #[trigger] call_ensures(read, (&path,), outcome)
                &&& path@ == search_order(maybe_view(source), maybe_view(user_dir))[k]
                &&& outcome matches ReadOutcome::Parsed(file) ==> forall|i: int|
                    0 <= i < file.quotes@.len() ==> !says_something(#[trigger] file.quotes@[i])
            },
{
    let (paths, outcomes) = choose|paths: Seq<Vec<u8>>, outcomes: Seq<ReadOutcome>|
        {
            &&& path_views(paths) == load_order(
                maybe_view(source),
                maybe_view(user_dir),
                first_is_missing(outcomes),
            )
            &&& #[trigger] search_trace(read, paths, outcomes)
            &&& Err::<Seq<Quote>, Seq<char>>(why) == search_result(paths, outcomes)
        };
    assert(path_views(paths).len() == paths.len());
    assert(outcomes.len() == paths.len());
    assert(path_views(paths)[k] == paths[k]@);
    if k == outcomes.len() - 1 {
        assert(attempt(paths, outcomes, outcomes.len() - 1) is Err);
    }
    assert(attempt(paths, outcomes, k) is Err);
    file_does_when_a_quote_says_something(lossy_text(paths[k]@), outcomes[k]);
    assert(call_ensures(read, (&paths[k],), outcomes[k]));
}

/// Where the first place is not missing, whatever else is wrong with it, the pool
/// comes from one of the places for the source: the usual files do not stand in.
pub proof fn present_source_keeps_the_usual_files_out<F: Fn(&Vec<u8>) -> ReadOutcome>(
    source: Option<&[u8]>,
    user_dir: Option<&[u8]>,
    read: F,
    pool: Seq<Quote>,
)
    requires
        loads(source, user_dir, read, Ok::<Seq<Quote>, Seq<char>>(pool)),
        forall|path: Vec<u8>, outcome: ReadOutcome|
            path@ == search_order(maybe_view(source), maybe_view(user_dir))[0]
                && #[trigger] call_ensures(read, (&path,), outcome) ==> outcome !is Missing,
    ensures
        exists|path: Vec<u8>, file: QuotesFile|
            {
                &&& #[trigger] call_ensures(read, (&path,), ReadOutcome::Parsed(file))
                &&& search_order(maybe_view(source), maybe_view(user_dir)).contains(path@)
                &&& keeps_all(pool, file.quotes@)
            },
{
    let (paths, outcomes) = choose|paths: Seq<Vec<u8>>, outcomes: Seq<ReadOutcome>|
        {
            &&& path_views(paths) == load_order(
                maybe_view(source),
                maybe_view(user_dir),
                first_is_missing(outcomes),
            )
            &&& #[trigger] search_trace(read, paths, outcomes)
            &&& Ok::<Seq<Quote>, Seq<char>>(pool) == search_result(paths, outcomes)
        };
    let order = search_order(maybe_view(source), maybe_view(user_dir));
    assert(path_views(paths)[0] == paths[0]@);
    assert(paths[0]@ == order[0]);
    assert(call_ensures(read, (&paths[0],), outcomes[0]));
    let last = outcomes.len() - 1;
    let file = outcomes[last]->Parsed_0;
    file_does_when_a_quote_says_something(lossy_text(paths[last]@), outcomes[last]);
    assert(outcomes[last] == ReadOutcome::Parsed(file));
    assert(call_ensures(read, (&paths[last],), ReadOutcome::Parsed(file)));
    assert(path_views(paths)[last] == paths[last]@);
    assert(order[last] == paths[last]@);
}

/// Where the first place is missing, a search fails only after the usual files
/// were tried as well and had nothing to say.
pub proof fn failed_search_tried_the_usual_files<F: Fn(&Vec<u8>) -> ReadOutcome>(
    source: Option<&[u8]>,
    user_dir: Option<&[u8]>,
    read: F,
    why: Seq<char>,
    k: int,
)
    requires
        loads(source, user_dir, read, Err::<Seq<Quote>, Seq<char>>(why)),
        forall|path: Vec<u8>, outcome: ReadOutcome|
            path@ == search_order(maybe_view(source), maybe_view(user_dir))[0]
                && #[trigger] call_ensures(read, (&path,), outcome) ==> outcome is Missing,
        0 <= k < load_order(maybe_view(source), maybe_view(user_dir), true).len(),
    ensures
        exists|path: Vec<u8>, outcome: ReadOutcome|
            {
                &&& #[trigger] call_ensures(read, (&path,), outcome)
                &&& path@ == load_order(maybe_view(source), maybe_view(user_dir), true)[k]
                &&& outcome matches ReadOutcome::Parsed(file) ==> forall|i: int|
                    0 <= i < file.quotes@.len() ==> !says_something(#[trigger] file.quotes@[i])
            },
{
    let (paths, outcomes) = choose|paths: Seq<Vec<u8>>, outcomes: Seq<ReadOutcome>|
        {
            &&& path_views(paths) == load_order(
                maybe_view(source),
                maybe_view(user_dir),
                first_is_missing(outcomes),
            )
            &&& #[trigger] search_trace(read, paths, outcomes)
            &&& Err::<Seq<Quote>, Seq<char>>(why) == search_result(paths, outcomes)
        };
    assert(path_views(paths).len() == paths.len());
    assert(outcomes.len() == paths.len());
    assert(path_views(paths)[0] == paths[0]@);
    assert(call_ensures(read, (&paths[0],), outcomes[0]));
    assert(first_is_missing(outcomes));
    assert(path_views(paths)[k] == paths[k]@);
    if k == outcomes.len() - 1 {
        assert(attempt(paths, outcomes, outcomes.len() - 1) is Err);
    }
    assert(attempt(paths, outcomes, k) is Err);
    file_does_when_a_quote_says_something(lossy_text(paths[k]@), outcomes[k]);
    assert(call_ensures(read, (&paths[k],), outcomes[k]));
}

/// The search stops at the first file that does: none of the files tried before
/// it had anything to say.
pub proof fn first_telling_file_is_taken<F: Fn(&Vec<u8>) -> ReadOutcome>(
    read: F,
    paths: Seq<Vec<u8>>,
    outcomes: Seq<ReadOutcome>,
    i: int,
)
    requires
        search_trace(read, paths, outcomes),
        0 <= i < outcomes.len() - 1,
    ensures
        outcomes[i] matches ReadOutcome::Parsed(file) ==> forall|j: int|
            0 <= j < file.quotes@.len() ==> !says_something(#[trigger] file.quotes@[j]),
        search_result(paths, outcomes) is Ok ==> outcomes.last() is Parsed && keeps_all(
            search_result(paths, outcomes)->Ok_0,
            outcomes.last()->Parsed_0.quotes@,
        ),
{
    assert(attempt(paths, outcomes, i) is Err);
    file_does_when_a_quote_says_something(lossy_text(paths[i]@), outcomes[i]);
    let last = outcomes.len() - 1;
    file_does_when_a_quote_says_something(lossy_text(paths[last]@), outcomes[last]);
}

/// Lists are put together piece by piece: the text for two lists one after the
/// other is that for the first, the separator and that for the second. One piece
/// stands for itself, and no piece for nothing.
pub proof fn separated_lists_add_up(a: Seq<Seq<char>>, b: Seq<Seq<char>>, sep: Seq<char>)
    ensures
        a.len() == 0 ==> separated(a, sep) == Seq::<char>::empty(),
        a.len() == 1 ==> separated(a, sep) == a[0],
        a.len() > 0 && b.len() > 0 ==> separated(a + b, sep) == separated(a, sep) + sep
            + separated(b, sep),
    decreases b.len(),
{
    if a.len() > 0 && b.len() > 0 {
        assert((a + b).drop_last() =~= a + b.drop_last());
        assert((a + b).last() == b.last());
        if b.len() == 1 {
            assert(a + b.drop_last() =~= a);
        } else {
            separated_lists_add_up(a, b.drop_last(), sep);
            assert(separated(a + b, sep) =~= separated(a, sep) + sep + separated(b, sep));
        }
    }
}

// ---------------------------------------------------------------------------
// What a shuffle is worth
// ---------------------------------------------------------------------------

proof fn lemma_place_settles(n: nat, draws: Seq<usize>, m: int, s: int)
    requires
        n <= usize::MAX,
        draws.len() < n,
        forall|t: int| 0 <= t < draws.len() ==> #[trigger] draws[t] <= n - 1 - t,
        0 <= s < m <= draws.len(),
    ensures
        shuffled(n, draws.take(m))[n - 1 - s] == shuffled(n, draws.take(s))[draws[s] as int],
    decreases m,
{
    let now = draws.take(m);
    let before = draws.take(m - 1);
    assert(now.drop_last() =~= before);
    assert(now.last() == draws[m - 1]);
    assert forall|t: int| 0 <= t < before.len() implies #[trigger] before[t] <= n - 1 - t by {
        assert(before[t] == draws[t]);
    }
    shuffling_arranges(n, before);
    assert(draws[m - 1] <= n - 1 - (m - 1));
    if s == m - 1 {
        let (i, j) = (n - m, draws[s] as int);
        let order = shuffled(n, before);
        assert(exchanged(order, i, j)[i] == order[j]);
    } else {
        lemma_place_settles(n, draws, m - 1, s);
        assert(n - 1 - s > n - m);
    }
}

/// A shuffle is fair: different draws never lead to the same order. There are as
/// many draws as there are orders, so that every order comes of one draw.
pub proof fn different_draws_give_different_orders(n: nat, a: Seq<usize>, b: Seq<usize>)
    requires
        n <= usize::MAX,
        draws_fit(n, a),
        draws_fit(n, b),
        a != b,
    ensures
        shuffled(n, a) != shuffled(n, b),
{
    if shuffled(n, a) == shuffled(n, b) {
        lemma_same_order_same_draws(n, a, b, a.len() as int);
        assert(a =~= b);
    }
}

proof fn lemma_same_order_same_draws(n: nat, a: Seq<usize>, b: Seq<usize>, s: int)
    requires
        n <= usize::MAX,
        draws_fit(n, a),
        draws_fit(n, b),
        shuffled(n, a) == shuffled(n, b),
        0 <= s <= a.len(),
    ensures
        a.take(s) == b.take(s),
        forall|t: int| 0 <= t < s ==> a[t] == b[t],
    decreases s,
{
    if s > 0 {
        let t = s - 1;
        lemma_same_order_same_draws(n, a, b, t);
        let full = a.len() as int;
        assert(a.take(full) =~= a && b.take(full) =~= b);
        lemma_place_settles(n, a, full, t);
        lemma_place_settles(n, b, full, t);
        let before = a.take(t);
        assert forall|u: int| 0 <= u < before.len() implies #[trigger] before[u] <= n - 1 - u by {
            assert(before[u] == a[u]);
        }
        shuffling_arranges(n, before);
        let order = shuffled(n, before);
        assert(order[a[t] as int] == order[b[t] as int]);
        assert(a[t] <= n - 1 - t && b[t] <= n - 1 - t);
        assert(a[t] == b[t]);
        assert(a.take(s) =~= b.take(s));
    } else {
        assert(a.take(0) =~= b.take(0));
    }
}

/// The draws say where every quote goes: place `n - 1 - s` gets what stood at the
/// place drawn for it when its turn came, and keeps it.
pub proof fn drawn_place_moves_to_the_end(n: nat, draws: Seq<usize>, s: int)
    requires
        n <= usize::MAX,
        draws_fit(n, draws),
        0 <= s < draws.len(),
    ensures
        shuffled(n, draws)[n - 1 - s] == shuffled(n, draws.take(s))[draws[s] as int],
        shuffled(n, draws.take(0)) == Seq::new(n, |i: int| i as usize),
{
    assert(draws.take(draws.len() as int) =~= draws);
    assert(draws.take(0) =~= Seq::empty());
    lemma_place_settles(n, draws, draws.len() as int, s);
}

/// The first round gives the quotes out in the order of the shuffle.
pub proof fn first_round_follows_the_order(
    dealt: Seq<QuoteSelection>,
    pool: Seq<Quote>,
    order: Seq<usize>,
    count: nat,
    i: int,
)
    requires
        dealt_in_turn(dealt, pool, order, count),
        0 <= i < count,
        i < order.len(),
    ensures
        dealt.len() == count,
        dealt[i].quote == pool[order[i] as int],
{
    vstd::arithmetic::div_mod::lemma_small_mod(i as nat, order.len());
}

} // verus!
