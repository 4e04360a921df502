//! The monitors: which of them get a window, which one a point lies on, and the
//! quotes they are given and rotate through.

use vstd::prelude::*;

use crate::chance::random_between;
use crate::quotes::{
    dealt_in_turn, deals_from, draws_fit, loaded_quotes_are_usable, loads, pool_view, shuffled,
    shuffling_arranges, Quote, QuoteSelection, ReadOutcome,
};
use crate::typewriter::{Reveal, RevealTimer};

verus! {

/// The area of a monitor on the desktop.
#[derive(Clone, Copy, Debug, PartialEq, Eq, Structural)]
pub struct Area {
    pub x: i32,
    pub y: i32,
    pub width: i32,
    pub height: i32,
}

impl Area {
    /// Whether a point lies in the area.
    pub open spec fn contains(self, x: int, y: int) -> bool {
        self.x <= x < self.x + self.width && self.y <= y < self.y + self.height
    }

    fn holds(&self, x: i32, y: i32) -> (yes: bool)
        ensures
            yes == self.contains(x as int, y as int),
    {
        let (px, py): (i64, i64) = (x as i64, y as i64);
        let (left, top): (i64, i64) = (self.x as i64, self.y as i64);
        left <= px && px < left + self.width as i64 && top <= py && py < top + self.height as i64
    }
}

/// Whether the monitor at place `i` of the list is there and holds the point.
pub open spec fn on_monitor(monitors: Seq<Option<Area>>, i: int, x: int, y: int) -> bool {
    monitors[i] matches Some(area) && area.contains(x, y)
}

/// The first monitor that holds the point. Entries may be missing.
pub fn monitor_index_at(monitors: &Vec<Option<Area>>, x: i32, y: i32) -> (found: Option<usize>)
    ensures
        match found {
            Some(i) => i < monitors@.len() && on_monitor(monitors@, i as int, x as int, y as int)
                && forall|j: int| 0 <= j < i ==> !on_monitor(monitors@, j, x as int, y as int),
            None => forall|j: int|
                0 <= j < monitors@.len() ==> !on_monitor(monitors@, j, x as int, y as int),
        },
{
    let mut i: usize = 0;
    while i < monitors.len()
        invariant
            i <= monitors@.len(),
            forall|j: int| 0 <= j < i ==> !on_monitor(monitors@, j, x as int, y as int),
        decreases monitors@.len() - i,
    {
        if let Some(area) = monitors[i] {
            if area.holds(x, y) {
                return Some(i);
            }
        }
        i = i + 1;
    }
    None
}

/// The places of the monitors that get a window, in order.
pub open spec fn shown_on(primary: Seq<bool>, primary_only: bool) -> Seq<usize>
    decreases primary.len(),
{
    if primary.len() == 0 {
        Seq::empty()
    } else {
        let before = shown_on(primary.drop_last(), primary_only);
        if !primary_only || primary.last() {
            before.push((primary.len() - 1) as usize)
        } else {
            before
        }
    }
}

/// The monitors that get a window: all of them, or the primary ones. `primary`
/// says of each whether it is one.
pub fn chosen_monitors(primary: &Vec<bool>, primary_only: bool) -> (chosen: Vec<usize>)
    ensures
        chosen@ == shown_on(primary@, primary_only),
{
    let mut chosen: Vec<usize> = Vec::new();
    let mut i: usize = 0;
    assert(primary@.take(0) =~= Seq::empty());
    while i < primary.len()
        invariant
            i <= primary@.len(),
            chosen@ == shown_on(primary@.take(i as int), primary_only),
        decreases primary@.len() - i,
    {
        assert(primary@.take(i + 1).drop_last() =~= primary@.take(i as int));
        if !primary_only || primary[i] {
            chosen.push(i);
        }
        i = i + 1;
    }
    assert(primary@.take(primary@.len() as int) =~= primary@);
    chosen
}

/// With no restriction every monitor gets its window.
pub proof fn all_monitors_are_shown(primary: Seq<bool>)
    requires
        primary.len() <= usize::MAX,
    ensures
        shown_on(primary, false) == Seq::new(primary.len(), |i: int| i as usize),
    decreases primary.len(),
{
    if primary.len() > 0 {
        all_monitors_are_shown(primary.drop_last());
    }
    assert(shown_on(primary, false) =~= Seq::new(primary.len(), |i: int| i as usize));
}

/// What a monitor shows when no quotes can be had.
pub open spec fn is_fallback(quote: Quote) -> bool {
    quote.text@ == "System online — awaiting quote feed."@ && quote.author@
        == "bspwm-cyberquote-native"@
}

fn fallback_quote() -> (quote: Quote)
    ensures
        is_fallback(quote),
{
    Quote {
        text: "System online — awaiting quote feed.".to_owned(),
        author: "bspwm-cyberquote-native".to_owned(),
    }
}

/// Whether `count` windows open with `opening`: with the quotes picked, or with
/// the same stand-in for all when there was nothing to pick from.
pub open spec fn opens_with(
    picked: Result<Vec<QuoteSelection>, String>,
    count: nat,
    opening: Seq<QuoteSelection>,
) -> bool {
    match picked {
        Ok(selections) => opening == selections@,
        Err(_) => opening.len() == count && forall|i: int|
            0 <= i < count ==> is_fallback((#[trigger] opening[i]).quote),
    }
}

/// The quotes that windows rotate through: the whole pool, or what they opened
/// with when the pool cannot be had.
pub open spec fn rotation(
    loaded: Result<Vec<Quote>, String>,
    opening: Seq<QuoteSelection>,
) -> Seq<Quote> {
    match loaded {
        Ok(quotes) => quotes@,
        Err(_) => opening.map_values(|s: QuoteSelection| s.quote),
    }
}

/// The quotes that `count` windows open with: those picked, or the same stand-in
/// for all when there was nothing to pick from.
pub fn opening_quotes(picked: Result<Vec<QuoteSelection>, String>, count: usize) -> (opening: Vec<
    QuoteSelection,
>)
    ensures
        opens_with(picked, count as nat, opening@),
{
    match picked {
        Ok(selections) => selections,
        Err(_) => {
            let mut opening: Vec<QuoteSelection> = Vec::new();
            while opening.len() < count
                invariant
                    opening@.len() <= count,
                    forall|i: int|
                        0 <= i < opening@.len() ==> is_fallback((#[trigger] opening@[i]).quote),
                decreases count - opening@.len(),
            {
                opening.push(QuoteSelection { quote: fallback_quote() });
            }
            opening
        },
    }
}

/// The quotes that windows rotate through: the whole pool, or what they opened
/// with when the pool cannot be had.
pub fn cycling_pool(loaded: Result<Vec<Quote>, String>, opening: &Vec<QuoteSelection>) -> (pool: Vec<
    Quote,
>)
    ensures
        pool@ == rotation(loaded, opening@),
        loaded matches Ok(quotes) ==> pool@ == quotes@,
{
    match loaded {
        Ok(quotes) => quotes,
        Err(_) => {
            let mut pool: Vec<Quote> = Vec::new();
            let mut i: usize = 0;
            while i < opening.len()
                invariant
                    i <= opening@.len(),
                    pool@.len() == i,
                    forall|j: int| 0 <= j < i ==> #[trigger] pool@[j] == opening@[j].quote,
                decreases opening@.len() - i,
            {
                pool.push(opening[i].quote.clone());
                i = i + 1;
            }
            assert(pool@ =~= opening@.map_values(|s: QuoteSelection| s.quote));
            pool
        },
    }
}

/// Every window opens with a quote, whether there are quotes to pick from or
/// not: with one of the pool that has something to show, or with the stand-in.
pub proof fn every_window_opens_with_a_quote<F: Fn(&Vec<u8>) -> ReadOutcome>(
    source: Option<&[u8]>,
    user_dir: Option<&[u8]>,
    read: F,
    pool: Result<Seq<Quote>, Seq<char>>,
    picked: Result<Vec<QuoteSelection>, String>,
    count: nat,
    opening: Seq<QuoteSelection>,
)
    requires
        loads(source, user_dir, read, pool),
        pool matches Ok(quotes) ==> quotes.len() <= usize::MAX,
        deals_from(pool, picked, count),
        opens_with(picked, count, opening),
    ensures
        opening.len() == count,
        forall|i: int|
            0 <= i < count ==> match pool {
                Ok(quotes) => quotes.contains((#[trigger] opening[i]).quote)
                    && !opening[i].quote.blank(),
                Err(_) => is_fallback(opening[i].quote),
            },
{
    if let Ok(quotes) = pool {
        loaded_quotes_are_usable(source, user_dir, read, quotes);
        let draws = choose|draws: Seq<usize>|
            {
                &&& #[trigger] draws_fit(quotes.len(), draws)
                &&& dealt_in_turn(opening, quotes, shuffled(quotes.len(), draws), count)
            };
        let order = shuffled(quotes.len(), draws);
        shuffling_arranges(quotes.len(), draws);
        assert forall|i: int| 0 <= i < count implies quotes.contains((#[trigger] opening[i]).quote)
            && !opening[i].quote.blank() by {
            vstd::arithmetic::div_mod::lemma_mod_bound(i, order.len() as int);
            let at = order[i % order.len() as int] as int;
            assert(opening[i].quote == quotes[at]);
        }
    }
}

/// Wherever there is a window, there are quotes to rotate through.
pub proof fn rotation_is_never_empty<F: Fn(&Vec<u8>) -> ReadOutcome>(
    source: Option<&[u8]>,
    user_dir: Option<&[u8]>,
    read: F,
    loaded: Result<Vec<Quote>, String>,
    opening: Seq<QuoteSelection>,
)
    requires
        loads(source, user_dir, read, pool_view(loaded)),
        opening.len() > 0,
    ensures
        rotation(loaded, opening).len() > 0,
{
    if let Ok(quotes) = loaded {
        loaded_quotes_are_usable(source, user_dir, read, quotes@);
    }
}

/// The seconds between one quote and the next, or nothing when quotes do not rotate.
pub fn cycle_seconds(minutes: u32) -> (seconds: Option<u32>)
    requires
        minutes * 60 <= u32::MAX,
    ensures
        seconds is None <==> minutes == 0,
        seconds matches Some(s) ==> s == minutes * 60,
{
    if minutes > 0 {
        Some(minutes * 60)
    } else {
        None
    }
}

/// Puts the quote at place `at` of the pool into a window.
pub fn show_quote(quote: &mut Quote, pool: &Vec<Quote>, at: usize)
    requires
        at < pool@.len(),
    ensures
        *final(quote) == pool@[at as int],
{
    *quote = pool[at].clone();
}

/// Rotates a window to a random quote of the pool. An empty pool changes
/// nothing; whether there was a change is returned.
pub fn cycle_quote(quote: &mut Quote, pool: &Vec<Quote>) -> (changed: bool)
    ensures
        changed == (pool@.len() > 0),
        changed ==> pool@.contains(*final(quote)),
        !changed ==> *final(quote) == *old(quote),
{
    if pool.len() == 0 {
        return false;
    }
    let at: usize = random_between(0, (pool.len() - 1) as u64) as usize;
    show_quote(quote, pool, at);
    assert(pool@.contains(pool@[at as int]));
    true
}

/// What came of a rotation.
#[derive(Clone, Copy, Debug, PartialEq, Eq, Structural)]
pub struct Rotation {
    /// There is a new quote to paint.
    pub changed: bool,
    /// The timer that types it out, unless it is empty.
    pub timer: Option<RevealTimer>,
}

/// Rotates a window to a random quote of the pool and begins to type it out
/// afresh. An empty pool changes nothing.
pub fn rotate(quote: &mut Quote, state: &mut Reveal, pool: &Vec<Quote>) -> (rotation: Rotation)
    requires
        old(state).token < u64::MAX,
    ensures
        rotation.changed == (pool@.len() > 0),
        rotation.changed ==> pool@.contains(*final(quote)),
        rotation.changed ==> final(state).shown == 0 && final(state).token == old(state).token + 1,
        rotation.changed ==> match rotation.timer {
            Some(timer) => final(quote).text@.len() > 0 && timer.token == final(state).token
                && timer.total == final(quote).text@.len(),
            None => final(quote).text@.len() == 0,
        },
        !rotation.changed ==> *final(quote) == *old(quote) && *final(state) == *old(state)
            && rotation.timer is None,
{
    if cycle_quote(quote, pool) {
        let timer = state.start(quote.text.as_str());
        Rotation { changed: true, timer }
    } else {
        Rotation { changed: false, timer: None }
    }
}

// ---------------------------------------------------------------------------
// What windows are promised
// ---------------------------------------------------------------------------

/// Every quote that was loaded can come up in a rotation, whatever the windows
/// opened with: the pool has as many entries as were loaded, and each of them is
/// in its place. Where nothing was loaded, every quote that a window opened with
/// can come up.
pub proof fn every_loaded_quote_comes_round(
    loaded: Result<Vec<Quote>, String>,
    opening: Seq<QuoteSelection>,
    other: Seq<QuoteSelection>,
    i: int,
)
    ensures
        loaded matches Ok(quotes) ==> rotation(loaded, opening).len() == quotes@.len() && (0 <= i
            < quotes@.len() ==> rotation(loaded, opening)[i] == quotes@[i] && rotation(
            loaded,
            opening,
        ).contains(quotes@[i])) && rotation(loaded, opening) == rotation(loaded, other),
        loaded is Err ==> rotation(loaded, opening).len() == opening.len() && (0 <= i
            < opening.len() ==> rotation(loaded, opening)[i] == opening[i].quote),
{
}

/// Each window opens with the quote picked for it, and with no quotes to pick
/// from all windows open alike.
pub proof fn windows_open_with_their_picks(
    picked: Result<Vec<QuoteSelection>, String>,
    count: nat,
    opening: Seq<QuoteSelection>,
    i: int,
    j: int,
)
    requires
        opens_with(picked, count, opening),
        0 <= i < opening.len(),
        0 <= j < opening.len(),
    ensures
        picked matches Ok(selections) ==> opening.len() == selections@.len() && opening[i]
            == selections@[i],
        picked is Err ==> opening.len() == count && opening[i].quote.text@
            == opening[j].quote.text@ && opening[i].quote.author@ == opening[j].quote.author@,
{
    if picked is Err {
        assert(is_fallback(opening[i].quote));
        assert(is_fallback(opening[j].quote));
    }
}

/// A monitor gets a window exactly when there is no restriction or it is a
/// primary one, and the windows come in the order of the monitors.
pub proof fn chosen_monitors_are_the_allowed_ones(primary: Seq<bool>, primary_only: bool)
    requires
        primary.len() <= usize::MAX,
    ensures
        forall|m: usize| #[trigger]
            shown_on(primary, primary_only).contains(m) <==> m < primary.len() && (!primary_only
                || primary[m as int]),
        forall|i: int, j: int|
            0 <= i < j < shown_on(primary, primary_only).len() ==> #[trigger] shown_on(
                primary,
                primary_only,
            )[i] < #[trigger] shown_on(primary, primary_only)[j],
    decreases primary.len(),
{
    let chosen = shown_on(primary, primary_only);
    if primary.len() > 0 {
        let rest = primary.drop_last();
        let before = shown_on(rest, primary_only);
        let n = (primary.len() - 1) as usize;
        chosen_monitors_are_the_allowed_ones(rest, primary_only);
        assert forall|i: int| 0 <= i < before.len() implies #[trigger] before[i] < n by {
            assert(before.contains(before[i]));
        }
        assert forall|m: usize| #[trigger]
            chosen.contains(m) <==> m < primary.len() && (!primary_only
                || primary[m as int]) by {
            if chosen.contains(m) {
                let i = choose|i: int| 0 <= i < chosen.len() && chosen[i] == m;
                if i < before.len() {
                    assert(before[i] == m);
                    assert(before.contains(m));
                    assert(rest[m as int] == primary[m as int]);
                }
            }
            if m < primary.len() && (!primary_only || primary[m as int]) {
                if m < n {
                    assert(rest[m as int] == primary[m as int]);
                    assert(before.contains(m));
                    let i = choose|i: int| 0 <= i < before.len() && before[i] == m;
                    assert(chosen[i] == m);
                } else {
                    assert(chosen[before.len() as int] == m);
                }
            }
        }
    }
}

/// An area takes up its corner and as many points to the right and down as it is
/// wide and high, and no others.
pub proof fn area_takes_up_its_size(area: Area, dx: int, dy: int)
    ensures
        area.contains(area.x + dx, area.y + dy) <==> 0 <= dx < area.width && 0 <= dy < area.height,
{
}

/// A point is on a monitor just when that monitor is there and takes the point up.
pub proof fn missing_monitors_hold_nothing(
    monitors: Seq<Option<Area>>,
    i: int,
    x: int,
    y: int,
)
    ensures
        on_monitor(monitors, i, x, y) <==> monitors[i] is Some && monitors[i]->0.x <= x
            < monitors[i]->0.x + monitors[i]->0.width && monitors[i]->0.y <= y < monitors[i]->0.y
            + monitors[i]->0.height,
{
}

} // verus!
