//! The one-shot typewriter reveal: how many characters of a phrase are shown,
//! where its caret stands, and which part of the laid-out text is uncovered.

use vstd::prelude::*;
use vstd::utf8::{char_is_scalar, encode_scalar, encode_utf8, is_char_boundary, valid_utf8};

use crate::text::chars_of;

verus! {

// ---------------------------------------------------------------------------
// Characters and bytes
// ---------------------------------------------------------------------------

/// The bytes that the first `chars` characters of `text` take up.
pub open spec fn byte_index(text: Seq<char>, chars: int) -> int {
    encode_utf8(
        if chars < text.len() {
            text.take(chars)
        } else {
            text
        },
    ).len() as int
}

fn utf8_width(c: char) -> (width: usize)
    ensures
        width == encode_scalar(c as u32).len(),
        1 <= width <= 4,
{
    let u: u32 = c as u32;
    proof {
        char_is_scalar(c);
    }
    if u <= 0x7f {
        1
    } else if u <= 0x7ff {
        2
    } else if u <= 0xffff {
        3
    } else {
        4
    }
}

pub(crate) proof fn lemma_encode_concat(a: Seq<char>, b: Seq<char>)
    ensures
        encode_utf8(a + b) == encode_utf8(a) + encode_utf8(b),
    decreases a.len(),
{
    if a.len() == 0 {
        assert(a + b =~= b);
        assert(encode_utf8(a) =~= Seq::empty());
        assert(encode_utf8(a) + encode_utf8(b) =~= encode_utf8(b));
    } else {
        assert((a + b).drop_first() =~= a.drop_first() + b);
        assert((a + b)[0] == a[0]);
        lemma_encode_concat(a.drop_first(), b);
        assert(encode_utf8(a + b) =~= encode_utf8(a) + encode_utf8(b));
    }
}

proof fn lemma_encode_push(a: Seq<char>, c: char)
    ensures
        encode_utf8(a.push(c)) == encode_utf8(a) + encode_scalar(c as u32),
{
    let one = seq![c];
    lemma_encode_concat(a, one);
    assert(a.push(c) =~= a + one);
    assert(one.drop_first() =~= Seq::empty());
    assert(encode_utf8(one.drop_first()) =~= Seq::empty());
    assert(encode_utf8(one) =~= encode_scalar(c as u32));
}

/// The byte offset of the insertion point after `chars` characters of `text`;
/// past the end it is the end.
pub fn char_byte_index(text: &str, chars: usize) -> (at: usize)
    ensures
        at == byte_index(text@, chars as int),
{
    let all = chars_of(text);
    let total = text.as_bytes().len();
    let n: usize = if chars < all.len() {
        chars
    } else {
        all.len()
    };
    let mut at: usize = 0;
    let mut i: usize = 0;
    assert(text@.take(0) =~= Seq::empty());
    while i < n
        invariant
            i <= n <= all@.len(),
            all@ == text@,
            total == encode_utf8(text@).len(),
            at == encode_utf8(text@.take(i as int)).len(),
        decreases n - i,
    {
        proof {
            lemma_encode_push(text@.take(i as int), text@[i as int]);
            assert(text@.take(i as int).push(text@[i as int]) =~= text@.take(i + 1));
            lemma_encode_concat(text@.take(i + 1), text@.skip(i + 1));
            assert(text@.take(i + 1) + text@.skip(i + 1) =~= text@);
        }
        at = at + utf8_width(all[i]);
        i = i + 1;
    }
    assert(text@.take(text@.len() as int) =~= text@);
    at
}

proof fn lemma_boundary_after(a: Seq<u8>, chars: Seq<char>, i: int)
    requires
        a == encode_utf8(chars),
        0 <= i <= chars.len(),
    ensures
        is_char_boundary(a, encode_utf8(chars.take(i)).len() as int),
    decreases chars.len(),
{
    vstd::utf8::encode_utf8_valid_utf8(chars);
    if i == 0 {
        assert(chars.take(0) =~= Seq::empty());
    } else {
        vstd::utf8::encode_utf8_first_scalar(chars);
        let rest = chars.drop_first();
        lemma_boundary_after(encode_utf8(rest), rest, i - 1);
        assert(chars.take(i).drop_first() =~= rest.take(i - 1));
        assert(encode_utf8(chars.take(i)) =~= encode_scalar(chars[0] as u32) + encode_utf8(
            rest.take(i - 1),
        ));
        lemma_encode_concat(chars.take(i), chars.skip(i));
        assert(chars.take(i) + chars.skip(i) =~= chars);
        char_is_scalar(chars[0]);
        let n = encode_utf8(chars.take(i)).len() as int;
        let first = encode_scalar(chars[0] as u32).len() as int;
        assert(vstd::utf8::pop_first_scalar(a) =~= encode_utf8(rest));
        assert(vstd::utf8::length_of_first_scalar(a) == first);
        assert(is_char_boundary(vstd::utf8::pop_first_scalar(a), n - first));
        assert(0 < n <= a.len());
    }
}

/// The insertion point always falls between two characters, never moves back as
/// more of the text is shown, and reaches the end with the last character.
pub proof fn caret_walks_over_whole_characters(text: Seq<char>, fewer: int, more: int)
    requires
        0 <= fewer <= more,
    ensures
        valid_utf8(encode_utf8(text)),
        is_char_boundary(encode_utf8(text), byte_index(text, fewer)),
        byte_index(text, fewer) <= byte_index(text, more) <= encode_utf8(text).len(),
        byte_index(text, 0) == 0,
        more >= text.len() ==> byte_index(text, more) == encode_utf8(text).len(),
        fewer < more && fewer < text.len() ==> byte_index(text, fewer) < byte_index(text, more),
{
    let a = if fewer < text.len() {
        fewer
    } else {
        text.len() as int
    };
    let b = if more < text.len() {
        more
    } else {
        text.len() as int
    };
    assert(text.take(text.len() as int) =~= text);
    vstd::utf8::encode_utf8_valid_utf8(text);
    lemma_boundary_after(encode_utf8(text), text, a);
    lemma_encode_concat(text.take(a), text.subrange(a, b));
    assert(text.take(a) + text.subrange(a, b) =~= text.take(b));
    lemma_encode_concat(text.take(b), text.skip(b));
    assert(text.take(b) + text.skip(b) =~= text);
    assert(text.take(0) =~= Seq::empty());
    if a < b {
        let middle = text.subrange(a, b);
        char_is_scalar(middle[0]);
        assert(encode_utf8(middle).len() > 0);
    }
}

// ---------------------------------------------------------------------------
// The reveal
// ---------------------------------------------------------------------------

/// Milliseconds between one character and the next.
pub const MS_PER_CHAR: u64 = 30;

/// How far the current phrase has been typed.
#[derive(Clone, Copy, Debug, PartialEq, Eq, Structural)]
pub struct Reveal {
    /// Characters of the phrase shown so far.
    pub shown: usize,
    /// Which phrase this is; it goes up with every new one.
    pub token: u64,
}

/// A ticking reveal: the phrase it belongs to and that phrase's length.
#[derive(Clone, Copy, Debug, PartialEq, Eq, Structural)]
pub struct RevealTimer {
    pub token: u64,
    pub total: usize,
}

/// What a tick asks for.
#[derive(Clone, Copy, Debug, PartialEq, Eq, Structural)]
pub enum Tick {
    /// The timer belongs to an earlier phrase: drop it, change nothing.
    Superseded,
    /// The phrase is complete: redraw and drop the timer.
    Finished,
    /// Redraw and tick again.
    Typing,
}

/// The reveal after one tick of `timer`.
pub open spec fn ticked(state: Reveal, timer: RevealTimer) -> Reveal {
    if state.token != timer.token {
        state
    } else if state.shown + 1 >= timer.total {
        Reveal { shown: timer.total, token: state.token }
    } else {
        Reveal { shown: (state.shown + 1) as usize, token: state.token }
    }
}

/// What a tick of `timer` asks for.
pub open spec fn tick_outcome(state: Reveal, timer: RevealTimer) -> Tick {
    if state.token != timer.token {
        Tick::Superseded
    } else if state.shown + 1 >= timer.total {
        Tick::Finished
    } else {
        Tick::Typing
    }
}

/// The reveal after `n` ticks of `timer`.
pub open spec fn ticked_times(state: Reveal, timer: RevealTimer, n: nat) -> Reveal
    decreases n,
{
    if n == 0 {
        state
    } else {
        ticked(ticked_times(state, timer, (n - 1) as nat), timer)
    }
}

impl Reveal {
    /// Nothing typed yet.
    pub fn new() -> (state: Reveal)
        ensures
            state == (Reveal { shown: 0, token: 0 }),
    {
        Reveal { shown: 0, token: 0 }
    }

    /// Begins the reveal of `text`. The timer returned is to tick every
    /// [`MS_PER_CHAR`] milliseconds; an empty phrase needs none.
    pub fn start(&mut self, text: &str) -> (timer: Option<RevealTimer>)
        requires
            old(self).token < u64::MAX,
        ensures
            *final(self) == (Reveal { shown: 0, token: (old(self).token + 1) as u64 }),
            timer is None <==> text@.len() == 0,
            timer matches Some(t) ==> t.token == old(self).token + 1 && t.total == text@.len(),
    {
        let total: usize = text.unicode_len();
        self.token = self.token + 1;
        self.shown = 0;
        if total == 0 {
            None
        } else {
            Some(RevealTimer { token: self.token, total })
        }
    }

    /// Types one more character of the phrase that `timer` belongs to.
    pub fn tick(&mut self, timer: &RevealTimer) -> (outcome: Tick)
        ensures
            *final(self) == ticked(*old(self), *timer),
            outcome == tick_outcome(*old(self), *timer),
    {
        if self.token != timer.token {
            return Tick::Superseded;
        }
        if self.shown >= timer.total || self.shown + 1 >= timer.total {
            self.shown = timer.total;
            return Tick::Finished;
        }
        self.shown = self.shown + 1;
        Tick::Typing
    }
}

/// A fresh reveal shows one more character with every tick and is complete
/// after as many ticks as the phrase has characters, and not before.
pub proof fn reveal_takes_one_tick_per_character(state: Reveal, timer: RevealTimer, n: nat)
    requires
        state.shown == 0,
        state.token == timer.token,
        timer.total > 0,
    ensures
        n <= timer.total ==> ticked_times(state, timer, n).shown == n,
        n >= timer.total ==> ticked_times(state, timer, n).shown == timer.total,
        ticked_times(state, timer, n).token == timer.token,
        n < timer.total ==> tick_outcome(ticked_times(state, timer, n), timer) == (if n + 1
            == timer.total {
            Tick::Finished
        } else {
            Tick::Typing
        }),
    decreases n,
{
    if n > 0 {
        reveal_takes_one_tick_per_character(state, timer, (n - 1) as nat);
    }
}

/// Once another phrase has begun, ticks of an earlier timer change nothing and
/// tell it to stop.
pub proof fn stale_timers_do_nothing(state: Reveal, timer: RevealTimer, n: nat)
    requires
        timer.token != state.token,
    ensures
        ticked_times(state, timer, n) == state,
        tick_outcome(ticked_times(state, timer, n), timer) == Tick::Superseded,
    decreases n,
{
    if n > 0 {
        stale_timers_do_nothing(state, timer, (n - 1) as nat);
    }
}

// ---------------------------------------------------------------------------
// Uncovering the laid-out text
// ---------------------------------------------------------------------------

/// Layout units to a pixel.
pub const UNITS_PER_PX: i32 = 1024;

/// Pixels that the caret line is uncovered beyond the caret, so that soft glyph
/// edges are not cut.
pub const CARET_MARGIN_PX: i32 = 2;

/// One laid-out line: its left edge, top and height in the layout, and the
/// width of its text, all in layout units.
#[derive(Clone, Copy, Debug, PartialEq, Eq, Structural)]
pub struct LineBox {
    pub left: i32,
    pub top: i32,
    pub height: i32,
    pub width: i32,
}

/// A part of the layout to be uncovered, in layout units.
#[derive(Clone, Copy, Debug, PartialEq, Eq, Structural)]
pub struct ClipRect {
    pub left: i32,
    pub top: i32,
    pub width: i64,
    pub height: i32,
}

/// How much of line `i` is uncovered with the caret `caret_x` into line
/// `caret_line`: all of it before the caret line, up to a little past the caret
/// on it, nothing after it.
pub open spec fn uncovered(line: LineBox, i: int, caret_line: int, caret_x: int) -> Option<int> {
    if i < caret_line {
        Some(line.width as int)
    } else if i == caret_line {
        let reach = caret_x + CARET_MARGIN_PX * UNITS_PER_PX;
        Some(
            if reach < 0 {
                0
            } else {
                reach
            },
        )
    } else {
        None
    }
}

/// The parts of the first lines of a layout that are uncovered, from the top
/// down. Lines that cannot be had are passed over.
pub open spec fn uncovered_parts(
    lines: Seq<Option<LineBox>>,
    caret_line: int,
    caret_x: int,
) -> Seq<ClipRect>
    decreases lines.len(),
{
    if lines.len() == 0 {
        Seq::empty()
    } else {
        let above = uncovered_parts(lines.drop_last(), caret_line, caret_x);
        match lines.last() {
            None => above,
            Some(line) => match uncovered(line, lines.len() - 1, caret_line, caret_x) {
                None => above,
                Some(width) => above.push(
                    ClipRect {
                        left: line.left,
                        top: line.top,
                        width: width as i64,
                        height: line.height,
                    },
                ),
            },
        }
    }
}

/// The parts of a layout that the typing has uncovered so far.
pub fn typewriter_clip(
    lines: &Vec<Option<LineBox>>,
    caret_line: i32,
    caret_x: i32,
) -> (parts: Vec<ClipRect>)
    ensures
        parts@ == uncovered_parts(lines@, caret_line as int, caret_x as int),
{
    let mut parts: Vec<ClipRect> = Vec::new();
    let mut i: usize = 0;
    assert(lines@.take(0) =~= Seq::empty());
    while i < lines.len()
        invariant
            i <= lines@.len(),
            parts@ == uncovered_parts(lines@.take(i as int), caret_line as int, caret_x as int),
        decreases lines@.len() - i,
    {
        assert(lines@.take(i + 1).drop_last() =~= lines@.take(i as int));
        if let Some(line) = lines[i] {
            let before: bool = caret_line > 0 && i < caret_line as usize;
            let on: bool = caret_line >= 0 && i == caret_line as usize;
            if before {
                parts.push(
                    ClipRect {
                        left: line.left,
                        top: line.top,
                        width: line.width as i64,
                        height: line.height,
                    },
                );
            } else if on {
                let reach: i64 = caret_x as i64 + (CARET_MARGIN_PX * UNITS_PER_PX) as i64;
                parts.push(
                    ClipRect {
                        left: line.left,
                        top: line.top,
                        width: if reach < 0 {
                            0
                        } else {
                            reach
                        },
                        height: line.height,
                    },
                );
            }
        }
        i = i + 1;
    }
    assert(lines@.take(lines@.len() as int) =~= lines@);
    parts
}

/// As the caret moves along its line or on to a later one, no text is covered up
/// again: what showed of a line, up to the width of its text, still shows. Along
/// one line nothing at all is covered up again.
pub proof fn typing_only_uncovers(
    line: LineBox,
    i: int,
    caret_line: int,
    x: int,
    later_line: int,
    further: int,
)
    requires
        caret_line < later_line || (caret_line == later_line && x <= further),
    ensures
        match (uncovered(line, i, caret_line, x), uncovered(line, i, later_line, further)) {
            (Some(before), Some(after)) => (before <= after || line.width <= after) && (caret_line
                == later_line ==> before <= after),
            (Some(_), None) => false,
            (None, _) => true,
        },
{
}

/// Nothing below the caret line shows: the lines after it add no part.
pub proof fn nothing_below_the_caret_shows(
    lines: Seq<Option<LineBox>>,
    caret_line: int,
    caret_x: int,
)
    requires
        0 <= caret_line < lines.len(),
    ensures
        uncovered_parts(lines, caret_line, caret_x) == uncovered_parts(
            lines.take(caret_line + 1),
            caret_line,
            caret_x,
        ),
    decreases lines.len(),
{
    if caret_line + 1 == lines.len() {
        assert(lines.take(caret_line + 1) =~= lines);
    } else {
        nothing_below_the_caret_shows(lines.drop_last(), caret_line, caret_x);
        assert(lines.drop_last().take(caret_line + 1) =~= lines.take(caret_line + 1));
    }
}

/// How many of the first `n` lines there are.
pub open spec fn lines_there(lines: Seq<Option<LineBox>>, n: int) -> nat {
    lines.take(n).filter(|line: Option<LineBox>| line is Some).len()
}

proof fn lemma_lines_there(lines: Seq<Option<LineBox>>, n: int)
    requires
        0 <= n < lines.len(),
    ensures
        lines_there(lines, 0) == 0,
        lines_there(lines, n + 1) == lines_there(lines, n) + if lines[n] is Some {
            1int
        } else {
            0
        },
{
    reveal(Seq::filter);
    assert(lines.take(n + 1).drop_last() =~= lines.take(n));
    assert(lines.take(0) =~= Seq::empty());
}

proof fn lemma_lines_there_prefix(lines: Seq<Option<LineBox>>, m: int, n: int)
    requires
        0 <= n <= m <= lines.len(),
    ensures
        lines_there(lines.take(m), n) == lines_there(lines, n),
        lines_there(lines, n) <= lines_there(lines, m),
    decreases m - n,
{
    assert(lines.take(m).take(n) =~= lines.take(n));
    if n < m {
        lemma_lines_there_prefix(lines, m, n + 1);
        lemma_lines_there(lines, n);
    }
}

/// Each line there is, from the first to the caret line, shows in exactly one
/// part, in the order of the lines, and nothing else shows: a completed line at
/// the full width of its text, the caret line up to two pixels past the caret.
pub proof fn lines_show_up_to_the_caret(
    lines: Seq<Option<LineBox>>,
    caret_line: int,
    caret_x: int,
    i: int,
)
    requires
        i32::MIN <= caret_x <= i32::MAX,
        0 <= i < lines.len(),
    ensures
        uncovered_parts(lines, caret_line, caret_x).len() == lines_there(
            lines,
            if caret_line < 0 {
                0
            } else if caret_line < lines.len() {
                caret_line + 1
            } else {
                lines.len() as int
            },
        ),
        i <= caret_line && lines[i] is Some ==> {
            let parts = uncovered_parts(lines, caret_line, caret_x);
            let at = lines_there(lines, i) as int;
            let line = lines[i]->0;
            &&& at < parts.len()
            &&& parts[at].left == line.left
            &&& parts[at].top == line.top
            &&& parts[at].height == line.height
            &&& i < caret_line ==> parts[at].width == line.width
            &&& i == caret_line && caret_x >= -2048 ==> parts[at].width == caret_x + 2048
            &&& i == caret_line && caret_x < -2048 ==> parts[at].width == 0
        },
    decreases lines.len(),
{
    let n = lines.len() - 1;
    let above = lines.drop_last();
    assert(above =~= lines.take(n));
    lemma_lines_there(lines, n);
    let shown = if caret_line < 0 {
        0
    } else if caret_line < lines.len() {
        caret_line + 1
    } else {
        lines.len() as int
    };
    if n > 0 {
        let upper = if shown <= n {
            shown
        } else {
            n
        };
        lines_show_up_to_the_caret(
            above,
            caret_line,
            caret_x,
            if i < n {
                i
            } else {
                0
            },
        );
        lemma_lines_there_prefix(lines, n, upper);
        if i < n {
            lemma_lines_there_prefix(lines, n, i);
            assert(above[i] == lines[i]);
        }
    } else {
        assert(uncovered_parts(above, caret_line, caret_x).len() == 0);
    }
}

/// A completed line is never covered up again: wherever the caret goes on to,
/// its whole text keeps showing in its place.
pub proof fn completed_lines_keep_showing(
    lines: Seq<Option<LineBox>>,
    caret_line: int,
    caret_x: int,
    later_line: int,
    later_x: int,
    i: int,
)
    requires
        i32::MIN <= caret_x <= i32::MAX,
        i32::MIN <= later_x <= i32::MAX,
        0 <= i < lines.len(),
        i < caret_line <= later_line,
        lines[i] is Some,
    ensures
        ({
            let line = lines[i]->0;
            let whole = ClipRect {
                left: line.left,
                top: line.top,
                width: line.width as i64,
                height: line.height,
            };
            &&& uncovered_parts(lines, caret_line, caret_x).contains(whole)
            &&& uncovered_parts(lines, later_line, later_x).contains(whole)
        }),
{
    lines_show_up_to_the_caret(lines, caret_line, caret_x, i);
    lines_show_up_to_the_caret(lines, later_line, later_x, i);
    let line = lines[i]->0;
    let whole = ClipRect {
        left: line.left,
        top: line.top,
        width: line.width as i64,
        height: line.height,
    };
    let at = lines_there(lines, i) as int;
    assert(uncovered_parts(lines, caret_line, caret_x)[at] == whole);
    assert(uncovered_parts(lines, later_line, later_x)[at] == whole);
}

/// Each character moves the insertion point on by the bytes that encode it.
pub proof fn each_character_adds_its_bytes(text: Seq<char>, n: int)
    requires
        0 <= n < text.len(),
    ensures
        byte_index(text, n + 1) == byte_index(text, n) + encode_scalar(text[n] as u32).len(),
{
    lemma_encode_push(text.take(n), text[n]);
    assert(text.take(n).push(text[n]) =~= text.take(n + 1));
    assert(text.take(text.len() as int) =~= text);
}

/// One tick shows one more character of its phrase, never more than there are,
/// and reports the phrase complete exactly when all of it shows.
pub proof fn tick_types_one_character(state: Reveal, timer: RevealTimer)
    requires
        state.token == timer.token,
    ensures
        state.shown < timer.total ==> ticked(state, timer).shown == state.shown + 1,
        state.shown >= timer.total ==> ticked(state, timer).shown == timer.total,
        ticked(state, timer).token == state.token,
        tick_outcome(state, timer) is Finished <==> ticked(state, timer).shown == timer.total,
        tick_outcome(state, timer) !is Superseded,
{
}

} // verus!
