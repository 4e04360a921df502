//! What one frame is made of: the layers of the picture and the strokes of the
//! text block.

use vstd::prelude::*;

use crate::typewriter::{byte_index, char_byte_index};

verus! {

// ---------------------------------------------------------------------------
// Layers
// ---------------------------------------------------------------------------

/// One layer of a frame.
#[derive(Clone, Copy, Debug, PartialEq, Eq, Structural)]
pub enum Layer {
    Background,
    /// The glow at the bottom edge that the squares rise from.
    BirthGradient,
    TextBlock,
    /// A still scanline mesh.
    Scanlines,
    Vignette,
}

/// The layers of a frame, from the bottom up. The still scanlines are painted
/// only when no overlay rolls its own across the picture.
pub open spec fn layers(birth_gradient: bool, overlay: bool) -> Seq<Layer> {
    seq![Layer::Background] + (if birth_gradient {
        seq![Layer::BirthGradient]
    } else {
        Seq::empty()
    }) + seq![Layer::TextBlock] + (if overlay {
        Seq::empty()
    } else {
        seq![Layer::Scanlines]
    }) + seq![Layer::Vignette]
}

/// The layers of a frame, from the bottom up. `birth_gradient` says whether the
/// gradient is switched on and can be seen, `overlay` whether an overlay paints
/// moving scanlines on top of this frame.
pub fn frame_layers(birth_gradient: bool, overlay: bool) -> (list: Vec<Layer>)
    ensures
        list@ == layers(birth_gradient, overlay),
{
    let mut list: Vec<Layer> = Vec::new();
    list.push(Layer::Background);
    if birth_gradient {
        list.push(Layer::BirthGradient);
    }
    list.push(Layer::TextBlock);
    if !overlay {
        list.push(Layer::Scanlines);
    }
    list.push(Layer::Vignette);
    assert(list@ =~= layers(birth_gradient, overlay));
    list
}

// ---------------------------------------------------------------------------
// The text block
// ---------------------------------------------------------------------------

/// What the look of the text block depends on at the moment.
#[derive(Clone, Copy, Debug, PartialEq, Eq, Structural)]
pub struct Scene {
    /// Characters of the quote typed so far.
    pub typed: usize,
    /// A glitch burst is on.
    pub glitch: bool,
    /// This step of the burst blanks the text.
    pub blank: bool,
    /// This step of the burst flashes inverted.
    pub invert: bool,
    /// This step of the burst draws colour echoes.
    pub echo: bool,
    /// An overlay is there to paint the caret.
    pub overlay: bool,
    /// The caret is in the visible half of its blink.
    pub cursor_on: bool,
}

/// One step in painting the text block.
#[derive(Clone, Copy, Debug, PartialEq, Eq, Structural)]
pub enum Stroke {
    /// The whole steady block, painted beforehand: halo, quote and author.
    Block,
    /// The glow around the quote.
    Halo,
    /// The quote in its own colour.
    Quote,
    /// The quote, displaced by the burst.
    GlitchedQuote,
    /// A bright bar behind the displaced block.
    InvertBar,
    /// The displaced quote in the colour of the background.
    InvertedQuote,
    /// The echo to the right of the displaced quote.
    EchoRight,
    /// The echo to the left of the displaced quote.
    EchoLeft,
    /// The line that names the author.
    Author,
    /// The line that names the author, displaced by the burst along with the quote.
    GlitchedAuthor,
    /// From here on, let only the first bytes of the quote show, and of its halo
    /// what goes with them, wherever the quote is painted.
    Uncover { bytes: usize },
    /// Let all of the quote show again.
    CoverOff,
    /// The caret, after the given byte of the quote.
    Caret { at: usize },
}

/// `stroke` alone if `shown`, else nothing.
pub open spec fn only_if(shown: bool, stroke: Stroke) -> Seq<Stroke> {
    if shown {
        seq![stroke]
    } else {
        Seq::empty()
    }
}

impl Scene {
    /// Whether the quote is still being typed.
    pub open spec fn typing(self, text: Seq<char>) -> bool {
        self.typed < text.len()
    }

    /// Whether the block stands still: all of it shows and nothing disturbs it.
    pub open spec fn steady(self, text: Seq<char>) -> bool {
        !self.glitch && !self.typing(text)
    }

    /// Whether the caret is painted with the text, not by an overlay, and is in
    /// the visible half of its blink.
    pub open spec fn caret(self) -> bool {
        !self.overlay && self.cursor_on
    }
}

/// What a steady block shows.
pub open spec fn block_strokes(halo: bool) -> Seq<Stroke> {
    only_if(halo, Stroke::Halo) + seq![Stroke::Quote, Stroke::Author]
}

/// The quote in a glitch step, displaced, with what goes with it.
pub open spec fn glitched_quote(scene: Scene) -> Seq<Stroke> {
    (if scene.echo {
        seq![Stroke::EchoRight, Stroke::EchoLeft]
    } else {
        Seq::empty()
    }) + (if scene.invert {
        seq![Stroke::InvertBar, Stroke::InvertedQuote]
    } else {
        seq![Stroke::GlitchedQuote]
    })
}

/// The strokes of a glitch step, all of them displaced: the whole block swings.
/// Until the quote has been typed, what is yet to come of it stays covered and
/// the author is left out; a blanked step shows nothing at all.
pub open spec fn glitch_strokes(text: Seq<char>, scene: Scene) -> Seq<Stroke> {
    if scene.blank {
        Seq::empty()
    } else if scene.typing(text) {
        let at = byte_index(text, scene.typed as int) as usize;
        seq![Stroke::Uncover { bytes: at }] + glitched_quote(scene) + seq![Stroke::CoverOff]
    } else {
        glitched_quote(scene) + seq![Stroke::GlitchedAuthor]
    }
}

/// The strokes of the text block, in order. `block` says whether the steady
/// block is at hand, painted beforehand; `halo` whether there is a halo to paint.
pub open spec fn text_strokes(
    text: Seq<char>,
    scene: Scene,
    block: bool,
    halo: bool,
) -> Seq<Stroke> {
    if scene.glitch {
        glitch_strokes(text, scene)
    } else if scene.typing(text) {
        let at = byte_index(text, scene.typed as int) as usize;
        seq![Stroke::Uncover { bytes: at }] + only_if(halo, Stroke::Halo) + seq![
            Stroke::Quote,
            Stroke::CoverOff,
        ] + only_if(scene.caret(), Stroke::Caret { at })
    } else {
        let at = byte_index(text, text.len() as int) as usize;
        if block {
            seq![Stroke::Block] + only_if(scene.caret(), Stroke::Caret { at })
        } else {
            only_if(halo, Stroke::Halo) + seq![Stroke::Quote] + only_if(
                scene.caret(),
                Stroke::Caret { at },
            ) + seq![Stroke::Author]
        }
    }
}

impl Scene {
    /// Whether a frame has use for the halo. A burst hides it, so that no glitch
    /// step pays for building one.
    pub fn needs_halo(&self) -> (yes: bool)
        ensures
            yes == !self.glitch,
    {
        !self.glitch
    }

    /// Whether the block stands still, so that painting it beforehand pays off.
    pub fn is_steady(&self, text: &str) -> (yes: bool)
        ensures
            yes == self.steady(text@),
            yes == (!self.glitch && self.typed >= text@.len()),
    {
        !self.glitch && self.typed >= text.unicode_len()
    }
}

/// The strokes that paint a steady block beforehand.
pub fn steady_block(halo: bool) -> (strokes: Vec<Stroke>)
    ensures
        strokes@ == block_strokes(halo),
{
    let mut strokes: Vec<Stroke> = Vec::new();
    if halo {
        strokes.push(Stroke::Halo);
    }
    strokes.push(Stroke::Quote);
    strokes.push(Stroke::Author);
    assert(strokes@ =~= block_strokes(halo));
    strokes
}

/// The strokes of the text block for `text`, in order.
pub fn text_block(text: &str, scene: &Scene, block: bool, halo: bool) -> (strokes: Vec<Stroke>)
    ensures
        strokes@ == text_strokes(text@, *scene, block, halo),
{
    let total: usize = text.unicode_len();
    let typing: bool = scene.typed < total;
    let caret: bool = !scene.overlay && scene.cursor_on;
    let mut strokes: Vec<Stroke> = Vec::new();
    if scene.glitch {
        if !scene.blank {
            if typing {
                strokes.push(Stroke::Uncover { bytes: char_byte_index(text, scene.typed) });
            }
            if scene.echo {
                strokes.push(Stroke::EchoRight);
                strokes.push(Stroke::EchoLeft);
            }
            if scene.invert {
                strokes.push(Stroke::InvertBar);
                strokes.push(Stroke::InvertedQuote);
            } else {
                strokes.push(Stroke::GlitchedQuote);
            }
            if typing {
                strokes.push(Stroke::CoverOff);
            } else {
                strokes.push(Stroke::GlitchedAuthor);
            }
        }
    } else if typing {
        let at: usize = char_byte_index(text, scene.typed);
        strokes.push(Stroke::Uncover { bytes: at });
        if halo {
            strokes.push(Stroke::Halo);
        }
        strokes.push(Stroke::Quote);
        strokes.push(Stroke::CoverOff);
        if caret {
            strokes.push(Stroke::Caret { at });
        }
    } else {
        let at: usize = char_byte_index(text, total);
        if block {
            strokes.push(Stroke::Block);
            if caret {
                strokes.push(Stroke::Caret { at });
            }
        } else {
            if halo {
                strokes.push(Stroke::Halo);
            }
            strokes.push(Stroke::Quote);
            if caret {
                strokes.push(Stroke::Caret { at });
            }
            strokes.push(Stroke::Author);
        }
    }
    assert(strokes@ =~= text_strokes(text@, *scene, block, halo));
    strokes
}

/// `strokes` with the block painted beforehand replaced by what it shows.
pub open spec fn unpacked(strokes: Seq<Stroke>, halo: bool) -> Seq<Stroke>
    decreases strokes.len(),
{
    if strokes.len() == 0 {
        Seq::empty()
    } else {
        unpacked(strokes.drop_last(), halo) + (if strokes.last() == Stroke::Block {
            block_strokes(halo)
        } else {
            seq![strokes.last()]
        })
    }
}

/// A block painted beforehand shows what painting it on the spot shows: the same
/// strokes, and in the same order but for the caret.
pub proof fn prepared_block_shows_the_same(text: Seq<char>, scene: Scene, halo: bool)
    requires
        scene.steady(text),
    ensures
        unpacked(text_strokes(text, scene, true, halo), halo).to_multiset() == text_strokes(
            text,
            scene,
            false,
            halo,
        ).to_multiset(),
        !scene.caret() ==> unpacked(text_strokes(text, scene, true, halo), halo) == text_strokes(
            text,
            scene,
            false,
            halo,
        ),
{
    let at = byte_index(text, text.len() as int) as usize;
    let packed = text_strokes(text, scene, true, halo);
    let plain = text_strokes(text, scene, false, halo);
    let block = block_strokes(halo);
    let none = Seq::<Stroke>::empty();
    let just_block = seq![Stroke::Block];
    assert(unpacked(none, halo) == none);
    assert(just_block.drop_last() =~= none);
    assert(unpacked(just_block, halo) =~= block);
    if scene.caret() {
        let caret = seq![Stroke::Caret { at }];
        let front = only_if(halo, Stroke::Halo) + seq![Stroke::Quote];
        let author = seq![Stroke::Author];
        assert(packed =~= just_block + caret);
        assert(packed.drop_last() =~= just_block);
        assert(unpacked(packed, halo) =~= front + author + caret);
        assert(plain =~= front + caret + author);
        broadcast use vstd::seq_lib::lemma_multiset_commutative;

        assert((front + author + caret).to_multiset() =~= front.to_multiset().add(
            author.to_multiset(),
        ).add(caret.to_multiset()));
        assert((front + caret + author).to_multiset() =~= front.to_multiset().add(
            caret.to_multiset(),
        ).add(author.to_multiset()));
    } else {
        assert(packed =~= just_block);
        assert(plain =~= block);
    }
}

/// A blanked glitch step shows nothing at all.
pub proof fn blanked_steps_show_nothing(text: Seq<char>, scene: Scene, block: bool, halo: bool)
    requires
        scene.glitch,
        scene.blank,
    ensures
        text_strokes(text, scene, block, halo).len() == 0,
{
}

/// No glitch step carries the halo, the caret or the block painted beforehand.
pub proof fn glitch_steps_hide_halo_and_caret(
    text: Seq<char>,
    scene: Scene,
    block: bool,
    halo: bool,
    i: int,
)
    requires
        scene.glitch,
        0 <= i < text_strokes(text, scene, block, halo).len(),
    ensures
        text_strokes(text, scene, block, halo)[i] !is Block,
        text_strokes(text, scene, block, halo)[i] !is Halo,
        text_strokes(text, scene, block, halo)[i] !is Caret,
{
}

/// Whether a stroke paints the author by itself.
pub open spec fn names_author(stroke: Stroke) -> bool {
    stroke is Author || stroke is GlitchedAuthor
}

/// Whether a stroke is displaced by a burst.
pub open spec fn displaced(stroke: Stroke) -> bool {
    ||| stroke is GlitchedQuote
    ||| stroke is InvertBar
    ||| stroke is InvertedQuote
    ||| stroke is EchoRight
    ||| stroke is EchoLeft
    ||| stroke is GlitchedAuthor
}

/// Whether a stroke only says how much of the quote may show.
pub open spec fn covers(stroke: Stroke) -> bool {
    stroke is Uncover || stroke is CoverOff
}

/// Whether a stroke paints the quote, in whatever place and colour.
pub open spec fn paints_quote(stroke: Stroke) -> bool {
    ||| stroke is Block
    ||| stroke is Quote
    ||| stroke is GlitchedQuote
    ||| stroke is InvertedQuote
    ||| stroke is EchoRight
    ||| stroke is EchoLeft
}

/// What is yet to be typed never shows, not in a burst either: while typing,
/// every stroke that paints the quote comes after the cover, which leaves just
/// the bytes of the characters typed, and before it is taken off. A quote that is
/// fully typed is never covered.
pub proof fn untyped_text_stays_covered(
    text: Seq<char>,
    scene: Scene,
    block: bool,
    halo: bool,
    i: int,
)
    requires
        0 <= i < text_strokes(text, scene, block, halo).len(),
    ensures
        ({
            let strokes = text_strokes(text, scene, block, halo);
            &&& scene.typing(text) && paints_quote(strokes[i]) ==> {
                &&& strokes[0] == (Stroke::Uncover {
                    bytes: byte_index(text, scene.typed as int) as usize,
                })
                &&& forall|j: int| 0 < j <= i ==> !covers(#[trigger] strokes[j])
                &&& exists|j: int| i < j < strokes.len() && #[trigger] strokes[j] is CoverOff
            }
            &&& !scene.typing(text) ==> !covers(strokes[i])
        }),
{
    let strokes = text_strokes(text, scene, block, halo);
    if scene.typing(text) && paints_quote(strokes[i]) {
        let off = if scene.glitch {
            strokes.len() - 1
        } else if halo {
            3
        } else {
            2
        };
        assert(strokes[off] is CoverOff);
    }
}

proof fn lemma_glitched_quote(scene: Scene, i: int)
    requires
        0 <= i < glitched_quote(scene).len(),
    ensures
        displaced(glitched_quote(scene)[i]),
        !covers(glitched_quote(scene)[i]),
        !names_author(glitched_quote(scene)[i]),
{
}

/// Where the strokes of a glitch step that is not blanked come from.
proof fn lemma_glitch_strokes(text: Seq<char>, scene: Scene, i: int)
    requires
        !scene.blank,
        0 <= i < glitch_strokes(text, scene).len(),
    ensures
        covers(glitch_strokes(text, scene)[i]) || displaced(glitch_strokes(text, scene)[i]),
        names_author(glitch_strokes(text, scene)[i]) <==> !scene.typing(text) && i
            == glitch_strokes(text, scene).len() - 1,
{
    let strokes = glitch_strokes(text, scene);
    let quote = glitched_quote(scene);
    if scene.typing(text) {
        if i == 0 {
            assert(strokes[i] is Uncover);
        } else if i <= quote.len() {
            assert(strokes[i] == quote[i - 1]);
            lemma_glitched_quote(scene, i - 1);
        } else {
            assert(strokes[i] is CoverOff);
        }
    } else {
        if i < quote.len() {
            assert(strokes[i] == quote[i]);
            lemma_glitched_quote(scene, i);
        } else {
            assert(strokes[i] is GlitchedAuthor);
        }
    }
}

/// The whole block swings: all that a glitch step paints is displaced, and
/// nothing that any other frame paints is.
pub proof fn whole_block_swings(
    text: Seq<char>,
    scene: Scene,
    block: bool,
    halo: bool,
    i: int,
)
    requires
        0 <= i < text_strokes(text, scene, block, halo).len(),
    ensures
        !covers(text_strokes(text, scene, block, halo)[i]) ==> (displaced(
            text_strokes(text, scene, block, halo)[i],
        ) <==> scene.glitch),
{
    if scene.glitch {
        lemma_glitch_strokes(text, scene, i);
    }
}

/// The author joins only when the quote is fully typed, and then in every frame
/// that is not blanked.
pub proof fn author_waits_for_the_quote(text: Seq<char>, scene: Scene, block: bool, halo: bool)
    ensures
        (exists|i: int|
            0 <= i < unpacked(text_strokes(text, scene, block, halo), halo).len() && names_author(
                #[trigger] unpacked(text_strokes(text, scene, block, halo), halo)[i],
            )) <==> !scene.typing(text) && !(scene.glitch && scene.blank),
{
    let strokes = text_strokes(text, scene, block, halo);
    if scene.glitch {
        if scene.blank {
            assert(unpacked(strokes, halo) == Seq::<Stroke>::empty());
        } else {
            assert forall|i: int| 0 <= i < strokes.len() implies #[trigger] strokes[i]
                != Stroke::Block && (names_author(strokes[i]) <==> !scene.typing(text) && i
                == strokes.len() - 1) by {
                lemma_glitch_strokes(text, scene, i);
            }
            lemma_nothing_to_unpack(strokes, halo);
            assert(!scene.typing(text) ==> names_author(strokes[strokes.len() - 1]));
        }
    } else if scene.typing(text) || !block {
        assert forall|i: int| 0 <= i < strokes.len() implies #[trigger] strokes[i]
            != Stroke::Block by {}
        lemma_nothing_to_unpack(strokes, halo);
        assert(!scene.typing(text) ==> names_author(strokes[strokes.len() - 1]));
    } else {
        let none = Seq::<Stroke>::empty();
        let just_block = seq![Stroke::Block];
        assert(unpacked(none, halo) == none);
        assert(just_block.drop_last() =~= none);
        assert(unpacked(just_block, halo) =~= block_strokes(halo));
        let out = block_strokes(halo);
        assert(out.last() == Stroke::Author);
        if scene.caret() {
            let at = byte_index(text, text.len() as int) as usize;
            assert(strokes.drop_last() =~= just_block);
            assert(unpacked(strokes, halo) =~= out + seq![Stroke::Caret { at }]);
        } else {
            assert(strokes =~= just_block);
        }
        assert(unpacked(strokes, halo)[out.len() - 1] == Stroke::Author);
    }
}

proof fn lemma_nothing_to_unpack(strokes: Seq<Stroke>, halo: bool)
    requires
        forall|i: int| 0 <= i < strokes.len() ==> #[trigger] strokes[i] != Stroke::Block,
    ensures
        unpacked(strokes, halo) == strokes,
    decreases strokes.len(),
{
    if strokes.len() > 0 {
        let rest = strokes.drop_last();
        assert forall|i: int| 0 <= i < rest.len() implies #[trigger] rest[i] != Stroke::Block by {
            assert(rest[i] == strokes[i]);
        }
        lemma_nothing_to_unpack(rest, halo);
        assert(strokes[strokes.len() - 1] != Stroke::Block);
        assert(unpacked(strokes, halo) =~= strokes);
    }
}

/// `strokes` without the caret.
pub open spec fn less_caret(strokes: Seq<Stroke>) -> Seq<Stroke>
    decreases strokes.len(),
{
    if strokes.len() == 0 {
        Seq::empty()
    } else if strokes.last() is Caret {
        less_caret(strokes.drop_last())
    } else {
        less_caret(strokes.drop_last()).push(strokes.last())
    }
}

proof fn lemma_no_caret_to_lose(strokes: Seq<Stroke>)
    requires
        forall|i: int| 0 <= i < strokes.len() ==> #[trigger] strokes[i] !is Caret,
    ensures
        less_caret(strokes) == strokes,
    decreases strokes.len(),
{
    if strokes.len() > 0 {
        let rest = strokes.drop_last();
        assert forall|i: int| 0 <= i < rest.len() implies #[trigger] rest[i] !is Caret by {
            assert(rest[i] == strokes[i]);
        }
        lemma_no_caret_to_lose(rest);
        assert(strokes[strokes.len() - 1] !is Caret);
        assert(rest.push(strokes.last()) =~= strokes);
    }
}

proof fn lemma_only_one_caret_to_lose(front: Seq<Stroke>, at: usize, back: Seq<Stroke>)
    requires
        forall|i: int| 0 <= i < front.len() ==> #[trigger] front[i] !is Caret,
        forall|i: int| 0 <= i < back.len() ==> #[trigger] back[i] !is Caret,
    ensures
        less_caret(front + seq![Stroke::Caret { at }] + back) == front + back,
    decreases back.len(),
{
    let caret = seq![Stroke::Caret { at }];
    let all = front + caret + back;
    if back.len() == 0 {
        assert(all.drop_last() =~= front);
        lemma_no_caret_to_lose(front);
        assert(front + back =~= front);
    } else {
        let rest = back.drop_last();
        assert forall|i: int| 0 <= i < rest.len() implies #[trigger] rest[i] !is Caret by {
            assert(rest[i] == back[i]);
        }
        lemma_only_one_caret_to_lose(front, at, rest);
        assert(all.drop_last() =~= front + caret + rest);
        assert(back[back.len() - 1] !is Caret);
        assert((front + rest).push(back.last()) =~= front + back);
    }
}

/// The blink changes nothing but the caret: with the caret off, a frame is the
/// frame with the caret on less the caret. Where an overlay paints the caret,
/// the blink does not touch the frame at all.
pub proof fn blink_touches_only_the_caret(
    text: Seq<char>,
    on: Scene,
    off: Scene,
    block: bool,
    halo: bool,
)
    requires
        on.cursor_on,
        off == (Scene { cursor_on: false, ..on }),
    ensures
        text_strokes(text, off, block, halo) == less_caret(text_strokes(text, on, block, halo)),
        on.overlay ==> text_strokes(text, off, block, halo) == text_strokes(text, on, block, halo),
{
    let with = text_strokes(text, on, block, halo);
    let without = text_strokes(text, off, block, halo);
    if on.glitch || on.overlay {
        assert(with =~= without);
        lemma_no_caret_to_lose(with);
    } else {
        let none = Seq::<Stroke>::empty();
        if on.typing(text) || block {
            let at = with.last()->at;
            assert(with =~= without + seq![Stroke::Caret { at }] + none);
            lemma_only_one_caret_to_lose(without, at, none);
            assert(without + none =~= without);
        } else {
            let at = byte_index(text, text.len() as int) as usize;
            let front = only_if(halo, Stroke::Halo) + seq![Stroke::Quote];
            let author = seq![Stroke::Author];
            assert(with =~= front + seq![Stroke::Caret { at }] + author);
            lemma_only_one_caret_to_lose(front, at, author);
            assert(without =~= front + author);
        }
    }
}

// ---------------------------------------------------------------------------
// What every frame shows
// ---------------------------------------------------------------------------

proof fn lemma_in_sum<T>(a: Seq<T>, b: Seq<T>, x: T)
    ensures
        (a + b).contains(x) <==> a.contains(x) || b.contains(x),
{
    if a.contains(x) {
        let i = choose|i: int| 0 <= i < a.len() && a[i] == x;
        assert((a + b)[i] == x);
    }
    if b.contains(x) {
        let i = choose|i: int| 0 <= i < b.len() && b[i] == x;
        assert((a + b)[a.len() + i] == x);
    }
    if (a + b).contains(x) {
        let i = choose|i: int| 0 <= i < (a + b).len() && (a + b)[i] == x;
        if i < a.len() {
            assert(a[i] == x);
        } else {
            assert(b[i - a.len()] == x);
        }
    }
}

proof fn lemma_in_one<T>(a: T, x: T)
    ensures
        seq![a].contains(x) <==> a == x,
{
    if a == x {
        assert(seq![a][0] == x);
    }
}

proof fn lemma_in_two<T>(a: T, b: T, x: T)
    ensures
        seq![a, b].contains(x) <==> a == x || b == x,
{
    if a == x {
        assert(seq![a, b][0] == x);
    }
    if b == x {
        assert(seq![a, b][1] == x);
    }
}

proof fn lemma_in_only_if(shown: bool, stroke: Stroke, x: Stroke)
    ensures
        only_if(shown, stroke).contains(x) <==> shown && stroke == x,
{
    lemma_in_one(stroke, x);
}

/// What a frame shows: each stroke is there exactly when the scene calls for it.
/// The quote shows in every frame but a blanked one, typed or not, with or
/// without a halo; echoes, flash and author each follow their own cause; the
/// cover leaves the bytes of the characters typed, and the caret stands behind
/// them.
pub proof fn scene_decides_what_shows(
    text: Seq<char>,
    scene: Scene,
    block: bool,
    halo: bool,
    x: Stroke,
)
    requires
        vstd::utf8::encode_utf8(text).len() <= usize::MAX,
    ensures
        text_strokes(text, scene, block, halo).contains(x) <==> {
            let typing = scene.typed < text.len();
            let typed = vstd::utf8::encode_utf8(
                text.take(
                    if typing {
                        scene.typed as int
                    } else {
                        text.len() as int
                    },
                ),
            ).len();
            let steps = scene.glitch && !scene.blank;
            match x {
                Stroke::Block => !scene.glitch && !typing && block,
                Stroke::Halo => !scene.glitch && halo && (typing || !block),
                Stroke::Quote => !scene.glitch && (typing || !block),
                Stroke::Author => !scene.glitch && !typing && !block,
                Stroke::GlitchedQuote => steps && !scene.invert,
                Stroke::InvertBar => steps && scene.invert,
                Stroke::InvertedQuote => steps && scene.invert,
                Stroke::EchoRight => steps && scene.echo,
                Stroke::EchoLeft => steps && scene.echo,
                Stroke::GlitchedAuthor => steps && !typing,
                Stroke::Uncover { bytes } => typing && !(scene.glitch && scene.blank) && bytes
                    == typed,
                Stroke::CoverOff => typing && !(scene.glitch && scene.blank),
                Stroke::Caret { at } => !scene.glitch && !scene.overlay && scene.cursor_on && at
                    == typed,
            }
        },
{
    let typing = scene.typing(text);
    assert(text.take(text.len() as int) =~= text);
    crate::typewriter::caret_walks_over_whole_characters(
        text,
        scene.typed as int,
        text.len() + scene.typed,
    );
    if scene.glitch {
        if !scene.blank {
            let echoes = if scene.echo {
                seq![Stroke::EchoRight, Stroke::EchoLeft]
            } else {
                Seq::empty()
            };
            let body = if scene.invert {
                seq![Stroke::InvertBar, Stroke::InvertedQuote]
            } else {
                seq![Stroke::GlitchedQuote]
            };
            lemma_in_two(Stroke::EchoRight, Stroke::EchoLeft, x);
            lemma_in_two(Stroke::InvertBar, Stroke::InvertedQuote, x);
            lemma_in_one(Stroke::GlitchedQuote, x);
            lemma_in_sum(echoes, body, x);
            if typing {
                let at = byte_index(text, scene.typed as int) as usize;
                let cover = seq![Stroke::Uncover { bytes: at }];
                lemma_in_one(Stroke::Uncover { bytes: at }, x);
                lemma_in_one(Stroke::CoverOff, x);
                lemma_in_sum(cover, glitched_quote(scene), x);
                lemma_in_sum(cover + glitched_quote(scene), seq![Stroke::CoverOff], x);
            } else {
                lemma_in_one(Stroke::GlitchedAuthor, x);
                lemma_in_sum(glitched_quote(scene), seq![Stroke::GlitchedAuthor], x);
            }
        }
    } else if typing {
        let at = byte_index(text, scene.typed as int) as usize;
        let cover = seq![Stroke::Uncover { bytes: at }];
        let glow = only_if(halo, Stroke::Halo);
        let quote = seq![Stroke::Quote, Stroke::CoverOff];
        let caret = only_if(scene.caret(), Stroke::Caret { at });
        lemma_in_one(Stroke::Uncover { bytes: at }, x);
        lemma_in_only_if(halo, Stroke::Halo, x);
        lemma_in_two(Stroke::Quote, Stroke::CoverOff, x);
        lemma_in_only_if(scene.caret(), Stroke::Caret { at }, x);
        lemma_in_sum(cover, glow, x);
        lemma_in_sum(cover + glow, quote, x);
        lemma_in_sum(cover + glow + quote, caret, x);
    } else {
        let at = byte_index(text, text.len() as int) as usize;
        let caret = only_if(scene.caret(), Stroke::Caret { at });
        lemma_in_only_if(scene.caret(), Stroke::Caret { at }, x);
        if block {
            lemma_in_one(Stroke::Block, x);
            lemma_in_sum(seq![Stroke::Block], caret, x);
        } else {
            let glow = only_if(halo, Stroke::Halo);
            lemma_in_only_if(halo, Stroke::Halo, x);
            lemma_in_one(Stroke::Quote, x);
            lemma_in_one(Stroke::Author, x);
            lemma_in_sum(glow, seq![Stroke::Quote], x);
            lemma_in_sum(glow + seq![Stroke::Quote], caret, x);
            lemma_in_sum(glow + seq![Stroke::Quote] + caret, seq![Stroke::Author], x);
        }
    }
}

/// How far up a stroke lies in the picture. The halo and the echoes lie under the
/// quote, the bar over the echoes and under the quote; the caret and the author
/// come after the quote is uncovered again.
pub open spec fn height_of(stroke: Stroke) -> int {
    match stroke {
        Stroke::Uncover { .. } => 0,
        Stroke::Halo => 1,
        Stroke::EchoRight => 2,
        Stroke::EchoLeft => 3,
        Stroke::InvertBar => 4,
        Stroke::Block | Stroke::Quote | Stroke::GlitchedQuote | Stroke::InvertedQuote => 5,
        Stroke::CoverOff => 6,
        Stroke::Caret { .. } => 7,
        Stroke::Author | Stroke::GlitchedAuthor => 8,
    }
}

/// Every frame is painted from the bottom up, and nothing in it twice.
pub proof fn frames_are_painted_upwards(
    text: Seq<char>,
    scene: Scene,
    block: bool,
    halo: bool,
    i: int,
    j: int,
)
    requires
        0 <= i < j < text_strokes(text, scene, block, halo).len(),
    ensures
        height_of(text_strokes(text, scene, block, halo)[i]) < height_of(
            text_strokes(text, scene, block, halo)[j],
        ),
{
    let strokes = text_strokes(text, scene, block, halo);
    if scene.glitch {
        let quote = glitched_quote(scene);
        if scene.typing(text) {
            assert forall|m: int| 0 <= m < strokes.len() implies #[trigger] strokes[m] == (if m
                == 0 {
                strokes[0]
            } else if m <= quote.len() {
                quote[m - 1]
            } else {
                Stroke::CoverOff
            }) by {}
            assert(strokes[0] is Uncover);
            lemma_glitched_upwards(scene, i - 1, j - 1);
        } else {
            assert forall|m: int| 0 <= m < strokes.len() implies #[trigger] strokes[m] == (if m
                < quote.len() {
                quote[m]
            } else {
                Stroke::GlitchedAuthor
            }) by {}
            lemma_glitched_upwards(scene, i, j);
        }
    }
}

proof fn lemma_glitched_upwards(scene: Scene, i: int, j: int)
    ensures
        forall|m: int|
            0 <= m < glitched_quote(scene).len() ==> 2 <= height_of(
                #[trigger] glitched_quote(scene)[m],
            ) <= 5,
        0 <= i < j < glitched_quote(scene).len() ==> height_of(glitched_quote(scene)[i])
            < height_of(glitched_quote(scene)[j]),
{
}

/// Every frame paints the quote, unless a burst blanks it: as it stands, displaced
/// or inverted, by itself or within the block painted beforehand, which holds it.
pub proof fn every_frame_paints_the_quote(text: Seq<char>, scene: Scene, block: bool, halo: bool)
    requires
        !(scene.glitch && scene.blank),
    ensures
        exists|i: int|
            0 <= i < text_strokes(text, scene, block, halo).len() && match #[trigger] text_strokes(
                text,
                scene,
                block,
                halo,
            )[i] {
                Stroke::Quote | Stroke::GlitchedQuote | Stroke::InvertedQuote => true,
                Stroke::Block => block_strokes(halo).contains(Stroke::Quote),
                _ => false,
            },
        exists|i: int|
            0 <= i < unpacked(text_strokes(text, scene, block, halo), halo).len()
                && match #[trigger] unpacked(text_strokes(text, scene, block, halo), halo)[i] {
                Stroke::Quote | Stroke::GlitchedQuote | Stroke::InvertedQuote => true,
                _ => false,
            },
{
    let strokes = text_strokes(text, scene, block, halo);
    let plain = only_if(halo, Stroke::Halo);
    assert(block_strokes(halo)[plain.len() as int] == Stroke::Quote);
    let at: int = if scene.glitch {
        let before: int = if scene.typing(text) {
            1
        } else {
            0
        };
        let quote = glitched_quote(scene);
        assert(strokes[before + quote.len() - 1] == quote.last());
        before + quote.len() - 1
    } else if scene.typing(text) {
        1 + plain.len() as int
    } else if block {
        0
    } else {
        plain.len() as int
    };
    assert(match strokes[at] {
        Stroke::Quote | Stroke::GlitchedQuote | Stroke::InvertedQuote => true,
        Stroke::Block => block_strokes(halo).contains(Stroke::Quote),
        _ => false,
    });
    if scene.steady(text) && block {
        let just_block = seq![Stroke::Block];
        assert(unpacked(Seq::<Stroke>::empty(), halo) == Seq::<Stroke>::empty());
        assert(just_block.drop_last() =~= Seq::<Stroke>::empty());
        assert(unpacked(just_block, halo) =~= block_strokes(halo));
        if scene.caret() {
            assert(strokes.drop_last() =~= just_block);
            assert(unpacked(strokes, halo) =~= block_strokes(halo) + seq![strokes.last()]);
        } else {
            assert(strokes =~= just_block);
        }
        assert(unpacked(strokes, halo)[plain.len() as int] == Stroke::Quote);
    } else {
        assert forall|i: int| 0 <= i < strokes.len() implies #[trigger] strokes[i]
            != Stroke::Block by {
            if scene.glitch {
                glitch_steps_hide_halo_and_caret(text, scene, block, halo, i);
            }
        }
        lemma_nothing_to_unpack(strokes, halo);
        assert(unpacked(strokes, halo)[at] == strokes[at]);
    }
}

/// The halo decides about nothing but itself: a frame with a halo to paint is the
/// frame without one and, unless a burst or the block painted beforehand makes it
/// needless, the halo's stroke.
pub proof fn halo_adds_only_itself(text: Seq<char>, scene: Scene, block: bool)
    ensures
        ({
            let with = text_strokes(text, scene, block, true);
            let without = text_strokes(text, scene, block, false);
            if scene.glitch || (block && scene.typed >= text.len()) {
                with == without
            } else {
                exists|p: int|
                    0 <= p < with.len() && #[trigger] with[p] is Halo && with.remove(p) == without
            }
        }),
        ({
            let with = block_strokes(true);
            exists|p: int|
                0 <= p < with.len() && #[trigger] with[p] is Halo && with.remove(p)
                    == block_strokes(false)
        }),
{
    let with = text_strokes(text, scene, block, true);
    let without = text_strokes(text, scene, block, false);
    if !scene.glitch {
        if scene.typing(text) {
            assert(with[1] is Halo);
            assert(with.remove(1) =~= without);
        } else if !block {
            assert(with[0] is Halo);
            assert(with.remove(0) =~= without);
        }
    }
    assert(block_strokes(true)[0] is Halo);
    assert(block_strokes(true).remove(0) =~= block_strokes(false));
}

/// The block painted beforehand is what a steady frame paints on the spot, less
/// the caret.
pub proof fn block_is_the_steady_frame(text: Seq<char>, scene: Scene, halo: bool)
    requires
        !scene.glitch,
        scene.typed >= text.len(),
        scene.overlay || !scene.cursor_on,
    ensures
        block_strokes(halo) == text_strokes(text, scene, false, halo),
{
    assert(block_strokes(halo) =~= text_strokes(text, scene, false, halo));
}

/// What a picture is made of: always the background, the text and the vignette;
/// the gradient where it is switched on, and the still mesh where no overlay
/// paints its own.
pub proof fn switches_decide_the_layers(birth_gradient: bool, overlay: bool, x: Layer)
    ensures
        layers(birth_gradient, overlay).contains(x) <==> match x {
            Layer::Background | Layer::TextBlock | Layer::Vignette => true,
            Layer::BirthGradient => birth_gradient,
            Layer::Scanlines => !overlay,
        },
{
    let gradient = if birth_gradient {
        seq![Layer::BirthGradient]
    } else {
        Seq::empty()
    };
    let mesh = if overlay {
        Seq::empty()
    } else {
        seq![Layer::Scanlines]
    };
    let first = seq![Layer::Background];
    let text = seq![Layer::TextBlock];
    lemma_in_one(Layer::Background, x);
    lemma_in_one(Layer::BirthGradient, x);
    lemma_in_one(Layer::TextBlock, x);
    lemma_in_one(Layer::Scanlines, x);
    lemma_in_one(Layer::Vignette, x);
    lemma_in_sum(first, gradient, x);
    lemma_in_sum(first + gradient, text, x);
    lemma_in_sum(first + gradient + text, mesh, x);
    lemma_in_sum(first + gradient + text + mesh, seq![Layer::Vignette], x);
}

/// The layers lie in one order, whatever is switched on, and none of them twice.
pub proof fn layers_lie_in_order(birth_gradient: bool, overlay: bool, i: int, j: int)
    requires
        0 <= i < j < layers(birth_gradient, overlay).len(),
    ensures
        layer_height(layers(birth_gradient, overlay)[i]) < layer_height(
            layers(birth_gradient, overlay)[j],
        ),
{
}

/// How far up a layer lies.
pub open spec fn layer_height(layer: Layer) -> int {
    match layer {
        Layer::Background => 0,
        Layer::BirthGradient => 1,
        Layer::TextBlock => 2,
        Layer::Scanlines => 3,
        Layer::Vignette => 4,
    }
}

} // verus!
