//! The caret: where it stands, and its blink.

use vstd::prelude::*;

use crate::layout::{grains, place_block, quote_at, Ink, GRAINS_PER_PX};
use crate::text::Alignment;
use crate::typewriter::{byte_index, char_byte_index};

verus! {

/// Milliseconds that the caret stays in either half of its blink.
pub const CURSOR_BLINK_MS: u64 = 530;

/// Pixels that the caret measures at the least, both ways.
pub const CARET_MIN_PX: i64 = 2;

/// Grains to a layout unit; 1024 units make a pixel.
pub const GRAINS_PER_UNIT: i64 = 75;

/// The cell of a character in a layout, in layout units.
#[derive(Clone, Copy, Debug, PartialEq, Eq, Structural)]
pub struct Cell {
    pub x: i32,
    pub y: i32,
    pub width: i32,
    pub height: i32,
}

/// The caret on the window, in grains.
#[derive(Clone, Copy, Debug, PartialEq, Eq, Structural)]
pub struct CaretRect {
    pub x: i64,
    pub y: i64,
    pub width: i64,
    pub height: i64,
}

/// The byte of `text` that the caret stands before, with `typed` characters
/// shown: the next one to come, or the end once all are there.
pub fn caret_index(text: &str, typed: usize) -> (at: usize)
    ensures
        typed < text@.len() ==> at == byte_index(text@, typed as int),
        typed >= text@.len() ==> at == byte_index(text@, text@.len() as int),
{
    let total: usize = text.unicode_len();
    if typed >= total {
        char_byte_index(text, total)
    } else {
        char_byte_index(text, typed)
    }
}

/// `length`, but no less than `least` and no more than `most`.
pub open spec fn kept_within(length: int, least: int, most: int) -> int {
    if length < least {
        least
    } else if length > most {
        most
    } else {
        length
    }
}

/// Where the caret stands on a `w` by `h` window when it is at `cell` of the
/// quote: on the cell, wherever the block puts the quote. It is no wider than
/// `widest` grains, and neither narrower nor lower than [`CARET_MIN_PX`].
pub fn cursor_rect(w: i32, h: i32, quote: Ink, author: Ink, cell: Cell, widest: i64) -> (rect:
    CaretRect)
    requires
        widest >= CARET_MIN_PX * GRAINS_PER_PX,
    ensures
        rect.x == quote_at(w as int, h as int, quote, author).0 + cell.x * GRAINS_PER_UNIT,
        rect.y == quote_at(w as int, h as int, quote, author).1 + cell.y * GRAINS_PER_UNIT,
        rect.width == kept_within(
            cell.width * GRAINS_PER_UNIT,
            grains(CARET_MIN_PX as int),
            widest as int,
        ),
        rect.height == if cell.height * GRAINS_PER_UNIT < grains(CARET_MIN_PX as int) {
            grains(CARET_MIN_PX as int)
        } else {
            cell.height * GRAINS_PER_UNIT
        },
{
    let place = place_block(w, h, Alignment::Center, quote, author);
    let least: i64 = CARET_MIN_PX * GRAINS_PER_PX;
    let width: i64 = cell.width as i64 * GRAINS_PER_UNIT;
    let height: i64 = cell.height as i64 * GRAINS_PER_UNIT;
    CaretRect {
        x: place.quote_x + cell.x as i64 * GRAINS_PER_UNIT,
        y: place.quote_y + cell.y as i64 * GRAINS_PER_UNIT,
        width: if width < least {
            least
        } else if width > widest {
            widest
        } else {
            width
        },
        height: if height < least {
            least
        } else {
            height
        },
    }
}

/// The layer that is repainted.
#[derive(Clone, Copy, Debug, PartialEq, Eq, Structural)]
pub enum Repaint {
    /// The overlay, which costs little.
    Overlay,
    /// The main layer with the text.
    Main,
}

/// Turns the caret on or off and says which layer has to be repainted for it:
/// the overlay where there is one, so that the text is left alone.
pub fn blink(cursor_on: &mut bool, overlay: bool) -> (repaint: Repaint)
    ensures
        *final(cursor_on) == !*old(cursor_on),
        repaint == (if overlay {
            Repaint::Overlay
        } else {
            Repaint::Main
        }),
{
    *cursor_on = !*cursor_on;
    if overlay {
        Repaint::Overlay
    } else {
        Repaint::Main
    }
}

/// Whether the overlay paints the caret: in the visible half of its blink, and
/// not during a glitch burst.
pub fn overlay_caret(cursor_on: bool, glitch: bool) -> (shown: bool)
    ensures
        shown == (cursor_on && !glitch),
{
    cursor_on && !glitch
}

/// A length is kept within its bounds: it is left alone where it lies between
/// them, and else goes to the nearer one.
pub proof fn lengths_go_to_the_nearer_bound(length: int, least: int, most: int)
    requires
        least <= most,
    ensures
        least <= kept_within(length, least, most) <= most,
        least <= length <= most ==> kept_within(length, least, most) == length,
        length <= least ==> kept_within(length, least, most) == least,
        length >= most ==> kept_within(length, least, most) == most,
{
}

} // verus!
