//! Where things go on a window.
//!
//! Positions are exact. What only halves a width is counted in half pixels; what
//! also takes in percentages, the scale of the halo and the units of laid-out
//! text is counted in grains, of which there are [`GRAINS_PER_PX`] to a pixel.

use vstd::prelude::*;

use crate::halo::{ceil_div, halo_covers_the_ink, mask_side};
use crate::text::Alignment;

verus! {

/// Where the quote's layout starts, in half pixels, so that ink `iw` pixels wide
/// and `ink_x` to the right of the start stands in the middle of a window `w` wide.
pub open spec fn quote_start(w: int, ink_x: int, iw: int) -> int {
    w - 2 * ink_x - iw
}

/// Where the author's layout starts, in half pixels.
pub open spec fn author_start(align: Alignment, w: int, iw: int, aink_x: int, aw: int) -> int {
    match align {
        Alignment::Left => w - iw - 2 * aink_x,
        Alignment::Right => w + iw - 2 * aink_x - 2 * aw,
        Alignment::Center => w - 2 * aink_x - aw,
    }
}

/// Where the quote's layout starts, in half pixels: its ink, `iw` pixels wide
/// and `ink_x` pixels from the start, stands in the middle of the window.
pub fn quote_x(w: i32, ink_x: i32, iw: i32) -> (x: i64)
    ensures
        x == quote_start(w as int, ink_x as int, iw as int),
{
    w as i64 - 2 * ink_x as i64 - iw as i64
}

/// Where the author's layout starts, in half pixels, on a window `w` pixels
/// wide: centred on its own, or flush with the left or right edge of the quote,
/// whose ink is `iw` pixels wide. The author's ink is `aw` pixels wide and starts
/// `aink_x` pixels into its layout.
pub fn author_x(align: Alignment, w: i32, iw: i32, aink_x: i32, aw: i32) -> (x: i64)
    ensures
        x == author_start(align, w as int, iw as int, aink_x as int, aw as int),
{
    let w: i64 = w as i64;
    let iw: i64 = iw as i64;
    let aink_x: i64 = aink_x as i64;
    let aw: i64 = aw as i64;
    match align {
        Alignment::Left => w - iw - 2 * aink_x,
        Alignment::Right => w + iw - 2 * aink_x - 2 * aw,
        Alignment::Center => w - 2 * aink_x - aw,
    }
}

/// The author rides along with the justified quote: the inked edges of both
/// coincide on the side they are aligned to, and their middles coincide when
/// they are centred.
pub proof fn author_is_flush_with_the_quote(
    w: int,
    ink_x: int,
    iw: int,
    aink_x: int,
    aw: int,
)
    ensures
        author_start(Alignment::Left, w, iw, aink_x, aw) + 2 * aink_x == quote_start(w, ink_x, iw)
            + 2 * ink_x,
        author_start(Alignment::Right, w, iw, aink_x, aw) + 2 * aink_x + 2 * aw == quote_start(
            w,
            ink_x,
            iw,
        ) + 2 * ink_x + 2 * iw,
        author_start(Alignment::Center, w, iw, aink_x, aw) + 2 * aink_x + aw == quote_start(
            w,
            ink_x,
            iw,
        ) + 2 * ink_x + iw,
        quote_start(w, ink_x, iw) + 2 * ink_x + iw == w,
{
}

// ---------------------------------------------------------------------------
// The text block
// ---------------------------------------------------------------------------

/// Grains to a pixel. Half a pixel, a fiftieth, a third and a layout unit all are
/// whole numbers of grains.
pub const GRAINS_PER_PX: i64 = 76_800;

/// Pixels between the ink of the quote and that of the author.
pub const BLOCK_GAP_PX: i64 = 24;

/// The inked part of a laid-out text, in pixels from where the layout starts.
#[derive(Clone, Copy, Debug, PartialEq, Eq, Structural)]
pub struct Ink {
    pub x: i32,
    pub y: i32,
    pub width: i32,
    pub height: i32,
}

/// The halo of a quote: its size on screen in pixels, and the room left around
/// the ink in pixels of its mask.
#[derive(Clone, Copy, Debug, PartialEq, Eq, Structural)]
pub struct HaloBox {
    pub pad: u32,
    pub width: i32,
    pub height: i32,
}

/// Where the layouts of the quote and the author start, in grains.
#[derive(Clone, Copy, Debug, PartialEq, Eq, Structural)]
pub struct BlockPlace {
    pub quote_x: i64,
    pub quote_y: i64,
    pub author_x: i64,
    pub author_y: i64,
}

/// A rectangle on the window, in grains.
#[derive(Clone, Copy, Debug, PartialEq, Eq, Structural)]
pub struct Frame {
    pub left: i64,
    pub top: i64,
    pub right: i64,
    pub bottom: i64,
}

/// A rectangle in the plane.
pub struct Bounds {
    pub left: int,
    pub top: int,
    pub right: int,
    pub bottom: int,
}

impl Bounds {
    /// The smallest rectangle that holds this one and the other.
    pub open spec fn spanned(self, other: Bounds) -> Bounds {
        Bounds {
            left: if self.left <= other.left {
                self.left
            } else {
                other.left
            },
            top: if self.top <= other.top {
                self.top
            } else {
                other.top
            },
            right: if self.right >= other.right {
                self.right
            } else {
                other.right
            },
            bottom: if self.bottom >= other.bottom {
                self.bottom
            } else {
                other.bottom
            },
        }
    }

    /// Whether the other rectangle lies inside this one.
    pub open spec fn holds(self, other: Bounds) -> bool {
        &&& self.left <= other.left
        &&& self.top <= other.top
        &&& other.right <= self.right
        &&& other.bottom <= self.bottom
    }
}

impl View for Frame {
    type V = Bounds;

    open spec fn view(&self) -> Bounds {
        Bounds {
            left: self.left as int,
            top: self.top as int,
            right: self.right as int,
            bottom: self.bottom as int,
        }
    }
}

/// `px` pixels in grains.
pub open spec fn grains(px: int) -> int {
    px * GRAINS_PER_PX
}

/// The height of the whole block, in pixels.
pub open spec fn block_height(quote: Ink, author: Ink) -> int {
    quote.height + BLOCK_GAP_PX + author.height
}

/// The top of the block's ink, in grains: the block stands in the middle of the
/// height, moved up by four hundredths of it.
pub open spec fn block_top(h: int, quote: Ink, author: Ink) -> int {
    (grains(h) - grains(block_height(quote, author))) / 2 - 4 * grains(h) / 100
}

/// Where the quote's layout starts, in grains.
pub open spec fn quote_at(w: int, h: int, quote: Ink, author: Ink) -> (int, int) {
    (
        grains(quote_start(w, quote.x as int, quote.width as int)) / 2,
        block_top(h, quote, author) - grains(quote.y as int),
    )
}

/// Where the author's layout starts, in grains.
pub open spec fn author_at(w: int, h: int, align: Alignment, quote: Ink, author: Ink) -> (
    int,
    int,
) {
    (
        grains(author_start(align, w, quote.width as int, author.x as int, author.width as int))
            / 2,
        block_top(h, quote, author) + grains(quote.height + BLOCK_GAP_PX - author.y),
    )
}

/// The part of the window that the ink of a layout starting at `at` takes up.
pub open spec fn ink_bounds(at: (int, int), ink: Ink) -> Bounds {
    Bounds {
        left: at.0 + grains(ink.x as int),
        top: at.1 + grains(ink.y as int),
        right: at.0 + grains(ink.x + ink.width),
        bottom: at.1 + grains(ink.y + ink.height),
    }
}

/// The part of the window that the halo takes up. Its mask is half as large
/// again as the text, so that the room around the ink counts for two thirds.
pub open spec fn halo_bounds(ink: Bounds, halo: HaloBox) -> Bounds {
    let room = 2 * grains(halo.pad as int) / 3;
    Bounds {
        left: ink.left - room,
        top: ink.top - room,
        right: ink.left - room + grains(halo.width as int),
        bottom: ink.top - room + grains(halo.height as int),
    }
}

/// The part of the window that the whole block takes up.
pub open spec fn block_bounds(
    w: int,
    h: int,
    align: Alignment,
    quote: Ink,
    author: Ink,
    halo: Option<HaloBox>,
) -> Bounds {
    let body = ink_bounds(quote_at(w, h, quote, author), quote);
    let both = body.spanned(ink_bounds(author_at(w, h, align, quote, author), author));
    match halo {
        Some(halo) => both.spanned(halo_bounds(body, halo)),
        None => both,
    }
}

/// Places the text block on a `w` by `h` window.
pub fn place_block(w: i32, h: i32, align: Alignment, quote: Ink, author: Ink) -> (place: BlockPlace)
    ensures
        (place.quote_x as int, place.quote_y as int) == quote_at(w as int, h as int, quote, author),
        (place.author_x as int, place.author_y as int) == author_at(
            w as int,
            h as int,
            align,
            quote,
            author,
        ),
{
    let half: i64 = GRAINS_PER_PX / 2;
    let fiftieth: i64 = GRAINS_PER_PX / 50;
    let block: i64 = quote.height as i64 + BLOCK_GAP_PX + author.height as i64;
    let top: i64 = (23 * h as i64 - 25 * block) * fiftieth;
    BlockPlace {
        quote_x: quote_x(w, quote.x, quote.width) * half,
        quote_y: top - quote.y as i64 * GRAINS_PER_PX,
        author_x: author_x(align, w, quote.width, author.x, author.width) * half,
        author_y: top + (quote.height as i64 + BLOCK_GAP_PX - author.y as i64) * GRAINS_PER_PX,
    }
}

fn frame_of_ink(x: i64, y: i64, ink: Ink) -> (frame: Frame)
    requires
        -0x100_0000_0000_0000 <= x <= 0x100_0000_0000_0000,
        -0x100_0000_0000_0000 <= y <= 0x100_0000_0000_0000,
    ensures
        frame@ == ink_bounds((x as int, y as int), ink),
{
    let left: i64 = x + ink.x as i64 * GRAINS_PER_PX;
    let top: i64 = y + ink.y as i64 * GRAINS_PER_PX;
    Frame {
        left,
        top,
        right: left + ink.width as i64 * GRAINS_PER_PX,
        bottom: top + ink.height as i64 * GRAINS_PER_PX,
    }
}

/// The part of a `w` by `h` window that the quote's ink takes up.
pub fn quote_frame(w: i32, h: i32, quote: Ink, author: Ink) -> (frame: Frame)
    ensures
        frame@ == ink_bounds(quote_at(w as int, h as int, quote, author), quote),
{
    let place = place_block(w, h, Alignment::Center, quote, author);
    frame_of_ink(place.quote_x, place.quote_y, quote)
}

/// The part of a `w` by `h` window that the halo takes up.
pub fn halo_frame(w: i32, h: i32, quote: Ink, author: Ink, halo: HaloBox) -> (frame: Frame)
    ensures
        frame@ == halo_bounds(
            ink_bounds(quote_at(w as int, h as int, quote, author), quote),
            halo,
        ),
{
    let ink = quote_frame(w, h, quote, author);
    let room: i64 = 2 * (halo.pad as i64 * GRAINS_PER_PX) / 3;
    let left: i64 = ink.left - room;
    let top: i64 = ink.top - room;
    Frame {
        left,
        top,
        right: left + halo.width as i64 * GRAINS_PER_PX,
        bottom: top + halo.height as i64 * GRAINS_PER_PX,
    }
}

fn span(one: Frame, other: Frame) -> (both: Frame)
    ensures
        both@ == one@.spanned(other@),
{
    Frame {
        left: if one.left <= other.left {
            one.left
        } else {
            other.left
        },
        top: if one.top <= other.top {
            one.top
        } else {
            other.top
        },
        right: if one.right >= other.right {
            one.right
        } else {
            other.right
        },
        bottom: if one.bottom >= other.bottom {
            one.bottom
        } else {
            other.bottom
        },
    }
}

/// The part of a `w` by `h` window that the whole block takes up: the quote, the
/// author and, when there is one, the halo.
pub fn block_frame(
    w: i32,
    h: i32,
    align: Alignment,
    quote: Ink,
    author: Ink,
    halo: Option<HaloBox>,
) -> (frame: Frame)
    ensures
        frame@ == block_bounds(w as int, h as int, align, quote, author, halo),
{
    let place = place_block(w, h, align, quote, author);
    let both = span(
        frame_of_ink(place.quote_x, place.quote_y, quote),
        frame_of_ink(place.author_x, place.author_y, author),
    );
    match halo {
        Some(halo) => span(both, halo_frame(w, h, quote, author, halo)),
        None => both,
    }
}

/// The number of whole pixels that `length` grains take up, at most the largest
/// size that a surface can have.
pub open spec fn pixels_over(length: int) -> int {
    let px = ceil_div(length, GRAINS_PER_PX as int);
    if px < i32::MAX {
        px
    } else {
        i32::MAX as int
    }
}

fn pixels_over_exec(length: i128) -> (px: i32)
    requires
        0 < length < 0x1_0000_0000_0000_0000_0000,
    ensures
        px == pixels_over(length as int),
{
    let px: i128 = (length + GRAINS_PER_PX as i128 - 1) / GRAINS_PER_PX as i128;
    if px < i32::MAX as i128 {
        px as i32
    } else {
        i32::MAX
    }
}

/// The size in pixels of a surface that has room for what lies in `frame`, or
/// nothing when nothing does.
pub fn surface_size(frame: Frame) -> (size: Option<(i32, i32)>)
    ensures
        size is None <==> frame.right <= frame.left || frame.bottom <= frame.top,
        size matches Some((w, h)) ==> w == pixels_over(frame.right - frame.left) && h
            == pixels_over(frame.bottom - frame.top),
{
    if frame.right <= frame.left || frame.bottom <= frame.top {
        None
    } else {
        Some(
            (
                pixels_over_exec(frame.right as i128 - frame.left as i128),
                pixels_over_exec(frame.bottom as i128 - frame.top as i128),
            ),
        )
    }
}

/// The author stands below the quote, the same gap away from it on every window,
/// and the middle of the block is at 46 hundredths of the window's height.
pub proof fn block_hangs_together(w: int, h: int, align: Alignment, quote: Ink, author: Ink)
    ensures
        ink_bounds(author_at(w, h, align, quote, author), author).top == ink_bounds(
            quote_at(w, h, quote, author),
            quote,
        ).bottom + grains(BLOCK_GAP_PX as int),
        100 * (ink_bounds(quote_at(w, h, quote, author), quote).top + ink_bounds(
            author_at(w, h, align, quote, author),
            author,
        ).bottom) == 92 * grains(h),
{
}

/// Nothing of the block is cut off: the quote, the author and the halo all lie in
/// the block's frame, and a surface made for the frame has room for all of it.
pub proof fn block_surface_has_room(
    w: int,
    h: int,
    align: Alignment,
    quote: Ink,
    author: Ink,
    halo: Option<HaloBox>,
)
    ensures
        ({
            let body = ink_bounds(quote_at(w, h, quote, author), quote);
            let bounds = block_bounds(w, h, align, quote, author, halo);
            &&& bounds.holds(body)
            &&& bounds.holds(ink_bounds(author_at(w, h, align, quote, author), author))
            &&& halo matches Some(halo) ==> bounds.holds(halo_bounds(body, halo))
            &&& pixels_over(bounds.right - bounds.left) < i32::MAX ==> grains(
                pixels_over(bounds.right - bounds.left),
            ) >= bounds.right - bounds.left
            &&& pixels_over(bounds.bottom - bounds.top) < i32::MAX ==> grains(
                pixels_over(bounds.bottom - bounds.top),
            ) >= bounds.bottom - bounds.top
        }),
{
}

/// The halo surrounds the quote's ink on every side.
pub proof fn halo_surrounds_the_quote(at: (int, int), quote: Ink, halo: HaloBox)
    requires
        1 <= quote.width,
        1 <= quote.height,
        mask_side(quote.width as int, halo.pad as int) < i32::MAX,
        mask_side(quote.height as int, halo.pad as int) < i32::MAX,
        halo.width == ceil_div(2 * mask_side(quote.width as int, halo.pad as int), 3),
        halo.height == ceil_div(2 * mask_side(quote.height as int, halo.pad as int), 3),
    ensures
        halo_bounds(ink_bounds(at, quote), halo).holds(ink_bounds(at, quote)),
{
    halo_covers_the_ink(quote.width as int, halo.pad as int);
    halo_covers_the_ink(quote.height as int, halo.pad as int);
}

/// The block stands where it belongs, to the grain: the quote's ink has its middle
/// in the middle of the window; the author's ink is flush with it, or has its
/// middle there too; it starts 24 pixels below the quote's; and the middle of both
/// together is four hundredths of the height above that of the window.
pub proof fn block_stands_where_it_belongs(
    w: int,
    h: int,
    align: Alignment,
    quote: Ink,
    author: Ink,
)
    ensures
        ({
            let (qx, qy) = quote_at(w, h, quote, author);
            let (ax, ay) = author_at(w, h, align, quote, author);
            let px = 76_800int;
            let quote_left = qx + px * quote.x;
            let author_left = ax + px * author.x;
            let top = qy + px * quote.y;
            let bottom = ay + px * (author.y + author.height);
            &&& 2 * quote_left + px * quote.width == px * w
            &&& align is Left ==> author_left == quote_left
            &&& align is Right ==> author_left + px * author.width == quote_left + px * quote.width
            &&& align is Center ==> 2 * author_left + px * author.width == px * w
            &&& ay + px * author.y == top + px * (quote.height + 24)
            &&& 50 * (top + bottom) == 46 * px * h
        }),
{
}

/// Ink takes up as much of the window as it is large, from where it starts.
pub proof fn ink_takes_up_its_size(at: (int, int), ink: Ink)
    ensures
        ink_bounds(at, ink).left == at.0 + 76_800 * ink.x,
        ink_bounds(at, ink).top == at.1 + 76_800 * ink.y,
        ink_bounds(at, ink).right - ink_bounds(at, ink).left == 76_800 * ink.width,
        ink_bounds(at, ink).bottom - ink_bounds(at, ink).top == 76_800 * ink.height,
{
}

/// A halo takes up as much of the window as it is large, and starts two thirds of
/// its padding above and to the left of the ink.
pub proof fn halo_takes_up_its_size(ink: Bounds, halo: HaloBox)
    ensures
        3 * (ink.left - halo_bounds(ink, halo).left) == 153_600 * halo.pad,
        3 * (ink.top - halo_bounds(ink, halo).top) == 153_600 * halo.pad,
        halo_bounds(ink, halo).right - halo_bounds(ink, halo).left == 76_800 * halo.width,
        halo_bounds(ink, halo).bottom - halo_bounds(ink, halo).top == 76_800 * halo.height,
{
}

/// The block's frame is no larger than it has to be: each of its edges is an edge
/// of the quote's ink, of the author's or of the halo.
pub proof fn block_frame_is_tight(
    w: int,
    h: int,
    align: Alignment,
    quote: Ink,
    author: Ink,
    halo: Option<HaloBox>,
)
    ensures
        ({
            let all = block_bounds(w, h, align, quote, author, halo);
            let q = ink_bounds(quote_at(w, h, quote, author), quote);
            let a = ink_bounds(author_at(w, h, align, quote, author), author);
            let g = match halo {
                Some(halo) => halo_bounds(q, halo),
                None => q,
            };
            &&& all.left == q.left || all.left == a.left || all.left == g.left
            &&& all.top == q.top || all.top == a.top || all.top == g.top
            &&& all.right == q.right || all.right == a.right || all.right == g.right
            &&& all.bottom == q.bottom || all.bottom == a.bottom || all.bottom == g.bottom
            &&& all.left <= q.left && all.left <= a.left && all.left <= g.left
            &&& all.top <= q.top && all.top <= a.top && all.top <= g.top
            &&& all.right >= q.right && all.right >= a.right && all.right >= g.right
            &&& all.bottom >= q.bottom && all.bottom >= a.bottom && all.bottom >= g.bottom
        }),
{
}

/// A surface is made as small as it can be for what it has to hold.
pub proof fn surfaces_are_tight(length: int)
    ensures
        pixels_over(length) <= i32::MAX,
        pixels_over(length) < i32::MAX ==> length <= 76_800 * pixels_over(length) < length
            + 76_800,
        pixels_over(length) == i32::MAX ==> 76_800 * (i32::MAX - 1) < length,
{
}

} // verus!
