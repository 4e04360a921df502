//! Sizes of the glow buffers and the recolouring of blurred coverage into
//! premultiplied 32-bit pixels.
//!
//! The coverage mask is drawn at one and a half times the size of the text; the
//! finished halo is scaled back down to the size it has on screen.

use vstd::prelude::*;

use crate::blur::place;

verus! {

/// `n / d`, rounded up.
pub open spec fn ceil_div(n: int, d: int) -> int {
    (n + d - 1) / d
}

/// The side of a mask over `ink` pixels of text with `pad` mask pixels around it.
pub open spec fn mask_side(ink: int, pad: int) -> int {
    let side = ceil_div(3 * ink, 2) + 2 * pad;
    if side < i32::MAX {
        side
    } else {
        i32::MAX as int
    }
}

fn mask_side_exec(ink: i32, pad: u32) -> (side: i32)
    requires
        1 <= ink,
    ensures
        side == mask_side(ink as int, pad as int),
        side >= 2,
{
    let side: i64 = (3 * ink as i64 + 1) / 2 + 2 * pad as i64;
    if side < i32::MAX as i64 {
        side as i32
    } else {
        i32::MAX
    }
}

/// The size of the coverage mask for a text whose ink measures `ink_w` by
/// `ink_h` pixels, with `pad` mask pixels of room on every side for the stroke
/// and the blur. Text without ink has no mask.
pub fn glow_mask_size(ink_w: i32, ink_h: i32, pad: u32) -> (size: Option<(i32, i32)>)
    ensures
        size is None <==> ink_w < 1 || ink_h < 1,
        size matches Some((w, h)) ==> w == mask_side(ink_w as int, pad as int) && h == mask_side(
            ink_h as int,
            pad as int,
        ) && w > 0 && h > 0,
{
    if ink_w < 1 || ink_h < 1 {
        None
    } else {
        Some((mask_side_exec(ink_w, pad), mask_side_exec(ink_h, pad)))
    }
}

/// The size on screen of the halo made from a `mask_w` by `mask_h` mask, or
/// nothing for an empty mask.
pub fn halo_size(mask_w: i32, mask_h: i32) -> (size: Option<(i32, i32)>)
    ensures
        size is None <==> mask_w <= 0 || mask_h <= 0,
        size matches Some((w, h)) ==> w == ceil_div(2 * mask_w, 3) && h == ceil_div(2 * mask_h, 3),
{
    if mask_w <= 0 || mask_h <= 0 {
        None
    } else {
        let w: i64 = (2 * mask_w as i64 + 2) / 3;
        let h: i64 = (2 * mask_h as i64 + 2) / 3;
        Some((w as i32, h as i32))
    }
}

/// The halo on screen covers the text together with its room: scaled back, the
/// mask is at least as large as the ink it was drawn for.
pub proof fn halo_covers_the_ink(ink: int, pad: int)
    requires
        1 <= ink,
        0 <= pad,
        mask_side(ink, pad) < i32::MAX,
    ensures
        ceil_div(2 * mask_side(ink, pad), 3) >= ink,
        3 * ceil_div(2 * mask_side(ink, pad), 3) >= 3 * ink + 4 * pad,
{
}

/// One premultiplied pixel, its bytes in the order in which they are stored.
#[derive(Clone, Copy)]
pub struct Pixel {
    pub blue: u8,
    pub green: u8,
    pub red: u8,
    pub alpha: u8,
}

impl Pixel {
    /// Byte `i` of the stored pixel.
    pub open spec fn byte(self, i: int) -> u8 {
        if i == 0 {
            self.blue
        } else if i == 1 {
            self.green
        } else if i == 2 {
            self.red
        } else {
            self.alpha
        }
    }
}

/// Byte `o` of row `y` of the recoloured buffer: the pixels the palette gives
/// for the coverage bytes of that row, then zeros.
pub open spec fn recolored_byte(
    src: Seq<u8>,
    w: int,
    src_stride: int,
    palette: Seq<Pixel>,
    y: int,
    o: int,
) -> u8 {
    if o < 4 * w {
        palette[src[place(src_stride, o / 4, y)] as int].byte(o % 4)
    } else {
        0
    }
}

/// The recoloured buffer, `h` rows of `dst_stride` bytes.
pub open spec fn recolored(
    src: Seq<u8>,
    w: int,
    h: int,
    src_stride: int,
    dst_stride: int,
    palette: Seq<Pixel>,
) -> Seq<u8> {
    Seq::new(
        (h * dst_stride) as nat,
        |j: int| recolored_byte(src, w, src_stride, palette, j / dst_stride, j % dst_stride),
    )
}

/// Turns a coverage mask into stored pixels: coverage `c` becomes `palette[c]`.
pub fn recolor(
    src: &Vec<u8>,
    w: usize,
    h: usize,
    src_stride: usize,
    dst_stride: usize,
    palette: &Vec<Pixel>,
) -> (out: Vec<u8>)
    requires
        palette@.len() == 256,
        0 < w,
        0 < h,
        (h - 1) * src_stride + w <= src.len(),
        4 * w <= dst_stride,
        h * dst_stride <= usize::MAX,
    ensures
        out@ == recolored(
            src@,
            w as int,
            h as int,
            src_stride as int,
            dst_stride as int,
            palette@,
        ),
{
    let ghost goal = recolored(
        src@,
        w as int,
        h as int,
        src_stride as int,
        dst_stride as int,
        palette@,
    );
    let mut out: Vec<u8> = Vec::new();
    let mut y: usize = 0;
    while y < h
        invariant
            y <= h,
            palette@.len() == 256,
            0 < w,
            (h - 1) * src_stride + w <= src.len(),
            4 * w <= dst_stride,
            h * dst_stride <= usize::MAX,
            goal == recolored(
                src@,
                w as int,
                h as int,
                src_stride as int,
                dst_stride as int,
                palette@,
            ),
            out@.len() == y * dst_stride,
            forall|j: int| 0 <= j < out@.len() ==> #[trigger] out@[j] == goal[j],
        decreases h - y,
    {
        proof {
            lemma_row_inside(h as int, src_stride as int, y as int);
            lemma_row_inside(h as int, dst_stride as int, y as int);
        }
        let mut x: usize = 0;
        while x < w
            invariant
                x <= w,
                y < h,
                palette@.len() == 256,
                0 <= y * src_stride <= (h - 1) * src_stride,
                (h - 1) * src_stride + w <= src.len(),
                0 <= y * dst_stride,
                (y + 1) * dst_stride <= h * dst_stride,
                4 * w <= dst_stride,
                goal == recolored(
                    src@,
                    w as int,
                    h as int,
                    src_stride as int,
                    dst_stride as int,
                    palette@,
                ),
                out@.len() == y * dst_stride + 4 * x,
                forall|j: int| 0 <= j < out@.len() ==> #[trigger] out@[j] == goal[j],
            decreases w - x,
        {
            let pixel: Pixel = palette[src[y * src_stride + x] as usize];
            proof {
                assert forall|i: int| 0 <= i < 4 implies #[trigger] pixel.byte(i)
                    == goal[y * dst_stride + 4 * x + i] by {
                    lemma_goal_byte(
                        src@,
                        w as int,
                        h as int,
                        src_stride as int,
                        dst_stride as int,
                        palette@,
                        y as int,
                        4 * x + i,
                    );
                }
                assert(pixel.byte(0) == pixel.blue && pixel.byte(1) == pixel.green && pixel.byte(2)
                    == pixel.red && pixel.byte(3) == pixel.alpha);
            }
            out.push(pixel.blue);
            out.push(pixel.green);
            out.push(pixel.red);
            out.push(pixel.alpha);
            x = x + 1;
        }
        let mut o: usize = 4 * w;
        while o < dst_stride
            invariant
                4 * w <= o <= dst_stride,
                y < h,
                0 <= y * dst_stride,
                (y + 1) * dst_stride <= h * dst_stride,
                goal == recolored(
                    src@,
                    w as int,
                    h as int,
                    src_stride as int,
                    dst_stride as int,
                    palette@,
                ),
                out@.len() == y * dst_stride + o,
                forall|j: int| 0 <= j < out@.len() ==> #[trigger] out@[j] == goal[j],
            decreases dst_stride - o,
        {
            proof {
                lemma_goal_byte(
                    src@,
                    w as int,
                    h as int,
                    src_stride as int,
                    dst_stride as int,
                    palette@,
                    y as int,
                    o as int,
                );
            }
            out.push(0u8);
            o = o + 1;
        }
        proof {
            assert((y + 1) * dst_stride == y * dst_stride + dst_stride) by (nonlinear_arith);
        }
        y = y + 1;
    }
    assert(out@ =~= goal);
    out
}

proof fn lemma_row_inside(h: int, stride: int, y: int)
    requires
        0 <= y < h,
        0 <= stride,
    ensures
        0 <= y * stride <= (h - 1) * stride,
        (y + 1) * stride <= h * stride,
{
    assert(0 <= y * stride <= (h - 1) * stride && (y + 1) * stride <= h * stride)
        by (nonlinear_arith)
        requires
            0 <= y < h,
            0 <= stride,
    ;
}

proof fn lemma_goal_byte(
    src: Seq<u8>,
    w: int,
    h: int,
    src_stride: int,
    dst_stride: int,
    palette: Seq<Pixel>,
    y: int,
    o: int,
)
    requires
        0 <= y < h,
        0 <= o < dst_stride,
    ensures
        0 <= y * dst_stride + o < h * dst_stride,
        recolored(src, w, h, src_stride, dst_stride, palette)[y * dst_stride + o]
            == recolored_byte(src, w, src_stride, palette, y, o),
{
    lemma_row_inside(h, dst_stride, y);
    assert((y + 1) * dst_stride == y * dst_stride + dst_stride) by (nonlinear_arith);
    vstd::arithmetic::div_mod::lemma_fundamental_div_mod_converse(
        y * dst_stride + o,
        dst_stride,
        y,
        o,
    );
}

/// Rounding up gives the least whole number that is no smaller than the quotient.
pub proof fn ceil_div_is_the_least_bound(n: int, d: int)
    requires
        d > 0,
    ensures
        d * ceil_div(n, d) >= n,
        d * (ceil_div(n, d) - 1) < n,
{
    let m = n + d - 1;
    vstd::arithmetic::div_mod::lemma_fundamental_div_mod(m, d);
    vstd::arithmetic::div_mod::lemma_mod_bound(m, d);
    let q = m / d;
    assert(d * (q - 1) == d * q - d) by (nonlinear_arith);
}

/// A mask has room for half as much again as the ink, and no more, between the
/// padding on either side; a mask that would be too large is as large as can be.
pub proof fn mask_is_half_as_large_again(ink: int, pad: int)
    ensures
        mask_side(ink, pad) <= i32::MAX,
        mask_side(ink, pad) < i32::MAX ==> 3 * ink <= 2 * (mask_side(ink, pad) - 2 * pad) < 3 * ink
            + 2,
        mask_side(ink, pad) == i32::MAX ==> 3 * ink + 2 > 2 * (i32::MAX - 2 * pad),
{
}

/// Each pixel of the mask becomes the four bytes of its colour, blue, green, red
/// and alpha, in the same row and column; the rest of each row is zero.
pub proof fn pixels_keep_their_places(
    src: Seq<u8>,
    w: int,
    h: int,
    src_stride: int,
    dst_stride: int,
    palette: Seq<Pixel>,
    x: int,
    y: int,
    o: int,
)
    requires
        0 <= x < w,
        0 <= y < h,
        4 * w <= dst_stride,
        4 * w <= o < dst_stride || o == 4 * x,
    ensures
        recolored(src, w, h, src_stride, dst_stride, palette).len() == h * dst_stride,
        ({
            let out = recolored(src, w, h, src_stride, dst_stride, palette);
            let colour = palette[src[y * src_stride + x] as int];
            &&& o == 4 * x ==> {
                &&& out[y * dst_stride + 4 * x] == colour.blue
                &&& out[y * dst_stride + 4 * x + 1] == colour.green
                &&& out[y * dst_stride + 4 * x + 2] == colour.red
                &&& out[y * dst_stride + 4 * x + 3] == colour.alpha
            }
            &&& 4 * w <= o ==> out[y * dst_stride + o] == 0
        }),
{
    lemma_goal_byte(src, w, h, src_stride, dst_stride, palette, y, o);
    if o == 4 * x {
        lemma_goal_byte(src, w, h, src_stride, dst_stride, palette, y, 4 * x + 1);
        lemma_goal_byte(src, w, h, src_stride, dst_stride, palette, y, 4 * x + 2);
        lemma_goal_byte(src, w, h, src_stride, dst_stride, palette, y, 4 * x + 3);
    }
    assert(0 <= h * dst_stride) by (nonlinear_arith)
        requires
            0 <= h,
            0 <= dst_stride,
    ;
}

} // verus!
