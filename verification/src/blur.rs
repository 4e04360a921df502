//! The softness of the halo under the quote: a box blur, clamped at the edges,
//! over a buffer of 8-bit coverage.

use vstd::prelude::*;

verus! {

// ---------------------------------------------------------------------------
// One line of samples
// ---------------------------------------------------------------------------

/// The sum of the samples `line[lo..hi]`.
pub open spec fn sum_of(line: Seq<u8>, lo: int, hi: int) -> int
    decreases hi - lo,
{
    if lo >= hi {
        0
    } else {
        sum_of(line, lo, hi - 1) + line[hi - 1]
    }
}

/// First sample of the window around `i`: `k` samples back, clamped at the start.
pub open spec fn window_start(i: int, k: int) -> int {
    if i > k {
        i - k
    } else {
        0
    }
}

/// End of the window around `i`: `k` samples on, clamped at the end of the line.
pub open spec fn window_end(i: int, k: int, n: int) -> int {
    if i + k < n {
        i + k + 1
    } else {
        n
    }
}

/// The mean, rounded down, of the samples within `k` of sample `i`.
pub open spec fn box_mean(line: Seq<u8>, i: int, k: int) -> int {
    let lo = window_start(i, k);
    let hi = window_end(i, k, line.len() as int);
    sum_of(line, lo, hi) / (hi - lo)
}

/// Where sample `i` of a line lies, with the first at `start` and a distance of
/// `step` from each sample to the next.
pub open spec fn slot(start: int, step: int, i: int) -> int {
    start + i * step
}

/// Whether `j` is the place of one of the `n` samples of a line.
pub open spec fn on_line(start: int, step: int, n: int, j: int) -> bool {
    exists|i: int| 0 <= i < n && j == #[trigger] slot(start, step, i)
}

/// `n` samples of `data`, the first at `start` and each `step` after the one before.
pub open spec fn strided(data: Seq<u8>, start: int, step: int, n: nat) -> Seq<u8> {
    Seq::new(n, |i: int| data[slot(start, step, i)])
}

proof fn lemma_sum_drop_first(line: Seq<u8>, lo: int, hi: int)
    requires
        lo < hi,
    ensures
        sum_of(line, lo, hi) == line[lo] + sum_of(line, lo + 1, hi),
    decreases hi - lo,
{
    if lo + 1 < hi {
        lemma_sum_drop_first(line, lo, hi - 1);
    } else {
        assert(sum_of(line, lo, lo) == 0);
        assert(sum_of(line, lo + 1, hi) == 0);
    }
}

proof fn lemma_sum_between(line: Seq<u8>, lo: int, hi: int, low: int, high: int)
    requires
        0 <= lo <= hi <= line.len(),
        forall|i: int| lo <= i < hi ==> low <= #[trigger] line[i] <= high,
    ensures
        low * (hi - lo) <= sum_of(line, lo, hi) <= high * (hi - lo),
    decreases hi - lo,
{
    if lo < hi {
        lemma_sum_between(line, lo, hi - 1, low, high);
        assert(low <= line[hi - 1] <= high);
        assert(low * (hi - lo) == low * (hi - 1 - lo) + low) by (nonlinear_arith);
        assert(high * (hi - lo) == high * (hi - 1 - lo) + high) by (nonlinear_arith);
    } else {
        assert(low * 0 == 0 && high * 0 == 0);
    }
}

/// A box mean lies between any bounds on the samples of its line.
pub proof fn box_mean_stays_in_range(line: Seq<u8>, i: int, k: int, low: int, high: int)
    requires
        0 <= i < line.len(),
        0 <= k,
        forall|j: int| 0 <= j < line.len() ==> low <= #[trigger] line[j] <= high,
    ensures
        low <= box_mean(line, i, k) <= high,
{
    let lo = window_start(i, k);
    let hi = window_end(i, k, line.len() as int);
    lemma_sum_between(line, lo, hi, low, high);
    let n = hi - lo;
    let s = sum_of(line, lo, hi);
    assert(low <= s / n <= high) by (nonlinear_arith)
        requires
            n > 0,
            low * n <= s <= high * n,
    ;
}

/// Slides a window of `k` samples to either side along `n` samples of `src`,
/// leaving the mean of each window at the same place in `dst`.
fn blur_line(src: &Vec<u8>, dst: &mut Vec<u8>, start: usize, step: usize, n: usize, k: usize)
    requires
        n > 0,
        step > 0,
        start + (n - 1) * step < src.len(),
        start + (n - 1) * step < old(dst).len(),
    ensures
        final(dst)@.len() == old(dst)@.len(),
        forall|i: int|
            0 <= i < n ==> final(dst)@[#[trigger] slot(start as int, step as int, i)] == box_mean(
                strided(src@, start as int, step as int, n as nat),
                i,
                k as int,
            ),
        forall|j: int|
            0 <= j < old(dst)@.len() && !on_line(start as int, step as int, n as int, j)
                ==> #[trigger] final(dst)@[j] == old(dst)@[j],
{
    let ghost line = strided(src@, start as int, step as int, n as nat);
    let ghost dst0 = dst@;
    let mut sum: u128 = 0;
    let mut hi: usize = 0;
    let first: usize = if k < n {
        k + 1
    } else {
        n
    };
    while hi < first
        invariant
            hi <= first <= n,
            first == window_end(0, k as int, n as int),
            step > 0,
            start + (n - 1) * step < src.len(),
            line == strided(src@, start as int, step as int, n as nat),
            sum == sum_of(line, 0, hi as int),
            sum <= 255 * hi,
        decreases first - hi,
    {
        proof {
            lemma_in_line(start as int, step as int, hi as int, n as int);
        }
        sum = sum + src[start + hi * step] as u128;
        hi = hi + 1;
    }
    let mut lo: usize = 0;
    let mut i: usize = 0;
    while i < n
        invariant
            i <= n,
            n > 0,
            step > 0,
            start + (n - 1) * step < src.len(),
            start + (n - 1) * step < dst.len(),
            dst@.len() == dst0.len(),
            line == strided(src@, start as int, step as int, n as nat),
            i < n ==> lo == window_start(i as int, k as int),
            i < n ==> hi == window_end(i as int, k as int, n as int),
            i < n ==> sum == sum_of(line, lo as int, hi as int),
            forall|m: int|
                0 <= m < i ==> dst@[#[trigger] slot(start as int, step as int, m)] == box_mean(
                    line,
                    m,
                    k as int,
                ),
            forall|j: int|
                0 <= j < dst0.len() && !on_line(start as int, step as int, n as int, j)
                    ==> #[trigger] dst@[j] == dst0[j],
        decreases n - i,
    {
        proof {
            lemma_in_line(start as int, step as int, i as int, n as int);
            box_mean_stays_in_range(line, i as int, k as int, 0, 255);
        }
        let mean: u8 = (sum / ((hi - lo) as u128)) as u8;
        let ghost before = dst@;
        dst.set(start + i * step, mean);
        proof {
            let here = slot(start as int, step as int, i as int);
            assert(dst@ == before.update(here, mean));
            assert(mean == box_mean(line, i as int, k as int));
            assert(on_line(start as int, step as int, n as int, here));
            assert forall|m: int| 0 <= m < i + 1 implies dst@[#[trigger] slot(
                start as int,
                step as int,
                m,
            )] == box_mean(line, m, k as int) by {
                lemma_in_line(start as int, step as int, m, n as int);
                if m < i {
                    lemma_slots_differ(start as int, step as int, m, i as int);
                }
            }
        }
        i = i + 1;
        if i < n {
            proof {
                lemma_sum_between(line, lo as int, hi as int, 0, 255);
            }
            if k < n - i {
                proof {
                    lemma_in_line(start as int, step as int, hi as int, n as int);
                }
                sum = sum + src[start + hi * step] as u128;
                hi = hi + 1;
            }
            if i > k {
                proof {
                    lemma_in_line(start as int, step as int, lo as int, n as int);
                    lemma_sum_drop_first(line, lo as int, hi as int);
                    lemma_sum_between(line, lo + 1, hi as int, 0, 255);
                }
                sum = sum - src[start + lo * step] as u128;
                lo = lo + 1;
            }
        }
    }
}

proof fn lemma_slots_differ(start: int, step: int, a: int, b: int)
    requires
        a < b,
        0 < step,
    ensures
        slot(start, step, a) < slot(start, step, b),
{
    assert(a * step < b * step) by (nonlinear_arith)
        requires
            a < b,
            0 < step,
    ;
}

proof fn lemma_in_line(start: int, step: int, i: int, n: int)
    requires
        0 <= i < n,
        0 <= start,
        0 < step,
    ensures
        0 <= i * step,
        start <= start + i * step <= start + (n - 1) * step,
{
    assert(0 <= i * step <= (n - 1) * step) by (nonlinear_arith)
        requires
            0 <= i < n,
            0 < step,
    ;
}

// ---------------------------------------------------------------------------
// A whole buffer
// ---------------------------------------------------------------------------

/// Where the pixel in column `x` of row `y` lies in a buffer with `stride` bytes per row.
pub open spec fn place(stride: int, x: int, y: int) -> int {
    y * stride + x
}

/// Whether byte `j` of the buffer is one of the `w` by `h` pixels, not row padding.
pub open spec fn in_image(w: int, h: int, stride: int, j: int) -> bool {
    0 < stride && 0 <= j && j % stride < w && j / stride < h
}

/// Row `y` after the vertical pass: each pixel is the mean of its neighbours in its column.
pub open spec fn tall_row(data: Seq<u8>, w: nat, h: nat, stride: int, k: int, y: int) -> Seq<u8> {
    Seq::new(w, |x: int| box_mean(strided(data, x, stride, h), y, k) as u8)
}

/// The buffer after a vertical and then a horizontal box pass of half-width `k`.
/// Row padding keeps its bytes.
pub open spec fn box_blurred(data: Seq<u8>, w: nat, h: nat, stride: int, k: int) -> Seq<u8> {
    Seq::new(
        data.len(),
        |j: int|
            if in_image(w as int, h as int, stride, j) {
                box_mean(tall_row(data, w, h, stride, k, j / stride), j % stride, k) as u8
            } else {
                data[j]
            },
    )
}

/// What a blur asks of its buffer: rows of `stride` bytes that hold `w` pixels,
/// and `h` of them, of which the last may end with its last pixel.
pub open spec fn buffer_fits(len: int, w: int, h: int, stride: int) -> bool {
    w == 0 || h == 0 || (w <= stride && (h - 1) * stride + w <= len && h * stride <= usize::MAX)
}

proof fn lemma_place(stride: int, x: int, y: int)
    requires
        0 <= x < stride,
        0 <= y,
    ensures
        0 <= place(stride, x, y),
        place(stride, x, y) / stride == y,
        place(stride, x, y) % stride == x,
        place(stride, x, y) == slot(x, stride, y),
        place(stride, x, y) == slot(y * stride, 1, x),
{
    assert(0 <= y * stride) by (nonlinear_arith)
        requires
            0 <= y,
            0 < stride,
    ;
    vstd::arithmetic::div_mod::lemma_fundamental_div_mod_converse(
        place(stride, x, y),
        stride,
        y,
        x,
    );
}

proof fn lemma_rows_fit(w: int, h: int, stride: int, y: int)
    requires
        0 < w <= stride,
        0 <= y < h,
    ensures
        0 <= y * stride,
        y * stride + w <= (h - 1) * stride + w <= h * stride,
{
    assert(0 <= y * stride <= (h - 1) * stride) by (nonlinear_arith)
        requires
            0 < stride,
            0 <= y < h,
    ;
    assert((h - 1) * stride + stride == h * stride) by (nonlinear_arith);
}

/// Softens a coverage buffer by one box pass down the columns and one along the
/// rows. `kernel` is the half-width in whole pixels, and at least one pixel is
/// taken to either side; windows stop at the edges of the image.
pub fn box_blur(data: &mut Vec<u8>, w: usize, h: usize, stride: usize, kernel: usize)
    requires
        buffer_fits(old(data)@.len() as int, w as int, h as int, stride as int),
    ensures
        final(data)@ == box_blurred(
            old(data)@,
            w as nat,
            h as nat,
            stride as int,
            if kernel < 1 {
                1
            } else {
                kernel as int
            },
        ),
{
    let k: usize = if kernel < 1 {
        1
    } else {
        kernel
    };
    let ghost data0 = data@;
    if w == 0 || h == 0 {
        proof {
            assert forall|j: int| 0 <= j < data0.len() implies !in_image(
                w as int,
                h as int,
                stride as int,
                j,
            ) by {
                if stride > 0 {
                    vstd::arithmetic::div_mod::lemma_div_pos_is_pos(j, stride as int);
                }
            }
        }
        return;
    }
    proof {
        lemma_rows_fit(w as int, h as int, stride as int, h - 1);
    }
    let mut tmp: Vec<u8> = vec![0u8; h * stride];
    let mut x: usize = 0;
    while x < w
        invariant
            x <= w,
            0 < w <= stride,
            0 < h,
            (h - 1) * stride + w <= data.len(),
            tmp.len() == h * stride,
            data@ == data0,
            forall|c: int, y: int|
                0 <= c < x && 0 <= y < h ==> tmp@[#[trigger] place(stride as int, c, y)]
                    == box_mean(strided(data0, c, stride as int, h as nat), y, k as int),
        decreases w - x,
    {
        proof {
            lemma_rows_fit(w as int, h as int, stride as int, h - 1);
        }
        let ghost before = tmp@;
        blur_line(data, &mut tmp, x, stride, h, k);
        proof {
            assert forall|c: int, y: int| 0 <= c < x + 1 && 0 <= y < h implies tmp@[#[trigger] place(
                stride as int,
                c,
                y,
            )] == box_mean(strided(data0, c, stride as int, h as nat), y, k as int) by {
                lemma_place(stride as int, c, y);
                lemma_rows_fit(w as int, h as int, stride as int, y);
                if c < x {
                    let j = place(stride as int, c, y);
                    if on_line(x as int, stride as int, h as int, j) {
                        let m = choose|m: int|
                            0 <= m < h && j == #[trigger] slot(x as int, stride as int, m);
                        lemma_place(stride as int, x as int, m);
                    }
                    assert(tmp@[j] == before[j]);
                }
            }
        }
        x = x + 1;
    }
    let mut y: usize = 0;
    while y < h
        invariant
            y <= h,
            0 < w <= stride,
            0 < h,
            (h - 1) * stride + w <= data.len(),
            h * stride <= usize::MAX,
            tmp.len() == h * stride,
            data@.len() == data0.len(),
            forall|c: int, r: int|
                0 <= c < w && 0 <= r < h ==> tmp@[#[trigger] place(stride as int, c, r)]
                    == box_mean(strided(data0, c, stride as int, h as nat), r, k as int),
            forall|c: int, r: int|
                0 <= c < w && 0 <= r < y ==> data@[#[trigger] place(stride as int, c, r)]
                    == box_mean(
                    tall_row(data0, w as nat, h as nat, stride as int, k as int, r),
                    c,
                    k as int,
                ),
            forall|j: int|
                0 <= j < data0.len() && !in_image(w as int, y as int, stride as int, j)
                    ==> #[trigger] data@[j] == data0[j],
        decreases h - y,
    {
        proof {
            lemma_rows_fit(w as int, h as int, stride as int, y as int);
        }
        let ghost before = data@;
        blur_line(&tmp, data, y * stride, 1, w, k);
        proof {
            let row = tall_row(data0, w as nat, h as nat, stride as int, k as int, y as int);
            assert(strided(tmp@, y * stride, 1, w as nat) =~= row) by {
                assert forall|c: int| 0 <= c < w implies strided(
                    tmp@,
                    y * stride,
                    1,
                    w as nat,
                )[c] == row[c] by {
                    lemma_place(stride as int, c, y as int);
                }
            }
            assert forall|c: int, r: int| 0 <= c < w && 0 <= r < y + 1 implies data@[#[trigger] place(
                stride as int,
                c,
                r,
            )] == box_mean(
                tall_row(data0, w as nat, h as nat, stride as int, k as int, r),
                c,
                k as int,
            ) by {
                lemma_place(stride as int, c, r);
                lemma_rows_fit(w as int, h as int, stride as int, r);
                if r < y {
                    let j = place(stride as int, c, r);
                    if on_line(y * stride, 1, w as int, j) {
                        let m = choose|m: int| 0 <= m < w && j == #[trigger] slot(y * stride, 1, m);
                        lemma_place(stride as int, m, y as int);
                    }
                    assert(data@[j] == before[j]);
                }
            }
            assert forall|j: int|
                0 <= j < data0.len() && !in_image(
                    w as int,
                    y + 1,
                    stride as int,
                    j,
                ) implies #[trigger] data@[j] == data0[j] by {
                if on_line(y * stride, 1, w as int, j) {
                    let m = choose|m: int| 0 <= m < w && j == #[trigger] slot(y * stride, 1, m);
                    lemma_place(stride as int, m, y as int);
                }
                assert(data@[j] == before[j]);
            }
        }
        y = y + 1;
    }
    proof {
        let blurred = box_blurred(data0, w as nat, h as nat, stride as int, k as int);
        assert forall|j: int| 0 <= j < data0.len() implies data@[j] == blurred[j] by {
            if in_image(w as int, h as int, stride as int, j) {
                let (r, c) = (j / stride as int, j % stride as int);
                vstd::arithmetic::div_mod::lemma_fundamental_div_mod(j, stride as int);
                vstd::arithmetic::div_mod::lemma_div_pos_is_pos(j, stride as int);
                assert(stride as int * r == r * stride) by (nonlinear_arith);
                assert(j == place(stride as int, c, r));
            }
        }
        assert(data@ =~= blurred);
    }
}

/// A buffer blurred `passes` times over.
pub open spec fn blurred_times(
    data: Seq<u8>,
    w: nat,
    h: nat,
    stride: int,
    k: int,
    passes: nat,
) -> Seq<u8>
    decreases passes,
{
    if passes == 0 {
        data
    } else {
        box_blurred(blurred_times(data, w, h, stride, k, (passes - 1) as nat), w, h, stride, k)
    }
}

/// Box passes that make up one halo; together they come close to a Gaussian.
pub const GLOW_PASSES: u32 = 4;

/// Blurs the stroked text into a halo.
pub fn soften(data: &mut Vec<u8>, w: usize, h: usize, stride: usize, kernel: usize)
    requires
        buffer_fits(old(data)@.len() as int, w as int, h as int, stride as int),
    ensures
        final(data)@ == blurred_times(
            old(data)@,
            w as nat,
            h as nat,
            stride as int,
            if kernel < 1 {
                1
            } else {
                kernel as int
            },
            GLOW_PASSES as nat,
        ),
{
    let ghost data0 = data@;
    let ghost k: int = if kernel < 1 {
        1
    } else {
        kernel as int
    };
    let mut pass: u32 = 0;
    while pass < GLOW_PASSES
        invariant
            pass <= GLOW_PASSES,
            k == (if kernel < 1 {
                1
            } else {
                kernel as int
            }),
            buffer_fits(data@.len() as int, w as int, h as int, stride as int),
            data@ == blurred_times(data0, w as nat, h as nat, stride as int, k, pass as nat),
        decreases GLOW_PASSES - pass,
    {
        box_blur(data, w, h, stride, kernel);
        pass = pass + 1;
    }
}

/// Whether every pixel of the image, padding aside, lies between `low` and `high`.
pub open spec fn pixels_between(
    data: Seq<u8>,
    w: int,
    h: int,
    stride: int,
    low: int,
    high: int,
) -> bool {
    forall|j: int|
        0 <= j < data.len() && in_image(w, h, stride, j) ==> low <= #[trigger] data[j] <= high
}

/// A blurred image is nowhere darker than the darkest and nowhere brighter than
/// the brightest pixel it was made from, and its row padding is untouched.
pub proof fn blur_stays_in_range(
    data: Seq<u8>,
    w: nat,
    h: nat,
    stride: int,
    k: int,
    passes: nat,
    low: int,
    high: int,
)
    requires
        buffer_fits(data.len() as int, w as int, h as int, stride),
        0 <= k,
        pixels_between(data, w as int, h as int, stride, low, high),
    ensures
        blurred_times(data, w, h, stride, k, passes).len() == data.len(),
        pixels_between(
            blurred_times(data, w, h, stride, k, passes),
            w as int,
            h as int,
            stride,
            low,
            high,
        ),
        forall|j: int|
            0 <= j < data.len() && !in_image(w as int, h as int, stride, j)
                ==> #[trigger] blurred_times(data, w, h, stride, k, passes)[j] == data[j],
    decreases passes,
{
    if passes > 0 {
        let prev = (passes - 1) as nat;
        blur_stays_in_range(data, w, h, stride, k, prev, low, high);
        let from = blurred_times(data, w, h, stride, k, prev);
        let to = box_blurred(from, w, h, stride, k);
        assert forall|j: int|
            0 <= j < to.len() && in_image(w as int, h as int, stride, j) implies low
            <= #[trigger] to[j] <= high by {
            let (r, c) = (j / stride, j % stride);
            vstd::arithmetic::div_mod::lemma_fundamental_div_mod(j, stride);
            vstd::arithmetic::div_mod::lemma_div_pos_is_pos(j, stride);
            let row = tall_row(from, w, h, stride, k, r);
            assert forall|x: int| 0 <= x < row.len() implies low <= #[trigger] row[x] <= high
                && 0 <= row[x] <= 255 by {
                let column = strided(from, x, stride, h);
                assert forall|y: int| 0 <= y < column.len() implies low <= #[trigger] column[y]
                    <= high by {
                    lemma_place(stride, x, y);
                    lemma_rows_fit(w as int, h as int, stride, y);
                    assert(low <= from[place(stride, x, y)] <= high);
                }
                box_mean_stays_in_range(column, r, k, low, high);
                box_mean_stays_in_range(column, r, k, 0, 255);
            }
            box_mean_stays_in_range(row, c, k, low, high);
            box_mean_stays_in_range(row, c, k, 0, 255);
        }
    }
}

/// An evenly covered image comes out of any number of passes unchanged: its
/// edges do not darken.
pub proof fn flat_image_stays_flat(
    data: Seq<u8>,
    w: nat,
    h: nat,
    stride: int,
    k: int,
    passes: nat,
    level: u8,
)
    requires
        buffer_fits(data.len() as int, w as int, h as int, stride),
        0 <= k,
        forall|j: int|
            0 <= j < data.len() && in_image(w as int, h as int, stride, j) ==> #[trigger] data[j]
                == level,
    ensures
        blurred_times(data, w, h, stride, k, passes) == data,
{
    blur_stays_in_range(data, w, h, stride, k, passes, level as int, level as int);
    let out = blurred_times(data, w, h, stride, k, passes);
    assert forall|j: int| 0 <= j < data.len() implies out[j] == data[j] by {
        if in_image(w as int, h as int, stride, j) {
            assert(data[j] == level && out[j] == level);
        }
    }
    assert(out =~= data);
}

/// The sum of some samples.
pub open spec fn total(samples: Seq<u8>) -> int {
    samples.fold_left(0int, |sum: int, sample: u8| sum + sample)
}

proof fn lemma_total(line: Seq<u8>, lo: int, hi: int)
    requires
        0 <= lo <= hi <= line.len(),
    ensures
        total(line.subrange(lo, hi)) == sum_of(line, lo, hi),
    decreases hi - lo,
{
    let part = line.subrange(lo, hi);
    if lo < hi {
        lemma_total(line, lo, hi - 1);
        assert(part.drop_last() =~= line.subrange(lo, hi - 1));
        assert(part.last() == line[hi - 1]);
    }
}

/// A box mean is the mean of all samples no further than `k` away, as many as
/// there are, rounded down.
pub proof fn box_mean_is_the_mean_of_the_neighbours(line: Seq<u8>, i: int, k: int)
    requires
        0 <= i < line.len(),
        0 <= k,
    ensures
        ({
            let lo = if i - k < 0 {
                0
            } else {
                i - k
            };
            let hi = if i + k + 1 > line.len() {
                line.len() as int
            } else {
                i + k + 1
            };
            let near = line.subrange(lo, hi);
            &&& near.len() > 0
            &&& near.len() * box_mean(line, i, k) <= total(near)
            &&& total(near) < near.len() * (box_mean(line, i, k) + 1)
        }),
{
    let lo = window_start(i, k);
    let hi = window_end(i, k, line.len() as int);
    lemma_total(line, lo, hi);
    let n = hi - lo;
    let s = sum_of(line, lo, hi);
    vstd::arithmetic::div_mod::lemma_fundamental_div_mod(s, n);
    vstd::arithmetic::div_mod::lemma_mod_bound(s, n);
    assert(n * (s / n + 1) == n * (s / n) + n) by (nonlinear_arith);
}

/// A blur mixes each pixel with its neighbours first in its column and then in
/// its row, and leaves what is not part of the image as it was.
pub proof fn blur_mixes_columns_and_then_rows(
    data: Seq<u8>,
    w: nat,
    h: nat,
    stride: int,
    k: int,
    x: int,
    y: int,
    o: int,
)
    requires
        w <= stride,
        0 <= x < w,
        0 <= y,
        0 <= o < stride,
        y * stride + x < data.len(),
        y * stride + o < data.len(),
    ensures
        box_blurred(data, w, h, stride, k).len() == data.len(),
        y < h ==> box_blurred(data, w, h, stride, k)[y * stride + x] == box_mean(
            Seq::new(
                w,
                |c: int| box_mean(Seq::new(h, |r: int| data[r * stride + c]), y, k) as u8,
            ),
            x,
            k,
        ) as u8,
        o >= w || y >= h ==> box_blurred(data, w, h, stride, k)[y * stride + o] == data[y * stride
            + o],
{
    lemma_place(stride, x, y);
    lemma_place(stride, o, y);
    let row = Seq::new(
        w,
        |c: int| box_mean(Seq::new(h, |r: int| data[r * stride + c]), y, k) as u8,
    );
    assert forall|c: int| 0 <= c < w implies #[trigger] row[c] == tall_row(
        data,
        w,
        h,
        stride,
        k,
        y,
    )[c] by {
        assert(strided(data, c, stride, h) =~= Seq::new(h, |r: int| data[r * stride + c]));
    }
    assert(row =~= tall_row(data, w, h, stride, k, y));
}

/// Blurring some times and then some more is blurring that often in all.
pub proof fn passes_add_up(
    data: Seq<u8>,
    w: nat,
    h: nat,
    stride: int,
    k: int,
    a: nat,
    b: nat,
)
    ensures
        blurred_times(data, w, h, stride, k, 0) == data,
        blurred_times(data, w, h, stride, k, 1) == box_blurred(data, w, h, stride, k),
        blurred_times(data, w, h, stride, k, a + b) == blurred_times(
            blurred_times(data, w, h, stride, k, a),
            w,
            h,
            stride,
            k,
            b,
        ),
    decreases b,
{
    reveal_with_fuel(blurred_times, 2);
    if b > 0 {
        passes_add_up(data, w, h, stride, k, a, (b - 1) as nat);
        assert((a + b - 1) as nat == a + (b - 1) as nat);
    }
}

} // verus!
