//! The scanline mesh: the tile that it repeats, and how it rolls down the window.

use vstd::prelude::*;

use crate::halo::ceil_div;

verus! {

/// The distance from one scanline to the next, in whole pixels: `h` pixels
/// shared out among the lines, rounded up, and never less than two.
pub open spec fn scan_period(h: int, lines: int) -> int {
    let share = ceil_div(
        h,
        if lines < 1 {
            1
        } else {
            lines
        },
    );
    if share < 2 {
        2
    } else {
        share
    }
}

proof fn lemma_share_is_smaller(h: int, n: int)
    requires
        1 <= n,
    ensures
        h > 0 ==> ceil_div(h, n) <= h,
        h <= 0 ==> ceil_div(h, n) <= 0,
        ceil_div(h, n) * n >= h,
        (ceil_div(h, n) - 1) * n < h,
{
    let m = h + n - 1;
    let q = m / n;
    vstd::arithmetic::div_mod::lemma_fundamental_div_mod(m, n);
    vstd::arithmetic::div_mod::lemma_mod_bound(m, n);
    assert(n * q == q * n) by (nonlinear_arith);
    assert((q - 1) * n == q * n - n) by (nonlinear_arith);
    if h > 0 {
        assert(q <= h) by (nonlinear_arith)
            requires
                (q - 1) * n < h,
                1 <= n,
                h > 0,
        ;
    } else {
        assert(q <= 0) by (nonlinear_arith)
            requires
                (q - 1) * n < h,
                1 <= n,
                h <= 0,
        ;
    }
}

/// The height of one tile of the repeating scanline mesh, which is also the
/// distance after which the rolling mesh looks the same again.
pub fn scanline_tile_height(h: i32, lines: u32) -> (period: i32)
    ensures
        period == scan_period(h as int, lines as int),
        period >= 2,
{
    let n: i64 = if lines < 1 {
        1
    } else {
        lines as i64
    };
    proof {
        lemma_share_is_smaller(h as int, n as int);
    }
    if h <= 0 {
        2
    } else {
        let share: i64 = (h as i64 + n - 1) / n;
        if share < 2 {
            2
        } else {
            share as i32
        }
    }
}

/// The size of the scanline tile for a `w` by `h` window, or nothing when there
/// are no scanlines to be seen. `shown` says whether the lines have any darkness.
pub fn scanline_tile_size(shown: bool, lines: u32, w: i32, h: i32) -> (size: Option<(i32, i32)>)
    ensures
        size is Some <==> shown && lines != 0 && w > 0 && h > 0,
        size matches Some((tw, th)) ==> tw == w && th == scan_period(h as int, lines as int),
{
    if !shown || lines == 0 || w <= 0 || h <= 0 {
        None
    } else {
        Some((w, scanline_tile_height(h, lines)))
    }
}

/// Whether the scanlines of a window of height `h` are to roll.
pub fn scanlines_roll(h: i32, lines: u32) -> (roll: bool)
    ensures
        roll == (lines != 0 && h > 0),
{
    lines != 0 && h > 0
}

/// The tiles asked for cover the whole height, and no more tiles are laid than
/// lines were asked for: one tile fewer would leave the bottom bare, unless the
/// lines would stand closer than two pixels.
pub proof fn tiles_cover_the_window(h: int, lines: int)
    requires
        0 < h,
        1 <= lines,
    ensures
        scan_period(h, lines) * lines >= h,
        scan_period(h, lines) > 2 ==> (scan_period(h, lines) - 1) * lines < h,
{
    lemma_share_is_smaller(h, lines);
    let share = ceil_div(h, lines);
    if share < 2 {
        assert(2 * lines >= share * lines) by (nonlinear_arith)
            requires
                share < 2,
                1 <= lines,
        ;
    }
}

// ---------------------------------------------------------------------------
// The rolling mesh
// ---------------------------------------------------------------------------

/// Milliseconds between two positions of the rolling mesh.
pub const SCAN_ANIM_MS: u64 = 50;

/// Steps in which the mesh sweeps the whole height of the window: ninety seconds'
/// worth.
pub const SWEEP_STEPS: u64 = 1800;

/// How far the mesh has rolled, in parts of a pixel, [`SWEEP_STEPS`] to a pixel.
#[derive(Clone, Copy, Debug, PartialEq, Eq, Structural)]
pub struct Sweep {
    pub phase: u64,
}

/// The next position of a mesh that repeats every `period` pixels, on a window
/// `h` pixels high.
pub open spec fn rolled(phase: int, h: int, period: int) -> int {
    if phase + h >= period * SWEEP_STEPS {
        phase + h - period * SWEEP_STEPS
    } else {
        phase + h
    }
}

/// The position after `n` steps.
pub open spec fn rolled_times(phase: int, h: int, period: int, n: nat) -> int
    decreases n,
{
    if n == 0 {
        phase
    } else {
        rolled(rolled_times(phase, h, period, (n - 1) as nat), h, period)
    }
}

impl Sweep {
    /// A mesh at its starting position.
    pub fn new() -> (sweep: Sweep)
        ensures
            sweep.phase == 0,
    {
        Sweep { phase: 0 }
    }

    /// Rolls the mesh on by one step, and back by one period when it has come
    /// that far.
    pub fn roll(&mut self, h: i32, period: i32)
        requires
            h > 0,
            period > 0,
            old(self).phase + h <= u64::MAX,
        ensures
            final(self).phase == rolled(old(self).phase as int, h as int, period as int),
    {
        let next: u64 = self.phase + h as u64;
        let whole: u64 = period as u64 * SWEEP_STEPS;
        self.phase = if next >= whole {
            next - whole
        } else {
            next
        };
    }
}

/// The mesh never strays out of its first period, as long as one step rolls it
/// less than a period on.
pub proof fn mesh_stays_in_its_period(phase: int, h: int, period: int, n: nat)
    requires
        0 <= phase < period * SWEEP_STEPS,
        0 < h <= period * SWEEP_STEPS,
    ensures
        0 <= rolled_times(phase, h, period, n) < period * SWEEP_STEPS,
    decreases n,
{
    if n > 0 {
        mesh_stays_in_its_period(phase, h, period, (n - 1) as nat);
    }
}

/// Whole periods aside, the mesh rolls on by the same distance in every step; so
/// a sweep of [`SWEEP_STEPS`] steps takes it across the height of the window.
pub proof fn mesh_rolls_evenly(phase: int, h: int, period: int, n: nat)
    ensures
        exists|wraps: nat| #[trigger]
            after_wraps(phase + n * h, period, wraps) == rolled_times(phase, h, period, n),
    decreases n,
{
    if n == 0 {
        assert(after_wraps(phase + n * h, period, 0) == phase) by {
            assert(n * h == 0) by (nonlinear_arith)
                requires
                    n == 0,
            ;
            assert(0 * (period * SWEEP_STEPS) == 0);
        }
    } else {
        let m = (n - 1) as nat;
        mesh_rolls_evenly(phase, h, period, m);
        let wraps = choose|wraps: nat| #[trigger]
            after_wraps(phase + m * h, period, wraps) == rolled_times(phase, h, period, m);
        assert(n * h == m * h + h) by (nonlinear_arith)
            requires
                n == m + 1,
        ;
        let whole = period * SWEEP_STEPS;
        assert((wraps + 1) * whole == wraps * whole + whole) by (nonlinear_arith);
        assert(after_wraps(phase + n * h, period, wraps) == rolled_times(phase, h, period, m) + h);
        assert(after_wraps(phase + n * h, period, wraps + 1) == rolled_times(phase, h, period, m)
            + h - whole);
    }
}

/// `position` less `wraps` whole periods.
pub open spec fn after_wraps(position: int, period: int, wraps: nat) -> int {
    position - wraps * (period * SWEEP_STEPS)
}

/// The period is two pixels at the least, and otherwise the least that covers any
/// height with the lines asked for. Asking for none is asking for one.
pub proof fn period_is_the_least_that_covers(h: int, lines: int)
    ensures
        scan_period(h, lines) >= 2,
        lines >= 1 ==> scan_period(h, lines) * lines >= h,
        lines >= 1 && scan_period(h, lines) > 2 ==> (scan_period(h, lines) - 1) * lines < h,
        lines < 1 ==> scan_period(h, lines) == scan_period(h, 1),
{
    let n = if lines < 1 {
        1
    } else {
        lines
    };
    lemma_share_is_smaller(h, n);
    let share = ceil_div(h, n);
    if share < 2 {
        assert(2 * n >= share * n) by (nonlinear_arith)
            requires
                share < 2,
                1 <= n,
        ;
    }
}

/// One step rolls the mesh on by the height of the window, counted in parts of a
/// pixel, less one period just when it has come a whole period.
pub proof fn mesh_wraps_once(phase: int, h: int, period: int)
    ensures
        phase + h < 1800 * period ==> rolled(phase, h, period) == phase + h,
        phase + h >= 1800 * period ==> rolled(phase, h, period) == phase + h - 1800 * period,
        rolled_times(phase, h, period, 0) == phase,
        rolled_times(phase, h, period, 1) == rolled(phase, h, period),
{
    reveal_with_fuel(rolled_times, 2);
}

} // verus!
