//! Glitch bursts of the text: when they come, how long they last, and what each
//! step of a burst shows.

use vstd::prelude::*;

use crate::chance::random_between;

verus! {

/// Milliseconds from one step of a burst to the next.
pub const GLITCH_STEP_MS: u64 = 55;

/// Steps that even the shortest burst has.
pub const MIN_STEPS: u64 = 6;

/// Steps at the end of a burst in which the text settles back to its place.
pub const EASING_STEPS: u64 = 3;

/// A burst in progress.
#[derive(Clone, Copy, Debug, PartialEq, Eq, Structural)]
pub struct Burst {
    /// Steps still to come.
    pub remaining: u64,
    /// The step, counted from the end, that always flashes.
    pub half: u64,
}

/// What chance decides for one step.
#[derive(Clone, Copy, Debug, PartialEq, Eq, Structural)]
pub struct StepRolls {
    /// Colour echoes are drawn.
    pub echo: bool,
    /// The text is blanked, if the step may blank it.
    pub blank: bool,
    /// The text flashes inverted, if the step may flash.
    pub invert: bool,
}

/// What one step of a burst shows.
#[derive(Clone, Copy, Debug, PartialEq, Eq, Structural)]
pub struct BurstStep {
    /// The text is moved only a little, on its way back.
    pub easing: bool,
    pub echo: bool,
    pub blank: bool,
    pub invert: bool,
}

/// The number of steps in a burst of about `glitch_ms` milliseconds.
pub open spec fn burst_steps(glitch_ms: u64) -> u64 {
    let steps = glitch_ms / GLITCH_STEP_MS;
    if steps < MIN_STEPS {
        MIN_STEPS
    } else {
        steps
    }
}

/// The step with `k` steps to come, itself included: every fourth may blank the
/// text, every fifth may flash, and the one in the middle always flashes.
pub open spec fn burst_step(half: u64, k: u64, rolls: StepRolls) -> BurstStep {
    BurstStep {
        easing: k <= EASING_STEPS,
        echo: rolls.echo,
        blank: k % 4 == 0 && rolls.blank,
        invert: k == half || (k % 5 == 0 && rolls.invert),
    }
}

/// The pause before the next burst, in milliseconds: any in the configured range.
pub fn next_glitch_delay(min_ms: u64, max_ms: u64) -> (delay: u64)
    requires
        min_ms <= max_ms,
    ensures
        min_ms <= delay <= max_ms,
{
    random_between(min_ms, max_ms)
}

impl Burst {
    /// A burst that lasts about `glitch_ms` milliseconds.
    pub fn new(glitch_ms: u64) -> (burst: Burst)
        ensures
            burst.remaining == burst_steps(glitch_ms),
            burst.half == burst_steps(glitch_ms) / 2,
    {
        let raw: u64 = glitch_ms / GLITCH_STEP_MS;
        let steps: u64 = if raw < MIN_STEPS {
            MIN_STEPS
        } else {
            raw
        };
        Burst { remaining: steps, half: steps / 2 }
    }

    /// Takes the next step of the burst, or nothing when it is over and the text
    /// is to settle.
    pub fn step(&mut self, rolls: StepRolls) -> (step: Option<BurstStep>)
        ensures
            final(self).half == old(self).half,
            old(self).remaining == 0 ==> step is None && final(self).remaining == 0,
            old(self).remaining > 0 ==> final(self).remaining == old(self).remaining - 1 && step
                == Some(burst_step(old(self).half, old(self).remaining, rolls)),
    {
        let k: u64 = self.remaining;
        if k == 0 {
            return None;
        }
        self.remaining = k - 1;
        Some(
            BurstStep {
                easing: k <= EASING_STEPS,
                echo: rolls.echo,
                blank: k % 4 == 0 && rolls.blank,
                invert: k == self.half || (k % 5 == 0 && rolls.invert),
            },
        )
    }
}

/// A burst takes as long as asked for, to within one step, but never less than
/// its six steps.
pub proof fn burst_lasts_as_configured(glitch_ms: u64)
    ensures
        burst_steps(glitch_ms) >= MIN_STEPS,
        glitch_ms >= MIN_STEPS * GLITCH_STEP_MS ==> glitch_ms - GLITCH_STEP_MS < burst_steps(
            glitch_ms,
        ) * GLITCH_STEP_MS <= glitch_ms,
        glitch_ms < MIN_STEPS * GLITCH_STEP_MS ==> burst_steps(glitch_ms) == MIN_STEPS,
{
}

/// Every burst flashes inverted at its middle step, whatever chance decides, and
/// the text is never blanked while it settles.
pub proof fn every_burst_flashes_and_settles(glitch_ms: u64, k: u64, rolls: StepRolls)
    requires
        0 < k <= burst_steps(glitch_ms),
    ensures
        0 < burst_steps(glitch_ms) / 2 < burst_steps(glitch_ms),
        k == burst_steps(glitch_ms) / 2 ==> burst_step(
            burst_steps(glitch_ms) / 2,
            k,
            rolls,
        ).invert,
        burst_step(burst_steps(glitch_ms) / 2, k, rolls).easing <==> k <= EASING_STEPS,
        burst_step(burst_steps(glitch_ms) / 2, k, rolls).easing ==> !burst_step(
            burst_steps(glitch_ms) / 2,
            k,
            rolls,
        ).blank,
{
}

/// Each roll decides about its own effect and about nothing else: the echoes
/// follow theirs in every step, and what becomes of the blanking and of the flash
/// is the same for any two rolls that agree on it.
pub proof fn each_roll_decides_its_own_effect(half: u64, k: u64, a: StepRolls, b: StepRolls)
    ensures
        burst_step(half, k, a).echo <==> a.echo,
        a.blank == b.blank ==> burst_step(half, k, a).blank == burst_step(half, k, b).blank,
        a.invert == b.invert ==> burst_step(half, k, a).invert == burst_step(half, k, b).invert,
        burst_step(half, k, a).easing == burst_step(half, k, b).easing,
{
}

/// Rolls have their way on their beat only: the text is blanked just when it was
/// rolled for and a multiple of four steps is left, and flashes just when it was
/// rolled for and a multiple of five is left, or at the middle step.
pub proof fn flicker_keeps_its_beat(half: u64, k: u64, rolls: StepRolls)
    ensures
        burst_step(half, k, rolls).blank ==> rolls.blank && k % 4 == 0,
        rolls.blank && k % 4 == 0 ==> burst_step(half, k, rolls).blank,
        burst_step(half, k, rolls).invert && k != half ==> rolls.invert && k % 5 == 0,
        rolls.invert && k % 5 == 0 ==> burst_step(half, k, rolls).invert,
        burst_step(half, half, rolls).invert,
        burst_step(half, k, rolls).easing <==> k <= 3,
{
}

} // verus!
