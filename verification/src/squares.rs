//! The field of floating squares: which squares live on, when a new one may
//! join, and when each of them glitches. How a square looks and moves is its
//! body, which this module carries along unread.

use vstd::prelude::*;

use crate::chance::random_between;

verus! {

/// One floating square.
#[derive(Debug)]
pub struct Particle<M> {
    /// Its looks and its motion.
    pub body: M,
    /// Ticks until the next glitch burst may start.
    pub next_glitch: u32,
    /// Ticks left of the current glitch burst; none when it is idle.
    pub glitch_ticks: u32,
}

impl<M: Copy> Clone for Particle<M> {
    fn clone(&self) -> (copy: Particle<M>)
        ensures
            copy == *self,
    {
        *self
    }
}

impl<M: Copy> Copy for Particle<M> {

}

/// The squares of one window.
#[derive(Debug)]
pub struct SquareField<M> {
    pub particles: Vec<Particle<M>>,
}

/// What can be seen of a square after it has moved.
#[derive(Clone, Copy, Debug, PartialEq, Eq, Structural)]
pub struct Sighting {
    /// It has not yet reached the end of its way.
    pub live: bool,
    /// It shows well enough to glitch.
    pub visible: bool,
}

/// What is to be done about a square's glitch offsets.
#[derive(Clone, Copy, Debug, PartialEq, Eq, Structural)]
pub enum GlitchMove {
    /// Leave them as they are.
    Keep,
    /// Put them back to nothing.
    Settle,
    /// Roll fresh ones.
    Shake,
}

/// How the squares of a field glitch and how many there may be.
#[derive(Clone, Copy, Debug, PartialEq, Eq, Structural)]
pub struct FieldRules {
    /// Shortest and longest pause between bursts, in ticks.
    pub min_pause: u32,
    pub max_pause: u32,
    /// Ticks that a burst lasts; at least one.
    pub burst_ticks: u32,
    /// Squares alive at the same time, at most.
    pub max_live: u32,
}

/// `n`, but at least one.
pub open spec fn at_least_one(n: u32) -> u32 {
    if n < 1 {
        1
    } else {
        n
    }
}

/// The longest pause that is drawn, no shorter than the shortest.
pub open spec fn longest_pause(rules: FieldRules) -> u32 {
    if rules.max_pause < rules.min_pause {
        rules.min_pause
    } else {
        rules.max_pause
    }
}

/// What one tick does to a square's glitch offsets.
pub open spec fn glitch_move<M>(p: Particle<M>, visible: bool) -> GlitchMove {
    if p.glitch_ticks > 1 {
        GlitchMove::Shake
    } else if p.glitch_ticks == 1 {
        GlitchMove::Settle
    } else if p.next_glitch == 0 && visible {
        GlitchMove::Shake
    } else {
        GlitchMove::Keep
    }
}

/// A square after one tick; `pause` is the next pause, should it start a burst
/// or let one pass.
pub open spec fn glitched<M>(
    p: Particle<M>,
    visible: bool,
    burst_ticks: u32,
    pause: u32,
) -> Particle<M> {
    if p.glitch_ticks > 0 {
        Particle { glitch_ticks: (p.glitch_ticks - 1) as u32, ..p }
    } else if p.next_glitch == 0 {
        Particle {
            glitch_ticks: if visible {
                at_least_one(burst_ticks)
            } else {
                0
            },
            next_glitch: pause,
            ..p
        }
    } else {
        Particle { next_glitch: (p.next_glitch - 1) as u32, ..p }
    }
}

/// The squares that live on after a tick, in their order.
pub open spec fn survivors<M>(
    particles: Seq<Particle<M>>,
    sights: Seq<Sighting>,
    burst_ticks: u32,
    pauses: Seq<u32>,
) -> Seq<Particle<M>>
    decreases particles.len(),
{
    if particles.len() == 0 {
        Seq::empty()
    } else {
        let n = particles.len() - 1;
        let before = survivors(particles.drop_last(), sights, burst_ticks, pauses);
        if sights[n].live {
            before.push(glitched(particles[n], sights[n].visible, burst_ticks, pauses[n]))
        } else {
            before
        }
    }
}

/// What is to be done about the glitch offsets of the squares that live on.
pub open spec fn surviving_moves<M>(particles: Seq<Particle<M>>, sights: Seq<Sighting>) -> Seq<
    GlitchMove,
>
    decreases particles.len(),
{
    if particles.len() == 0 {
        Seq::empty()
    } else {
        let n = particles.len() - 1;
        let before = surviving_moves(particles.drop_last(), sights);
        if sights[n].live {
            before.push(glitch_move(particles[n], sights[n].visible))
        } else {
            before
        }
    }
}

/// The field after a tick: the survivors, and the newborn square if there is
/// room for it.
pub open spec fn field_after<M>(
    particles: Seq<Particle<M>>,
    sights: Seq<Sighting>,
    rules: FieldRules,
    newborn: Option<M>,
    pauses: Seq<u32>,
) -> Seq<Particle<M>> {
    let alive = survivors(particles, sights, rules.burst_ticks, pauses);
    match newborn {
        Some(body) if alive.len() < rules.max_live => alive.push(
            Particle { body, next_glitch: pauses[particles.len() as int], glitch_ticks: 0 },
        ),
        _ => alive,
    }
}

/// The moves that go with [`field_after`], one for each square of it.
pub open spec fn moves_after<M>(
    particles: Seq<Particle<M>>,
    sights: Seq<Sighting>,
    rules: FieldRules,
    newborn: Option<M>,
) -> Seq<GlitchMove> {
    let moves = surviving_moves(particles, sights);
    match newborn {
        Some(_) if moves.len() < rules.max_live => moves.push(GlitchMove::Keep),
        _ => moves,
    }
}

/// Whether every pause is one that may be drawn.
pub open spec fn pauses_fit(pauses: Seq<u32>, rules: FieldRules) -> bool {
    forall|i: int|
        0 <= i < pauses.len() ==> rules.min_pause <= #[trigger] pauses[i] <= longest_pause(rules)
}

impl<M> Particle<M> {
    /// Lets one tick pass for the square's glitches. `pause` is used up only
    /// when the wait for a burst is over.
    pub fn glitch_tick(&mut self, visible: bool, burst_ticks: u32, pause: u32) -> (todo: GlitchMove)
        ensures
            *final(self) == glitched(*old(self), visible, burst_ticks, pause),
            todo == glitch_move(*old(self), visible),
    {
        if self.glitch_ticks > 0 {
            self.glitch_ticks = self.glitch_ticks - 1;
            if self.glitch_ticks == 0 {
                GlitchMove::Settle
            } else {
                GlitchMove::Shake
            }
        } else if self.next_glitch == 0 {
            self.next_glitch = pause;
            if visible {
                self.glitch_ticks = if burst_ticks < 1 {
                    1
                } else {
                    burst_ticks
                };
                GlitchMove::Shake
            } else {
                GlitchMove::Keep
            }
        } else {
            self.next_glitch = self.next_glitch - 1;
            GlitchMove::Keep
        }
    }
}

impl<M: Copy> SquareField<M> {
    /// An empty field.
    pub fn new() -> (field: SquareField<M>)
        ensures
            field.particles@ == Seq::<Particle<M>>::empty(),
    {
        SquareField { particles: Vec::new() }
    }

    /// Lets one tick pass for the whole field, with the pauses given: one for
    /// each square, and one for a newborn.
    pub fn advance(
        &mut self,
        sights: &Vec<Sighting>,
        rules: &FieldRules,
        newborn: Option<M>,
        pauses: &Vec<u32>,
    ) -> (moves: Vec<GlitchMove>)
        requires
            sights@.len() == old(self).particles@.len(),
            pauses@.len() == old(self).particles@.len() + 1,
        ensures
            final(self).particles@ == field_after(
                old(self).particles@,
                sights@,
                *rules,
                newborn,
                pauses@,
            ),
            moves@ == moves_after(old(self).particles@, sights@, *rules, newborn),
    {
        let ghost before = self.particles@;
        let n: usize = self.particles.len();
        let mut kept: Vec<Particle<M>> = Vec::new();
        let mut moves: Vec<GlitchMove> = Vec::new();
        let mut i: usize = 0;
        assert(before.take(0) =~= Seq::empty());
        while i < n
            invariant
                i <= n,
                n == before.len(),
                self.particles@ == before,
                sights@.len() == n,
                pauses@.len() == n + 1,
                kept@ == survivors(before.take(i as int), sights@, rules.burst_ticks, pauses@),
                moves@ == surviving_moves(before.take(i as int), sights@),
                kept@.len() == moves@.len(),
                kept@.len() <= i,
            decreases n - i,
        {
            assert(before.take(i + 1).drop_last() =~= before.take(i as int));
            let mut p: Particle<M> = self.particles[i];
            let todo = p.glitch_tick(sights[i].visible, rules.burst_ticks, pauses[i]);
            if sights[i].live {
                kept.push(p);
                moves.push(todo);
            }
            i = i + 1;
        }
        assert(before.take(n as int) =~= before);
        if let Some(body) = newborn {
            if (kept.len() as u64) < rules.max_live as u64 {
                kept.push(Particle { body, next_glitch: pauses[n], glitch_ticks: 0 });
                moves.push(GlitchMove::Keep);
            }
        }
        self.particles = kept;
        moves
    }
}

/// Draws `n` pauses at random.
fn draw_pauses(n: usize, rules: &FieldRules) -> (pauses: Vec<u32>)
    ensures
        pauses@.len() == n,
        pauses_fit(pauses@, *rules),
{
    let longest: u32 = if rules.max_pause < rules.min_pause {
        rules.min_pause
    } else {
        rules.max_pause
    };
    let mut pauses: Vec<u32> = Vec::new();
    while pauses.len() < n
        invariant
            pauses@.len() <= n,
            longest == longest_pause(*rules),
            pauses_fit(pauses@, *rules),
        decreases n - pauses@.len(),
    {
        let pause: u32 = random_between(rules.min_pause as u64, longest as u64) as u32;
        pauses.push(pause);
    }
    pauses
}

/// Lets one tick pass for the field, after the squares have moved. `sights` says
/// how each square looks now; `newborn` is a fresh square, when chance has
/// called for one. What is to be done about the glitch offsets of each square
/// that is then in the field comes back. Squares that are switched off vanish.
pub fn update_square_field<M: Copy>(
    field: &mut SquareField<M>,
    enabled: bool,
    sights: &Vec<Sighting>,
    rules: &FieldRules,
    newborn: Option<M>,
) -> (moves: Vec<GlitchMove>)
    requires
        sights@.len() == old(field).particles@.len(),
        old(field).particles@.len() < usize::MAX,
    ensures
        !enabled ==> final(field).particles@.len() == 0 && moves@.len() == 0,
        enabled ==> exists|pauses: Seq<u32>|
            {
                &&& pauses.len() == old(field).particles@.len() + 1
                &&& #[trigger] pauses_fit(pauses, *rules)
                &&& final(field).particles@ == field_after(
                    old(field).particles@,
                    sights@,
                    *rules,
                    newborn,
                    pauses,
                )
            },
        enabled ==> moves@ == moves_after(old(field).particles@, sights@, *rules, newborn),
{
    if !enabled {
        field.particles = Vec::new();
        return Vec::new();
    }
    let n: usize = field.particles.len();
    let pauses = draw_pauses(n + 1, rules);
    let moves = field.advance(sights, rules, newborn, &pauses);
    assert(pauses_fit(pauses@, *rules));
    moves
}

/// How many of the first `n` squares are still on their way.
pub open spec fn live_count(sights: Seq<Sighting>, n: nat) -> nat
    decreases n,
{
    if n == 0 {
        0
    } else if sights[n - 1].live {
        live_count(sights, (n - 1) as nat) + 1
    } else {
        live_count(sights, (n - 1) as nat)
    }
}

/// Exactly the squares that are still on their way survive a tick, and there is
/// one move for each of them.
pub proof fn only_live_squares_survive<M>(
    particles: Seq<Particle<M>>,
    sights: Seq<Sighting>,
    burst_ticks: u32,
    pauses: Seq<u32>,
)
    ensures
        survivors(particles, sights, burst_ticks, pauses).len() == live_count(
            sights,
            particles.len(),
        ),
        surviving_moves(particles, sights).len() == live_count(sights, particles.len()),
        live_count(sights, particles.len()) <= particles.len(),
        (forall|i: int| 0 <= i < particles.len() ==> !(#[trigger] sights[i]).live) ==> survivors(
            particles,
            sights,
            burst_ticks,
            pauses,
        ).len() == 0,
        (forall|i: int| 0 <= i < particles.len() ==> (#[trigger] sights[i]).live) ==> survivors(
            particles,
            sights,
            burst_ticks,
            pauses,
        ).len() == particles.len(),
    decreases particles.len(),
{
    if particles.len() > 0 {
        let rest = particles.drop_last();
        only_live_squares_survive(rest, sights, burst_ticks, pauses);
        let n = particles.len() - 1;
        if forall|i: int| 0 <= i < particles.len() ==> !(#[trigger] sights[i]).live {
            assert(!sights[n].live);
        }
        if forall|i: int| 0 <= i < particles.len() ==> (#[trigger] sights[i]).live {
            assert(sights[n].live);
        }
    }
}

/// Survivors keep their bodies and their order: survivor `k` comes of the square
/// with `k` live squares before it, and so does move `k`.
pub proof fn survivors_keep_their_bodies<M>(
    particles: Seq<Particle<M>>,
    sights: Seq<Sighting>,
    burst_ticks: u32,
    pauses: Seq<u32>,
    i: int,
)
    requires
        0 <= i < particles.len(),
        sights[i].live,
    ensures
        live_count(sights, i as nat) < survivors(particles, sights, burst_ticks, pauses).len(),
        survivors(particles, sights, burst_ticks, pauses)[live_count(sights, i as nat) as int]
            == glitched(particles[i], sights[i].visible, burst_ticks, pauses[i]),
        surviving_moves(particles, sights)[live_count(sights, i as nat) as int] == glitch_move(
            particles[i],
            sights[i].visible,
        ),
    decreases particles.len(),
{
    let n = particles.len() - 1;
    let rest = particles.drop_last();
    only_live_squares_survive(rest, sights, burst_ticks, pauses);
    if i < n {
        survivors_keep_their_bodies(rest, sights, burst_ticks, pauses, i);
    }
}

/// A field never outgrows its cap: after a tick it holds no more squares than
/// the cap, unless it already did, and then no more than before.
pub proof fn live_squares_stay_capped<M>(
    particles: Seq<Particle<M>>,
    sights: Seq<Sighting>,
    rules: FieldRules,
    newborn: Option<M>,
    pauses: Seq<u32>,
)
    ensures
        field_after(particles, sights, rules, newborn, pauses).len() <= (if particles.len()
            < rules.max_live {
            rules.max_live as nat
        } else {
            particles.len()
        }),
        field_after(particles, sights, rules, newborn, pauses).len() == moves_after(
            particles,
            sights,
            rules,
            newborn,
        ).len(),
{
    only_live_squares_survive(particles, sights, rules.burst_ticks, pauses);
}

/// A square after `n` ticks of the same kind.
pub open spec fn glitched_times<M>(
    p: Particle<M>,
    visible: bool,
    burst_ticks: u32,
    pause: u32,
    n: nat,
) -> Particle<M>
    decreases n,
{
    if n == 0 {
        p
    } else {
        glitched(
            glitched_times(p, visible, burst_ticks, pause, (n - 1) as nat),
            visible,
            burst_ticks,
            pause,
        )
    }
}

/// A burst shakes the square on every tick but the last, on which it settles; it
/// runs to its end whether the square can still be seen or not.
pub proof fn bursts_shake_and_then_settle<M>(
    p: Particle<M>,
    visible: bool,
    burst_ticks: u32,
    pause: u32,
    n: nat,
)
    requires
        n <= p.glitch_ticks,
    ensures
        ({
            let q = glitched_times(p, visible, burst_ticks, pause, n);
            &&& q.glitch_ticks == p.glitch_ticks - n
            &&& q.next_glitch == p.next_glitch
            &&& n < p.glitch_ticks ==> glitch_move(q, visible) == (if n + 1 == p.glitch_ticks {
                GlitchMove::Settle
            } else {
                GlitchMove::Shake
            })
        }),
    decreases n,
{
    if n > 0 {
        bursts_shake_and_then_settle(p, visible, burst_ticks, pause, (n - 1) as nat);
    }
}

/// Between bursts a square is left alone for as many ticks as its pause has; the
/// tick after that starts a burst if the square can be seen, and else a new pause.
pub proof fn pauses_are_waited_out<M>(
    p: Particle<M>,
    visible: bool,
    burst_ticks: u32,
    pause: u32,
    n: nat,
)
    requires
        p.glitch_ticks == 0,
        n <= p.next_glitch,
    ensures
        ({
            let q = glitched_times(p, visible, burst_ticks, pause, n);
            &&& q.glitch_ticks == 0
            &&& q.next_glitch == p.next_glitch - n
            &&& n < p.next_glitch ==> glitch_move(q, visible) == GlitchMove::Keep
            &&& n == p.next_glitch ==> glitched(q, visible, burst_ticks, pause).glitch_ticks == (
            if visible {
                at_least_one(burst_ticks)
            } else {
                0
            }) && glitched(q, visible, burst_ticks, pause).next_glitch == pause
        }),
    decreases n,
{
    if n > 0 {
        pauses_are_waited_out(p, visible, burst_ticks, pause, (n - 1) as nat);
    }
}

// ---------------------------------------------------------------------------
// What a tick does, square by square
// ---------------------------------------------------------------------------

/// A square counts as long as it is on its way, and only then.
pub proof fn live_squares_are_counted(sights: Seq<Sighting>, n: nat)
    ensures
        live_count(sights, 0) == 0,
        live_count(sights, n + 1) == live_count(sights, n) + if sights[n as int].live {
            1int
        } else {
            0
        },
{
}

/// A tick never touches a square's body, and changes only one of its two clocks,
/// unless a pause has run out.
pub proof fn ticks_leave_the_body_alone<M>(
    p: Particle<M>,
    visible: bool,
    burst_ticks: u32,
    pause: u32,
)
    ensures
        glitched(p, visible, burst_ticks, pause).body == p.body,
        p.glitch_ticks > 0 ==> glitched(p, visible, burst_ticks, pause).glitch_ticks
            == p.glitch_ticks - 1 && glitched(p, visible, burst_ticks, pause).next_glitch
            == p.next_glitch,
        p.glitch_ticks == 0 && p.next_glitch > 0 ==> glitched(
            p,
            visible,
            burst_ticks,
            pause,
        ).next_glitch == p.next_glitch - 1 && glitched(
            p,
            visible,
            burst_ticks,
            pause,
        ).glitch_ticks == 0,
        p.glitch_ticks == 0 && p.next_glitch == 0 ==> glitched(
            p,
            visible,
            burst_ticks,
            pause,
        ).next_glitch == pause,
{
}

/// A burst starts just when a pause has run out on a square that can be seen. It
/// then lasts for the ticks asked for, but for one at the least.
pub proof fn bursts_start_in_sight<M>(p: Particle<M>, visible: bool, burst_ticks: u32, pause: u32)
    requires
        p.glitch_ticks == 0,
    ensures
        glitched(p, visible, burst_ticks, pause).glitch_ticks > 0 <==> p.next_glitch == 0
            && visible,
        p.next_glitch == 0 && visible && burst_ticks > 0 ==> glitched(
            p,
            visible,
            burst_ticks,
            pause,
        ).glitch_ticks == burst_ticks,
        p.next_glitch == 0 && visible && burst_ticks == 0 ==> glitched(
            p,
            visible,
            burst_ticks,
            pause,
        ).glitch_ticks == 1,
{
}

/// The offsets follow the burst: they are rolled afresh on every tick after which
/// a burst is on, put back on the tick that ends one, and else left alone.
pub proof fn offsets_follow_the_burst<M>(
    p: Particle<M>,
    visible: bool,
    burst_ticks: u32,
    pause: u32,
)
    ensures
        ({
            let on = glitched(p, visible, burst_ticks, pause).glitch_ticks > 0;
            &&& glitch_move(p, visible) is Shake <==> on
            &&& glitch_move(p, visible) is Settle <==> p.glitch_ticks > 0 && !on
            &&& glitch_move(p, visible) is Keep <==> p.glitch_ticks == 0 && !on
        }),
{
}

/// A newborn square joins exactly when there is one and there is room under the
/// cap for it among those still on their way. It comes last, at rest and with a
/// fresh pause, and the others are as if there were none.
pub proof fn newborn_joins_while_there_is_room<M>(
    particles: Seq<Particle<M>>,
    sights: Seq<Sighting>,
    rules: FieldRules,
    newborn: Option<M>,
    pauses: Seq<u32>,
)
    ensures
        ({
            let live = live_count(sights, particles.len());
            let field = field_after(particles, sights, rules, newborn, pauses);
            let moves = moves_after(particles, sights, rules, newborn);
            let alone = field_after(particles, sights, rules, None, pauses);
            let joins = newborn is Some && live < rules.max_live;
            &&& field.len() == live + if joins {
                1int
            } else {
                0
            }
            &&& moves.len() == field.len()
            &&& alone.len() == live
            &&& forall|i: int| 0 <= i < live ==> #[trigger] field[i] == alone[i]
            &&& joins ==> {
                &&& field.last().body == newborn->0
                &&& field.last().glitch_ticks == 0
                &&& field.last().next_glitch == pauses[particles.len() as int]
                &&& moves.last() is Keep
            }
        }),
{
    only_live_squares_survive(particles, sights, rules.burst_ticks, pauses);
}

/// Every square that is still on its way is in the field after the tick, with the
/// same body, in the same order and with the move that is meant for it.
pub proof fn live_squares_stay_in_the_field<M>(
    particles: Seq<Particle<M>>,
    sights: Seq<Sighting>,
    rules: FieldRules,
    newborn: Option<M>,
    pauses: Seq<u32>,
    i: int,
)
    requires
        0 <= i < particles.len(),
        sights[i].live,
    ensures
        ({
            let at = live_count(sights, i as nat) as int;
            let field = field_after(particles, sights, rules, newborn, pauses);
            let moves = moves_after(particles, sights, rules, newborn);
            &&& at < field.len()
            &&& field[at].body == particles[i].body
            &&& field[at] == glitched(
                particles[i],
                sights[i].visible,
                rules.burst_ticks,
                pauses[i],
            )
            &&& moves[at] == glitch_move(particles[i], sights[i].visible)
        }),
{
    only_live_squares_survive(particles, sights, rules.burst_ticks, pauses);
    survivors_keep_their_bodies(particles, sights, rules.burst_ticks, pauses, i);
}

/// Pauses are drawn from the shortest to the longest; where the two are the wrong
/// way round, only the shortest is.
pub proof fn pauses_lie_in_the_range(pauses: Seq<u32>, rules: FieldRules, i: int)
    requires
        pauses_fit(pauses, rules),
        0 <= i < pauses.len(),
    ensures
        rules.min_pause <= pauses[i],
        rules.min_pause <= rules.max_pause ==> pauses[i] <= rules.max_pause,
        rules.max_pause < rules.min_pause ==> pauses[i] == rules.min_pause,
{
}

} // verus!
