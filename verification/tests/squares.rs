use bspwm_cyberquote::squares::{
    update_square_field, FieldRules, GlitchMove, Particle, Sighting, SquareField,
};

const RULES: FieldRules = FieldRules { min_pause: 2, max_pause: 5, burst_ticks: 3, max_live: 2 };
const SEEN: Sighting = Sighting { live: true, visible: true };
const DIM: Sighting = Sighting { live: true, visible: false };
const GONE: Sighting = Sighting { live: false, visible: false };

fn square(body: u8, next_glitch: u32, glitch_ticks: u32) -> Particle<u8> {
    Particle { body, next_glitch, glitch_ticks }
}

fn bodies(field: &SquareField<u8>) -> Vec<u8> {
    field.particles.iter().map(|p| p.body).collect()
}

#[test]
fn square_waits_bursts_and_settles() {
    let mut p = square(1, 1, 0);
    assert_eq!(p.glitch_tick(true, 3, 9), GlitchMove::Keep);
    assert_eq!(p.glitch_tick(true, 3, 9), GlitchMove::Shake);
    assert_eq!((p.next_glitch, p.glitch_ticks), (9, 3));
    assert_eq!(p.glitch_tick(true, 3, 9), GlitchMove::Shake);
    assert_eq!(p.glitch_tick(false, 3, 9), GlitchMove::Shake);
    assert_eq!(p.glitch_tick(true, 3, 9), GlitchMove::Settle);
    assert_eq!((p.next_glitch, p.glitch_ticks), (9, 0));
    assert_eq!(p.glitch_tick(true, 3, 9), GlitchMove::Keep);
    assert_eq!(p.next_glitch, 8);
}

#[test]
fn dim_square_lets_its_burst_pass() {
    let mut p = square(1, 0, 0);
    assert_eq!(p.glitch_tick(false, 3, 4), GlitchMove::Keep);
    assert_eq!((p.next_glitch, p.glitch_ticks), (4, 0));
}

#[test]
fn shortest_burst_is_one_tick() {
    let mut p = square(1, 0, 0);
    assert_eq!(p.glitch_tick(true, 0, 4), GlitchMove::Shake);
    assert_eq!(p.glitch_ticks, 1);
    assert_eq!(p.glitch_tick(true, 0, 4), GlitchMove::Settle);
}

#[test]
fn tick_is_exact_for_given_pauses() {
    let mut field = SquareField { particles: vec![square(1, 3, 0), square(2, 0, 0), square(3, 0, 1)] };
    let moves = field.advance(&vec![SEEN, SEEN, GONE], &RULES, Some(9), &vec![50, 51, 52, 53]);
    assert_eq!(bodies(&field), [1, 2]);
    assert_eq!(moves, [GlitchMove::Keep, GlitchMove::Shake]);
    assert_eq!((field.particles[0].next_glitch, field.particles[0].glitch_ticks), (2, 0));
    assert_eq!((field.particles[1].next_glitch, field.particles[1].glitch_ticks), (51, 3));
    let moves = field.advance(&vec![GONE, DIM], &RULES, Some(9), &vec![60, 61, 62]);
    assert_eq!(bodies(&field), [2, 9]);
    assert_eq!(moves, [GlitchMove::Shake, GlitchMove::Keep]);
    assert_eq!((field.particles[1].next_glitch, field.particles[1].glitch_ticks), (62, 0));
}

/// A square on its way up, at progress `t`.
#[derive(Clone, Copy)]
struct Riser {
    start_y: f64,
    end_y: f64,
    speed: f64,
    y: f64,
    t: f64,
}

/// Moves the squares of a field on by `dt` seconds and lets one tick pass.
fn drift_and_tick(field: &mut SquareField<Riser>, dt: f64, rules: &FieldRules) {
    for p in field.particles.iter_mut() {
        let p = &mut p.body;
        p.t = (p.t + p.speed * dt / (p.start_y - p.end_y)).min(1.0 + 1e-6);
        p.y = p.start_y + (p.end_y - p.start_y) * p.t;
    }
    let sights: Vec<Sighting> = field
        .particles
        .iter()
        .map(|p| Sighting { live: p.body.t < 1.0, visible: (0.2..=0.85).contains(&p.body.t) })
        .collect();
    update_square_field(field, true, &sights, rules, None);
}

#[test]
fn square_update_drifts_and_evicts() {
    let rules = FieldRules { min_pause: 20, max_pause: 90, burst_ticks: 4, max_live: u32::MAX };
    let riser = Riser { start_y: 660.0, end_y: 300.0, speed: 34.0, y: 660.0, t: 0.0 };
    let mut field = SquareField::new();
    field.particles.push(Particle { body: riser, next_glitch: u32::MAX, glitch_ticks: 0 });
    for _ in 0..10 {
        drift_and_tick(&mut field, 0.05, &rules);
    }
    assert_eq!(field.particles.len(), 1);
    assert!(field.particles[0].body.t > 0.0, "progress must increase");
    assert!(riser.y >= field.particles[0].body.y, "y must drift toward the top");
    assert_eq!(field.particles[0].next_glitch, u32::MAX - 10);

    let done = Riser { t: 1.0, ..riser };
    field.particles.push(Particle { body: done, next_glitch: u32::MAX, glitch_ticks: 0 });
    drift_and_tick(&mut field, 0.05, &rules);
    assert_eq!(field.particles.len(), 1, "expired particle must be culled");
    assert!(field.particles[0].body.t < 1.0);
}

#[test]
fn field_stops_at_its_cap() {
    let mut field: SquareField<u8> = SquareField::new();
    for i in 0..6u8 {
        let n = field.particles.len();
        update_square_field(&mut field, true, &vec![DIM; n], &RULES, Some(i));
    }
    assert_eq!(bodies(&field), [0, 1]);
    let none = FieldRules { max_live: 0, ..RULES };
    let mut field: SquareField<u8> = SquareField::new();
    let moves = update_square_field(&mut field, true, &vec![], &none, Some(7));
    assert!(field.particles.is_empty());
    assert!(moves.is_empty());
}

#[test]
fn pauses_are_drawn_from_the_range() {
    let mut seen = vec![false; 4];
    for _ in 0..400 {
        let mut field = SquareField { particles: vec![square(1, 0, 0)] };
        update_square_field(&mut field, true, &vec![DIM], &RULES, None);
        seen[(field.particles[0].next_glitch - 2) as usize] = true;
    }
    assert_eq!(seen, [true; 4]);
    let crossed = FieldRules { min_pause: 6, max_pause: 1, ..RULES };
    let mut field = SquareField { particles: vec![square(1, 0, 0)] };
    update_square_field(&mut field, true, &vec![DIM], &crossed, None);
    assert_eq!(field.particles[0].next_glitch, 6);
}

#[test]
fn switched_off_squares_vanish() {
    let mut field = SquareField { particles: vec![square(1, 0, 0), square(2, 0, 0)] };
    let moves = update_square_field(&mut field, false, &vec![SEEN, SEEN], &RULES, Some(3));
    assert!(field.particles.is_empty());
    assert!(moves.is_empty());
}
