use bspwm_cyberquote::glitch::{next_glitch_delay, Burst, BurstStep, StepRolls};

const CALM: StepRolls = StepRolls { echo: false, blank: false, invert: false };
const WILD: StepRolls = StepRolls { echo: true, blank: true, invert: true };

#[test]
fn burst_length_follows_the_configuration() {
    assert_eq!(Burst::new(1100).remaining, 20);
    assert_eq!(Burst::new(1154).remaining, 20);
    assert_eq!(Burst::new(1155), Burst { remaining: 21, half: 10 });
    assert_eq!(Burst::new(0), Burst { remaining: 6, half: 3 });
    assert_eq!(Burst::new(384).remaining, 6);
    assert_eq!(Burst::new(385).remaining, 7);
}

#[test]
fn calm_burst_flashes_once_in_the_middle() {
    let mut burst = Burst::new(1100);
    let mut steps = Vec::new();
    while let Some(step) = burst.step(CALM) {
        steps.push(step);
    }
    assert_eq!(steps.len(), 20);
    for (i, step) in steps.iter().enumerate() {
        let k = 20 - i;
        let want = BurstStep { easing: k <= 3, echo: false, blank: false, invert: k == 10 };
        assert_eq!(*step, want);
    }
    assert_eq!(burst.step(CALM), None);
}

#[test]
fn wild_burst_blanks_and_flashes_on_its_beat() {
    let mut burst = Burst::new(1320);
    let mut k = 24;
    while let Some(step) = burst.step(WILD) {
        assert_eq!(step.blank, k % 4 == 0);
        assert_eq!(step.invert, k % 5 == 0 || k == 12);
        assert!(step.echo);
        assert!(!(step.easing && step.blank));
        k -= 1;
    }
    assert_eq!(k, 0);
}

#[test]
fn delays_fill_the_range() {
    let mut seen = vec![false; 4];
    for _ in 0..400 {
        let delay = next_glitch_delay(7, 10);
        seen[(delay - 7) as usize] = true;
    }
    assert_eq!(seen, [true; 4]);
    assert_eq!(next_glitch_delay(5, 5), 5);
}
