use wvr_core::automation::{Lfo, LfoType, FIXED_ONE};

const ONE: i64 = FIXED_ONE as i64;

fn lfo(lfo_type: LfoType, numerator: u32, denominator: u32, phase: u32, amplitude: i32, signed: bool) -> Lfo {
    Lfo { lfo_type, numerator, denominator, phase, amplitude, signed }
}

#[test]
fn saw_follows_the_cursor() {
    let l = lfo(LfoType::Saw, 1, 1, 0, ONE as i32, false);
    assert_eq!(l.get_amplitude(0), 0);
    assert_eq!(l.get_amplitude(ONE / 4), ONE / 4);
    assert_eq!(l.get_amplitude(ONE / 2), ONE / 2);
    assert_eq!(l.get_amplitude(ONE), 0);
}

#[test]
fn negative_beats_wrap_into_the_cycle() {
    let l = lfo(LfoType::Saw, 1, 1, 0, ONE as i32, false);
    assert_eq!(l.cursor(-ONE / 4), 3 * FIXED_ONE / 4);
    assert_eq!(l.get_amplitude(-ONE / 4), 3 * ONE / 4);
    assert_eq!(l.get_amplitude(3 * ONE / 4), 3 * ONE / 4);
    assert_eq!(l.get_amplitude(-ONE), 0);
    assert_eq!(l.get_amplitude(i64::MIN), l.get_amplitude(i64::MIN + 4 * ONE));
}

#[test]
fn ratio_sets_the_tempo() {
    // three cycles every two beats: one beat is one and a half cycles
    let l = lfo(LfoType::Saw, 3, 2, 0, ONE as i32, false);
    assert_eq!(l.cursor(ONE), FIXED_ONE / 2);
    assert_eq!(l.get_amplitude(ONE), ONE / 2);
}

#[test]
fn phase_shifts_the_cycle() {
    let l = lfo(LfoType::Saw, 1, 1, (FIXED_ONE / 2) as u32, ONE as i32, false);
    assert_eq!(l.get_amplitude(0), ONE / 2);
    assert_eq!(l.get_amplitude(ONE / 2), 0);
}

#[test]
fn square_jumps_at_half_cycle() {
    let l = lfo(LfoType::Square, 1, 1, 0, ONE as i32, false);
    assert_eq!(l.get_amplitude(ONE / 2 - 1), 0);
    assert_eq!(l.get_amplitude(ONE / 2), ONE);
    assert_eq!(l.get_amplitude(ONE - 1), ONE);
}

#[test]
fn triangle_peaks_at_half_cycle() {
    let l = lfo(LfoType::Triangle, 1, 1, 0, ONE as i32, false);
    assert_eq!(l.get_amplitude(0), 0);
    assert_eq!(l.get_amplitude(ONE / 4), ONE / 2);
    assert_eq!(l.get_amplitude(ONE / 2), ONE);
    assert_eq!(l.get_amplitude(3 * ONE / 4), ONE / 2);
}

#[test]
fn sine_hits_its_quarter_points() {
    let l = lfo(LfoType::Sine, 1, 1, 0, ONE as i32, false);
    assert_eq!(l.get_amplitude(0), ONE / 2);
    assert_eq!(l.get_amplitude(ONE / 4), ONE);
    assert_eq!(l.get_amplitude(ONE / 2), ONE / 2);
    assert_eq!(l.get_amplitude(3 * ONE / 4), 0);
}

#[test]
fn sine_stays_close_to_the_sine_wave() {
    let l = lfo(LfoType::Sine, 1, 1, 0, ONE as i32, false);
    for k in 0..64i64 {
        let beat = k * ONE / 64;
        let t = beat as f64 / FIXED_ONE as f64;
        let exact = ((t * 2.0 * std::f64::consts::PI).sin() * 0.5 + 0.5) * ONE as f64;
        let got = l.get_amplitude(beat) as f64;
        assert!((got - exact).abs() < 0.002 * ONE as f64, "{} {} {}", k, got, exact);
    }
}

#[test]
fn signed_output_spans_minus_one_to_one() {
    let l = lfo(LfoType::Saw, 1, 1, 0, ONE as i32, true);
    assert_eq!(l.get_amplitude(0), -ONE);
    assert_eq!(l.get_amplitude(ONE / 2), 0);
    let t = lfo(LfoType::Triangle, 1, 1, 0, 2 * ONE as i32, true);
    assert_eq!(t.get_amplitude(ONE / 2), 2 * ONE);
    assert_eq!(t.get_amplitude(0), -2 * ONE);
}

#[test]
fn amplitude_scales_and_rounds_toward_zero() {
    let l = lfo(LfoType::Saw, 1, 1, 0, 3, false);
    // 0.5 * 3 ticks = 1.5 ticks
    assert_eq!(l.get_amplitude(ONE / 2), 1);
    let n = lfo(LfoType::Saw, 1, 1, 0, -3, false);
    assert_eq!(n.get_amplitude(ONE / 2), -1);
}

#[test]
fn output_repeats_every_period() {
    // one cycle every four beats
    let shapes = [LfoType::Square, LfoType::Triangle, LfoType::Saw, LfoType::Sine];
    for shape in shapes.iter() {
        let l = lfo(*shape, 1, 4, 1234, 40000, true);
        for k in 0..50i64 {
            let beat = k * 7919;
            assert_eq!(l.get_amplitude(beat), l.get_amplitude(beat + 4 * ONE));
            assert_eq!(l.get_amplitude(beat), l.get_amplitude(beat + 12 * ONE));
        }
    }
}

#[test]
fn output_stays_within_amplitude() {
    let shapes = [LfoType::Square, LfoType::Triangle, LfoType::Saw, LfoType::Sine];
    for shape in shapes.iter() {
        for signed in [false, true].iter() {
            let l = lfo(*shape, 5, 3, 777, 30000, *signed);
            for k in -100..100i64 {
                let v = l.get_amplitude(k * 1013);
                if *signed {
                    assert!(-30000 <= v && v <= 30000);
                } else {
                    assert!(0 <= v && v <= 30000);
                }
            }
        }
    }
}

#[test]
fn triangle_and_sine_are_continuous_square_is_not() {
    let mut prev_t = LfoType::Triangle.value_at(FIXED_ONE - 1) as i64;
    let mut prev_s = LfoType::Sine.value_at(FIXED_ONE - 1) as i64;
    for c in 0..FIXED_ONE {
        let t = LfoType::Triangle.value_at(c) as i64;
        let s = LfoType::Sine.value_at(c) as i64;
        assert!((t - prev_t).abs() <= 2);
        assert!((s - prev_s).abs() <= 5);
        prev_t = t;
        prev_s = s;
    }
    assert_eq!(LfoType::Square.value_at(FIXED_ONE / 2 - 1), 0);
    assert_eq!(LfoType::Square.value_at(FIXED_ONE / 2), FIXED_ONE);
}

#[test]
fn zero_denominator_is_invalid() {
    assert!(!lfo(LfoType::Saw, 1, 0, 0, 1, false).is_valid());
    assert!(lfo(LfoType::Saw, 0, 1, 0, 1, false).is_valid());
}
