use wvr_core::automation::{Automation, Lfo, LfoType, FIXED_ONE};
use wvr_core::data::DataHolder;

const ONE: i64 = FIXED_ONE as i64;

/// An oscillator whose output is `ticks` at every beat: a frozen saw at half
/// its cycle, with twice that amplitude.
fn constant(ticks: i32) -> Lfo {
    Lfo { lfo_type: LfoType::Saw, numerator: 0, denominator: 1, phase: (FIXED_ONE / 2) as u32, amplitude: 2 * ticks, signed: false }
}

#[test]
fn off_applies_nothing() {
    let values = vec![
        DataHolder::Float(5),
        DataHolder::Int2([1, 2]),
        DataHolder::Bool(true),
        DataHolder::String("x".to_string()),
    ];
    for v in values.iter() {
        for beat in [0i64, 12345, -777, 1 << 40].iter() {
            assert_eq!(Automation::Off.apply(v, *beat), None);
        }
    }
    assert!(Automation::Off.is_none());
    assert!(!Automation::Lfo(constant(1)).is_none());
}

#[test]
fn single_oscillator_broadcasts_to_float4() {
    let a = Automation::Lfo(constant(1000));
    let r = a.apply(&DataHolder::Float4([0, 10, 20, 30]), 777).unwrap();
    assert_eq!(r, DataHolder::Float4([1000, 1010, 1020, 1030]));
}

#[test]
fn oscillators_per_axis_on_float3() {
    let a = Automation::Lfo3d(constant(100), constant(200), constant(-300));
    let r = a.apply(&DataHolder::Float3([1, 2, 3]), 0).unwrap();
    assert_eq!(r, DataHolder::Float3([101, 202, -297]));
}

#[test]
fn oscillators_per_axis_on_int4() {
    let a = Automation::Lfo4d(constant(ONE as i32), constant(2 * ONE as i32), constant(3 * ONE as i32), constant(4 * ONE as i32));
    let r = a.apply(&DataHolder::Int4([0, 0, 0, 0]), 0).unwrap();
    assert_eq!(r, DataHolder::Int4([1, 2, 3, 4]));
}

#[test]
fn mismatched_count_uses_the_first_oscillator() {
    let a = Automation::Lfo3d(constant(5), constant(6), constant(7));
    let r = a.apply(&DataHolder::Float2([0, 0]), 0).unwrap();
    assert_eq!(r, DataHolder::Float2([5, 5]));
    let s = a.apply(&DataHolder::Float(10), 0).unwrap();
    assert_eq!(s, DataHolder::Float(15));
}

#[test]
fn integer_offsets_round_toward_zero() {
    let up = Automation::Lfo(constant((3 * ONE / 2) as i32));
    assert_eq!(up.apply(&DataHolder::Int(10), 0), Some(DataHolder::Int(11)));
    let down = Automation::Lfo(constant(-(3 * ONE / 2) as i32));
    assert_eq!(down.apply(&DataHolder::Int(10), 0), Some(DataHolder::Int(9)));
}

#[test]
fn sums_saturate() {
    let up = Automation::Lfo(constant(5 * ONE as i32));
    assert_eq!(up.apply(&DataHolder::Int(i32::MAX - 1), 0), Some(DataHolder::Int(i32::MAX)));
    assert_eq!(up.apply(&DataHolder::Float(i64::MAX - 1), 0), Some(DataHolder::Float(i64::MAX)));
}

#[test]
fn bool_latch() {
    let high = Automation::Lfo(constant((ONE * 6 / 10) as i32));
    assert_eq!(high.apply(&DataHolder::Bool(false), 0), Some(DataHolder::Bool(true)));
    let low = Automation::Lfo(constant((ONE * 3 / 10) as i32));
    assert_eq!(low.apply(&DataHolder::Bool(true), 0), Some(DataHolder::Bool(true)));
    assert_eq!(low.apply(&DataHolder::Bool(false), 0), Some(DataHolder::Bool(false)));
    let negative = Automation::Lfo(constant(-(ONE / 10) as i32));
    assert_eq!(negative.apply(&DataHolder::Bool(true), 0), Some(DataHolder::Bool(false)));
}

#[test]
fn other_kinds_are_left_alone() {
    let a = Automation::Lfo(constant(100));
    assert_eq!(a.apply(&DataHolder::String("s".to_string()), 0), None);
    assert_eq!(a.apply(&DataHolder::Mat2([[1, 0], [0, 1]]), 0), None);
    assert_eq!(a.apply(&DataHolder::FloatArray(vec![1, 2]), 0), None);
    assert_eq!(a.apply(&DataHolder::Texture(1, 1, vec![0, 0, 0, 0]), 0), None);
}

#[test]
fn offsets_follow_the_beat() {
    let saw = Lfo { lfo_type: LfoType::Saw, numerator: 1, denominator: 1, phase: 0, amplitude: ONE as i32, signed: false };
    let a = Automation::Lfo2d(saw, constant(7));
    assert_eq!(a.sample_offsets(ONE / 4), vec![ONE / 4, 7]);
    let r = a.apply(&DataHolder::Float2([0, 0]), ONE / 4).unwrap();
    assert_eq!(r, DataHolder::Float2([ONE / 4, 7]));
}

#[test]
fn validity_covers_every_oscillator() {
    let bad = Lfo { lfo_type: LfoType::Saw, numerator: 1, denominator: 0, phase: 0, amplitude: 1, signed: false };
    assert!(!Automation::Lfo2d(constant(1), bad).is_valid());
    assert!(Automation::Lfo2d(constant(1), constant(2)).is_valid());
    assert!(Automation::Off.is_valid());
}
