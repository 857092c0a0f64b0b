use wvr_core::automation::FIXED_ONE;
use wvr_core::data::{ArithError, DataHolder};

const ONE: i64 = FIXED_ONE as i64;

#[test]
fn float_vectors_add_componentwise() {
    let a = DataHolder::Float2([ONE, 2 * ONE]);
    let b = DataHolder::Float2([ONE / 2, -ONE]);
    assert_eq!(a.add(&b), Ok(DataHolder::Float2([3 * ONE / 2, ONE])));
    assert_eq!(a.sub(&b), Ok(DataHolder::Float2([ONE / 2, 3 * ONE])));
}

#[test]
fn fixed_point_products_and_quotients() {
    let a = DataHolder::Float(3 * ONE / 2);
    let b = DataHolder::Float(2 * ONE);
    assert_eq!(a.mul(&b), Ok(DataHolder::Float(3 * ONE)));
    assert_eq!(a.div(&b), Ok(DataHolder::Float(3 * ONE / 4)));
    // one tick times one tick rounds toward zero
    assert_eq!(DataHolder::Float(1).mul(&DataHolder::Float(1)), Ok(DataHolder::Float(0)));
    assert_eq!(DataHolder::Float(-ONE).div(&DataHolder::Float(3 * ONE)), Ok(DataHolder::Float(-21845)));
}

#[test]
fn integer_operators() {
    let a = DataHolder::Int3([7, -7, 6]);
    let b = DataHolder::Int3([2, 2, -3]);
    assert_eq!(a.add(&b), Ok(DataHolder::Int3([9, -5, 3])));
    assert_eq!(a.sub(&b), Ok(DataHolder::Int3([5, -9, 9])));
    assert_eq!(a.mul(&b), Ok(DataHolder::Int3([14, -14, -18])));
    assert_eq!(a.div(&b), Ok(DataHolder::Int3([3, -3, -2])));
    let c = DataHolder::Int4([1, 2, 3, 4]);
    assert_eq!(c.mul(&c), Ok(DataHolder::Int4([1, 4, 9, 16])));
    assert_eq!(DataHolder::Int(9).div(&DataHolder::Int(4)), Ok(DataHolder::Int(2)));
}

#[test]
fn bool_operators() {
    let t = DataHolder::Bool(true);
    let f = DataHolder::Bool(false);
    assert_eq!(t.mul(&f), Ok(DataHolder::Bool(false)));
    assert_eq!(t.mul(&t), Ok(DataHolder::Bool(true)));
    assert_eq!(f.add(&t), Ok(DataHolder::Bool(true)));
    assert_eq!(f.add(&f), Ok(DataHolder::Bool(false)));
    assert_eq!(t.sub(&f), Ok(DataHolder::Bool(true)));
    assert_eq!(t.sub(&t), Ok(DataHolder::Bool(false)));
    assert_eq!(t.div(&f), Ok(DataHolder::Bool(true)));
    assert_eq!(f.div(&t), Ok(DataHolder::Bool(false)));
}

#[test]
fn mismatched_variants_are_refused() {
    let a = DataHolder::Float(ONE);
    let b = DataHolder::Int2([1, 2]);
    assert_eq!(a.add(&b), Err(ArithError::Mismatch));
    assert_eq!(b.add(&a), Err(ArithError::Mismatch));
    assert_eq!(DataHolder::Float2([0, 0]).mul(&DataHolder::Float3([0, 0, 0])), Err(ArithError::Mismatch));
    assert_eq!(DataHolder::Bool(true).div(&DataHolder::Int(1)), Err(ArithError::Mismatch));
}

#[test]
fn kinds_without_arithmetic_are_refused() {
    let m = DataHolder::Mat2([[1, 0], [0, 1]]);
    assert_eq!(m.add(&m), Err(ArithError::Unsupported));
    let s = DataHolder::String("a".to_string());
    assert_eq!(s.add(&s), Err(ArithError::Unsupported));
    let v = DataHolder::IntArray(vec![1]);
    assert_eq!(v.mul(&v), Err(ArithError::Unsupported));
}

#[test]
fn division_by_zero_is_refused() {
    assert_eq!(DataHolder::Int(1).div(&DataHolder::Int(0)), Err(ArithError::DivisionByZero));
    assert_eq!(DataHolder::Float2([ONE, ONE]).div(&DataHolder::Float2([ONE, 0])), Err(ArithError::DivisionByZero));
}

#[test]
fn overflow_is_refused() {
    assert_eq!(DataHolder::Int(i32::MAX).add(&DataHolder::Int(1)), Err(ArithError::Overflow));
    assert_eq!(DataHolder::Int(i32::MIN).div(&DataHolder::Int(-1)), Err(ArithError::Overflow));
    assert_eq!(DataHolder::Float(i64::MAX).mul(&DataHolder::Float(2 * ONE)), Err(ArithError::Overflow));
}

#[test]
fn first_failing_component_decides() {
    let a = DataHolder::Int2([i32::MAX, 1]);
    let b = DataHolder::Int2([1, 0]);
    assert_eq!(a.add(&b), Err(ArithError::Overflow));
    assert_eq!(a.div(&b), Err(ArithError::DivisionByZero));
    let c = DataHolder::Int2([1, i32::MIN]);
    let d = DataHolder::Int2([0, -1]);
    assert_eq!(c.div(&d), Err(ArithError::DivisionByZero));
}
