use yaupl::number::Number;

#[test]
fn test_add() {
    assert_eq!(
        Number::from_parts(123456, 98278734873).add(Number::from_parts(929, 2334)),
        Number::from_parts(124385, 98278737207)
    );
}

#[test]
fn test_wrapping_add() {
    assert_eq!(
        Number::from_parts(10, 99_999_999_999_999_999_999_999_999_999_999_999_999)
            .add(Number::from_parts(10, 2)),
        Number::from_parts(21, 1)
    );
}

#[test]
fn test_overflow() {
    assert_eq!(
        Number::from_parts(i128::MAX, 0).add(Number::from_parts(1, 0)),
        Number::Infinity
    );
}

#[test]
fn infinities_absorb_and_cancel() {
    assert_eq!(Number::Infinity.add(Number::Infinity), Number::Infinity);
    assert_eq!(Number::from_parts(5, 0).add(Number::Infinity), Number::Infinity);
    assert_eq!(
        Number::NegativeInfinity.add(Number::from_parts(5, 0)),
        Number::NegativeInfinity
    );
    assert_eq!(Number::Infinity.add(Number::NegativeInfinity), Number::zero());
    assert_eq!(Number::NegativeInfinity.add(Number::Infinity), Number::zero());
}

#[test]
fn zero_and_one() {
    assert_eq!(Number::zero().add(Number::one()), Number::from_parts(1, 0));
}

#[test]
fn negative_overflow_saturates() {
    assert_eq!(
        Number::from_parts(i128::MIN, 0).add(Number::from_parts(-1, 0)),
        Number::Infinity
    );
}
