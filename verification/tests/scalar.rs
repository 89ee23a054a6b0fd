use ncollide::math::scalar::{isqrt, Scalar};

#[test]
fn fractions_compare_by_value() {
    let half = Scalar::new(1, 2);
    let two_quarters = Scalar::new(2, 4);
    let third = Scalar::new(1, 3);
    assert!(half.same(&two_quarters));
    assert!(half.leq(&two_quarters));
    assert!(!half.less(&two_quarters));
    assert!(third.less(&half));
    assert!(!half.less(&third));
    assert!(third.leq(&half));
    assert!(!half.same(&third));
}

#[test]
fn negative_fractions_compare() {
    let a = Scalar::new(-3, 2);
    let b = Scalar::new(-1, 1);
    assert!(a.less(&b));
    assert!(b.less(&Scalar::zero()));
    assert!(Scalar::from_int(-7).less(&a));
}

#[test]
fn infinity_is_above_every_number() {
    let inf = Scalar::infinity();
    assert!(!inf.is_finite());
    assert!(Scalar::from_int(i64::MAX).less(&inf));
    assert!(Scalar::from_int(i64::MIN).less(&inf));
    assert!(inf.leq(&inf));
    assert!(!inf.less(&inf));
    assert!(!inf.leq(&Scalar::from_int(5)));
}

#[test]
fn large_parts_do_not_overflow() {
    let a = Scalar::new(i64::MAX, i64::MAX);
    let b = Scalar::new(i64::MAX - 1, i64::MAX);
    assert!(b.less(&a));
    assert!(a.same(&Scalar::from_int(1)));
    assert!(Scalar::zero().is_zero());
    assert!(!a.is_zero());
}

#[test]
fn square_roots_are_rounded_down() {
    assert_eq!(isqrt(0), 0);
    assert_eq!(isqrt(1), 1);
    assert_eq!(isqrt(3), 1);
    assert_eq!(isqrt(4), 2);
    assert_eq!(isqrt(15), 3);
    assert_eq!(isqrt(16), 4);
    assert_eq!(isqrt(17), 4);
    assert_eq!(isqrt(1 << 64), 1 << 32);
    assert_eq!(isqrt((1 << 64) - 1), (1 << 32) - 1);
    assert_eq!(isqrt(u128::MAX), u64::MAX as u128);
    let r: u128 = 18_446_744_073_709_551_557;
    assert_eq!(isqrt(r * r), r);
    assert_eq!(isqrt(r * r - 1), r - 1);
    assert_eq!(isqrt(r * r + 2 * r), r);
}
