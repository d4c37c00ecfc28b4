use numeric_domains::simple_tnum;
use numeric_domains::{RangeSet, Rnum, Tnum, WrappedInterval, Znum};

#[test]
fn range_set_union_is_exact_when_the_pieces_fit() {
    let a = RangeSet::<4>::from_range(0, 3).union(RangeSet::from_range(20, 25));
    let b = RangeSet::<4>::from_range(10, 12).union(RangeSet::from_range(40, 41));
    let u = a.union(b);
    assert_eq!(u.ranges(), &[(0, 3), (10, 12), (20, 25), (40, 41)]);
    for v in 0..50u64 {
        assert_eq!(u.contains_value(v), a.contains_value(v) || b.contains_value(v));
    }
    assert_eq!(u, b.union(a));
}

#[test]
fn range_set_intersection_with_one_interval_is_exact() {
    let a = RangeSet::<2>::from_range(0, 10).union(RangeSet::from_range(20, 30));
    let b = RangeSet::<2>::from_range(5, 25);
    let i = a.intersection(b);
    assert_eq!(i.ranges(), &[(5, 10), (20, 25)]);
    for v in 0..40u64 {
        assert_eq!(i.contains_value(v), a.contains_value(v) && b.contains_value(v));
    }
    assert_eq!(i, b.intersection(a));
}

#[test]
fn range_set_addition_is_commutative() {
    let a = RangeSet::<2>::from_range(1, 2).union(RangeSet::from_range(10, 11));
    let b = RangeSet::<2>::from_range(100, 100);
    assert_eq!(a.add(b), b.add(a));
    assert_eq!(a.add(b).ranges(), &[(101, 102), (110, 111)]);
}

#[test]
fn znum_zero_divisor_gives_no_quotient() {
    let dividend = Znum::from_value(1).union(Znum::from_value(6));
    let zero = Znum::from_value(0);
    assert_eq!(dividend.checked_div(zero), None);
    assert!(!dividend.divide(zero).has_value());
    assert!(!dividend.remainder(zero).has_value());
    assert_eq!(Znum::from_value(7).checked_div(Znum::from_value(2)), Some(Znum::from_value(3)));
    assert_eq!(Znum::from_value(7).remainder(Znum::from_value(2)), Znum::from_value(1));
}

#[test]
fn znum_right_shift_members_come_from_members() {
    let a = Znum::from_value(0b1000).union(Znum::from_value(0b1100));
    let shifted = a.shift_right(2);
    assert!(shifted.contains_value(0b10));
    assert!(shifted.contains_value(0b11));
    assert!(!shifted.contains_value(0b01));
    assert_eq!(shifted.signed_bounds(), Some((2, 3)));
}

#[test]
fn tnum_or_and_shift_members_come_from_members() {
    let a = Tnum::from_value(1).union(Tnum::from_value(3));
    let b = Tnum::from_value(4);
    let or = a | b;
    assert_eq!(or.parts(), Some((5, 2)));
    assert!(or.contains_value(5) && or.contains_value(7) && !or.contains_value(6));
    let shifted = a << 4;
    assert_eq!(shifted.parts(), Some((16, 32)));
    assert!(shifted.contains_value(16) && shifted.contains_value(48));
}

#[test]
fn rnum_stored_bounds_follow_the_operations() {
    let a = Rnum::new(1, 5, 1, 5).unwrap();
    let b = Rnum::new(4, 8, 4, 8).unwrap();
    let u = a.union(b);
    assert_eq!(u.unsigned_bounds(), (1, 8));
    assert!(u.contains(a) && u.contains(b));
    let empty = Rnum::new(5, 8, -2, -1).unwrap();
    assert!(!empty.has_value());
    assert!(a.contains(empty));
    assert_eq!((a - b).unsigned_bounds(), (0, u64::MAX));
    assert_eq!((a - b).signed_bounds(), (-7, 1));
    assert_eq!((!a).unsigned_bounds(), (u64::MAX - 5, u64::MAX - 1));
    assert_eq!((a * b).unsigned_bounds(), (4, 40));
    assert_eq!((b / a).unsigned_bounds(), (0, 8));
    assert_eq!((b % a).unsigned_bounds(), (0, 4));
    assert!(Rnum::default().has_value());
}

#[test]
fn wrapped_sum_members_are_sums_of_members() {
    let a = WrappedInterval::new(10, 12);
    let b = WrappedInterval::new(u64::MAX, 1);
    let sum = a + b;
    assert_eq!(sum.bounds(), Some((9, 13)));
    for v in 0..20u64 {
        let expected = (10..=12u64).any(|x| [u64::MAX, 0, 1].iter().any(|y| x.wrapping_add(*y) == v));
        assert_eq!(sum.contains_value(v), expected);
    }
}

#[test]
fn simple_tnum_addition_wraps() {
    let sum = simple_tnum::Tnum::from_value(u64::MAX) + simple_tnum::Tnum::from_value(2);
    assert_eq!(sum.value(), Some(1));
}

#[test]
fn znum_negation_of_constants() {
    assert_eq!(Znum::from_value(1).negate(), Znum::from_value(u64::MAX));
    assert_eq!(-Znum::from_value(0), Znum::from_value(0));
    let either = Znum::from_value(1).union(Znum::from_value(3));
    let negated = -either;
    assert!(negated.contains_value(u64::MAX) && negated.contains_value(u64::MAX - 2));
}
