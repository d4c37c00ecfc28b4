use numeric_domains::Rnum;

#[test]
fn rnum_operators_have_const_inherent_equivalents() {
    let const_one = Rnum::from_value(1);
    let const_two = Rnum::from_value(2);
    let const_sum = const_one.add(const_two);
    let const_difference = const_one.subtract(const_two);
    let const_negation = const_one.negate();
    let const_not = const_one.bit_not();
    let const_product = const_two.multiply(const_two);
    let const_division = const_two.divide(const_one);
    let const_remainder = const_two.remainder(const_one);

    assert_eq!(const_sum, const_one + const_two);
    assert_eq!(const_difference, const_one - const_two);
    assert_eq!(const_negation, -const_one);
    assert_eq!(const_not, !const_one);
    assert_eq!(const_product, const_two * const_two);
    assert_eq!(const_division, const_two / const_one);
    assert_eq!(const_remainder, const_two % const_one);
}

#[test]
fn constructs_valid_ranges() {
    let range = Rnum::new(1, 10, -4, 7).expect("valid bounds");
    assert_eq!(range.unsigned_bounds(), (1, 10));
    assert_eq!(range.signed_bounds(), (-4, 7));
}

#[test]
fn rejects_reversed_bounds() {
    assert_eq!(Rnum::new(10, 1, -4, 7), None);
    assert_eq!(Rnum::new(1, 10, 7, -4), None);
}

#[test]
fn value_is_a_singleton_in_both_interpretations() {
    let range = Rnum::from_value(u64::MAX);
    assert_eq!(range.unsigned_bounds(), (u64::MAX, u64::MAX));
    assert_eq!(range.signed_bounds(), (-1, -1));
}

#[test]
fn common_domain_queries_handle_signed_and_unsigned_bounds() {
    let range = Rnum::new(0, u64::MAX, -1, 1).unwrap();
    assert!(range.contains_value(0));
    assert!(range.contains_value(1));
    assert!(range.contains_value(u64::MAX));
    assert_eq!(range.min_value(), Some(0));
    assert_eq!(range.max_value(), Some(u64::MAX));
    assert!(!range.is_const());

    let positive = Rnum::new(2, 4, 2, 4).unwrap();
    let negative = Rnum::new(u64::MAX, u64::MAX, -1, -1).unwrap();
    let union = positive.union(negative);
    assert!(union.contains(positive));
    assert!(union.contains(negative));
}

#[test]
fn default_contains_every_machine_value() {
    let range = Rnum::default();
    assert!(range.is_defined());
    assert!(range.contains_value(0));
    assert!(range.contains_value(u64::MAX));
}

#[test]
fn rnum_union_and_intersection_have_set_semantics() {
    let left = Rnum::new(1, 5, 1, 5).unwrap();
    let right = Rnum::new(4, 8, 4, 8).unwrap();
    let union = left.union(right);
    let intersection = left.intersection(right);

    for value in 0..10 {
        assert!(union.contains_value(value) || !left.contains_value(value));
        assert!(union.contains_value(value) || !right.contains_value(value));
        assert_eq!(
            intersection.contains_value(value),
            left.contains_value(value) && right.contains_value(value)
        );
    }

    let empty = Rnum::from_value(1).intersection(Rnum::from_value(2));
    assert!(!empty.has_value());
    assert!(!empty.contains_value(0));
    assert!(empty.union(left).contains(left));
}

#[test]
fn arithmetic_preserves_non_wrapping_bounds() {
    let left = Rnum::new(2, 4, 2, 4).unwrap();
    let right = Rnum::new(5, 7, 5, 7).unwrap();

    assert_eq!((left + right).unsigned_bounds(), (7, 11));
    assert_eq!((left + right).signed_bounds(), (7, 11));
    assert_eq!((right - left).unsigned_bounds(), (1, 5));
    assert_eq!((left * right).unsigned_bounds(), (10, 28));
    assert_eq!((right / left).unsigned_bounds(), (1, 3));
    assert_eq!((right % left).unsigned_bounds(), (0, 3));
    assert_eq!((!left).unsigned_bounds(), (!4, !2));
}

#[test]
fn wrapping_only_forgets_the_affected_interpretation() {
    let near_unsigned_max = Rnum::new(u64::MAX - 1, u64::MAX, -2, -1).unwrap();
    let one = Rnum::from_value(1);
    let result = near_unsigned_max + one;

    assert_eq!(result.unsigned_bounds(), (u64::MIN, u64::MAX));
    assert_eq!(result.signed_bounds(), (-1, 0));
    assert!(result.contains_value(u64::MAX));
    assert!(result.contains_value(0));
}

#[test]
fn division_ignores_zero_when_nonzero_divisors_are_available() {
    let dividend = Rnum::new(10, 20, 10, 20).unwrap();
    let divisor = Rnum::new(0, 4, 0, 4).unwrap();
    assert_eq!(
        dividend.checked_div(divisor).unwrap().unsigned_bounds(),
        (2, 20)
    );
    assert_eq!(dividend.checked_div(Rnum::from_value(0)), None);
}

#[test]
fn rnum_arithmetic_contains_concrete_results() {
    let bounds: [(u64, u64, i64, i64); 5] = [
        (0, 3, 0, 3),
        (2, 9, -4, 9),
        (u64::MAX - 2, u64::MAX, -3, -1),
        (5, 5, 5, 5),
        (0, u64::MAX, i64::MIN, i64::MAX),
    ];
    let samples = [0u64, 1, 2, 3, 5, 7, 9, u64::MAX - 2, u64::MAX - 1, u64::MAX];
    for &(a0, a1, a2, a3) in &bounds {
        for &(b0, b1, b2, b3) in &bounds {
            let left = Rnum::new(a0, a1, a2, a3).unwrap();
            let right = Rnum::new(b0, b1, b2, b3).unwrap();
            for &x in samples.iter().filter(|&&x| left.contains_value(x)) {
                assert!((!left).contains_value(!x));
                assert!((-left).contains_value(x.wrapping_neg()));
                for &y in samples.iter().filter(|&&y| right.contains_value(y)) {
                    assert!((left + right).contains_value(x.wrapping_add(y)));
                    assert!((left - right).contains_value(x.wrapping_sub(y)));
                    assert!((left * right).contains_value(x.wrapping_mul(y)));
                    if y != 0 {
                        assert!((left / right).contains_value(x / y));
                        assert!((left % right).contains_value(x % y));
                    }
                }
            }
        }
    }
}

#[test]
fn rnum_extrema_of_split_signed_range() {
    let range = Rnum::new(1, u64::MAX - 1, -5, 7).unwrap();
    assert_eq!(range.min_value(), Some(1));
    assert_eq!(range.max_value(), Some(u64::MAX - 1));
    assert!(range.contains_value(u64::MAX - 4));
    assert!(!range.contains_value(u64::MAX - 5));
    assert!(!range.contains_value(8));
    let inconsistent = Rnum::new(0, 5, -5, -1).unwrap();
    assert!(!inconsistent.has_value());
    assert_eq!(inconsistent.value(), None);
    let single = Rnum::new(3, 10, -2, 3).unwrap();
    assert!(single.is_const());
    assert_eq!(single.value(), Some(3));
    assert!(!Rnum::new(3, 10, -2, 4).unwrap().is_const());
    let exact = Rnum::new(3, 10, -2, 3).unwrap().intersection(Rnum::new(3, 3, 3, 3).unwrap());
    assert_eq!(exact.value(), Some(3));
}
