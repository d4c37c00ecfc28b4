use numeric_domains::Znum;

fn samples() -> Vec<u64> {
    vec![
        0,
        1,
        2,
        3,
        5,
        0xff,
        0x8000,
        0x1234_5678_9abc_def0,
        i64::MAX as u64,
        1 << 63,
        u64::MAX - 1,
        u64::MAX,
    ]
}

#[test]
fn common_operations_are_available_in_const_contexts() {
    let const_one = Znum::from_value(1);
    let const_two = Znum::from_parts(2, !2);
    let const_union = const_one.union(const_two);
    let const_empty = const_one.intersection(const_two);
    let const_contains_one = const_union.contains(const_one);
    let const_unsigned_bounds = const_union.unsigned_bounds();
    let const_signed_bounds = const_union.signed_bounds();
    let const_division = const_two.checked_div(const_one);
    let const_not = const_one.bit_not();
    let const_or = const_one.bit_or(const_two);
    let const_and = const_one.bit_and(const_two);
    let const_xor = const_one.bit_xor(const_two);
    let const_sum = const_one.add(const_two);
    let const_difference = const_one.subtract(const_two);
    let const_shl = const_one.shift_left(1);
    let const_shr = const_two.shift_right(1);
    let const_negation = const_one.negate();
    let const_product = const_two.multiply(const_two);
    let const_quotient = const_two.divide(const_one);
    let const_remainder = const_two.remainder(const_one);

    assert!(const_contains_one);
    assert_eq!(const_unsigned_bounds, Some((0, 3)));
    assert_eq!(const_signed_bounds, Some((0, 3)));
    assert_eq!(const_division, Some(const_two));
    assert!(!const_empty.has_value());
    assert_eq!(const_not, !const_one);
    assert_eq!(const_or, const_one | const_two);
    assert_eq!(const_and, const_one & const_two);
    assert_eq!(const_xor, const_one ^ const_two);
    assert_eq!(const_sum, const_one + const_two);
    assert_eq!(const_difference, const_one - const_two);
    assert_eq!(const_shl, const_one << 1);
    assert_eq!(const_shr, const_two >> 1);
    assert_eq!(const_negation, -const_one);
    assert_eq!(const_product, const_two * const_two);
    assert_eq!(const_quotient, const_two / const_one);
    assert_eq!(const_remainder, const_two % const_one);
}

#[test]
fn instance_is_defined() {
    let empty = Znum::from_parts(0, 0);
    for encoding in [(0, 1), (1, 1), (1, 0), (!1, !1)] {
        let value = Znum::from_parts(encoding.0, encoding.1);
        assert!(!value.is_defined());
        assert_eq!(value, empty);
    }
    assert!(Znum::from_parts(0xfffffffffffffffe, 0xffffffffffffffff).is_defined());
    assert!(Znum::from_parts(0xffffffffffffffff, 0xfffffffffffffffe).is_defined());
    assert!(Znum::from_parts(0xffffffffffffffff, 0xffffffffffffffff).is_defined());
}

#[test]
fn empty_domain_is_absorbing_for_addition() {
    let empty = Znum::from_parts(0, 0);
    let result = empty + Znum::from_value(1);
    assert!(!result.has_value());
}

#[test]
fn empty_domain_is_absorbing_for_subtraction() {
    let empty = Znum::from_parts(0, 0);
    assert!(!(empty - Znum::from_value(1)).has_value());
    assert!(!(Znum::from_value(1) - empty).has_value());
}

#[test]
fn every_empty_encoding_is_absorbing_for_bitwise_operations() {
    let empty_encodings = [
        Znum::from_parts(0, 0),
        Znum::from_parts(1, 0),
        Znum::from_parts(0, u64::MAX - 1),
    ];
    let values = [Znum::from_value(0), Znum::from_value(1), Znum::default()];

    for empty in empty_encodings {
        assert!(!empty.has_value());
        for value in values {
            assert!(!(empty | value).has_value());
            assert!(!(value | empty).has_value());
            assert!(!(empty & value).has_value());
            assert!(!(value & empty).has_value());
            assert!(!(empty ^ value).has_value());
            assert!(!(value ^ empty).has_value());
        }
    }
}

#[test]
fn every_empty_encoding_is_the_union_identity() {
    let empty = Znum::from_parts(1, 0);
    let zero = Znum::from_value(0);
    assert!(!empty.has_value());
    assert_eq!(empty.union(zero), zero);
    assert_eq!(zero.union(empty), zero);
}

#[test]
fn shifts_preserve_empty_domains() {
    let missing_sign_bit = Znum::from_parts(0, u64::MAX >> 1);
    let missing_low_bit = Znum::from_parts(0, u64::MAX << 1);
    assert!(!(missing_sign_bit << 1).has_value());
    assert!(!(missing_low_bit >> 1).has_value());
}

#[test]
fn empty_domain_and_zero_divisors_have_no_arithmetic_results() {
    let empty = Znum::from_parts(0, 0);
    let one = Znum::from_value(1);
    let zero = Znum::from_value(0);
    assert!(!(-empty).has_value());
    assert!(!(empty * one).has_value());
    assert!(!(one * empty).has_value());
    assert!(!(empty / one).has_value());
    assert!(!(one / empty).has_value());
    assert!(!(empty % one).has_value());
    assert!(!(one % empty).has_value());
    assert!(!(one / zero).has_value());
    assert!(!(one % zero).has_value());
}

#[test]
fn contains_requires_all_other_possibilities() {
    let zero = Znum::from_value(0);
    let low_bit_unknown = Znum::from_parts(1, u64::MAX);
    assert!(!zero.contains(low_bit_unknown));
    assert!(low_bit_unknown.contains(zero));

    let empty_encodings = [
        Znum::from_parts(0, 0),
        Znum::from_parts(1, 0),
        Znum::from_value(1).intersection(Znum::from_value(3)),
    ];
    for empty in empty_encodings {
        assert!(!empty.has_value());
        assert!(zero.contains(empty));
        assert!(Znum::default().contains(empty));
        assert!(empty.contains(empty));
        assert!(!empty.contains(zero));
    }
}

#[test]
fn znum_shifts_use_modulo_64_counts() {
    let value = Znum::from_value(3);
    assert_eq!((value << 64).value(), Some(3));
    assert_eq!((value >> 128).value(), Some(3));
}

#[test]
fn default_and_bounds_match_the_common_domain_api() {
    let unknown = Znum::default();
    assert_eq!(unknown.unsigned_bounds(), Some((u64::MIN, u64::MAX)));
    assert_eq!(unknown.signed_bounds(), Some((i64::MIN, i64::MAX)));

    let empty = Znum::from_parts(0, 0);
    assert_eq!(empty.unsigned_bounds(), None);
    assert_eq!(empty.signed_bounds(), None);
}

#[test]
fn znum_union_and_intersection_have_set_semantics() {
    let left = Znum::from_parts(0b0111, !0b0001);
    let right = Znum::from_parts(0b0111, !0b0011);
    let union = left.union(right);
    let intersection = left.intersection(right);

    for value in 0..16 {
        assert!(union.contains_value(value) || !left.contains_value(value));
        assert!(union.contains_value(value) || !right.contains_value(value));
        assert_eq!(
            intersection.contains_value(value),
            left.contains_value(value) && right.contains_value(value)
        );
    }

    let empty = Znum::from_value(1).intersection(Znum::from_value(2));
    assert!(!empty.has_value());
    assert_eq!(empty.union(left), left);
}

#[test]
fn znum_reduced_width_operations_contain_all_concrete_results() {
    const WIDTH: u32 = 4;
    const LIMIT: u64 = 1 << WIDTH;

    let domains: Vec<_> = (0..LIMIT)
        .flat_map(|unknown| {
            (0..LIMIT)
                .filter(move |ones| ones & unknown == 0)
                .map(move |ones| {
                    let may_be_one = ones | unknown;
                    let may_be_zero = !ones | unknown;
                    Znum::from_parts(may_be_one, may_be_zero)
                })
        })
        .collect();

    for &left in &domains {
        for a in (0..LIMIT).filter(|&value| left.contains_value(value)) {
            assert!((!left).contains_value(!a));

            for raw_shift in u8::MIN..=u8::MAX {
                let shift = u32::from(raw_shift).rem_euclid(64);
                assert!((left << raw_shift).contains_value(a.wrapping_shl(shift)));
                assert!((left >> raw_shift).contains_value(a.wrapping_shr(shift)));
            }
        }

        for &right in &domains {
            let and = left & right;
            let or = left | right;
            let xor = left ^ right;
            let sum = left + right;
            let difference = left - right;
            let product = left * right;
            let quotient = left / right;
            let remainder = left % right;
            for a in (0..LIMIT).filter(|&value| left.contains_value(value)) {
                for b in (0..LIMIT).filter(|&value| right.contains_value(value)) {
                    assert!(and.contains_value(a & b));
                    assert!(or.contains_value(a | b));
                    assert!(xor.contains_value(a ^ b));
                    assert!(sum.contains_value(a.wrapping_add(b)));
                    assert!(difference.contains_value(a.wrapping_sub(b)));
                    assert!(product.contains_value(a.wrapping_mul(b)));
                    if let Some(q) = a.checked_div(b) {
                        assert!(quotient.contains_value(q));
                        assert!(remainder.contains_value(a % b));
                    }
                }
            }
        }
    }
}

#[test]
fn const_value_roundtrip() {
    for x in samples() {
        assert_eq!(Znum::from_value(x).value(), Some(x));
        assert!(Znum::from_value(x).contains_value(x));
        assert!(Znum::from_value(x).is_defined());
    }
}

#[test]
fn constant_operations_are_exact() {
    for x in samples() {
        assert_eq!((!Znum::from_value(x)).value(), Some(!x));
        assert_eq!((-Znum::from_value(x)).value(), Some(x.wrapping_neg()));
        for shift in [0u8, 1, 5, 63, 64, 100, 255] {
            let effective_shift = u32::from(shift).rem_euclid(64);
            assert_eq!((Znum::from_value(x) << shift).value(), Some(x.wrapping_shl(effective_shift)));
            assert_eq!((Znum::from_value(x) >> shift).value(), Some(x.wrapping_shr(effective_shift)));
        }
        for y in samples() {
            let (a, b) = (Znum::from_value(x), Znum::from_value(y));
            assert_eq!((a | b).value(), Some(x | y));
            assert_eq!((a & b).value(), Some(x & y));
            assert_eq!((a ^ b).value(), Some(x ^ y));
            assert_eq!((a + b).value(), Some(x.wrapping_add(y)));
            assert_eq!((a - b).value(), Some(x.wrapping_sub(y)));
            assert_eq!((a * b).value(), Some(x.wrapping_mul(y)));
            if y != 0 {
                assert_eq!((a / b).value(), Some(x / y));
                assert_eq!(a.checked_div(b), Some(Znum::from_value(x / y)));
                assert_eq!((a % b).value(), Some(x % y));
            } else {
                assert_eq!(a.checked_div(b), None);
            }
        }
    }
}

#[test]
fn unions_of_constants_contain_both() {
    for x in samples() {
        for y in samples() {
            let left = Znum::from_value(x);
            let right = Znum::from_value(y);
            let union = left.union(right);
            assert_eq!(union, right.union(left));
            assert!(union.contains_value(x));
            assert!(union.contains_value(y));
            let intersection = left.intersection(right);
            assert!(!intersection.is_defined() || x == y);
        }
    }
}

#[test]
fn min_value_is_a_member() {
    for ones in samples() {
        for zeros in samples() {
            let value = Znum::from_parts(ones, zeros);
            if let Some(minimum) = value.min_value() {
                assert!(value.contains_value(minimum));
            }
            if let Some(maximum) = value.max_value() {
                assert!(value.contains_value(maximum));
            }
        }
    }
}

#[test]
fn signed_bounds_follow_the_sign_bit() {
    let negative = Znum::from_value(u64::MAX);
    assert_eq!(negative.signed_bounds(), Some((-1, -1)));
    let either_sign = Znum::from_parts(u64::MAX, u64::MAX);
    assert_eq!(either_sign.signed_bounds(), Some((i64::MIN, i64::MAX)));
    let low_unknown = Znum::from_parts(3, !0);
    assert_eq!(low_unknown.unsigned_bounds(), Some((0, 3)));
    assert_eq!(low_unknown.signed_bounds(), Some((0, 3)));
}
