use numeric_domains::Tnum;

#[test]
fn tnum_operators_have_const_inherent_equivalents() {
    let const_one = Tnum::from_value(1);
    let const_two = Tnum::from_value(2);
    let const_not = const_one.bit_not();
    let const_or = const_one.bit_or(const_two);
    let const_and = const_one.bit_and(const_two);
    let const_xor = const_one.bit_xor(const_two);
    let const_shl = const_one.shift_left(1);
    let const_shr = const_two.shift_right(1);
    let const_sum = const_one.add(const_two);

    assert_eq!(const_not, !const_one);
    assert_eq!(const_or, const_one | const_two);
    assert_eq!(const_and, const_one & const_two);
    assert_eq!(const_xor, const_one ^ const_two);
    assert_eq!(const_shl, const_one << 1);
    assert_eq!(const_shr, const_two >> 1);
    assert_eq!(const_sum, const_one + const_two);
}

#[test]
fn constant_bitwise_operations_are_exact() {
    let one = Tnum::from_value(1);
    let zero = Tnum::from_value(0);

    assert_eq!((one & one).value(), Some(1));
    assert_eq!((one ^ zero).value(), Some(1));
    assert_eq!((!one).value(), Some(!1));
}

#[test]
fn unknown_addition_does_not_collapse_to_a_constant() {
    let result = Tnum::default() + Tnum::from_value(0);
    assert!(!result.is_const());
    assert!(result.contains_value(0));
    assert!(result.contains_value(u64::MAX));
}

#[test]
fn tnum_shifts_use_modulo_64_counts() {
    let value = Tnum::from_value(3);
    assert_eq!((value << 64).value(), Some(3));
    assert_eq!((value >> 128).value(), Some(3));
}

#[test]
fn common_domain_queries_report_bounds_and_containment() {
    let low_bit_unknown = Tnum::from_parts(2, 1);
    assert!(low_bit_unknown.is_defined());
    assert!(low_bit_unknown.has_value());
    assert_eq!(low_bit_unknown.unsigned_bounds(), (2, 3));
    assert_eq!(low_bit_unknown.signed_bounds(), (2, 3));
    assert!(low_bit_unknown.contains(Tnum::from_value(2)));
    assert!(low_bit_unknown.contains(Tnum::from_value(3)));
    assert!(!Tnum::from_value(2).contains(low_bit_unknown));

    let sign_unknown = Tnum::from_parts(5, 1 << 63);
    assert_eq!(sign_unknown.signed_bounds(), (i64::MIN + 5, 5));
}

#[test]
fn tnum_union_and_intersection_have_set_semantics() {
    let left = Tnum::from_parts(0b0001, 0b0110);
    let right = Tnum::from_parts(0b0011, 0b0100);
    let union = left.union(right);
    let intersection = left.intersection(right);

    for value in 0..16 {
        assert!(union.contains_value(value) || !left.contains_value(value));
        assert!(union.contains_value(value) || !right.contains_value(value));
        assert_eq!(
            intersection.contains_value(value),
            left.contains_value(value) && right.contains_value(value)
        );
    }

    let empty = Tnum::from_value(1).intersection(Tnum::from_value(2));
    assert!(!empty.has_value());
    assert_eq!(empty.union(left), left);
}

#[test]
fn tnum_reduced_width_operations_contain_all_concrete_results() {
    const WIDTH: u32 = 4;
    const LIMIT: u64 = 1 << WIDTH;

    let domains: Vec<_> = (0..LIMIT)
        .flat_map(|mask| {
            (0..LIMIT)
                .filter(move |value| value & mask == 0)
                .map(move |value| Tnum::from_parts(value, mask))
        })
        .collect();

    for &left in &domains {
        for a in (0..LIMIT).filter(|&value| left.contains_value(value)) {
            assert!((!left).contains_value(!a));

            for raw_shift in u8::MIN..=u8::MAX {
                let shift = u32::from(raw_shift).rem_euclid(64);
                assert!((left << raw_shift).contains_value(a.wrapping_shl(shift)));
                assert!((left >> raw_shift).contains_value(a.wrapping_shr(shift)));
            }
        }

        for &right in &domains {
            for a in (0..LIMIT).filter(|&value| left.contains_value(value)) {
                for b in (0..LIMIT).filter(|&value| right.contains_value(value)) {
                    assert!((left & right).contains_value(a & b));
                    assert!((left | right).contains_value(a | b));
                    assert!((left ^ right).contains_value(a ^ b));
                    assert!((left + right).contains_value(a.wrapping_add(b)));
                }
            }
        }
    }
}

fn samples() -> Vec<u64> {
    vec![
        0,
        1,
        2,
        3,
        7,
        0xff,
        0x1234_5678_9abc_def0,
        i64::MAX as u64,
        1 << 63,
        u64::MAX - 1,
        u64::MAX,
    ]
}

#[test]
fn constant_addition_wraps() {
    for a in samples() {
        for b in samples() {
            let tr = Tnum::from_value(a) + Tnum::from_value(b);
            let r = a.wrapping_add(b);
            assert_eq!(Some(r), tr.value());
        }
    }
}

#[test]
fn constants_round_trip_and_bound_themselves() {
    for x in samples() {
        let t = Tnum::from_value(x);
        assert_eq!(t.value(), Some(x));
        assert_eq!(t.parts(), Some((x, 0)));
        assert_eq!(t.min_value(), Some(x));
        assert_eq!(t.max_value(), Some(x));
        assert!(t.contains_value(x));
        assert!(!t.contains_value(x ^ 1));
        assert_eq!(t.signed_bounds(), (x as i64, x as i64));
    }
}

#[test]
fn from_parts_clears_value_bits_under_the_mask() {
    let t = Tnum::from_parts(0b1111, 0b0101);
    assert_eq!(t.parts(), Some((0b1010, 0b0101)));
    assert_eq!(t.min_value(), Some(0b1010));
    assert_eq!(t.max_value(), Some(0b1111));
    assert!(!t.is_const());
    assert_eq!(t.value(), None);
}

#[test]
fn empty_tnum_has_nothing_and_absorbs() {
    let empty = Tnum::empty();
    assert!(!empty.has_value());
    assert!(!empty.is_defined());
    assert_eq!(empty.parts(), None);
    assert_eq!(empty.min_value(), None);
    assert_eq!(empty.max_value(), None);
    assert!(!empty.contains_value(0));
    let one = Tnum::from_value(1);
    assert!(!(empty | one).has_value());
    assert!(!(one & empty).has_value());
    assert!(!(empty ^ one).has_value());
    assert!(!(empty + one).has_value());
    assert!(!(!empty).has_value());
    assert!(!(empty << 3).has_value());
    assert!(one.contains(empty));
    assert!(!empty.contains(one));
    assert_eq!(one.union(empty), one);
}

#[test]
fn addition_with_unknown_low_bit_spreads_carries() {
    let sum = Tnum::from_parts(1, 1) + Tnum::from_value(1);
    assert_eq!(sum.parts(), Some((0, 3)));
    assert!(sum.contains_value(1));
    assert!(sum.contains_value(2));
}

#[test]
fn default_is_every_value() {
    let all = Tnum::default();
    assert_eq!(all.unsigned_bounds(), (0, u64::MAX));
    assert_eq!(all.signed_bounds(), (i64::MIN, i64::MAX));
    assert!(all.contains(Tnum::from_value(12345)));
}
