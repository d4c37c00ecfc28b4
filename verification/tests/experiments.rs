use numeric_domains::{BitRange, RangeSet, Tnum, WrappedInterval};

#[test]
fn wrapped_interval_keeps_overflow_result_compact() {
    let near_max = WrappedInterval::new(u64::MAX - 2, u64::MAX);
    let result = near_max + WrappedInterval::from_value(2);

    assert_eq!(result.bounds(), Some((u64::MAX, 1)));
    assert!(result.is_wrapping());
    assert_eq!(result.cardinality(), 3);
    assert!(result.contains_value(u64::MAX));
    assert!(result.contains_value(0));
    assert!(result.contains_value(1));
    assert!(!result.contains_value(2));
}

#[test]
fn two_ranges_preserve_a_branch_disjunction() {
    let values = RangeSet::<2>::from_range(10, 15).union(RangeSet::from_range(20, 30));

    assert_eq!(values.ranges(), &[(10, 15), (20, 30)]);
    assert!(!values.contains_value(17));
    assert_eq!(values.cardinality(), 17);
}

#[test]
fn capacity_fills_the_smallest_gap_first() {
    let values = RangeSet::<2>::from_value(0)
        .union(RangeSet::from_value(10))
        .union(RangeSet::from_value(12));

    assert_eq!(values.ranges(), &[(0, 0), (10, 12)]);
    assert!(!values.contains_value(5));
}

#[test]
fn range_set_addition_preserves_wrapping_as_two_pieces() {
    let result = RangeSet::<2>::from_range(u64::MAX - 2, u64::MAX) + RangeSet::from_value(2);

    assert_eq!(result.ranges(), &[(0, 1), (u64::MAX, u64::MAX)]);
    assert_eq!(result.cardinality(), 3);
}

#[test]
fn reduced_product_is_stricter_than_either_component() {
    let value = BitRange::<2>::new(
        RangeSet::from_range(8, 11),
        Tnum::from_parts(0, u64::MAX - 1),
    );

    assert!(value.contains_value(8));
    assert!(!value.contains_value(9));
    assert!(value.contains_value(10));
    assert!(!value.contains_value(11));
}

#[test]
fn reduction_moves_common_prefix_bits_out_of_ranges() {
    let value = BitRange::<2>::from_ranges(RangeSet::from_range(0x1200, 0x12ff));
    let (known, unknown) = value.bits().parts().unwrap();

    assert_eq!(known, 0x1200);
    assert_eq!(unknown, 0xff);
}

#[test]
fn incompatible_components_reduce_to_empty() {
    let value = BitRange::<2>::new(RangeSet::from_range(0, 7), Tnum::from_parts(8, 0));
    assert!(value.is_empty());
}

fn starts() -> Vec<u64> {
    vec![0, 1, 100, 1 << 40, i64::MAX as u64, 1 << 63, u64::MAX - 1000, u64::MAX - 3, u64::MAX]
}

#[test]
fn wrapped_add_contains_concrete_results() {
    for a_low in starts() {
        for b_low in starts() {
            for (a_len, b_len) in [(0u64, 0u64), (3, 5), (1023, 1), (500, 700)] {
                let left = WrappedInterval::new(a_low, a_low.wrapping_add(a_len));
                let right = WrappedInterval::new(b_low, b_low.wrapping_add(b_len));
                let sum = left + right;
                for (ai, bi) in [(0u64, 0u64), (a_len, b_len), (a_len / 2, 0), (0, b_len)] {
                    let a = a_low.wrapping_add(ai);
                    let b = b_low.wrapping_add(bi);
                    assert!(sum.contains_value(a.wrapping_add(b)));
                }
            }
        }
    }
}

#[test]
fn range_set_add_contains_concrete_results() {
    for a_low in starts() {
        for b_low in starts() {
            for (a_len, b_len) in [(0u64, 0u64), (3, 5), (63, 1), (40, 63)] {
                let a_high = a_low.saturating_add(a_len);
                let b_high = b_low.saturating_add(b_len);
                let left = RangeSet::<2>::from_range(a_low, a_high);
                let right = RangeSet::<2>::from_range(b_low, b_high);
                let sum = left + right;
                for (ai, bi) in [(0u64, 0u64), (a_len, b_len), (a_len / 2, 1), (0, b_len)] {
                    let a = a_low + ai % (a_high - a_low + 1);
                    let b = b_low + bi % (b_high - b_low + 1);
                    assert!(sum.contains_value(a.wrapping_add(b)));
                }
            }
        }
    }
}

#[test]
fn wrapped_interval_queries() {
    let empty = WrappedInterval::empty();
    assert_eq!(empty.bounds(), None);
    assert_eq!(empty.cardinality(), 0);
    assert!(!empty.contains_value(0));
    let full = WrappedInterval::default();
    assert_eq!(full.cardinality(), 1u128 << 64);
    assert!(full.contains_value(12345));
    assert!(!full.is_wrapping());
    let plain = WrappedInterval::new(5, 9);
    assert_eq!(plain.cardinality(), 5);
    assert!(!plain.is_wrapping());
    assert!(plain.contains_value(5) && plain.contains_value(9) && !plain.contains_value(10));
    assert_eq!(full + plain, full);
    assert_eq!(empty + plain, empty);
    let big = WrappedInterval::new(0, u64::MAX - 1);
    assert_eq!(big + WrappedInterval::new(3, 4), full);
}

#[test]
fn wrapped_interval_splits_into_range_sets_exactly() {
    let wrapping = WrappedInterval::new(u64::MAX - 1, 2);
    let split = wrapping.as_range_set();
    assert_eq!(split.ranges(), &[(0, 2), (u64::MAX - 1, u64::MAX)]);
    assert_eq!(split.cardinality(), wrapping.cardinality());
    let whole = WrappedInterval::new(7, 6).as_range_set();
    assert_eq!(whole.ranges(), &[(0, u64::MAX)]);
    assert_eq!(WrappedInterval::new(3, 8).as_range_set().ranges(), &[(3, 8)]);
    assert_eq!(WrappedInterval::empty().as_range_set().ranges(), &[] as &[(u64, u64)]);
    assert_eq!(WrappedInterval::full().as_range_set().ranges(), &[(0, u64::MAX)]);
}

#[test]
fn range_set_union_merges_touching_intervals() {
    let values = RangeSet::<2>::from_range(0, 4).union(RangeSet::from_range(5, 9));
    assert_eq!(values.ranges(), &[(0, 9)]);
    let overlapping = RangeSet::<2>::from_range(3, 8).union(RangeSet::from_range(0, 5));
    assert_eq!(overlapping.ranges(), &[(0, 8)]);
    assert_eq!(overlapping.cardinality(), 9);
}

#[test]
fn range_set_intersection_and_emptiness() {
    let a = RangeSet::<2>::from_range(0, 10).union(RangeSet::from_range(20, 30));
    let b = RangeSet::<2>::from_range(5, 25);
    assert_eq!(a.intersection(b).ranges(), &[(5, 10), (20, 25)]);
    let none = RangeSet::<2>::from_range(0, 1).intersection(RangeSet::from_range(5, 6));
    assert!(none.is_empty());
    assert_eq!(none.cardinality(), 0);
    assert!(RangeSet::<2>::empty().is_empty());
    assert_eq!(RangeSet::<2>::full().cardinality(), 1u128 << 64);
    assert_eq!(RangeSet::<2>::default(), RangeSet::<2>::full());
    let three_gaps = RangeSet::<3>::from_value(0)
        .union(RangeSet::from_value(4))
        .union(RangeSet::from_value(6))
        .union(RangeSet::from_value(20));
    assert_eq!(three_gaps.ranges(), &[(0, 0), (4, 6), (20, 20)]);
}

#[test]
fn bit_range_operations() {
    let a = BitRange::<2>::from_value(6);
    assert!(a.contains_value(6));
    assert!(!a.contains_value(7));
    let b = BitRange::<2>::from_value(9);
    let joined = a.union(b);
    assert!(joined.contains_value(6) && joined.contains_value(9));
    let sum = a + b;
    assert!(sum.contains_value(15));
    let met = joined.intersection(BitRange::<2>::from_bits(Tnum::from_parts(0, 0b1110)));
    assert!(met.contains_value(6));
    assert!(!met.contains_value(9));
    let all = BitRange::<2>::default();
    assert!(all.contains_value(0) && all.contains_value(u64::MAX));
    assert!(!all.is_empty());
    assert_eq!(all.ranges(), RangeSet::<2>::full());
}
