use numeric_domains::simple_tnum::Tnum;

fn samples() -> Vec<u64> {
    vec![
        0,
        1,
        2,
        5,
        7,
        100,
        0x1234,
        1 << 40,
        0x1234_5678_9abc_def0,
        i64::MAX as u64,
        1 << 63,
        u64::MAX - 1,
        u64::MAX,
    ]
}

#[test]
fn exact_addition() {
    for a in samples() {
        for b in samples() {
            let tr = Tnum::from_value(a) + Tnum::from_value(b);
            let r = a.wrapping_add(b);
            assert_eq!(Some(r), tr.value());
        }
    }
}

#[test]
fn simple_constants_and_default() {
    let t = Tnum::from_value(9);
    assert!(t.is_const());
    assert_eq!(t.value(), Some(9));
    let all = Tnum::default();
    assert!(!all.is_const());
    assert_eq!(all.value(), None);
}

#[test]
fn simple_bitwise_formulas() {
    let one = Tnum::from_value(1);
    let two = Tnum::from_value(2);
    assert_eq!((one | two).value(), Some(3));
    assert_eq!((!one).value(), Some(!1));
    assert_eq!((one << 3).value(), Some(8));
    assert_eq!((Tnum::from_value(16) >> 2).value(), Some(4));
}
