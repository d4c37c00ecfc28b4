use vstd::prelude::*;

use crate::range_set::{
    RangeSet,
    canonical,
    canonical_of,
    covers,
    in_range,
    is_canonical_of,
    lemma_canonical_of_exact,
    union_cover,
};
use crate::word::{lemma_wrapping_add, lemma_wrapping_sub, wadd, word_modulus, wsub};

verus! {

/// One inclusive interval on the circle of integers modulo 2^64: the clockwise arc from
/// `low` through `high`, which wraps past zero when `low > high`.
#[derive(Debug, Clone, Copy, PartialEq, Eq)]
pub struct WrappedInterval {
    low: u64,
    high: u64,
    empty: bool,
    full: bool,
}

impl WrappedInterval {
    /// The first value of the arc.
    pub closed spec fn start(self) -> u64 {
        self.low
    }

    /// The last value of the arc.
    pub closed spec fn end(self) -> u64 {
        self.high
    }

    /// Whether this is the empty set.
    pub closed spec fn is_bottom(self) -> bool {
        self.empty
    }

    /// Whether this is the whole circle.
    pub closed spec fn is_top(self) -> bool {
        self.full
    }

    /// Membership of a concrete value.
    pub open spec fn has(self, v: u64) -> bool {
        if self.is_bottom() {
            false
        } else if self.is_top() {
            true
        } else if self.start() <= self.end() {
            self.start() <= v <= self.end()
        } else {
            v >= self.start() || v <= self.end()
        }
    }

    /// The number of values on the arc.
    pub open spec fn spec_cardinality(self) -> int {
        if self.is_bottom() {
            0
        } else if self.is_top() {
            word_modulus()
        } else {
            wsub(self.end(), self.start()) + 1
        }
    }

    /// The empty set, stored with both ends 0.
    pub open spec fn stores_empty(self) -> bool {
        self.is_bottom() && !self.is_top() && self.start() == 0 && self.end() == 0
    }

    /// The whole circle, stored as the arc from 0 through `u64::MAX`.
    pub open spec fn stores_full(self) -> bool {
        !self.is_bottom() && self.is_top() && self.start() == 0 && self.end() == u64::MAX
    }

    /// A proper arc from `low` through `high`.
    pub open spec fn stores_arc(self, low: u64, high: u64) -> bool {
        !self.is_bottom() && !self.is_top() && self.start() == low && self.end() == high
    }

    /// The stored form of a sum: empty where an operand is empty; the whole circle where an
    /// operand is, or the two arcs together are longer than it; else the arc from the sum
    /// of the starts through the sum of the ends.
    pub open spec fn add_stored(self, other: WrappedInterval, r: WrappedInterval) -> bool {
        if self.is_bottom() || other.is_bottom() {
            r.stores_empty()
        } else if self.is_top() || other.is_top() || self.spec_cardinality()
            + other.spec_cardinality() > word_modulus() {
            r.stores_full()
        } else {
            r.stores_arc(wadd(self.start(), other.start()), wadd(self.end(), other.end()))
        }
    }

    pub closed spec fn spec_empty() -> WrappedInterval {
        WrappedInterval { low: 0, high: 0, empty: true, full: false }
    }

    pub closed spec fn spec_full() -> WrappedInterval {
        WrappedInterval { low: 0, high: u64::MAX, empty: false, full: true }
    }

    pub closed spec fn spec_new(low: u64, high: u64) -> WrappedInterval {
        WrappedInterval { low, high, empty: false, full: false }
    }

    pub closed spec fn spec_add(self, other: WrappedInterval) -> WrappedInterval {
        if self.empty || other.empty {
            WrappedInterval::spec_empty()
        } else if self.full || other.full || self.spec_cardinality() + other.spec_cardinality()
            > word_modulus() {
            WrappedInterval::spec_full()
        } else {
            WrappedInterval::spec_new(wadd(self.low, other.low), wadd(self.high, other.high))
        }
    }

    /// The empty set.
    pub fn empty() -> (r: Self)
        ensures
            r == WrappedInterval::spec_empty(),
            r.stores_empty(),
            forall|v: u64| !r.has(v),
    {
        Self { low: 0, high: 0, empty: true, full: false }
    }

    /// The whole circle.
    pub fn full() -> (r: Self)
        ensures
            r == WrappedInterval::spec_full(),
            r.stores_full(),
            forall|v: u64| r.has(v),
    {
        Self { low: 0, high: u64::MAX, empty: false, full: true }
    }

    /// The clockwise arc from `low` through `high`, inclusive; `low > high` wraps.
    pub fn new(low: u64, high: u64) -> (r: Self)
        ensures
            r == WrappedInterval::spec_new(low, high),
            r.start() == low && r.end() == high && !r.is_bottom() && !r.is_top(),
    {
        Self { low, high, empty: false, full: false }
    }

    /// The single value `value`.
    pub fn from_value(value: u64) -> (r: Self)
        ensures
            r == WrappedInterval::spec_new(value, value),
            r.stores_arc(value, value),
            forall|v: u64| #[trigger] r.has(v) <==> v == value,
    {
        Self::new(value, value)
    }

    /// The first and last values of the arc, or `None` for the empty set.
    pub fn bounds(&self) -> (r: Option<(u64, u64)>)
        ensures
            r == (if self.is_bottom() { None } else { Some((self.start(), self.end())) }),
    {
        if self.empty {
            None
        } else {
            Some((self.low, self.high))
        }
    }

    /// Whether the arc passes from `u64::MAX` to zero.
    pub fn is_wrapping(&self) -> (r: bool)
        ensures
            r == (!self.is_bottom() && !self.is_top() && self.start() > self.end()),
    {
        !self.empty && !self.full && self.low > self.high
    }

    /// Whether `value` is on the arc.
    pub fn contains_value(&self, value: u64) -> (r: bool)
        ensures
            r == self.has(value),
    {
        if self.empty {
            false
        } else if self.full {
            true
        } else if self.low <= self.high {
            self.low <= value && value <= self.high
        } else {
            value >= self.low || value <= self.high
        }
    }

    /// The number of values on the arc.
    pub fn cardinality(&self) -> (r: u128)
        ensures
            r == self.spec_cardinality(),
            r == member_set(*self).len(),
    {
        proof {
            lemma_cardinality_counts(*self);
        }
        if self.empty {
            0
        } else if self.full {
            0x1_0000_0000_0000_0000u128
        } else {
            proof {
                lemma_wrapping_sub(self.high, self.low);
            }
            (self.high.wrapping_sub(self.low) as u128) + 1
        }
    }
}

impl WrappedInterval {
    /// The same values as a set of two linear intervals, split at zero; exact.
    pub fn as_range_set(&self) -> (r: RangeSet<2>)
        ensures
            forall|v: u64| #[trigger] r.has(v) == self.has(v),
    {
        if self.empty {
            RangeSet::empty()
        } else if self.full {
            let r = RangeSet::full();
            assert forall|v: u64| #[trigger] r.has(v) == self.has(v) by {
                assert(in_range(r@[0], v));
            }
            r
        } else if self.low <= self.high {
            let r = RangeSet::from_range(self.low, self.high);
            assert forall|v: u64| #[trigger] r.has(v) == self.has(v) by {
                if self.has(v) {
                    assert(in_range(r@[0], v));
                }
            }
            r
        } else {
            let upper = RangeSet::<2>::from_range(self.low, u64::MAX);
            let lower = RangeSet::<2>::from_range(0, self.high);
            let r = upper.union(lower);
            proof {
                let c = union_cover(upper@, lower@);
                let m = if self.low > self.high + 1 {
                    seq![(0u64, self.high), (self.low, u64::MAX)]
                } else {
                    seq![(0u64, u64::MAX)]
                };
                assert forall|v: u64| #[trigger] covers(m, v) == c(v) by {
                    if c(v) {
                        if v >= self.low {
                            assert(in_range(upper@[0], v));
                            if self.low > self.high + 1 {
                                assert(in_range(m[1], v));
                            } else {
                                assert(in_range(m[0], v));
                            }
                        } else {
                            assert(in_range(m[0], v));
                        }
                    }
                    if covers(m, v) {
                        if v >= self.low {
                            assert(in_range(upper@[0], v));
                        } else {
                            assert(in_range(lower@[0], v));
                        }
                    }
                }
                assert(canonical(m));
                assert(is_canonical_of(m, c));
                lemma_canonical_of_exact(m, c);
                assert forall|v: u64| #[trigger] r.has(v) == self.has(v) by {
                    if v >= self.low {
                        assert(in_range(upper@[0], v));
                    }
                    if v <= self.high {
                        assert(in_range(lower@[0], v));
                    }
                }
            }
            r
        }
    }

    /// Wrapping addition of every pair of values: the arc from the sum of the starts to the
    /// sum of the ends, or the whole circle when the two arcs together are longer than it.
    pub fn add(self, other: Self) -> (r: Self)
        ensures
            r == self.spec_add(other),
            self.add_stored(other, r),
    {
        if self.empty || other.empty {
            return Self::empty();
        }
        if self.full || other.full || self.cardinality() + other.cardinality()
            > 0x1_0000_0000_0000_0000u128 {
            return Self::full();
        }
        proof {
            lemma_wrapping_add(self.low, other.low);
            lemma_wrapping_add(self.high, other.high);
        }
        Self::new(self.low.wrapping_add(other.low), self.high.wrapping_add(other.high))
    }
}

/// On an arc that is neither empty nor the whole circle, a value is a member exactly when
/// its clockwise distance from the start is below the cardinality.
pub proof fn lemma_member_by_offset(a: WrappedInterval, v: u64)
    requires
        !a.is_bottom(),
        !a.is_top(),
    ensures
        a.has(v) <==> wsub(v, a.start()) < a.spec_cardinality(),
{
}

/// The wrapping sum of members is a member of the sum.
pub proof fn lemma_add_sound(a: WrappedInterval, b: WrappedInterval, x: u64, y: u64)
    requires
        a.has(x),
        b.has(y),
    ensures
        a.spec_add(b).has(wadd(x, y)),
{
    if !a.full && !b.full && a.spec_cardinality() + b.spec_cardinality() <= word_modulus() {
        lemma_member_by_offset(a, x);
        lemma_member_by_offset(b, y);
        let r = a.spec_add(b);
        lemma_member_by_offset(r, wadd(x, y));
    }
}

/// Every member of the sum is the wrapping sum of a member of each operand.
pub proof fn lemma_add_exact(a: WrappedInterval, b: WrappedInterval, z: u64)
    requires
        a.spec_add(b).has(z),
    ensures
        exists|x: u64, y: u64| a.has(x) && b.has(y) && wadd(x, y) == z,
{
    if a.full {
        let y = b.low;
        let x = wsub(z, y);
        assert(a.has(x) && b.has(y) && wadd(x, y) == z);
    } else if b.full {
        let x = a.low;
        let y = wsub(z, x);
        assert(a.has(x) && b.has(y) && wadd(x, y) == z);
    } else {
        let ca = a.spec_cardinality();
        let cb = b.spec_cardinality();
        let d = wsub(z, wadd(a.low, b.low)) as int;
        if ca + cb <= word_modulus() {
            let r = a.spec_add(b);
            lemma_member_by_offset(r, z);
        }
        let i: int = if d < ca { d } else { ca - 1 };
        let j: int = d - i;
        assert(0 <= j < cb);
        let x = wadd(a.low, i as u64);
        let y = wadd(b.low, j as u64);
        lemma_member_by_offset(a, x);
        lemma_member_by_offset(b, y);
        assert(wadd(x, y) == z);
        assert(a.has(x) && b.has(y) && wadd(x, y) == z);
    }
}

impl Default for WrappedInterval {
    /// The whole circle.
    fn default() -> (r: Self)
        ensures
            r == WrappedInterval::spec_full(),
            r.stores_full(),
    {
        Self::full()
    }
}

} // verus!

verus! {

impl vstd::std_specs::ops::AddSpecImpl for WrappedInterval {
    open spec fn obeys_add_spec() -> bool {
        true
    }

    open spec fn add_req(self, rhs: WrappedInterval) -> bool {
        true
    }

    open spec fn add_spec(self, rhs: WrappedInterval) -> WrappedInterval {
        self.spec_add(rhs)
    }
}

impl core::ops::Add for WrappedInterval {
    type Output = WrappedInterval;

    fn add(self, other: WrappedInterval) -> (r: WrappedInterval)
        ensures
            r == self.spec_add(other),
            self.add_stored(other, r),
    {
        WrappedInterval::add(self, other)
    }
}

} // verus!

verus! {

use vstd::set_lib::{set_int_range, lemma_int_range, lemma_set_disjoint_lens};

/// The values on an arc, as integers.
pub open spec fn member_set(a: WrappedInterval) -> Set<int> {
    Set::new(|v: int| 0 <= v <= u64::MAX && a.has(v as u64))
}

/// The cardinality is the number of values on the arc.
pub proof fn lemma_cardinality_counts(a: WrappedInterval)
    ensures
        member_set(a).finite(),
        member_set(a).len() == a.spec_cardinality(),
{
    if a.is_bottom() {
        assert(member_set(a) =~= Set::<int>::empty());
    } else if a.is_top() {
        assert(member_set(a) =~= set_int_range(0, word_modulus()));
        lemma_int_range(0, word_modulus());
    } else if a.start() <= a.end() {
        assert(member_set(a) =~= set_int_range(a.start() as int, a.end() + 1));
        lemma_int_range(a.start() as int, a.end() + 1);
    } else {
        let upper = set_int_range(a.start() as int, word_modulus());
        let lower = set_int_range(0, a.end() + 1);
        lemma_int_range(a.start() as int, word_modulus());
        lemma_int_range(0, a.end() + 1);
        assert(member_set(a) =~= upper + lower);
        assert(upper.disjoint(lower));
        lemma_set_disjoint_lens(upper, lower);
    }
}

} // verus!
