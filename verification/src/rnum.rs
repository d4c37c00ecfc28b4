use vstd::prelude::*;

use crate::word::{signed, to_signed, to_unsigned, wadd, wmul, word_modulus, wsub};

verus! {

/// Range number: independent inclusive unsigned and signed bounds.
///
/// A value belongs to it when it lies within both the unsigned bounds and, read as a
/// two's-complement number, within the signed bounds.
#[derive(Debug, Clone, Copy, PartialEq, Eq)]
pub struct Rnum {
    max: u64,
    min: u64,
    smax: i64,
    smin: i64,
    empty: bool,
}

pub open spec fn min_int(a: int, b: int) -> int {
    if a <= b {
        a
    } else {
        b
    }
}

pub open spec fn max_int(a: int, b: int) -> int {
    if a >= b {
        a
    } else {
        b
    }
}

/// `(lo, hi)` where both lie within `[min, max]`, else the whole of `[min, max]`.
pub open spec fn fit_or_full(lo: int, hi: int, min: int, max: int) -> (int, int) {
    if min <= lo && hi <= max {
        (lo, hi)
    } else {
        (min, max)
    }
}

/// The signed bounds implied by the unsigned bounds `[lo, hi]`: their own signed readings
/// where the range lies on one side of the sign boundary, else the whole signed range.
pub open spec fn signed_of_unsigned(lo: u64, hi: u64) -> (int, int) {
    if hi <= i64::MAX || lo > i64::MAX {
        (signed(lo), signed(hi))
    } else {
        (i64::MIN as int, i64::MAX as int)
    }
}

/// Add the interval `[low, high]`, clipped to `[min, max]`, to an optional hull.
pub open spec fn spec_hull_with(
    result: Option<(u64, u64)>,
    low: int,
    high: int,
    min: u64,
    max: u64,
) -> Option<(u64, u64)> {
    let low = max_int(low, min as int);
    let high = min_int(high, max as int);
    if low <= high {
        match result {
            Some((a, b)) => Some((min_int(a as int, low) as u64, max_int(b as int, high) as u64)),
            None => Some((low as u64, high as u64)),
        }
    } else {
        result
    }
}

/// The least and greatest words within `[min, max]` whose signed reading lies within
/// `[smin, smax]`: the non-negative and the negative part of the signed range are clipped
/// to the unsigned range and joined.
pub open spec fn spec_extrema_of(min: u64, max: u64, smin: i64, smax: i64) -> Option<(u64, u64)> {
    let r0: Option<(u64, u64)> = None;
    let r1 = if smax >= 0 {
        spec_hull_with(r0, max_int(smin as int, 0), smax as int, min, max)
    } else {
        r0
    };
    if smin < 0 {
        spec_hull_with(r1, smin + word_modulus(), min_int(smax as int, -1) + word_modulus(), min, max)
    } else {
        r1
    }
}

impl Rnum {
    /// The unsigned lower bound.
    pub closed spec fn lower(self) -> u64 {
        self.min
    }

    /// The unsigned upper bound.
    pub closed spec fn upper(self) -> u64 {
        self.max
    }

    /// The signed lower bound.
    pub closed spec fn signed_lower(self) -> i64 {
        self.smin
    }

    /// The signed upper bound.
    pub closed spec fn signed_upper(self) -> i64 {
        self.smax
    }

    /// Whether this is marked as the empty set.
    pub closed spec fn is_bottom(self) -> bool {
        self.empty
    }

    /// Both stored ranges are ordered.
    #[verifier::type_invariant]
    pub closed spec fn wf(self) -> bool {
        self.min <= self.max && self.smin <= self.smax
    }

    /// Not empty, with exactly the given unsigned and signed bounds stored.
    pub open spec fn stores(self, unsigned: (int, int), signed: (int, int)) -> bool {
        &&& !self.is_bottom()
        &&& self.lower() == unsigned.0
        &&& self.upper() == unsigned.1
        &&& self.signed_lower() == signed.0
        &&& self.signed_upper() == signed.1
    }

    /// The empty set, with every stored bound 0.
    pub open spec fn stores_empty(self) -> bool {
        &&& self.is_bottom()
        &&& self.lower() == 0
        &&& self.upper() == 0
        &&& self.signed_lower() == 0
        &&& self.signed_upper() == 0
    }

    /// The stored bounds of a union: one operand where the other holds no value, else the
    /// outermost bounds of both.
    pub open spec fn union_stored(self, other: Rnum, r: Rnum) -> bool {
        if !self.spec_has_value() {
            r == other
        } else if !other.spec_has_value() {
            r == self
        } else {
            r.stores(
                (
                    min_int(self.lower() as int, other.lower() as int),
                    max_int(self.upper() as int, other.upper() as int),
                ),
                (
                    min_int(self.signed_lower() as int, other.signed_lower() as int),
                    max_int(self.signed_upper() as int, other.signed_upper() as int),
                ),
            )
        }
    }

    /// The stored bounds of an intersection: the innermost bounds of both operands, or the
    /// empty set where those hold no value.
    pub open spec fn intersection_stored(self, other: Rnum, r: Rnum) -> bool {
        let lo = max_int(self.lower() as int, other.lower() as int);
        let hi = min_int(self.upper() as int, other.upper() as int);
        let slo = max_int(self.signed_lower() as int, other.signed_lower() as int);
        let shi = min_int(self.signed_upper() as int, other.signed_upper() as int);
        if self.is_bottom() || other.is_bottom() || lo > hi || slo > shi || spec_extrema_of(
            lo as u64,
            hi as u64,
            slo as i64,
            shi as i64,
        ) is None {
            r.stores_empty()
        } else {
            r.stores((lo, hi), (slo, shi))
        }
    }

    /// The stored bounds of a sum: in each reading the sums of the bounds where they fit,
    /// else the whole reading.
    pub open spec fn add_stored(self, other: Rnum, r: Rnum) -> bool {
        if self.is_bottom() || other.is_bottom() {
            r.stores_empty()
        } else {
            r.stores(
                fit_or_full(
                    self.lower() + other.lower(),
                    self.upper() + other.upper(),
                    0,
                    u64::MAX as int,
                ),
                fit_or_full(
                    self.signed_lower() + other.signed_lower(),
                    self.signed_upper() + other.signed_upper(),
                    i64::MIN as int,
                    i64::MAX as int,
                ),
            )
        }
    }

    /// The stored bounds of a difference: in each reading the differences of the opposite
    /// bounds where they fit, else the whole reading.
    pub open spec fn sub_stored(self, other: Rnum, r: Rnum) -> bool {
        if self.is_bottom() || other.is_bottom() {
            r.stores_empty()
        } else {
            r.stores(
                fit_or_full(
                    self.lower() - other.upper(),
                    self.upper() - other.lower(),
                    0,
                    u64::MAX as int,
                ),
                fit_or_full(
                    self.signed_lower() - other.signed_upper(),
                    self.signed_upper() - other.signed_lower(),
                    i64::MIN as int,
                    i64::MAX as int,
                ),
            )
        }
    }

    /// The stored bounds of a complement: each reading reversed.
    pub open spec fn not_stored(self, r: Rnum) -> bool {
        if self.is_bottom() {
            r == self
        } else {
            r.stores(
                (u64::MAX - self.upper(), u64::MAX - self.lower()),
                (-1 - self.signed_upper(), -1 - self.signed_lower()),
            )
        }
    }

    /// The stored bounds of a product: unsigned, the products of the bounds where the
    /// greatest fits; signed, the same where both ranges are non-negative; else the whole
    /// reading.
    pub open spec fn mul_stored(self, other: Rnum, r: Rnum) -> bool {
        if self.is_bottom() || other.is_bottom() {
            r.stores_empty()
        } else {
            r.stores(
                fit_or_full(
                    self.lower() * other.lower(),
                    self.upper() * other.upper(),
                    0,
                    u64::MAX as int,
                ),
                if self.signed_lower() >= 0 && other.signed_lower() >= 0 {
                    fit_or_full(
                        self.signed_lower() * other.signed_lower(),
                        self.signed_upper() * other.signed_upper(),
                        i64::MIN as int,
                        i64::MAX as int,
                    )
                } else {
                    (i64::MIN as int, i64::MAX as int)
                },
            )
        }
    }

    /// Zero is the only value held.
    pub open spec fn only_zero(self) -> bool {
        self.spec_extrema() matches Some((_, hi)) && hi == 0
    }

    /// The stored bounds of a quotient whose divisor can be nonzero: the empty set where an
    /// operand holds no value, else the least dividend over the greatest divisor up to the
    /// greatest dividend over the least nonzero divisor bound, with the signed bounds these
    /// imply.
    pub open spec fn div_stored(self, other: Rnum, r: Rnum) -> bool {
        if !self.spec_has_value() || !other.spec_has_value() {
            r.stores_empty()
        } else {
            let lo = self.lower() / other.upper();
            let hi = self.upper() / (if other.lower() == 0 {
                1u64
            } else {
                other.lower()
            });
            r.stores((lo as int, hi as int), signed_of_unsigned(lo as u64, hi as u64))
        }
    }

    /// The stored bounds of a remainder: the empty set where an operand holds no value or
    /// the divisor can only be zero, else from 0 up to the lesser of the dividend's upper
    /// bound and the divisor's upper bound less one.
    pub open spec fn rem_stored(self, other: Rnum, r: Rnum) -> bool {
        if !self.spec_has_value() || !other.spec_has_value() || other.only_zero() {
            r.stores_empty()
        } else {
            let hi = min_int(self.upper() as int, other.upper() - 1) as u64;
            r.stores((0, hi as int), signed_of_unsigned(0, hi))
        }
    }

    /// Membership of a concrete value.
    pub open spec fn has(self, v: u64) -> bool {
        &&& !self.is_bottom()
        &&& self.lower() <= v <= self.upper()
        &&& self.signed_lower() <= signed(v) <= self.signed_upper()
    }

    /// `v` is the one and only member.
    pub open spec fn only_member(self, v: u64) -> bool {
        forall|x: u64| #[trigger] self.has(x) <==> x == v
    }

    /// Set inclusion of the concrete values of `other` in those of `self`.
    pub open spec fn includes(self, other: Rnum) -> bool {
        forall|v: u64| #[trigger] other.has(v) ==> self.has(v)
    }

    pub closed spec fn spec_empty() -> Rnum {
        Rnum { min: 0, max: 0, smin: 0, smax: 0, empty: true }
    }

    pub closed spec fn spec_full() -> Rnum {
        Rnum { min: 0, max: u64::MAX, smin: i64::MIN, smax: i64::MAX, empty: false }
    }

    pub closed spec fn spec_from_value(v: u64) -> Rnum {
        Rnum { min: v, max: v, smin: signed(v) as i64, smax: signed(v) as i64, empty: false }
    }

    /// Bounds `[lo, hi]` on the unsigned line, with the signed bounds they imply.
    pub closed spec fn spec_from_unsigned(lo: u64, hi: u64) -> Rnum {
        let (smin, smax) = if hi <= i64::MAX || lo > i64::MAX {
            (signed(lo) as i64, signed(hi) as i64)
        } else {
            (i64::MIN, i64::MAX)
        };
        Rnum { min: lo, max: hi, smin, smax, empty: false }
    }

    /// The least and greatest members, computed from the non-negative and negative parts
    /// of the signed range, each clipped to the unsigned range.
    pub open spec fn spec_extrema(self) -> Option<(u64, u64)> {
        if self.is_bottom() {
            None
        } else {
            spec_extrema_of(self.lower(), self.upper(), self.signed_lower(), self.signed_upper())
        }
    }

    pub open spec fn spec_has_value(self) -> bool {
        self.spec_extrema() is Some
    }

    pub closed spec fn spec_union(self, other: Rnum) -> Rnum {
        if self.empty || !self.spec_has_value() {
            other
        } else if other.empty || !other.spec_has_value() {
            self
        } else {
            Rnum {
                min: min_int(self.min as int, other.min as int) as u64,
                max: max_int(self.max as int, other.max as int) as u64,
                smin: min_int(self.smin as int, other.smin as int) as i64,
                smax: max_int(self.smax as int, other.smax as int) as i64,
                empty: false,
            }
        }
    }

    pub closed spec fn spec_intersection(self, other: Rnum) -> Rnum {
        if self.empty || other.empty {
            Rnum::spec_empty()
        } else {
            let result = Rnum {
                min: max_int(self.min as int, other.min as int) as u64,
                max: min_int(self.max as int, other.max as int) as u64,
                smin: max_int(self.smin as int, other.smin as int) as i64,
                smax: min_int(self.smax as int, other.smax as int) as i64,
                empty: false,
            };
            if result.min > result.max || result.smin > result.smax || !result.spec_has_value() {
                Rnum::spec_empty()
            } else {
                result
            }
        }
    }

    pub open spec fn spec_contains(self, other: Rnum) -> bool {
        !other.spec_has_value() || (self.spec_has_value() && self.lower() <= other.lower()
            && other.upper() <= self.upper() && self.signed_lower() <= other.signed_lower()
            && other.signed_upper() <= self.signed_upper())
    }

    pub closed spec fn spec_add(self, other: Rnum) -> Rnum {
        if self.empty || other.empty {
            Rnum::spec_empty()
        } else {
            let (min, max) = if self.max + other.max <= u64::MAX {
                ((self.min + other.min) as u64, (self.max + other.max) as u64)
            } else {
                (0u64, u64::MAX)
            };
            let (smin, smax) = if i64::MIN <= self.smin + other.smin && self.smax + other.smax
                <= i64::MAX {
                ((self.smin + other.smin) as i64, (self.smax + other.smax) as i64)
            } else {
                (i64::MIN, i64::MAX)
            };
            Rnum { min, max, smin, smax, empty: false }
        }
    }

    pub closed spec fn spec_sub(self, other: Rnum) -> Rnum {
        if self.empty || other.empty {
            Rnum::spec_empty()
        } else {
            let (min, max) = if self.min >= other.max {
                ((self.min - other.max) as u64, (self.max - other.min) as u64)
            } else {
                (0u64, u64::MAX)
            };
            let (smin, smax) = if i64::MIN <= self.smin - other.smax && self.smax - other.smin
                <= i64::MAX {
                ((self.smin - other.smax) as i64, (self.smax - other.smin) as i64)
            } else {
                (i64::MIN, i64::MAX)
            };
            Rnum { min, max, smin, smax, empty: false }
        }
    }

    pub open spec fn spec_neg(self) -> Rnum {
        Rnum::spec_from_value(0).spec_sub(self)
    }

    pub closed spec fn spec_not(self) -> Rnum {
        if self.empty {
            self
        } else {
            Rnum {
                min: (u64::MAX - self.max) as u64,
                max: (u64::MAX - self.min) as u64,
                smin: (-1 - self.smax) as i64,
                smax: (-1 - self.smin) as i64,
                empty: false,
            }
        }
    }

    pub closed spec fn spec_mul(self, other: Rnum) -> Rnum {
        if self.empty || other.empty {
            Rnum::spec_empty()
        } else {
            let (min, max) = if self.max * other.max <= u64::MAX {
                ((self.min * other.min) as u64, (self.max * other.max) as u64)
            } else {
                (0u64, u64::MAX)
            };
            let (smin, smax) = if self.smin >= 0 && other.smin >= 0 && self.smax * other.smax
                <= i64::MAX {
                ((self.smin * other.smin) as i64, (self.smax * other.smax) as i64)
            } else {
                (i64::MIN, i64::MAX)
            };
            Rnum { min, max, smin, smax, empty: false }
        }
    }

    pub closed spec fn spec_checked_div(self, other: Rnum) -> Option<Rnum> {
        if other.spec_extrema() matches Some((_, hi)) && hi == 0 {
            None
        } else if !self.spec_has_value() || !other.spec_has_value() {
            Some(Rnum::spec_empty())
        } else {
            let divisor_min = if other.min == 0 {
                1u64
            } else {
                other.min
            };
            Some(Rnum::spec_from_unsigned(self.min / other.max, self.max / divisor_min))
        }
    }

    pub open spec fn spec_div(self, other: Rnum) -> Rnum {
        match self.spec_checked_div(other) {
            Some(r) => r,
            None => Rnum::spec_empty(),
        }
    }

    pub closed spec fn spec_rem(self, other: Rnum) -> Rnum {
        if !self.spec_has_value() || !other.spec_has_value() {
            Rnum::spec_empty()
        } else if other.spec_extrema() matches Some((_, hi)) && hi == 0 {
            Rnum::spec_empty()
        } else {
            Rnum::spec_from_unsigned(
                0,
                min_int(self.max as int, other.max - 1) as u64,
            )
        }
    }

    /// Independent inclusive unsigned and signed ranges; `None` when either is reversed.
    pub fn new(min: u64, max: u64, smin: i64, smax: i64) -> (r: Option<Self>)
        ensures
            r is Some <==> (min <= max && smin <= smax),
            r matches Some(n) ==> n.lower() == min && n.upper() == max && n.signed_lower() == smin
                && n.signed_upper() == smax && !n.is_bottom(),
    {
        if min <= max && smin <= smax {
            Some(Self { min, max, smin, smax, empty: false })
        } else {
            None
        }
    }

    /// The range of exactly one value, in both readings.
    pub fn from_value(value: u64) -> (r: Self)
        ensures
            r == Rnum::spec_from_value(value),
            r.stores((value as int, value as int), (signed(value), signed(value))),
            r.only_member(value),
    {
        let signed_value = to_signed(value);
        Self { min: value, max: value, smin: signed_value, smax: signed_value, empty: false }
    }

    /// The unsigned bounds, as stored.
    pub fn unsigned_bounds(&self) -> (r: (u64, u64))
        ensures
            r == (self.lower(), self.upper()),
    {
        (self.min, self.max)
    }

    /// The signed bounds, as stored.
    pub fn signed_bounds(&self) -> (r: (i64, i64))
        ensures
            r == (self.signed_lower(), self.signed_upper()),
    {
        (self.smin, self.smax)
    }

    /// Whether the domain contains exactly one machine value.
    pub fn is_const(&self) -> (r: bool)
        ensures
            r == (self.spec_extrema() matches Some((lo, hi)) && lo == hi),
    {
        match (self.min_value(), self.max_value()) {
            (Some(min), Some(max)) => min == max,
            _ => false,
        }
    }

    /// The sole contained value, if this domain is constant.
    pub fn value(&self) -> (r: Option<u64>)
        ensures
            r == (match self.spec_extrema() {
                Some((lo, hi)) => if lo == hi {
                    Some(lo)
                } else {
                    None
                },
                None => None,
            }),
    {
        let min = self.min_value()?;
        if self.max_value() == Some(min) {
            Some(min)
        } else {
            None
        }
    }

    /// Whether the domain contains at least one machine value.
    pub fn is_defined(&self) -> (r: bool)
        ensures
            r == self.spec_has_value(),
    {
        self.has_value()
    }

    /// Whether `value` lies within both the unsigned and the signed bounds.
    pub fn contains_value(&self, value: u64) -> (r: bool)
        ensures
            r == self.has(value),
    {
        let signed_value = to_signed(value);
        !self.empty && self.min <= value && value <= self.max && self.smin <= signed_value
            && signed_value <= self.smax
    }

    /// The least bounds containing the bounds of both operands.
    pub fn union(&self, other: Self) -> (r: Self)
        ensures
            r == self.spec_union(other),
            self.union_stored(other, r),
    {
        proof {
            use_type_invariant(self);
            use_type_invariant(&other);
        }
        if self.empty || !self.has_value() {
            return other;
        }
        if other.empty || !other.has_value() {
            return *self;
        }
        Self {
            min: if self.min <= other.min { self.min } else { other.min },
            max: if self.max >= other.max { self.max } else { other.max },
            smin: if self.smin <= other.smin { self.smin } else { other.smin },
            smax: if self.smax >= other.smax { self.smax } else { other.smax },
            empty: false,
        }
    }

    /// The values represented by both operands.
    pub fn intersection(&self, other: Self) -> (r: Self)
        ensures
            r == self.spec_intersection(other),
            self.intersection_stored(other, r),
    {
        if self.empty || other.empty {
            return Self::empty();
        }
        let min = if self.min >= other.min { self.min } else { other.min };
        let max = if self.max <= other.max { self.max } else { other.max };
        let smin = if self.smin >= other.smin { self.smin } else { other.smin };
        let smax = if self.smax <= other.smax { self.smax } else { other.smax };
        if min > max || smin > smax || Self::extrema_of(min, max, smin, smax).is_none() {
            Self::empty()
        } else {
            Self { min, max, smin, smax, empty: false }
        }
    }

    /// Whether the bounds of `self` include all bounds of `other`.
    pub fn contains(&self, other: Self) -> (r: bool)
        ensures
            r == self.spec_contains(other),
    {
        !other.has_value() || (self.has_value() && self.min <= other.min && other.max <= self.max
            && self.smin <= other.smin && other.smax <= self.smax)
    }

    /// Whether any value is represented.
    pub fn has_value(&self) -> (r: bool)
        ensures
            r == self.spec_has_value(),
    {
        self.extrema().is_some()
    }

    /// The least represented value, if any.
    pub fn min_value(&self) -> (r: Option<u64>)
        ensures
            r == (match self.spec_extrema() {
                Some((lo, _)) => Some(lo),
                None => None,
            }),
    {
        match self.extrema() {
            Some((min, _)) => Some(min),
            None => None,
        }
    }

    /// The greatest represented value, if any.
    pub fn max_value(&self) -> (r: Option<u64>)
        ensures
            r == (match self.spec_extrema() {
                Some((_, hi)) => Some(hi),
                None => None,
            }),
    {
        match self.extrema() {
            Some((_, max)) => Some(max),
            None => None,
        }
    }

    fn hull_with(result: Option<(u64, u64)>, low: u64, high: u64, min: u64, max: u64) -> (r: Option<
        (u64, u64),
    >)
        ensures
            r == spec_hull_with(result, low as int, high as int, min, max),
    {
        let low = if low >= min { low } else { min };
        let high = if high <= max { high } else { max };
        if low <= high {
            Some(
                match result {
                    Some((a, b)) => (if a <= low { a } else { low }, if b >= high { b } else { high }),
                    None => (low, high),
                },
            )
        } else {
            result
        }
    }

    fn extrema(&self) -> (r: Option<(u64, u64)>)
        ensures
            r == self.spec_extrema(),
    {
        if self.empty {
            return None;
        }
        Self::extrema_of(self.min, self.max, self.smin, self.smax)
    }

    fn extrema_of(min: u64, max: u64, smin: i64, smax: i64) -> (r: Option<(u64, u64)>)
        ensures
            r == spec_extrema_of(min, max, smin, smax),
    {
        let mut result: Option<(u64, u64)> = None;
        if smax >= 0 {
            let low: u64 = if smin >= 0 { smin as u64 } else { 0 };
            result = Self::hull_with(result, low, smax as u64, min, max);
        }
        if smin < 0 {
            let high: i64 = if smax <= -1 { smax } else { -1 };
            result = Self::hull_with(result, to_unsigned(smin), to_unsigned(high), min, max);
        }
        result
    }

    fn empty() -> (r: Self)
        ensures
            r == Rnum::spec_empty(),
    {
        Self { min: 0, max: 0, smin: 0, smax: 0, empty: true }
    }

    /// Bounds `[lo, hi]` on the unsigned line, with the signed bounds they imply.
    fn from_unsigned(lo: u64, hi: u64) -> (r: Self)
        requires
            lo <= hi,
        ensures
            r == Rnum::spec_from_unsigned(lo, hi),
    {
        if hi <= 0x7fff_ffff_ffff_ffff || lo > 0x7fff_ffff_ffff_ffff {
            Self { min: lo, max: hi, smin: to_signed(lo), smax: to_signed(hi), empty: false }
        } else {
            Self { min: lo, max: hi, smin: i64::MIN, smax: i64::MAX, empty: false }
        }
    }

    /// Wrapping addition. Each reading keeps the sums of its bounds unless one of them
    /// overflows, in which case that reading becomes unbounded.
    pub fn add(self, other: Self) -> (r: Self)
        ensures
            r == self.spec_add(other),
            self.add_stored(other, r),
    {
        proof {
            use_type_invariant(&self);
            use_type_invariant(&other);
        }
        if self.empty || other.empty {
            return Self::empty();
        }
        let (min, max) = match (self.min.checked_add(other.min), self.max.checked_add(other.max)) {
            (Some(min), Some(max)) => (min, max),
            _ => (0, u64::MAX),
        };
        let (smin, smax) = match (
            self.smin.checked_add(other.smin),
            self.smax.checked_add(other.smax),
        ) {
            (Some(smin), Some(smax)) => (smin, smax),
            _ => (i64::MIN, i64::MAX),
        };
        Self { min, max, smin, smax, empty: false }
    }

    /// Wrapping subtraction, with the same per-reading overflow rule as addition.
    pub fn subtract(self, other: Self) -> (r: Self)
        ensures
            r == self.spec_sub(other),
            self.sub_stored(other, r),
    {
        proof {
            use_type_invariant(&self);
            use_type_invariant(&other);
        }
        if self.empty || other.empty {
            return Self::empty();
        }
        let (min, max) = if self.min >= other.max {
            (self.min - other.max, self.max - other.min)
        } else {
            (0, u64::MAX)
        };
        let (smin, smax) = match (
            self.smin.checked_sub(other.smax),
            self.smax.checked_sub(other.smin),
        ) {
            (Some(smin), Some(smax)) => (smin, smax),
            _ => (i64::MIN, i64::MAX),
        };
        Self { min, max, smin, smax, empty: false }
    }

    /// Wrapping negation: zero minus every value.
    pub fn negate(self) -> (r: Self)
        ensures
            r == self.spec_neg(),
            Rnum::spec_from_value(0).sub_stored(self, r),
    {
        Self::from_value(0).subtract(self)
    }

    /// Bitwise complement, which reverses both orders.
    pub fn bit_not(self) -> (r: Self)
        ensures
            r == self.spec_not(),
            self.not_stored(r),
    {
        proof {
            use_type_invariant(&self);
        }
        if self.empty {
            return self;
        }
        Self {
            min: u64::MAX - self.max,
            max: u64::MAX - self.min,
            smin: -1 - self.smax,
            smax: -1 - self.smin,
            empty: false,
        }
    }

    /// Wrapping multiplication. The unsigned reading keeps the products of its bounds when
    /// the greatest one does not overflow; the signed one when both ranges are non-negative
    /// and the greatest product fits.
    pub fn multiply(self, other: Self) -> (r: Self)
        ensures
            r == self.spec_mul(other),
            self.mul_stored(other, r),
    {
        proof {
            use_type_invariant(&self);
            use_type_invariant(&other);
        }
        if self.empty || other.empty {
            return Self::empty();
        }
        let (min, max) = match self.max.checked_mul(other.max) {
            Some(max) => {
                proof {
                    vstd::arithmetic::mul::lemma_mul_upper_bound(
                        self.min as int, self.max as int, other.min as int, other.max as int);
                }
                (self.min * other.min, max)
            },
            None => (0, u64::MAX),
        };
        let (smin, smax) = if self.smin >= 0 && other.smin >= 0 {
            match self.smax.checked_mul(other.smax) {
                Some(smax) => {
                    proof {
                        vstd::arithmetic::mul::lemma_mul_upper_bound(
                            self.smin as int, self.smax as int, other.smin as int, other.smax as int);
                        vstd::arithmetic::mul::lemma_mul_nonnegative(self.smin as int, other.smin as int);
                    }
                    (self.smin * other.smin, smax)
                },
                None => (i64::MIN, i64::MAX),
            }
        } else {
            (i64::MIN, i64::MAX)
        };
        Self { min, max, smin, smax, empty: false }
    }

    /// Unsigned division by `other`; `None` when `other` can only be zero. Where `other`
    /// holds zero and other values, the result describes the divisions by its nonzero
    /// values.
    pub fn checked_div(self, other: Self) -> (r: Option<Self>)
        ensures
            r == self.spec_checked_div(other),
            r is None <==> other.only_zero(),
            r matches Some(q) ==> self.div_stored(other, q),
    {
        if let Some(0) = other.max_value() {
            return None;
        }
        if !self.has_value() || !other.has_value() {
            return Some(Self::empty());
        }
        proof {
            lemma_extrema_exact(other, 0);
            lemma_extrema_exact(self, 0);
        }
        let divisor_min = if other.min == 0 { 1 } else { other.min };
        proof {
            vstd::arithmetic::div_mod::lemma_div_is_ordered_by_denominator(
                self.min as int, divisor_min as int, other.max as int);
            vstd::arithmetic::div_mod::lemma_div_is_ordered(
                self.min as int, self.max as int, divisor_min as int);
        }
        Some(Self::from_unsigned(self.min / other.max, self.max / divisor_min))
    }

    /// Division, with the empty set where `other` can only be zero.
    pub fn divide(self, other: Self) -> (r: Self)
        ensures
            r == self.spec_div(other),
            if other.only_zero() { r.stores_empty() } else { self.div_stored(other, r) },
    {
        match self.checked_div(other) {
            Some(result) => result,
            None => Self::empty(),
        }
    }

    /// Unsigned remainder: at most the dividend and below the divisor; empty where
    /// Zero is the only value held.
    pub fn remainder(self, other: Self) -> (r: Self)
        ensures
            r == self.spec_rem(other),
            self.rem_stored(other, r),
    {
        if !self.has_value() || !other.has_value() {
            return Self::empty();
        }
        if let Some(0) = other.max_value() {
            return Self::empty();
        }
        proof {
            lemma_extrema_exact(other, 0);
        }
        let divisor_bound = other.max - 1;
        Self::from_unsigned(0, if self.max <= divisor_bound { self.max } else { divisor_bound })
    }
}

impl Default for Rnum {
    /// The range of every 64-bit machine value.
    fn default() -> (r: Self)
        ensures
            r == Rnum::spec_full(),
            r.stores((0, u64::MAX as int), (i64::MIN as int, i64::MAX as int)),
            r.spec_has_value(),
    {
        Self { min: u64::MIN, max: u64::MAX, smin: i64::MIN, smax: i64::MAX, empty: false }
    }
}


/// Extrema are attained by members, bound every member, and exist exactly when some
/// value is a member.
pub proof fn lemma_extrema_exact(a: Rnum, x: u64)
    ensures
        a.spec_extrema() is None ==> !a.has(x),
        a.spec_extrema() matches Some((lo, hi)) ==> {
            &&& a.has(lo)
            &&& a.has(hi)
            &&& lo <= hi
            &&& a.has(x) ==> lo <= x <= hi
            &&& a.lower() <= lo
            &&& hi <= a.upper()
        },
{
}


/// A range is constant exactly when it has one member.
pub proof fn lemma_const_iff_singleton(a: Rnum)
    ensures
        (a.spec_extrema() matches Some((lo, hi)) && lo == hi) <==> (exists|v: u64|
            #[trigger] a.only_member(v)),
{
    match a.spec_extrema() {
        Some((lo, hi)) => {
            lemma_extrema_exact(a, lo);
            if lo == hi {
                assert forall|x: u64| #[trigger] a.has(x) <==> x == lo by {
                    lemma_extrema_exact(a, x);
                }
                assert(a.only_member(lo));
            } else {
                assert forall|v: u64| !#[trigger] a.only_member(v) by {
                    assert(a.has(lo) && a.has(hi));
                }
            }
        },
        None => {
            assert forall|v: u64| !#[trigger] a.only_member(v) by {
                lemma_extrema_exact(a, v);
            }
        },
    }
}

/// Every value of either operand is a value of their union.
pub proof fn lemma_union_sound(a: Rnum, b: Rnum, x: u64)
    requires
        a.has(x) || b.has(x),
    ensures
        a.spec_union(b).has(x),
{
    lemma_extrema_exact(a, x);
    lemma_extrema_exact(b, x);
}

/// The union contains each operand.
pub proof fn lemma_union_contains_operands(a: Rnum, b: Rnum)
    ensures
        a.spec_union(b).spec_contains(a),
        a.spec_union(b).spec_contains(b),
{
    if a.spec_has_value() {
        let (lo, hi) = a.spec_extrema().unwrap();
        lemma_extrema_exact(a, lo);
        lemma_union_sound(a, b, lo);
        lemma_extrema_exact(a.spec_union(b), lo);
    } else if b.spec_has_value() {
        let (lo, hi) = b.spec_extrema().unwrap();
        lemma_extrema_exact(b, lo);
        lemma_union_sound(a, b, lo);
        lemma_extrema_exact(a.spec_union(b), lo);
    }
}

/// The union's bounds are the least bounds that contain the bounds of both operands.
pub proof fn lemma_union_least(a: Rnum, b: Rnum, c: Rnum)
    requires
        c.spec_contains(a),
        c.spec_contains(b),
    ensures
        c.spec_contains(a.spec_union(b)),
{
    if a.spec_has_value() && b.spec_has_value() {
        let (lo, hi) = a.spec_extrema().unwrap();
        lemma_extrema_exact(a, lo);
        lemma_union_sound(a, b, lo);
        lemma_extrema_exact(a.spec_union(b), lo);
    }
}

/// A value belongs to the intersection exactly when it belongs to both operands.
pub proof fn lemma_intersection_exact(a: Rnum, b: Rnum, x: u64)
    ensures
        a.spec_intersection(b).has(x) <==> (a.has(x) && b.has(x)),
{
    if !a.empty && !b.empty {
        let min = max_int(a.min as int, b.min as int) as u64;
        let max = min_int(a.max as int, b.max as int) as u64;
        let smin = max_int(a.smin as int, b.smin as int) as i64;
        let smax = min_int(a.smax as int, b.smax as int) as i64;
        let result = Rnum { min, max, smin, smax, empty: false };
        lemma_extrema_exact(result, x);
    }
}

/// When `contains` holds, every value of `other` is a value of `self`.
pub proof fn lemma_contains_sound(a: Rnum, b: Rnum)
    requires
        a.spec_contains(b),
    ensures
        a.includes(b),
{
    assert forall|x: u64| #[trigger] b.has(x) implies a.has(x) by {
        lemma_extrema_exact(b, x);
        lemma_extrema_exact(a, x);
    }
}

/// The wrapping sum of members is a member of the sum.
pub proof fn lemma_add_sound(a: Rnum, b: Rnum, x: u64, y: u64)
    requires
        a.has(x),
        b.has(y),
    ensures
        a.spec_add(b).has(wadd(x, y)),
{
}

/// The wrapping difference of members is a member of the difference.
pub proof fn lemma_sub_sound(a: Rnum, b: Rnum, x: u64, y: u64)
    requires
        a.has(x),
        b.has(y),
    ensures
        a.spec_sub(b).has(wsub(x, y)),
{
}

/// The wrapping negation of a member is a member of the negation.
pub proof fn lemma_neg_sound(a: Rnum, x: u64)
    requires
        a.has(x),
    ensures
        a.spec_neg().has(wsub(0, x)),
{
    lemma_sub_sound(Rnum::spec_from_value(0), a, 0, x);
}

/// The complement of a member is a member of the complement.
pub proof fn lemma_not_sound(a: Rnum, x: u64)
    requires
        a.has(x),
    ensures
        a.spec_not().has(!x),
{
    assert(!x == u64::MAX - x) by (bit_vector);
}

/// In each reading where no sum of bounds leaves the reading's range, a sum keeps the
/// sums of the bounds.
pub proof fn lemma_add_keeps_fitting_bounds(a: Rnum, b: Rnum)
    requires
        a.wf(),
        b.wf(),
        !a.is_bottom(),
        !b.is_bottom(),
    ensures
        !a.spec_add(b).is_bottom(),
        a.upper() + b.upper() <= u64::MAX ==> a.spec_add(b).lower() == a.lower() + b.lower()
            && a.spec_add(b).upper() == a.upper() + b.upper(),
        i64::MIN <= a.signed_lower() + b.signed_lower() && a.signed_upper() + b.signed_upper()
            <= i64::MAX ==> a.spec_add(b).signed_lower() == a.signed_lower() + b.signed_lower()
            && a.spec_add(b).signed_upper() == a.signed_upper() + b.signed_upper(),
{
}

/// In each reading where no difference of bounds leaves the reading's range, a difference
/// keeps the differences of the opposite bounds; in particular when the subtrahend's
/// greatest value is at most the minuend's least value, nothing wraps in the unsigned
/// reading.
pub proof fn lemma_sub_keeps_fitting_bounds(a: Rnum, b: Rnum)
    requires
        a.wf(),
        b.wf(),
        !a.is_bottom(),
        !b.is_bottom(),
    ensures
        !a.spec_sub(b).is_bottom(),
        b.upper() <= a.lower() ==> a.spec_sub(b).lower() == a.lower() - b.upper()
            && a.spec_sub(b).upper() == a.upper() - b.lower(),
        i64::MIN <= a.signed_lower() - b.signed_upper() && a.signed_upper() - b.signed_lower()
            <= i64::MAX ==> a.spec_sub(b).signed_lower() == a.signed_lower() - b.signed_upper()
            && a.spec_sub(b).signed_upper() == a.signed_upper() - b.signed_lower(),
{
}

/// Where the product of the unsigned upper bounds fits, a product keeps the products of
/// the unsigned bounds; where both signed ranges are non-negative and the product of the
/// signed upper bounds fits, it keeps the products of the signed bounds.
pub proof fn lemma_mul_keeps_fitting_bounds(a: Rnum, b: Rnum)
    requires
        a.wf(),
        b.wf(),
        !a.is_bottom(),
        !b.is_bottom(),
    ensures
        !a.spec_mul(b).is_bottom(),
        a.upper() * b.upper() <= u64::MAX ==> a.spec_mul(b).lower() == a.lower() * b.lower()
            && a.spec_mul(b).upper() == a.upper() * b.upper(),
        a.signed_lower() >= 0 && b.signed_lower() >= 0 && a.signed_upper() * b.signed_upper()
            <= i64::MAX ==> a.spec_mul(b).signed_lower() == a.signed_lower() * b.signed_lower()
            && a.spec_mul(b).signed_upper() == a.signed_upper() * b.signed_upper(),
{
    vstd::arithmetic::mul::lemma_mul_upper_bound(a.min as int, a.max as int, b.min as int, b.max as int);
    vstd::arithmetic::mul::lemma_mul_nonnegative(a.min as int, b.min as int);
    if a.smin >= 0 && b.smin >= 0 {
        vstd::arithmetic::mul::lemma_mul_upper_bound(a.smin as int, a.smax as int, b.smin as int, b.smax as int);
        vstd::arithmetic::mul::lemma_mul_nonnegative(a.smin as int, b.smin as int);
    }
}

/// Arithmetic on two constants that does not wrap in a reading gives, in that reading,
/// the constant of the exact result (for the signed reading of a product, of two
/// non-negative constants).
pub proof fn lemma_constant_arithmetic(x: u64, y: u64)
    ensures
        x + y <= u64::MAX ==> Rnum::spec_from_value(x).spec_add(Rnum::spec_from_value(y)).lower()
            == x + y && Rnum::spec_from_value(x).spec_add(Rnum::spec_from_value(y)).upper()
            == x + y,
        y <= x ==> Rnum::spec_from_value(x).spec_sub(Rnum::spec_from_value(y)).lower() == x - y
            && Rnum::spec_from_value(x).spec_sub(Rnum::spec_from_value(y)).upper() == x - y,
        x * y <= u64::MAX ==> Rnum::spec_from_value(x).spec_mul(Rnum::spec_from_value(y)).lower()
            == x * y && Rnum::spec_from_value(x).spec_mul(Rnum::spec_from_value(y)).upper()
            == x * y,
        x <= i64::MAX && y <= i64::MAX && x * y <= i64::MAX ==> Rnum::spec_from_value(x).spec_mul(
            Rnum::spec_from_value(y),
        ).signed_lower() == x * y && Rnum::spec_from_value(x).spec_mul(
            Rnum::spec_from_value(y),
        ).signed_upper() == x * y,
{
    let a = Rnum::spec_from_value(x);
    let b = Rnum::spec_from_value(y);
    vstd::arithmetic::mul::lemma_mul_nonnegative(x as int, y as int);
    if x <= i64::MAX && y <= i64::MAX {
        assert(signed(x) == x && signed(y) == y);
    }
}

/// The complement reverses each reading: its bounds are the complements of the opposite
/// bounds.
pub proof fn lemma_not_reverses_bounds(a: Rnum)
    requires
        a.wf(),
        !a.is_bottom(),
    ensures
        !a.spec_not().is_bottom(),
        a.spec_not().lower() == u64::MAX - a.upper(),
        a.spec_not().upper() == u64::MAX - a.lower(),
        a.spec_not().signed_lower() == -1 - a.signed_upper(),
        a.spec_not().signed_upper() == -1 - a.signed_lower(),
{
}

/// Division of a constant by a nonzero constant is the constant of their quotient, and
/// the remainder lies between 0 and both the dividend and the divisor less one.
pub proof fn lemma_constant_division(x: u64, y: u64)
    requires
        y != 0,
    ensures
        Rnum::spec_from_value(x).spec_checked_div(Rnum::spec_from_value(y)) is Some,
        Rnum::spec_from_value(x).spec_div(Rnum::spec_from_value(y)).lower() == x / y,
        Rnum::spec_from_value(x).spec_div(Rnum::spec_from_value(y)).upper() == x / y,
        Rnum::spec_from_value(x).spec_rem(Rnum::spec_from_value(y)).lower() == 0,
        Rnum::spec_from_value(x).spec_rem(Rnum::spec_from_value(y)).upper() == min_int(
            x as int,
            y - 1,
        ),
{
    let (a, b) = (Rnum::spec_from_value(x), Rnum::spec_from_value(y));
    lemma_extrema_exact(a, x);
    lemma_extrema_exact(b, y);
    assert(a.has(x) && b.has(y));
}

/// The wrapping product of members is a member of the product.
pub proof fn lemma_mul_sound(a: Rnum, b: Rnum, x: u64, y: u64)
    requires
        a.has(x),
        b.has(y),
    ensures
        a.spec_mul(b).has(wmul(x, y)),
{
    if a.max * b.max <= u64::MAX {
        vstd::arithmetic::mul::lemma_mul_upper_bound(a.min as int, x as int, b.min as int, y as int);
        vstd::arithmetic::mul::lemma_mul_upper_bound(x as int, a.max as int, y as int, b.max as int);
        vstd::arithmetic::div_mod::lemma_small_mod((x * y) as nat, word_modulus() as nat);
    }
    if a.smin >= 0 && b.smin >= 0 && a.smax * b.smax <= i64::MAX {
        vstd::arithmetic::mul::lemma_mul_upper_bound(a.smin as int, x as int, b.smin as int, y as int);
        vstd::arithmetic::mul::lemma_mul_upper_bound(x as int, a.smax as int, y as int, b.smax as int);
        vstd::arithmetic::div_mod::lemma_small_mod((x * y) as nat, word_modulus() as nat);
    }
}

/// Division and remainder of members by a nonzero member are members of the results.
pub proof fn lemma_div_rem_sound(a: Rnum, b: Rnum, x: u64, y: u64)
    requires
        a.has(x),
        b.has(y),
        y != 0,
    ensures
        a.spec_checked_div(b) is Some,
        a.spec_div(b).has(x / y),
        a.spec_rem(b).has(x % y),
{
    lemma_extrema_exact(a, x);
    lemma_extrema_exact(b, y);
    let divisor_min: u64 = if b.min == 0 { 1 } else { b.min };
    vstd::arithmetic::div_mod::lemma_div_is_ordered_by_denominator(x as int, y as int, b.max as int);
    vstd::arithmetic::div_mod::lemma_div_is_ordered(a.min as int, x as int, b.max as int);
    vstd::arithmetic::div_mod::lemma_div_is_ordered_by_denominator(x as int, divisor_min as int, y as int);
    vstd::arithmetic::div_mod::lemma_div_is_ordered(x as int, a.max as int, divisor_min as int);
    vstd::arithmetic::div_mod::lemma_mod_bound(x as int, y as int);
    vstd::arithmetic::div_mod::lemma_mod_decreases(x as nat, y as nat);
}


impl vstd::std_specs::ops::NotSpecImpl for Rnum {
    open spec fn obeys_not_spec() -> bool {
        true
    }

    open spec fn not_req(self) -> bool {
        true
    }

    open spec fn not_spec(self) -> Rnum {
        self.spec_not()
    }
}

impl core::ops::Not for Rnum {
    type Output = Rnum;

    fn not(self) -> (r: Rnum)
        ensures
            r == self.spec_not(),
            self.not_stored(r),
    {
        self.bit_not()
    }
}

impl vstd::std_specs::ops::NegSpecImpl for Rnum {
    open spec fn obeys_neg_spec() -> bool {
        true
    }

    open spec fn neg_req(self) -> bool {
        true
    }

    open spec fn neg_spec(self) -> Rnum {
        self.spec_neg()
    }
}

impl core::ops::Neg for Rnum {
    type Output = Rnum;

    fn neg(self) -> (r: Rnum)
        ensures
            r == self.spec_neg(),
            Rnum::spec_from_value(0).sub_stored(self, r),
    {
        self.negate()
    }
}

impl vstd::std_specs::ops::AddSpecImpl for Rnum {
    open spec fn obeys_add_spec() -> bool {
        true
    }

    open spec fn add_req(self, rhs: Rnum) -> bool {
        true
    }

    open spec fn add_spec(self, rhs: Rnum) -> Rnum {
        self.spec_add(rhs)
    }
}

impl core::ops::Add for Rnum {
    type Output = Rnum;

    fn add(self, other: Rnum) -> (r: Rnum)
        ensures
            r == self.spec_add(other),
            self.add_stored(other, r),
    {
        Rnum::add(self, other)
    }
}

impl vstd::std_specs::ops::SubSpecImpl for Rnum {
    open spec fn obeys_sub_spec() -> bool {
        true
    }

    open spec fn sub_req(self, rhs: Rnum) -> bool {
        true
    }

    open spec fn sub_spec(self, rhs: Rnum) -> Rnum {
        self.spec_sub(rhs)
    }
}

impl core::ops::Sub for Rnum {
    type Output = Rnum;

    fn sub(self, other: Rnum) -> (r: Rnum)
        ensures
            r == self.spec_sub(other),
            self.sub_stored(other, r),
    {
        self.subtract(other)
    }
}

impl vstd::std_specs::ops::MulSpecImpl for Rnum {
    open spec fn obeys_mul_spec() -> bool {
        true
    }

    open spec fn mul_req(self, rhs: Rnum) -> bool {
        true
    }

    open spec fn mul_spec(self, rhs: Rnum) -> Rnum {
        self.spec_mul(rhs)
    }
}

impl core::ops::Mul for Rnum {
    type Output = Rnum;

    fn mul(self, other: Rnum) -> (r: Rnum)
        ensures
            r == self.spec_mul(other),
            self.mul_stored(other, r),
    {
        self.multiply(other)
    }
}

impl vstd::std_specs::ops::DivSpecImpl for Rnum {
    open spec fn obeys_div_spec() -> bool {
        true
    }

    open spec fn div_req(self, rhs: Rnum) -> bool {
        true
    }

    open spec fn div_spec(self, rhs: Rnum) -> Rnum {
        self.spec_div(rhs)
    }
}

impl core::ops::Div for Rnum {
    type Output = Rnum;

    fn div(self, other: Rnum) -> (r: Rnum)
        ensures
            r == self.spec_div(other),
            if other.only_zero() { r.stores_empty() } else { self.div_stored(other, r) },
    {
        self.divide(other)
    }
}

impl vstd::std_specs::ops::RemSpecImpl for Rnum {
    open spec fn obeys_rem_spec() -> bool {
        true
    }

    open spec fn rem_req(self, rhs: Rnum) -> bool {
        true
    }

    open spec fn rem_spec(self, rhs: Rnum) -> Rnum {
        self.spec_rem(rhs)
    }
}

impl core::ops::Rem for Rnum {
    type Output = Rnum;

    fn rem(self, other: Rnum) -> (r: Rnum)
        ensures
            r == self.spec_rem(other),
            self.rem_stored(other, r),
    {
        self.remainder(other)
    }
}

} // verus!
