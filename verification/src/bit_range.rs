use vstd::prelude::*;

use crate::range_set::{
    RangeSet,
    canonical,
    canonical_of,
    covers,
    fill_gaps,
    in_range,
    intersection_cover,
    lemma_restrict_fits,
    lemma_fill_canonical_of,
    lemma_fill_gaps,
    ordered_pieces,
    sum_cover,
    union_cover,
};
use crate::tnum::{self, Tnum};
use vstd::std_specs::bits::{axiom_u64_leading_zeros, u64_leading_zeros};

verus! {

/// The bits below and including the highest bit on which `low` and `high` differ.
pub open spec fn differing_suffix(low: u64, high: u64) -> u64 {
    let d = low ^ high;
    if d == 0 {
        0
    } else {
        u64::MAX >> (u64_leading_zeros(d) as u64)
    }
}

/// The tracking number of the common prefix of `low` and `high`.
pub open spec fn prefix_bits(p: (u64, u64)) -> Tnum {
    let unknown = differing_suffix(p.0, p.1);
    Tnum::spec_from_parts(p.0 & !unknown, unknown)
}

/// The union of the common-prefix tracking numbers of the intervals of `s`.
pub open spec fn range_bits(s: Seq<(u64, u64)>) -> Tnum
    decreases s.len(),
{
    if s.len() == 0 {
        Tnum::spec_empty()
    } else {
        range_bits(s.drop_last()).spec_union(prefix_bits(s.last()))
    }
}

proof fn bv_prefix(low: u64, high: u64, v: u64, s: u64)
    by (bit_vector)
    ensures
        low <= v <= high && s < 64 && (low ^ high) >> ((64 - s) as u64) == 0 ==> v & !(u64::MAX
            >> s) == low & !(u64::MAX >> s),
        low ^ high == 0 ==> low == high,
        v & !0u64 == v,
        (low & !0u64) & !0u64 == low,
        (low & !(u64::MAX >> s)) & !(u64::MAX >> s) == low & !(u64::MAX >> s),
{
}

/// Every value of an interval shares the prefix above its highest differing bit.
pub proof fn lemma_prefix_bits(p: (u64, u64), v: u64)
    requires
        in_range(p, v),
    ensures
        prefix_bits(p).has(v),
        prefix_bits(p).wf(),
{
    let d = p.0 ^ p.1;
    tnum::lemma_constructors(p.0 & !differing_suffix(p.0, p.1), differing_suffix(p.0, p.1), v);
    if d == 0 {
        bv_prefix(p.0, p.1, v, 0);
    } else {
        axiom_u64_leading_zeros(d);
        let s = u64_leading_zeros(d) as u64;
        assert(s < 64);
        bv_prefix(p.0, p.1, v, s);
    }
}

/// Two values strictly inside an interval whose highest differing bit is `63 - s`: the
/// low end with every lower bit set, and the high end with every lower bit cleared; they
/// differ on exactly the bits up to the differing one.
proof fn bv_prefix_witnesses(low: u64, high: u64, s: u64, tv: u64, tm: u64)
    by (bit_vector)
    requires
        low <= high,
        s < 64,
        ((low ^ high) >> ((63 - s) as u64)) & 1u64 != 0u64,
        (low ^ high) >> ((64 - s) as u64) == 0u64,
    ensures
        low <= (low | ((u64::MAX >> s) >> 1u64)) <= high,
        low <= (high & !((u64::MAX >> s) >> 1u64)) <= high,
        (low | ((u64::MAX >> s) >> 1u64)) & !tm == tv && (high & !((u64::MAX >> s) >> 1u64))
            & !tm == tv ==> (u64::MAX >> s) & !tm == 0u64,
        (u64::MAX >> s) & !tm == 0u64 ==> (low & !(u64::MAX >> s)) & !tm == low & !tm,
{
}

/// The prefix tracking number of an interval is the least tracking number holding every
/// value of the interval.
pub proof fn lemma_prefix_bits_least(p: (u64, u64), t: Tnum)
    requires
        p.0 <= p.1,
        t.wf(),
        forall|v: u64| in_range(p, v) ==> #[trigger] t.has(v),
    ensures
        t.includes(prefix_bits(p)),
        t.spec_contains(prefix_bits(p)),
{
    let (low, high) = p;
    let d = low ^ high;
    let pm = differing_suffix(low, high);
    tnum::lemma_constructors(low & !pm, pm, 0);
    lemma_prefix_bits(p, low);
    assert(in_range(p, low));
    assert(t.has(low));
    if d == 0 {
        bv_prefix(low, high, low, 0);
        assert forall|v: u64| #[trigger] prefix_bits(p).has(v) implies t.has(v) by {
            tnum::lemma_constructors(low & !pm, pm, v);
            bv_prefix(low, high, v, 0);
        }
    } else {
        axiom_u64_leading_zeros(d);
        let s = u64_leading_zeros(d) as u64;
        let w1 = low | ((u64::MAX >> s) >> 1u64);
        let w0 = high & !((u64::MAX >> s) >> 1u64);
        bv_prefix_witnesses(low, high, s, t.known(), t.unknown());
        assert(in_range(p, w1) && in_range(p, w0));
        assert(t.has(w1) && t.has(w0));
    }
    tnum::lemma_contains_iff_includes(t, prefix_bits(p));
}

/// The prefix tracking numbers hold every value of every interval.
pub proof fn lemma_range_bits(s: Seq<(u64, u64)>, v: u64)
    ensures
        range_bits(s).wf(),
        covers(s, v) ==> range_bits(s).has(v),
    decreases s.len(),
{
    if s.len() == 0 {
        tnum::lemma_constructors(0, 0, v);
    } else {
        let t = s.drop_last();
        lemma_range_bits(t, v);
        let p = s.last();
        if covers(s, v) {
            let i = choose|i: int| 0 <= i < s.len() && #[trigger] in_range(s[i], v);
            if i < t.len() {
                assert(in_range(t[i], v));
                assert(covers(t, v));
            } else {
                assert(in_range(p, v));
            }
        }
        let (lo, hi) = (p.0, p.1);
        if lo <= hi {
            lemma_prefix_bits(p, lo);
        } else {
            tnum::lemma_constructors(lo & !differing_suffix(lo, hi), differing_suffix(lo, hi), v);
        }
        if in_range(p, v) {
            lemma_prefix_bits(p, v);
        }
        tnum::lemma_results_wf(range_bits(t), prefix_bits(p));
        if covers(s, v) {
            tnum::lemma_union_sound(range_bits(t), prefix_bits(p), v);
        }
    }
}

/// The union of the prefix tracking numbers of ordered intervals is the least tracking
/// number holding every value of every interval.
pub proof fn lemma_range_bits_least(s: Seq<(u64, u64)>, t: Tnum)
    requires
        ordered_pieces(s),
        t.wf(),
        forall|v: u64| covers(s, v) ==> #[trigger] t.has(v),
    ensures
        t.spec_contains(range_bits(s)),
        t.includes(range_bits(s)),
    decreases s.len(),
{
    lemma_range_bits(s, 0);
    if s.len() == 0 {
        tnum::lemma_constructors(0, 0, 0);
    } else {
        let rest = s.drop_last();
        let p = s.last();
        assert forall|v: u64| covers(rest, v) implies #[trigger] t.has(v) by {
            let i = choose|i: int| 0 <= i < rest.len() && #[trigger] in_range(rest[i], v);
            assert(in_range(s[i], v));
        }
        assert(ordered_pieces(rest)) by {
            assert forall|i: int| 0 <= i < rest.len() implies (#[trigger] rest[i]).0 <= rest[i].1 by {
                assert(s[i].0 <= s[i].1);
            }
        }
        lemma_range_bits_least(rest, t);
        lemma_range_bits(rest, 0);
        assert(p.0 <= p.1) by {
            assert(s[s.len() - 1].0 <= s[s.len() - 1].1);
        }
        assert forall|v: u64| in_range(p, v) implies #[trigger] t.has(v) by {
            assert(in_range(s[s.len() - 1], v));
        }
        lemma_prefix_bits_least(p, t);
        lemma_prefix_bits(p, p.0);
        tnum::lemma_union_least(range_bits(rest), prefix_bits(p), t);
    }
    tnum::lemma_contains_iff_includes(t, range_bits(s));
}

} // verus!

verus! {

/// The reduction of intervals `ranges` and bits `bits` to `out_ranges` and `out_bits`:
/// the bits are narrowed by the common prefixes of the intervals, and the intervals by
/// the unsigned extrema of the narrowed bits; if either side becomes empty, both do.
pub open spec fn reduces_to(
    ranges: Seq<(u64, u64)>,
    bits: Tnum,
    k: nat,
    out_ranges: Seq<(u64, u64)>,
    out_bits: Tnum,
) -> bool {
    if ranges.len() == 0 || bits.is_bottom() {
        out_ranges.len() == 0 && out_bits == Tnum::spec_empty()
    } else {
        let narrowed = bits.spec_intersection(range_bits(ranges));
        if narrowed.is_bottom() {
            out_ranges.len() == 0 && out_bits == narrowed
        } else {
            let bounds = seq![(narrowed.known(), narrowed.known() | narrowed.unknown())];
            &&& out_ranges == fill_gaps(canonical_of(intersection_cover(ranges, bounds)), k)
            &&& out_bits == if out_ranges.len() == 0 {
                Tnum::spec_empty()
            } else {
                narrowed
            }
        }
    }
}

/// Reduction keeps exactly the values that both components hold.
pub proof fn lemma_reduction_exact(
    ranges: Seq<(u64, u64)>,
    bits: Tnum,
    k: nat,
    out_ranges: Seq<(u64, u64)>,
    out_bits: Tnum,
    v: u64,
)
    requires
        canonical(ranges),
        ranges.len() <= k,
        bits.wf(),
        reduces_to(ranges, bits, k, out_ranges, out_bits),
    ensures
        (covers(out_ranges, v) && out_bits.has(v)) == (covers(ranges, v) && bits.has(v)),
{
    tnum::lemma_constructors(0, 0, v);
    if !(ranges.len() == 0 || bits.is_bottom()) {
        lemma_range_bits(ranges, v);
        let rb = range_bits(ranges);
        let narrowed = bits.spec_intersection(rb);
        tnum::lemma_results_wf(bits, rb);
        tnum::lemma_intersection_exact(bits, rb, v);
        if !narrowed.is_bottom() {
            let lo = narrowed.known();
            let hi = narrowed.known() | narrowed.unknown();
            tnum::lemma_bounds_exact(narrowed, v);
            let (a, b) = (narrowed.known(), narrowed.unknown());
            assert(a <= a | b) by (bit_vector);
            lemma_restrict_fits(ranges, lo, hi);
            lemma_fill_canonical_of(intersection_cover(ranges, seq![(lo, hi)]), k, v);
            if lo <= v <= hi {
                assert(in_range(seq![(lo, hi)][0], v));
            }
        }
    }
}

/// Reduction empties both components together, narrows the bits, keeps only values of
/// the intervals, and clips every interval to the unsigned bounds of the narrowed bits.
pub proof fn lemma_reduction_shape(
    ranges: Seq<(u64, u64)>,
    bits: Tnum,
    k: nat,
    out_ranges: Seq<(u64, u64)>,
    out_bits: Tnum,
)
    requires
        canonical(ranges),
        ranges.len() <= k,
        bits.wf(),
        reduces_to(ranges, bits, k, out_ranges, out_bits),
    ensures
        (out_ranges.len() == 0) == out_bits.is_bottom(),
        bits.spec_contains(out_bits),
        range_bits(ranges).includes(out_bits),
        out_ranges.len() > 0 ==> out_bits == bits.spec_intersection(range_bits(ranges)),
        forall|v: u64| #[trigger] covers(out_ranges, v) ==> covers(ranges, v),
        forall|i: int|
            0 <= i < out_ranges.len() ==> out_bits.known() <= (#[trigger] out_ranges[i]).0
                && out_ranges[i].1 <= out_bits.known() | out_bits.unknown(),
{
    tnum::lemma_constructors(0, 0, 0);
    if !(ranges.len() == 0 || bits.is_bottom()) {
        lemma_range_bits(ranges, 0);
        let rb = range_bits(ranges);
        let narrowed = bits.spec_intersection(rb);
        tnum::lemma_results_wf(bits, rb);
        assert forall|x: u64| #[trigger] narrowed.has(x) implies bits.has(x) && rb.has(x) by {
            tnum::lemma_intersection_exact(bits, rb, x);
        }
        tnum::lemma_contains_iff_includes(bits, narrowed);
        assert forall|x: u64| #[trigger] out_bits.has(x) implies rb.has(x) by {
            tnum::lemma_constructors(0, 0, x);
        }
        if !narrowed.is_bottom() {
            let lo = narrowed.known();
            let hi = narrowed.known() | narrowed.unknown();
            let (a, b) = (narrowed.known(), narrowed.unknown());
            assert(a <= a | b) by (bit_vector);
            lemma_restrict_fits(ranges, lo, hi);
            let c = intersection_cover(ranges, seq![(lo, hi)]);
            let m = canonical_of(c);
            lemma_fill_gaps(m, k, 0);
            assert(out_ranges == m);
            assert forall|v: u64| #[trigger] covers(out_ranges, v) implies covers(ranges, v) by {
                assert(c(v));
            }
            assert forall|i: int| 0 <= i < out_ranges.len() implies lo <= (
            #[trigger] out_ranges[i]).0 && out_ranges[i].1 <= hi by {
                assert(in_range(m[i], m[i].0));
                assert(in_range(m[i], m[i].1));
                assert(covers(m, m[i].0));
                assert(covers(m, m[i].1));
                assert(c(m[i].0) && c(m[i].1));
                assert(in_range(seq![(lo, hi)][0], m[i].0) || !covers(seq![(lo, hi)], m[i].0));
                assert(in_range(seq![(lo, hi)][0], m[i].1) || !covers(seq![(lo, hi)], m[i].1));
            }
        }
    }
}

/// Reduced product of a bounded interval union and known/unknown bits: its values are
/// those that both components hold.
#[derive(Debug, Clone, Copy, PartialEq, Eq)]
pub struct BitRange<const K: usize> {
    ranges: RangeSet<K>,
    bits: Tnum,
}

impl<const K: usize> BitRange<K> {
    /// The interval component.
    pub closed spec fn range_part(self) -> RangeSet<K> {
        self.ranges
    }

    /// The known-bits component.
    pub closed spec fn bit_part(self) -> Tnum {
        self.bits
    }

    /// Membership of a concrete value: both components hold it.
    pub open spec fn has(self, v: u64) -> bool {
        self.range_part().has(v) && self.bit_part().has(v)
    }

    fn reduce(&mut self)
        ensures
            reduces_to(
                old(self).range_part()@,
                old(self).bit_part(),
                K as nat,
                final(self).range_part()@,
                final(self).bit_part(),
            ),
            forall|v: u64| #[trigger] final(self).has(v) == old(self).has(v),
            (final(self).range_part()@.len() == 0) == final(self).bit_part().is_bottom(),
            final(self).range_part()@.len() == 0 ==> final(self).bit_part() == Tnum::spec_empty(),
            old(self).bit_part().spec_contains(final(self).bit_part()),
            range_bits(old(self).range_part()@).includes(final(self).bit_part()),
            final(self).range_part()@.len() > 0 ==> final(self).bit_part() == old(
                self,
            ).bit_part().spec_intersection(range_bits(old(self).range_part()@)),
            forall|v: u64| #[trigger] final(self).range_part().has(v) ==> old(self).range_part().has(v),
            forall|i: int|
                0 <= i < final(self).range_part()@.len() ==> final(self).bit_part().known() <= (
                #[trigger] final(self).range_part()@[i]).0 && final(self).range_part()@[i].1
                    <= final(self).bit_part().known() | final(self).bit_part().unknown(),
    {
        let held = self.ranges.ranges().len();
        proof {
            use_type_invariant(&self.bits);
        }
        let ghost before = *self;
        self.reduce_components();
        proof {
            use_type_invariant(&self.bits);
            lemma_reduction_shape(
                before.ranges@,
                before.bits,
                K as nat,
                self.ranges@,
                self.bits,
            );
            assert forall|v: u64| #[trigger] self.has(v) == before.has(v) by {
                lemma_reduction_exact(before.ranges@, before.bits, K as nat, self.ranges@, self.bits, v);
            }
            if self.ranges@.len() == 0 {
                tnum::lemma_bottom_is_empty(self.bits);
            }
        }
    }

    fn reduce_components(&mut self)
        ensures
            reduces_to(
                old(self).range_part()@,
                old(self).bit_part(),
                K as nat,
                final(self).range_part()@,
                final(self).bit_part(),
            ),
    {
        if self.ranges.is_empty() || !self.bits.has_value() {
            if !self.ranges.is_empty() {
                let held = self.ranges.ranges().len();
                assert(held > 0 && held <= K);
                self.ranges = RangeSet::empty();
            }
            self.bits = Tnum::empty();
            return;
        }
        let current = self.ranges;
        let pieces = current.ranges();
        let mut bits_of_ranges = Tnum::empty();
        let mut i: usize = 0;
        while i < pieces.len()
            invariant
                i <= pieces@.len(),
                bits_of_ranges == range_bits(pieces@.take(i as int)),
            decreases pieces@.len() - i,
        {
            let (low, high) = pieces[i];
            let differing = low ^ high;
            let unknown = if differing == 0 {
                0
            } else {
                let zeros = differing.leading_zeros();
                proof {
                    axiom_u64_leading_zeros(differing);
                }
                u64::MAX >> zeros
            };
            let piece = Tnum::from_parts(low & !unknown, unknown);
            bits_of_ranges = bits_of_ranges.union(piece);
            proof {
                assert(pieces@.take(i + 1).drop_last() =~= pieces@.take(i as int));
                assert(pieces@.take(i + 1).last() == (low, high));
            }
            i += 1;
        }
        assert(pieces@.take(pieces@.len() as int) =~= pieces@);
        self.bits = self.bits.intersection(bits_of_ranges);
        if !self.bits.has_value() {
            self.ranges = RangeSet::empty();
            return;
        }
        let (low, high) = self.bits.unsigned_bounds();
        let ghost unknown = self.bits.unknown();
        assert(low <= high) by (bit_vector)
            requires
                high == low | unknown,
        ;
        self.ranges = self.ranges.intersection(RangeSet::from_range(low, high));
        if self.ranges.is_empty() {
            self.bits = Tnum::empty();
        }
    }
}

} // verus!

verus! {

impl<const K: usize> BitRange<K> {
    /// The reduced product of `ranges` and `bits`.
    pub fn new(ranges: RangeSet<K>, bits: Tnum) -> (r: Self)
        ensures
            reduces_to(ranges@, bits, K as nat, r.range_part()@, r.bit_part()),
            forall|v: u64| #[trigger] r.has(v) == (ranges.has(v) && bits.has(v)),
            (r.range_part()@.len() == 0) == r.bit_part().is_bottom(),
            bits.spec_contains(r.bit_part()),
            range_bits(ranges@).includes(r.bit_part()),
            r.range_part()@.len() > 0 ==> r.bit_part() == bits.spec_intersection(
                range_bits(ranges@),
            ),
            forall|v: u64| #[trigger] r.range_part().has(v) ==> ranges.has(v),
            forall|i: int|
                0 <= i < r.range_part()@.len() ==> r.bit_part().known() <= (
                #[trigger] r.range_part()@[i]).0 && r.range_part()@[i].1 <= r.bit_part().known()
                    | r.bit_part().unknown(),
    {
        proof {
            use_type_invariant(&bits);
        }
        let held = ranges.ranges().len();
        let mut result = Self { ranges, bits };
        result.reduce();
        proof {
            lemma_reduction_shape(ranges@, bits, K as nat, result.range_part()@, result.bit_part());
            assert forall|v: u64| #[trigger] result.has(v) == (ranges.has(v) && bits.has(v)) by {
                lemma_reduction_exact(
                    ranges@,
                    bits,
                    K as nat,
                    result.range_part()@,
                    result.bit_part(),
                    v,
                );
            }
        }
        result
    }

    /// The single value `value`.
    pub fn from_value(value: u64) -> (r: Self)
        requires
            K > 0,
        ensures
            reduces_to(
                seq![(value, value)],
                Tnum::spec_from_parts(value, 0),
                K as nat,
                r.range_part()@,
                r.bit_part(),
            ),
            forall|v: u64| #[trigger] r.has(v) == (v == value),
    {
        let ranges = RangeSet::from_value(value);
        let bits = Tnum::from_value(value);
        proof {
            tnum::lemma_constructors(value, 0, value);
            assert forall|v: u64| #[trigger] ranges.has(v) == (v == value) by {
                if v == value {
                    assert(in_range(ranges@[0], v));
                }
            }
        }
        Self::new(ranges, bits)
    }

    /// The given intervals, with every bit pattern allowed before reduction.
    pub fn from_ranges(ranges: RangeSet<K>) -> (r: Self)
        ensures
            reduces_to(ranges@, Tnum::spec_unknown(), K as nat, r.range_part()@, r.bit_part()),
            forall|v: u64| #[trigger] r.has(v) == ranges.has(v),
    {
        let bits = Tnum::default();
        Self::new(ranges, bits)
    }

    /// The given bits, with every 64-bit value allowed by the intervals before reduction.
    pub fn from_bits(bits: Tnum) -> (r: Self)
        ensures
            K > 0 ==> reduces_to(seq![(0u64, u64::MAX)], bits, K as nat, r.range_part()@, r.bit_part()),
            K > 0 ==> forall|v: u64| #[trigger] r.has(v) == bits.has(v),
            K == 0 ==> forall|v: u64| !#[trigger] r.has(v),
    {
        let ranges = RangeSet::default();
        proof {
            if K > 0 {
                assert forall|v: u64| #[trigger] ranges.has(v) by {
                    assert(in_range(ranges@[0], v));
                }
            }
        }
        Self::new(ranges, bits)
    }

    /// The interval component.
    pub fn ranges(&self) -> (r: RangeSet<K>)
        ensures
            r == self.range_part(),
    {
        self.ranges
    }

    /// The known-bits component.
    pub fn bits(&self) -> (r: Tnum)
        ensures
            r == self.bit_part(),
    {
        self.bits
    }

    /// Whether both components hold `value`.
    pub fn contains_value(&self, value: u64) -> (r: bool)
        ensures
            r == self.has(value),
    {
        self.ranges.contains_value(value) && self.bits.contains_value(value)
    }

    /// Whether either component is empty (and so no value is held).
    pub fn is_empty(&self) -> (r: bool)
        ensures
            r == (self.range_part()@.len() == 0 || self.bit_part().is_bottom()),
            r ==> forall|v: u64| !#[trigger] self.has(v),
    {
        proof {
            tnum::lemma_constructors(0, 0, 0);
        }
        self.ranges.is_empty() || !self.bits.has_value()
    }

    /// Both components joined and reduced again; empty operands leave the other one.
    pub fn union(self, other: Self) -> (r: Self)
        ensures
            (self.range_part()@.len() == 0 || self.bit_part().is_bottom()) ==> r == other,
            !(self.range_part()@.len() == 0 || self.bit_part().is_bottom()) && (other.range_part()@.len()
                == 0 || other.bit_part().is_bottom()) ==> r == self,
            !(self.range_part()@.len() == 0 || self.bit_part().is_bottom()) && !(
            other.range_part()@.len() == 0 || other.bit_part().is_bottom()) ==> reduces_to(
                fill_gaps(
                    canonical_of(union_cover(self.range_part()@, other.range_part()@)),
                    K as nat,
                ),
                self.bit_part().spec_union(other.bit_part()),
                K as nat,
                r.range_part()@,
                r.bit_part(),
            ),
            forall|v: u64| self.has(v) || other.has(v) ==> #[trigger] r.has(v),
    {
        proof {
            use_type_invariant(&self.bits);
            use_type_invariant(&other.bits);
        }
        if self.is_empty() {
            return other;
        }
        if other.is_empty() {
            return self;
        }
        let ranges = self.ranges.union(other.ranges);
        let bits = self.bits.union(other.bits);
        let r = Self::new(ranges, bits);
        proof {
            assert forall|v: u64| self.has(v) || other.has(v) implies #[trigger] r.has(v) by {
                tnum::lemma_union_sound(self.bits, other.bits, v);
            }
        }
        r
    }

    /// Both components intersected and reduced again.
    pub fn intersection(self, other: Self) -> (r: Self)
        ensures
            reduces_to(
                fill_gaps(
                    canonical_of(intersection_cover(self.range_part()@, other.range_part()@)),
                    K as nat,
                ),
                self.bit_part().spec_intersection(other.bit_part()),
                K as nat,
                r.range_part()@,
                r.bit_part(),
            ),
            forall|v: u64| self.has(v) && other.has(v) ==> #[trigger] r.has(v),
            canonical_of(intersection_cover(self.range_part()@, other.range_part()@)).len() <= K
                ==> forall|v: u64| #[trigger] r.has(v) == (self.has(v) && other.has(v)),
            self.range_part()@.len() <= 1 || other.range_part()@.len() <= 1 ==> forall|v: u64|
                #[trigger] r.has(v) == (self.has(v) && other.has(v)),
    {
        proof {
            use_type_invariant(&self.bits);
            use_type_invariant(&other.bits);
        }
        let ranges = self.ranges.intersection(other.ranges);
        let bits = self.bits.intersection(other.bits);
        let r = Self::new(ranges, bits);
        proof {
            assert forall|v: u64| #[trigger] r.has(v) == (ranges.has(v) && bits.has(v)) by {}
            assert forall|v: u64| self.has(v) && other.has(v) implies #[trigger] r.has(v) by {
                tnum::lemma_intersection_exact(self.bits, other.bits, v);
            }
            if canonical_of(intersection_cover(self.range_part()@, other.range_part()@)).len() <= K
                || self.range_part()@.len() <= 1 || other.range_part()@.len() <= 1 {
                assert forall|v: u64| #[trigger] r.has(v) == (self.has(v) && other.has(v)) by {
                    tnum::lemma_intersection_exact(self.bits, other.bits, v);
                }
            }
        }
        r
    }

    /// Both components added and reduced again.
    pub fn add(self, other: Self) -> (r: Self)
        ensures
            reduces_to(
                fill_gaps(
                    canonical_of(sum_cover(self.range_part()@, other.range_part()@)),
                    K as nat,
                ),
                self.bit_part().spec_add(other.bit_part()),
                K as nat,
                r.range_part()@,
                r.bit_part(),
            ),
            forall|x: u64, y: u64|
                self.has(x) && other.has(y) ==> #[trigger] r.has(crate::word::wadd(x, y)),
    {
        proof {
            use_type_invariant(&self.bits);
            use_type_invariant(&other.bits);
        }
        let ranges = self.ranges.add(other.ranges);
        let bits = self.bits.add(other.bits);
        let r = Self::new(ranges, bits);
        proof {
            assert forall|x: u64, y: u64| self.has(x) && other.has(y) implies #[trigger] r.has(
                crate::word::wadd(x, y),
            ) by {
                let v = crate::word::wadd(x, y);
                assert(sum_cover(self.range_part()@, other.range_part()@)(v));
                tnum::lemma_add_sound(self.bits, other.bits, x, y);
            }
        }
        r
    }
}

impl<const K: usize> Default for BitRange<K> {
    /// Every 64-bit value (nothing when the intervals have no capacity).
    fn default() -> (r: Self)
        ensures
            K > 0 ==> forall|v: u64| #[trigger] r.has(v),
    {
        let bits = Tnum::default();
        let ranges = RangeSet::default();
        proof {
            if K > 0 {
                assert forall|v: u64| #[trigger] ranges.has(v) by {
                    assert(in_range(ranges@[0], v));
                }
            }
        }
        Self::new(ranges, bits)
    }
}

/// The sum is specified through its components (see `add`), not as a value here.
impl<const K: usize> vstd::std_specs::ops::AddSpecImpl for BitRange<K> {
    open spec fn obeys_add_spec() -> bool {
        false
    }

    open spec fn add_req(self, rhs: BitRange<K>) -> bool {
        true
    }

    open spec fn add_spec(self, rhs: BitRange<K>) -> BitRange<K> {
        self
    }
}

impl<const K: usize> core::ops::Add for BitRange<K> {
    type Output = BitRange<K>;

    fn add(self, other: BitRange<K>) -> (r: BitRange<K>)
        ensures
            reduces_to(
                fill_gaps(
                    canonical_of(sum_cover(self.range_part()@, other.range_part()@)),
                    K as nat,
                ),
                self.bit_part().spec_add(other.bit_part()),
                K as nat,
                r.range_part()@,
                r.bit_part(),
            ),
    {
        BitRange::add(self, other)
    }
}

} // verus!
