use vstd::prelude::*;

verus! {

/// `v` lies in the inclusive interval `r`.
pub open spec fn in_range(r: (u64, u64), v: u64) -> bool {
    r.0 <= v <= r.1
}

/// `v` lies in one of the intervals of `s`.
pub open spec fn covers(s: Seq<(u64, u64)>, v: u64) -> bool {
    exists|i: int| 0 <= i < s.len() && #[trigger] in_range(s[i], v)
}

/// Every interval is ordered.
pub open spec fn ordered_pieces(s: Seq<(u64, u64)>) -> bool {
    forall|i: int| 0 <= i < s.len() ==> (#[trigger] s[i]).0 <= s[i].1
}

/// Ordered intervals in increasing order, each separated from the next by at least one
/// value that none of them holds.
pub open spec fn canonical(s: Seq<(u64, u64)>) -> bool {
    &&& ordered_pieces(s)
    &&& forall|i: int, j: int| 0 <= i < j < s.len() ==> (#[trigger] s[i]).1 + 1 < (#[trigger] s[j]).0
}

/// `m` is a canonical list of intervals whose values are exactly those satisfying `c`.
pub open spec fn is_canonical_of(m: Seq<(u64, u64)>, c: spec_fn(u64) -> bool) -> bool {
    &&& canonical(m)
    &&& forall|v: u64| #[trigger] covers(m, v) == c(v)
}

/// The canonical list of intervals of the values satisfying `c`.
pub open spec fn canonical_of(c: spec_fn(u64) -> bool) -> Seq<(u64, u64)> {
    choose|m: Seq<(u64, u64)>| is_canonical_of(m, c)
}

/// The values held by a list of intervals.
pub open spec fn cover_of(s: Seq<(u64, u64)>) -> spec_fn(u64) -> bool {
    |v: u64| covers(s, v)
}

proof fn lemma_canonical_first_is_least(s: Seq<(u64, u64)>, v: u64)
    requires
        canonical(s),
        s.len() > 0,
        covers(s, v),
    ensures
        s[0].0 <= v,
{
    let i = choose|i: int| 0 <= i < s.len() && #[trigger] in_range(s[i], v);
    if i > 0 {
        assert(s[0].1 + 1 < s[i].0);
        assert(s[0].0 <= s[0].1);
    }
}

proof fn lemma_canonical_after_first(s: Seq<(u64, u64)>, v: u64)
    requires
        canonical(s),
        s.len() > 0,
    ensures
        covers(s.drop_first(), v) <==> (covers(s, v) && v > s[0].1),
        canonical(s.drop_first()),
        s[0].1 < u64::MAX ==> !covers(s, (s[0].1 + 1) as u64),
{
    let t = s.drop_first();
    if covers(t, v) {
        let i = choose|i: int| 0 <= i < t.len() && #[trigger] in_range(t[i], v);
        assert(in_range(s[i + 1], v));
        assert(s[0].1 + 1 < s[i + 1].0);
    }
    if covers(s, v) && v > s[0].1 {
        let i = choose|i: int| 0 <= i < s.len() && #[trigger] in_range(s[i], v);
        assert(i != 0);
        assert(in_range(t[i - 1], v));
    }
    assert forall|i: int, j: int| 0 <= i < j < t.len() implies (#[trigger] t[i]).1 + 1 < (
    #[trigger] t[j]).0 by {
        assert(s[i + 1].1 + 1 < s[j + 1].0);
    }
    assert forall|i: int| 0 <= i < t.len() implies (#[trigger] t[i]).0 <= t[i].1 by {
        assert(s[i + 1].0 <= s[i + 1].1);
    }
    if s[0].1 < u64::MAX {
        let w = (s[0].1 + 1) as u64;
        if covers(s, w) {
            let i = choose|i: int| 0 <= i < s.len() && #[trigger] in_range(s[i], w);
            if i > 0 {
                assert(s[0].1 + 1 < s[i].0);
            }
        }
    }
}

/// Two canonical lists of intervals that hold the same values are equal.
pub proof fn lemma_canonical_unique(s: Seq<(u64, u64)>, t: Seq<(u64, u64)>)
    requires
        canonical(s),
        canonical(t),
        forall|v: u64| #[trigger] covers(s, v) == covers(t, v),
    ensures
        s == t,
    decreases s.len(),
{
    if s.len() == 0 {
        if t.len() > 0 {
            assert(in_range(t[0], t[0].0));
            assert(covers(t, t[0].0));
            assert(covers(s, t[0].0));
            assert(false);
        }
        assert(s =~= t);
    } else if t.len() == 0 {
        assert(in_range(s[0], s[0].0));
        assert(covers(s, s[0].0));
    } else {
        assert(in_range(s[0], s[0].0));
        assert(in_range(t[0], t[0].0));
        assert(covers(s, s[0].0));
        assert(covers(t, t[0].0));
        lemma_canonical_first_is_least(s, t[0].0);
        lemma_canonical_first_is_least(t, s[0].0);
        assert(s[0].0 == t[0].0);
        assert(in_range(s[0], s[0].1));
        assert(in_range(t[0], t[0].1));
        lemma_canonical_after_first(s, 0);
        lemma_canonical_after_first(t, 0);
        if s[0].1 < t[0].1 {
            let w = (s[0].1 + 1) as u64;
            assert(in_range(t[0], w));
            assert(covers(t, w));
        }
        if t[0].1 < s[0].1 {
            let w = (t[0].1 + 1) as u64;
            assert(in_range(s[0], w));
            assert(covers(s, w));
        }
        assert(s[0] == t[0]);
        assert forall|v: u64| #[trigger] covers(s.drop_first(), v) == covers(t.drop_first(), v) by {
            lemma_canonical_after_first(s, v);
            lemma_canonical_after_first(t, v);
        }
        lemma_canonical_unique(s.drop_first(), t.drop_first());
        assert(s =~= t) by {
            assert forall|i: int| 0 <= i < s.len() implies s[i] == t[i] by {
                if i > 0 {
                    assert(s[i] == s.drop_first()[i - 1]);
                    assert(t[i] == t.drop_first()[i - 1]);
                }
            }
        }
    }
}

/// A range set is determined by its intervals: two with the same intervals are equal.
pub proof fn lemma_view_determines<const K: usize>(a: RangeSet<K>, b: RangeSet<K>)
    requires
        a.wf(),
        b.wf(),
        a@ == b@,
    ensures
        a == b,
{
    assert(a.len == a@.len());
    assert forall|i: int| 0 <= i < K implies a.ranges[i] == b.ranges[i] by {
        if i < a.len {
            assert(a@[i] == a.ranges@[i]);
            assert(b@[i] == b.ranges@[i]);
        }
    }
    assert(a.ranges =~= b.ranges);
}

/// A canonical list is the canonical list of its own values.
pub proof fn lemma_canonical_of_exact(m: Seq<(u64, u64)>, c: spec_fn(u64) -> bool)
    requires
        is_canonical_of(m, c),
    ensures
        canonical_of(c) == m,
{
    let w = canonical_of(c);
    assert(is_canonical_of(w, c));
    assert forall|v: u64| #[trigger] covers(w, v) == covers(m, v) by {
        assert(covers(w, v) == c(v));
        assert(covers(m, v) == c(v));
    }
    lemma_canonical_unique(w, m);
}

} // verus!

verus! {

/// A canonical list has no more intervals than any list of ordered intervals holding the
/// same values: each canonical interval starts where one of the others starts.
pub proof fn lemma_canonical_len_bound(m: Seq<(u64, u64)>, s: Seq<(u64, u64)>)
    requires
        canonical(m),
        ordered_pieces(s),
        forall|v: u64| #[trigger] covers(m, v) == covers(s, v),
    ensures
        m.len() <= s.len(),
{
    let lows_m = Seq::new(m.len(), |i: int| m[i].0);
    let lows_s = Seq::new(s.len(), |j: int| s[j].0);
    assert forall|i: int| 0 <= i < m.len() implies lows_s.contains(#[trigger] lows_m[i]) by {
        let x = m[i].0;
        assert(in_range(m[i], x));
        assert(covers(m, x));
        assert(covers(s, x));
        let j = choose|j: int| 0 <= j < s.len() && #[trigger] in_range(s[j], x);
        if s[j].0 < x {
            let y = (x - 1) as u64;
            assert(in_range(s[j], y));
            assert(covers(m, y));
            let k = choose|k: int| 0 <= k < m.len() && #[trigger] in_range(m[k], y);
            if k < i {
                assert(m[k].1 + 1 < m[i].0);
            } else if k > i {
                assert(m[i].1 + 1 < m[k].0);
            }
            assert(false);
        }
        assert(lows_s[j] == x);
    }
    assert forall|a: int, b: int| 0 <= a < lows_m.len() && 0 <= b < lows_m.len() && a != b
        implies lows_m[a] != lows_m[b] by {
        if a < b {
            assert(m[a].1 + 1 < m[b].0);
        } else {
            assert(m[b].1 + 1 < m[a].0);
        }
    }
    assert(lows_m.no_duplicates());
    lows_m.unique_seq_to_set();
    lows_s.lemma_cardinality_of_set();
    vstd::seq_lib::seq_to_set_is_finite(lows_s);
    assert(lows_m.to_set().subset_of(lows_s.to_set()));
    vstd::set_lib::lemma_len_subset(lows_m.to_set(), lows_s.to_set());
}

/// The number of values strictly between interval `i` and interval `i + 1`.
pub open spec fn gap(s: Seq<(u64, u64)>, i: int) -> int {
    s[i + 1].0 - s[i].1 - 1
}

/// The first index of a smallest gap among the gaps `0 .. n`.
pub open spec fn first_min_gap(s: Seq<(u64, u64)>, n: int) -> int
    decreases n,
{
    if n <= 1 {
        0
    } else {
        let j = first_min_gap(s, n - 1);
        if gap(s, n - 1) < gap(s, j) {
            n - 1
        } else {
            j
        }
    }
}

/// Join interval `i` with interval `i + 1`, filling the gap between them.
pub open spec fn close_gap(s: Seq<(u64, u64)>, i: int) -> Seq<(u64, u64)> {
    Seq::new(
        (s.len() - 1) as nat,
        |j: int|
            if j < i {
                s[j]
            } else if j == i {
                (s[i].0, s[i + 1].1)
            } else {
                s[j + 1]
            },
    )
}

/// Fill smallest gaps, the first of equal ones first, until at most `k` intervals remain.
pub open spec fn fill_gaps(s: Seq<(u64, u64)>, k: nat) -> Seq<(u64, u64)>
    decreases s.len(),
{
    if s.len() <= k || s.len() < 2 {
        s
    } else {
        fill_gaps(close_gap(s, first_min_gap(s, s.len() - 1)), k)
    }
}

/// The gap chosen for filling is a smallest one, and every earlier gap is larger.
pub proof fn lemma_first_min_gap(s: Seq<(u64, u64)>, n: int)
    requires
        n >= 1,
    ensures
        0 <= first_min_gap(s, n) < n,
        forall|j: int| 0 <= j < n ==> gap(s, first_min_gap(s, n)) <= #[trigger] gap(s, j),
        forall|j: int| 0 <= j < first_min_gap(s, n) ==> gap(s, first_min_gap(s, n)) < #[trigger] gap(
            s,
            j,
        ),
    decreases n,
{
    if n > 1 {
        lemma_first_min_gap(s, n - 1);
    }
}

proof fn lemma_close_gap(s: Seq<(u64, u64)>, i: int, v: u64)
    requires
        canonical(s),
        0 <= i < s.len() - 1,
    ensures
        canonical(close_gap(s, i)),
        close_gap(s, i).len() == s.len() - 1,
        covers(s, v) ==> covers(close_gap(s, i), v),
        covers(close_gap(s, i), v) ==> covers(s, v) || (s[i].1 < v < s[i + 1].0),
{
    let t = close_gap(s, i);
    assert(s[i].0 <= s[i].1 && s[i].1 + 1 < s[i + 1].0 && s[i + 1].0 <= s[i + 1].1);
    assert forall|a: int| 0 <= a < t.len() implies (#[trigger] t[a]).0 <= t[a].1 by {
        if a > i {
            assert(s[a + 1].0 <= s[a + 1].1);
        } else if a < i {
            assert(s[a].0 <= s[a].1);
        }
    }
    assert forall|a: int, b: int| 0 <= a < b < t.len() implies (#[trigger] t[a]).1 + 1 < (
    #[trigger] t[b]).0 by {
        let sa = if a <= i {
            if a == i {
                i + 1
            } else {
                a
            }
        } else {
            a + 1
        };
        let sb = if b < i {
            b
        } else {
            b + 1
        };
        if a == i {
            assert(s[i + 1].1 + 1 < s[b + 1].0);
        } else if b == i {
            assert(s[a].1 + 1 < s[i].0);
        } else {
            assert(s[sa].1 + 1 < s[sb].0);
        }
    }
    if covers(s, v) {
        let a = choose|a: int| 0 <= a < s.len() && #[trigger] in_range(s[a], v);
        if a < i {
            assert(in_range(t[a], v));
        } else if a == i || a == i + 1 {
            assert(in_range(t[i], v));
        } else {
            assert(in_range(t[a - 1], v));
        }
    }
    if covers(t, v) {
        let a = choose|a: int| 0 <= a < t.len() && #[trigger] in_range(t[a], v);
        if a < i {
            assert(in_range(s[a], v));
        } else if a > i {
            assert(in_range(s[a + 1], v));
        } else {
            if v <= s[i].1 {
                assert(in_range(s[i], v));
            } else if v >= s[i + 1].0 {
                assert(in_range(s[i + 1], v));
            }
        }
    }
}

/// Filling gaps keeps the list canonical, loses no value, and leaves at most `k`
/// intervals; a list that already fits is unchanged.
pub proof fn lemma_fill_gaps(s: Seq<(u64, u64)>, k: nat, v: u64)
    requires
        canonical(s),
    ensures
        canonical(fill_gaps(s, k)),
        covers(s, v) ==> covers(fill_gaps(s, k), v),
        s.len() <= k ==> fill_gaps(s, k) == s,
        k >= 1 ==> fill_gaps(s, k).len() <= k,
        fill_gaps(s, k).len() <= s.len(),
        (fill_gaps(s, k).len() == 0) == (s.len() == 0),
    decreases s.len(),
{
    if !(s.len() <= k || s.len() < 2) {
        let i = first_min_gap(s, s.len() - 1);
        lemma_first_min_gap(s, s.len() - 1);
        lemma_close_gap(s, i, v);
        lemma_fill_gaps(close_gap(s, i), k, v);
    }
}

} // verus!

verus! {

/// A bounded union of at most `K` disjoint, inclusive unsigned intervals, in increasing
/// order and never adjacent.
///
/// Operations compute their exact interval pieces and, when there are more than `K`,
/// fill the smallest gaps until the result fits.
#[derive(Debug, Clone, Copy, PartialEq, Eq)]
pub struct RangeSet<const K: usize> {
    ranges: [(u64, u64); K],
    len: usize,
}

impl<const K: usize> View for RangeSet<K> {
    type V = Seq<(u64, u64)>;

    /// The stored intervals.
    closed spec fn view(&self) -> Seq<(u64, u64)> {
        self.ranges@.subrange(0, self.len as int)
    }
}

/// The sum of the sizes of the intervals.
pub open spec fn total(s: Seq<(u64, u64)>) -> int
    decreases s.len(),
{
    if s.len() == 0 {
        0
    } else {
        total(s.drop_last()) + (s.last().1 - s.last().0 + 1)
    }
}

impl<const K: usize> RangeSet<K> {
    /// At most `K` intervals, canonical, and unused slots cleared.
    #[verifier::type_invariant]
    pub closed spec fn wf(self) -> bool {
        &&& self.len <= K
        &&& canonical(self.ranges@.subrange(0, self.len as int))
        &&& forall|i: int| self.len <= i < K ==> #[trigger] self.ranges@[i] == (0u64, 0u64)
    }

    /// Membership of a concrete value.
    pub open spec fn has(self, v: u64) -> bool {
        covers(self@, v)
    }

    /// A set with no interval; a set without capacity can hold nothing else.
    fn none() -> (r: Self)
        ensures
            r@ == Seq::<(u64, u64)>::empty(),
    {
        let r = Self { ranges: [(0, 0); K], len: 0 };
        assert(r@ =~= Seq::<(u64, u64)>::empty());
        r
    }

    /// The empty set.
    pub fn empty() -> (r: Self)
        requires
            K > 0,
        ensures
            r@ == Seq::<(u64, u64)>::empty(),
    {
        Self::none()
    }

    /// Every 64-bit value.
    pub fn full() -> (r: Self)
        requires
            K > 0,
        ensures
            r@ == seq![(0u64, u64::MAX)],
    {
        Self::from_range(0, u64::MAX)
    }

    /// The single value `value`.
    pub fn from_value(value: u64) -> (r: Self)
        requires
            K > 0,
        ensures
            r@ == seq![(value, value)],
    {
        Self::from_range(value, value)
    }

    /// The interval `[low, high]`, which must be ordered.
    pub fn from_range(low: u64, high: u64) -> (r: Self)
        requires
            K > 0,
            low <= high,
        ensures
            r@ == seq![(low, high)],
    {
        let mut ranges = [(0u64, 0u64); K];
        ranges[0] = (low, high);
        let r = Self { ranges, len: 1 };
        assert(r@ =~= seq![(low, high)]);
        r
    }

    /// The stored intervals, in increasing order.
    pub fn ranges(&self) -> (r: &[(u64, u64)])
        ensures
            r@ == self@,
            self@.len() <= K,
            canonical(self@),
    {
        proof {
            use_type_invariant(self);
        }
        vstd::slice::slice_subrange(self.ranges.as_slice(), 0, self.len)
    }

    /// Whether no value is held.
    pub fn is_empty(&self) -> (r: bool)
        ensures
            r == (self@.len() == 0),
    {
        proof {
            use_type_invariant(self);
        }
        self.len == 0
    }

    /// Whether `value` lies in one of the intervals.
    pub fn contains_value(&self, value: u64) -> (r: bool)
        ensures
            r == self.has(value),
    {
        proof {
            use_type_invariant(self);
        }
        let ranges = self.ranges();
        let mut i: usize = 0;
        while i < ranges.len()
            invariant
                ranges@ == self@,
                i <= ranges@.len(),
                forall|j: int| 0 <= j < i ==> !#[trigger] in_range(ranges@[j], value),
            decreases ranges@.len() - i,
        {
            let (low, high) = ranges[i];
            if low <= value && value <= high {
                assert(in_range(ranges@[i as int], value));
                return true;
            }
            i += 1;
        }
        false
    }
}

} // verus!

verus! {

/// Intervals in non-decreasing order of their lower ends.
pub open spec fn sorted_by_low(s: Seq<(u64, u64)>) -> bool {
    forall|i: int, j: int| 0 <= i < j < s.len() ==> (#[trigger] s[i]).0 <= (#[trigger] s[j]).0
}

proof fn lemma_covers_push(s: Seq<(u64, u64)>, p: (u64, u64), v: u64)
    ensures
        covers(s.push(p), v) <==> (covers(s, v) || in_range(p, v)),
{
    let t = s.push(p);
    if covers(s, v) {
        let i = choose|i: int| 0 <= i < s.len() && #[trigger] in_range(s[i], v);
        assert(in_range(t[i], v));
    }
    if in_range(p, v) {
        assert(in_range(t[s.len() as int], v));
    }
    if covers(t, v) {
        let i = choose|i: int| 0 <= i < t.len() && #[trigger] in_range(t[i], v);
        if i < s.len() {
            assert(in_range(s[i], v));
        }
    }
}

proof fn lemma_covers_take_step(s: Seq<(u64, u64)>, i: int, v: u64)
    requires
        0 <= i < s.len(),
    ensures
        covers(s.take(i + 1), v) <==> (covers(s.take(i), v) || in_range(s[i], v)),
{
    assert(s.take(i + 1) =~= s.take(i).push(s[i]));
    lemma_covers_push(s.take(i), s[i], v);
}

proof fn lemma_covers_insert(s: Seq<(u64, u64)>, pos: int, p: (u64, u64), v: u64)
    requires
        0 <= pos <= s.len(),
    ensures
        covers(s.insert(pos, p), v) <==> (covers(s, v) || in_range(p, v)),
{
    let t = s.insert(pos, p);
    if covers(s, v) {
        let i = choose|i: int| 0 <= i < s.len() && #[trigger] in_range(s[i], v);
        if i < pos {
            assert(in_range(t[i], v));
        } else {
            assert(in_range(t[i + 1], v));
        }
    }
    if in_range(p, v) {
        assert(in_range(t[pos], v));
    }
    if covers(t, v) {
        let i = choose|i: int| 0 <= i < t.len() && #[trigger] in_range(t[i], v);
        if i < pos {
            assert(in_range(s[i], v));
        } else if i > pos {
            assert(in_range(s[i - 1], v));
        }
    }
}

/// Sort intervals by their lower ends.
fn sort_by_low(pieces: &Vec<(u64, u64)>) -> (r: Vec<(u64, u64)>)
    requires
        ordered_pieces(pieces@),
    ensures
        sorted_by_low(r@),
        ordered_pieces(r@),
        forall|v: u64| #[trigger] covers(r@, v) == covers(pieces@, v),
{
    let mut out: Vec<(u64, u64)> = Vec::new();
    let mut i: usize = 0;
    while i < pieces.len()
        invariant
            i <= pieces@.len(),
            ordered_pieces(pieces@),
            sorted_by_low(out@),
            ordered_pieces(out@),
            forall|v: u64| #[trigger] covers(out@, v) == covers(pieces@.take(i as int), v),
        decreases pieces@.len() - i,
    {
        let p = pieces[i];
        let mut pos: usize = 0;
        while pos < out.len() && out[pos].0 <= p.0
            invariant
                pos <= out@.len(),
                forall|k: int| 0 <= k < pos ==> (#[trigger] out@[k]).0 <= p.0,
            decreases out@.len() - pos,
        {
            pos += 1;
        }
        let ghost old_out = out@;
        out.insert(pos, p);
        proof {
            assert(out@ == old_out.insert(pos as int, p));
            assert forall|a: int, b: int| 0 <= a < b < out@.len() implies (#[trigger] out@[a]).0
                <= (#[trigger] out@[b]).0 by {
                if pos < old_out.len() {
                    assert(old_out[pos as int].0 > p.0);
                }
                if a < pos && b > pos {
                    assert(old_out[a].0 <= p.0);
                }
                if a == pos && b > pos {
                    assert(old_out[pos as int].0 <= old_out[b - 1].0 || b - 1 == pos);
                }
            }
            assert forall|a: int| 0 <= a < out@.len() implies (#[trigger] out@[a]).0 <= out@[a].1 by {
                if a < pos {
                    assert(old_out[a].0 <= old_out[a].1);
                } else if a > pos {
                    assert(old_out[a - 1].0 <= old_out[a - 1].1);
                } else {
                    assert(pieces@[i as int].0 <= pieces@[i as int].1);
                }
            }
            assert forall|v: u64| #[trigger] covers(out@, v) == covers(pieces@.take(i + 1), v) by {
                lemma_covers_insert(old_out, pos as int, p, v);
                lemma_covers_take_step(pieces@, i as int, v);
            }
        }
        i += 1;
    }
    assert(pieces@.take(pieces@.len() as int) =~= pieces@);
    out
}

/// Merge sorted intervals that overlap or touch into a canonical list.
fn merge_sorted(sorted: &Vec<(u64, u64)>) -> (r: Vec<(u64, u64)>)
    requires
        sorted_by_low(sorted@),
        ordered_pieces(sorted@),
    ensures
        canonical(r@),
        forall|v: u64| #[trigger] covers(r@, v) == covers(sorted@, v),
        (r@.len() == 0) == (sorted@.len() == 0),
{
    let mut merged: Vec<(u64, u64)> = Vec::new();
    let mut i: usize = 0;
    while i < sorted.len()
        invariant
            i <= sorted@.len(),
            sorted_by_low(sorted@),
            ordered_pieces(sorted@),
            canonical(merged@),
            (merged@.len() == 0) == (i == 0),
            forall|v: u64| #[trigger] covers(merged@, v) == covers(sorted@.take(i as int), v),
            merged@.len() > 0 ==> forall|j: int|
                i <= j < sorted@.len() ==> merged@.last().0 <= (#[trigger] sorted@[j]).0,
        decreases sorted@.len() - i,
    {
        let (low, high) = sorted[i];
        let ghost old_merged = merged@;
        let n = merged.len();
        let extend = if n > 0 {
            let last_high = merged[n - 1].1;
            let reach = if last_high == u64::MAX { u64::MAX } else { last_high + 1 };
            low <= reach
        } else {
            false
        };
        if extend {
            let (last_low, last_high) = merged[n - 1];
            let new_high = if last_high >= high { last_high } else { high };
            merged.set(n - 1, (last_low, new_high));
            proof {
                assert(old_merged.last() == old_merged[n - 1]);
                assert(sorted@[i as int].0 <= sorted@[i as int].1);
                assert forall|v: u64| #[trigger] covers(merged@, v) == covers(sorted@.take(i + 1), v) by {
                    lemma_covers_take_step(sorted@, i as int, v);
                    let prefix = old_merged.drop_last();
                    assert(old_merged =~= prefix.push(old_merged.last()));
                    assert(merged@ =~= prefix.push((last_low, new_high)));
                    lemma_covers_push(prefix, old_merged.last(), v);
                    lemma_covers_push(prefix, (last_low, new_high), v);
                }
                assert forall|a: int, b: int| 0 <= a < b < merged@.len() implies (
                #[trigger] merged@[a]).1 + 1 < (#[trigger] merged@[b]).0 by {
                    assert(old_merged[a].1 + 1 < old_merged[b].0);
                }
                assert forall|a: int| 0 <= a < merged@.len() implies (#[trigger] merged@[a]).0
                    <= merged@[a].1 by {
                    assert(old_merged[a].0 <= old_merged[a].1);
                }
                assert forall|j: int| i + 1 <= j < sorted@.len() implies merged@.last().0 <= (
                #[trigger] sorted@[j]).0 by {
                    assert(old_merged.last().0 <= sorted@[j].0);
                }
            }
        } else {
            merged.push((low, high));
            proof {
                assert(sorted@[i as int].0 <= sorted@[i as int].1);
                assert forall|v: u64| #[trigger] covers(merged@, v) == covers(sorted@.take(i + 1), v) by {
                    lemma_covers_take_step(sorted@, i as int, v);
                    lemma_covers_push(old_merged, (low, high), v);
                }
                assert forall|a: int, b: int| 0 <= a < b < merged@.len() implies (
                #[trigger] merged@[a]).1 + 1 < (#[trigger] merged@[b]).0 by {
                    if b == n {
                        assert(old_merged.last() == old_merged[n - 1]);
                        if a < n - 1 {
                            assert(old_merged[a].1 + 1 < old_merged[n - 1].0);
                            assert(old_merged[n - 1].0 <= old_merged[n - 1].1);
                        }
                    } else {
                        assert(old_merged[a].1 + 1 < old_merged[b].0);
                    }
                }
                assert forall|a: int| 0 <= a < merged@.len() implies (#[trigger] merged@[a]).0
                    <= merged@[a].1 by {
                    if a < n {
                        assert(old_merged[a].0 <= old_merged[a].1);
                    }
                }
                assert forall|j: int| i + 1 <= j < sorted@.len() implies merged@.last().0 <= (
                #[trigger] sorted@[j]).0 by {
                    assert(sorted@[i as int].0 <= sorted@[j].0);
                }
            }
        }
        i += 1;
    }
    assert(sorted@.take(sorted@.len() as int) =~= sorted@);
    merged
}

} // verus!

verus! {

/// Fill the smallest gaps, the first of equal ones first, until at most `k` intervals
/// remain.
fn close_smallest_gaps(merged: &mut Vec<(u64, u64)>, k: usize)
    requires
        canonical(old(merged)@),
        k >= 1,
    ensures
        final(merged)@ == fill_gaps(old(merged)@, k as nat),
{
    while merged.len() > k
        invariant
            canonical(merged@),
            k >= 1,
            fill_gaps(merged@, k as nat) == fill_gaps(old(merged)@, k as nat),
        decreases merged@.len(),
    {
        let n = merged.len();
        let ghost s = merged@;
        let mut best: usize = 0;
        let mut j: usize = 1;
        while j < n - 1
            invariant
                n == merged@.len(),
                n >= 2,
                merged@ == s,
                canonical(s),
                1 <= j <= n - 1,
                best < j,
                best as int == first_min_gap(s, j as int),
            decreases n - 1 - j,
        {
            assert(s[j as int].1 + 1 < s[j + 1].0);
            assert(s[best as int].1 + 1 < s[best + 1].0);
            let gap_j = merged[j + 1].0 - merged[j].1 - 1;
            let gap_best = merged[best + 1].0 - merged[best].1 - 1;
            if gap_j < gap_best {
                best = j;
            }
            j += 1;
        }
        proof {
            lemma_first_min_gap(s, (n - 1) as int);
        }
        let low = merged[best].0;
        let high = merged[best + 1].1;
        merged.set(best, (low, high));
        merged.remove(best + 1);
        proof {
            assert(merged@ =~= close_gap(s, best as int));
            lemma_close_gap(s, best as int, 0);
        }
    }
    proof {
        lemma_fill_gaps(merged@, k as nat, 0);
    }
}

impl<const K: usize> RangeSet<K> {
    /// The set of at most `K` intervals made from `pieces`: their canonical list with the
    /// smallest gaps filled until it fits.
    fn from_pieces(pieces: Vec<(u64, u64)>) -> (r: Self)
        requires
            ordered_pieces(pieces@),
            K > 0 || pieces@.len() == 0,
        ensures
            r@ == fill_gaps(canonical_of(cover_of(pieces@)), K as nat),
            is_canonical_of(canonical_of(cover_of(pieces@)), cover_of(pieces@)),
    {
        if pieces.len() == 0 {
            let r = Self::none();
            proof {
                assert(is_canonical_of(Seq::<(u64, u64)>::empty(), cover_of(pieces@)));
                lemma_canonical_of_exact(Seq::<(u64, u64)>::empty(), cover_of(pieces@));
            }
            return r;
        }
        let sorted = sort_by_low(&pieces);
        let mut merged = merge_sorted(&sorted);
        proof {
            assert(is_canonical_of(merged@, cover_of(pieces@)));
            lemma_canonical_of_exact(merged@, cover_of(pieces@));
        }
        close_smallest_gaps(&mut merged, K);
        proof {
            lemma_fill_gaps(canonical_of(cover_of(pieces@)), K as nat, 0);
        }
        let mut ranges = [(0u64, 0u64); K];
        let mut i: usize = 0;
        while i < merged.len()
            invariant
                i <= merged@.len(),
                merged@.len() <= K,
                forall|a: int| 0 <= a < i ==> ranges@[a] == merged@[a],
                forall|a: int| merged@.len() <= a < K ==> ranges@[a] == (0u64, 0u64),
            decreases merged@.len() - i,
        {
            ranges[i] = merged[i];
            i += 1;
        }
        assert(ranges@.subrange(0, merged@.len() as int) =~= merged@);
        let r = Self { ranges, len: merged.len() };
        assert(r@ =~= merged@);
        r
    }
}

} // verus!

verus! {

use crate::word::{wadd, word_modulus};

/// The values of `a` or of `b`.
pub open spec fn union_cover(a: Seq<(u64, u64)>, b: Seq<(u64, u64)>) -> spec_fn(u64) -> bool {
    |v: u64| covers(a, v) || covers(b, v)
}

/// The values of both `a` and `b`.
pub open spec fn intersection_cover(a: Seq<(u64, u64)>, b: Seq<(u64, u64)>) -> spec_fn(
    u64,
) -> bool {
    |v: u64| covers(a, v) && covers(b, v)
}

/// The wrapping sums of a value of `a` and a value of `b`.
pub open spec fn sum_cover(a: Seq<(u64, u64)>, b: Seq<(u64, u64)>) -> spec_fn(u64) -> bool {
    |v: u64| exists|x: u64, y: u64| covers(a, x) && covers(b, y) && #[trigger] wadd(x, y) == v
}

/// Union, intersection and addition of interval sets give the same intervals whichever
/// operand comes first.
pub proof fn lemma_operations_commutative(a: Seq<(u64, u64)>, b: Seq<(u64, u64)>, k: nat)
    ensures
        fill_gaps(canonical_of(union_cover(a, b)), k) == fill_gaps(
            canonical_of(union_cover(b, a)),
            k,
        ),
        fill_gaps(canonical_of(intersection_cover(a, b)), k) == fill_gaps(
            canonical_of(intersection_cover(b, a)),
            k,
        ),
        fill_gaps(canonical_of(sum_cover(a, b)), k) == fill_gaps(canonical_of(sum_cover(b, a)), k),
{
    assert(union_cover(a, b) =~= union_cover(b, a));
    assert(intersection_cover(a, b) =~= intersection_cover(b, a));
    assert forall|v: u64| #[trigger] sum_cover(a, b)(v) == sum_cover(b, a)(v) by {
        if sum_cover(a, b)(v) {
            let (x, y) = choose|x: u64, y: u64| covers(a, x) && covers(b, y) && #[trigger] wadd(x, y) == v;
            assert(wadd(y, x) == v);
        }
        if sum_cover(b, a)(v) {
            let (x, y) = choose|x: u64, y: u64| covers(b, x) && covers(a, y) && #[trigger] wadd(x, y) == v;
            assert(wadd(y, x) == v);
        }
    }
    assert(sum_cover(a, b) =~= sum_cover(b, a));
}

/// `v` is the wrapping sum of a value of interval `p` and a value of interval `q`.
pub open spec fn pair_sum(p: (u64, u64), q: (u64, u64), v: u64) -> bool {
    exists|x: u64, y: u64| in_range(p, x) && in_range(q, y) && #[trigger] wadd(x, y) == v
}

/// The pieces of the sums of two intervals on the circle modulo 2^64: one interval, two
/// where the sums wrap past zero, or everything.
pub open spec fn linear_sum_pieces(a: (u64, u64), b: (u64, u64)) -> Seq<(u64, u64)> {
    let low = a.0 + b.0;
    let high = a.1 + b.1;
    let modulus = word_modulus();
    if high - low + 1 >= modulus {
        seq![(0u64, u64::MAX)]
    } else if high < modulus {
        seq![(low as u64, high as u64)]
    } else if low >= modulus {
        seq![((low - modulus) as u64, (high - modulus) as u64)]
    } else {
        seq![(low as u64, u64::MAX), (0u64, (high - modulus) as u64)]
    }
}

proof fn lemma_covers_append(s: Seq<(u64, u64)>, t: Seq<(u64, u64)>, v: u64)
    ensures
        covers(s + t, v) <==> (covers(s, v) || covers(t, v)),
{
    let u = s + t;
    if covers(s, v) {
        let i = choose|i: int| 0 <= i < s.len() && #[trigger] in_range(s[i], v);
        assert(in_range(u[i], v));
    }
    if covers(t, v) {
        let i = choose|i: int| 0 <= i < t.len() && #[trigger] in_range(t[i], v);
        assert(in_range(u[s.len() + i], v));
    }
    if covers(u, v) {
        let i = choose|i: int| 0 <= i < u.len() && #[trigger] in_range(u[i], v);
        if i < s.len() {
            assert(in_range(s[i], v));
        } else {
            assert(in_range(t[i - s.len()], v));
        }
    }
}

/// Split an integer sum `t` of two intervals into a value of each.
proof fn lemma_split_sum(a: (u64, u64), b: (u64, u64), t: int)
    requires
        a.0 <= a.1,
        b.0 <= b.1,
        a.0 + b.0 <= t <= a.1 + b.1,
    ensures
        exists|x: u64, y: u64| in_range(a, x) && in_range(b, y) && x + y == t,
{
    if t - b.0 <= a.1 {
        let x = (t - b.0) as u64;
        assert(in_range(a, x) && in_range(b, b.0) && x + b.0 == t);
    } else {
        let y = (t - a.1) as u64;
        assert(in_range(a, a.1) && in_range(b, y) && a.1 + y == t);
    }
}

/// The pieces of the sums of two intervals hold exactly their wrapping sums.
proof fn lemma_linear_sum_cover(a: (u64, u64), b: (u64, u64), v: u64)
    requires
        a.0 <= a.1,
        b.0 <= b.1,
    ensures
        covers(linear_sum_pieces(a, b), v) <==> pair_sum(a, b, v),
{
    let low = a.0 + b.0;
    let high = a.1 + b.1;
    let m = word_modulus();
    let s = linear_sum_pieces(a, b);
    if covers(s, v) {
        let t: int = if high - low + 1 >= m {
            if v >= low {
                v as int
            } else {
                v + m
            }
        } else if high < m {
            v as int
        } else if low >= m {
            v + m
        } else if v >= low {
            v as int
        } else {
            v + m
        };
        if !(high - low + 1 >= m) && !(high < m) && !(low >= m) {
            let i = choose|i: int| 0 <= i < s.len() && #[trigger] in_range(s[i], v);
            assert(i == 0 || i == 1);
        }
        lemma_split_sum(a, b, t);
        let (x, y) = choose|x: u64, y: u64| in_range(a, x) && in_range(b, y) && x + y == t;
        assert(in_range(a, x) && in_range(b, y) && wadd(x, y) == v);
    }
    if pair_sum(a, b, v) {
        let (x, y) = choose|x: u64, y: u64| in_range(a, x) && in_range(b, y) && #[trigger] wadd(
            x,
            y,
        ) == v;
        if high - low + 1 >= m {
            assert(in_range(s[0], v));
        } else if high < m {
            assert(in_range(s[0], v));
        } else if low >= m {
            assert(in_range(s[0], v));
        } else if x + y < m {
            assert(in_range(s[0], v));
        } else {
            assert(in_range(s[1], v));
        }
    }
}

/// Add the pieces of the sums of two intervals to `out`.
fn add_linear(a: (u64, u64), b: (u64, u64), out: &mut Vec<(u64, u64)>)
    requires
        a.0 <= a.1,
        b.0 <= b.1,
    ensures
        final(out)@ == old(out)@ + linear_sum_pieces(a, b),
        ordered_pieces(linear_sum_pieces(a, b)),
{
    let low = (a.0 as u128) + (b.0 as u128);
    let high = (a.1 as u128) + (b.1 as u128);
    let modulus: u128 = 0x1_0000_0000_0000_0000;
    let ghost old_out = out@;
    if high - low + 1 >= modulus {
        out.push((0, u64::MAX));
    } else if high < modulus {
        out.push((low as u64, high as u64));
    } else if low >= modulus {
        out.push(((low - modulus) as u64, (high - modulus) as u64));
    } else {
        out.push((low as u64, u64::MAX));
        out.push((0, (high - modulus) as u64));
    }
    assert(out@ =~= old_out + linear_sum_pieces(a, b));
}

} // verus!

verus! {

/// A canonical list with its smallest gaps filled holds every value of the list, and
/// exactly those values when the list already fits.
pub proof fn lemma_fill_canonical_of(c: spec_fn(u64) -> bool, k: nat, v: u64)
    requires
        is_canonical_of(canonical_of(c), c),
    ensures
        c(v) ==> covers(fill_gaps(canonical_of(c), k), v),
        canonical_of(c).len() <= k ==> (covers(fill_gaps(canonical_of(c), k), v) == c(v)),
        canonical(fill_gaps(canonical_of(c), k)),
{
    lemma_fill_gaps(canonical_of(c), k, v);
}

/// The intersection of two intervals, if not empty.
pub open spec fn meet(p: (u64, u64), q: (u64, u64)) -> Option<(u64, u64)> {
    let low = if p.0 >= q.0 {
        p.0
    } else {
        q.0
    };
    let high = if p.1 <= q.1 {
        p.1
    } else {
        q.1
    };
    if low <= high {
        Some((low, high))
    } else {
        None
    }
}

proof fn lemma_meet(p: (u64, u64), q: (u64, u64), v: u64)
    ensures
        (meet(p, q) matches Some(r) && in_range(r, v)) <==> (in_range(p, v) && in_range(q, v)),
        meet(p, q) matches Some(r) ==> r.0 <= r.1,
{
}

impl<const K: usize> RangeSet<K> {
    /// A set of at most `K` intervals holding every value of both operands: the canonical
    /// list of their values with the smallest gaps filled until it fits.
    pub fn union(self, other: Self) -> (r: Self)
        ensures
            r@ == fill_gaps(canonical_of(union_cover(self@, other@)), K as nat),
            forall|v: u64| union_cover(self@, other@)(v) ==> #[trigger] r.has(v),
            canonical_of(union_cover(self@, other@)).len() <= K ==> forall|v: u64|
                #[trigger] r.has(v) == union_cover(self@, other@)(v),
            self@.len() + other@.len() <= K ==> forall|v: u64|
                #[trigger] r.has(v) == union_cover(self@, other@)(v),
    {
        proof {
            use_type_invariant(&self);
            use_type_invariant(&other);
        }
        let left = self.ranges();
        let right = other.ranges();
        let mut pieces: Vec<(u64, u64)> = Vec::new();
        let mut i: usize = 0;
        while i < left.len()
            invariant
                left@ == self@,
                i <= left@.len(),
                pieces@ == left@.take(i as int),
            decreases left@.len() - i,
        {
            pieces.push(left[i]);
            i += 1;
            assert(pieces@ =~= left@.take(i as int));
        }
        let mut j: usize = 0;
        while j < right.len()
            invariant
                left@ == self@,
                right@ == other@,
                pieces@ == left@ + right@.take(j as int),
                j <= right@.len(),
            decreases right@.len() - j,
        {
            pieces.push(right[j]);
            j += 1;
            assert(pieces@ =~= left@ + right@.take(j as int));
        }
        proof {
            assert(left@.take(left@.len() as int) =~= left@);
            assert(right@.take(right@.len() as int) =~= right@);
            assert forall|v: u64| #[trigger] cover_of(pieces@)(v) == union_cover(self@, other@)(v) by {
                lemma_covers_append(self@, other@, v);
            }
            assert(cover_of(pieces@) =~= union_cover(self@, other@));
            assert(ordered_pieces(pieces@)) by {
                assert forall|a: int| 0 <= a < pieces@.len() implies (#[trigger] pieces@[a]).0
                    <= pieces@[a].1 by {
                    if a < self@.len() {
                        assert(self@[a].0 <= self@[a].1);
                    } else {
                        assert(other@[a - self@.len()].0 <= other@[a - self@.len()].1);
                    }
                }
            }
        }
        let r = Self::from_pieces(pieces);
        proof {
            assert forall|v: u64| #[trigger] r.has(v) == covers(r@, v) by {
                lemma_fill_canonical_of(union_cover(self@, other@), K as nat, v);
            }
            assert forall|v: u64| union_cover(self@, other@)(v) implies #[trigger] r.has(v) by {
                lemma_fill_canonical_of(union_cover(self@, other@), K as nat, v);
            }
            assert forall|v: u64| #[trigger] covers(canonical_of(cover_of(pieces@)), v) == covers(
                pieces@,
                v,
            ) by {
                assert(cover_of(pieces@)(v) == covers(pieces@, v));
            }
            lemma_canonical_len_bound(canonical_of(cover_of(pieces@)), pieces@);
            if canonical_of(union_cover(self@, other@)).len() <= K {
                assert forall|v: u64| #[trigger] r.has(v) == union_cover(self@, other@)(v) by {
                    lemma_fill_canonical_of(union_cover(self@, other@), K as nat, v);
                }
            }
        }
        r
    }

    /// The values of both operands, as a set of at most `K` intervals (the canonical list
    /// of the common values with the smallest gaps filled until it fits).
    pub fn intersection(self, other: Self) -> (r: Self)
        ensures
            r@ == fill_gaps(canonical_of(intersection_cover(self@, other@)), K as nat),
            forall|v: u64| intersection_cover(self@, other@)(v) ==> #[trigger] r.has(v),
            canonical_of(intersection_cover(self@, other@)).len() <= K ==> forall|v: u64|
                #[trigger] r.has(v) == intersection_cover(self@, other@)(v),
            self@.len() <= 1 || other@.len() <= 1 ==> forall|v: u64|
                #[trigger] r.has(v) == intersection_cover(self@, other@)(v),
    {
        proof {
            use_type_invariant(&self);
            use_type_invariant(&other);
        }
        let left = self.ranges();
        let right = other.ranges();
        let mut pieces: Vec<(u64, u64)> = Vec::new();
        let mut i: usize = 0;
        while i < left.len()
            invariant
                left@ == self@,
                right@ == other@,
                ordered_pieces(self@),
                ordered_pieces(other@),
                i <= left@.len(),
                ordered_pieces(pieces@),
                forall|v: u64| #[trigger] covers(pieces@, v) == (covers(left@.take(i as int), v)
                    && covers(right@, v)),
                pieces@.len() <= i * right@.len(),
            decreases left@.len() - i,
        {
            let (a, b) = left[i];
            let mut j: usize = 0;
            let ghost before = pieces@;
            while j < right.len()
                invariant
                    left@ == self@,
                    right@ == other@,
                    ordered_pieces(self@),
                    ordered_pieces(other@),
                    i < left@.len(),
                    (a, b) == left@[i as int],
                    j <= right@.len(),
                    ordered_pieces(pieces@),
                    forall|v: u64| #[trigger] covers(pieces@, v) == (covers(before, v) || (
                    in_range((a, b), v) && covers(right@.take(j as int), v))),
                    pieces@.len() <= before.len() + j,
                decreases right@.len() - j,
            {
                let (c, d) = right[j];
                let low = if a >= c { a } else { c };
                let high = if b <= d { b } else { d };
                let ghost prev = pieces@;
                if low <= high {
                    pieces.push((low, high));
                }
                proof {
                    assert forall|v: u64| #[trigger] covers(pieces@, v) == (covers(before, v) || (
                    in_range((a, b), v) && covers(right@.take(j + 1), v))) by {
                        lemma_covers_take_step(right@, j as int, v);
                        lemma_meet((a, b), (c, d), v);
                        if low <= high {
                            lemma_covers_push(prev, (low, high), v);
                        }
                    }
                    assert forall|k: int| 0 <= k < pieces@.len() implies (#[trigger] pieces@[k]).0
                        <= pieces@[k].1 by {
                        if k < prev.len() {
                            assert(prev[k].0 <= prev[k].1);
                        }
                    }
                }
                j += 1;
            }
            proof {
                assert(right@.take(right@.len() as int) =~= right@);
                assert forall|v: u64| #[trigger] covers(pieces@, v) == (covers(
                    left@.take(i + 1),
                    v,
                ) && covers(right@, v)) by {
                    lemma_covers_take_step(left@, i as int, v);
                }
                vstd::arithmetic::mul::lemma_mul_is_distributive_add_other_way(
                    right@.len() as int,
                    i as int,
                    1,
                );
            }
            i += 1;
        }
        proof {
            assert(left@.take(left@.len() as int) =~= left@);
            assert(cover_of(pieces@) =~= intersection_cover(self@, other@));
            if K == 0 {
                assert(self@.len() == 0);
            }
            if self@.len() <= 1 {
                vstd::arithmetic::mul::lemma_mul_inequality(self@.len() as int, 1, other@.len() as int);
            }
            if other@.len() <= 1 {
                vstd::arithmetic::mul::lemma_mul_inequality(other@.len() as int, 1, self@.len() as int);
                vstd::arithmetic::mul::lemma_mul_is_commutative(self@.len() as int, other@.len() as int);
            }
        }
        let r = Self::from_pieces(pieces);
        proof {
            assert forall|v: u64| #[trigger] covers(canonical_of(cover_of(pieces@)), v) == covers(
                pieces@,
                v,
            ) by {
                assert(cover_of(pieces@)(v) == covers(pieces@, v));
            }
            lemma_canonical_len_bound(canonical_of(cover_of(pieces@)), pieces@);
            assert forall|v: u64| #[trigger] r.has(v) == covers(r@, v) by {
                lemma_fill_canonical_of(intersection_cover(self@, other@), K as nat, v);
            }
            assert forall|v: u64| intersection_cover(self@, other@)(v) implies #[trigger] r.has(v) by {
                lemma_fill_canonical_of(intersection_cover(self@, other@), K as nat, v);
            }
            if canonical_of(intersection_cover(self@, other@)).len() <= K {
                assert forall|v: u64| #[trigger] r.has(v) == intersection_cover(self@, other@)(v) by {
                    lemma_fill_canonical_of(intersection_cover(self@, other@), K as nat, v);
                }
            }
        }
        r
    }
}

} // verus!

verus! {

impl<const K: usize> RangeSet<K> {
    /// The wrapping sums of the values of both operands, as a set of at most `K`
    /// intervals (the canonical list of the sums with the smallest gaps filled until it
    /// fits).
    pub fn add(self, other: Self) -> (r: Self)
        ensures
            r@ == fill_gaps(canonical_of(sum_cover(self@, other@)), K as nat),
            forall|v: u64| sum_cover(self@, other@)(v) ==> #[trigger] r.has(v),
            canonical_of(sum_cover(self@, other@)).len() <= K ==> forall|v: u64|
                #[trigger] r.has(v) == sum_cover(self@, other@)(v),
    {
        proof {
            use_type_invariant(&self);
            use_type_invariant(&other);
        }
        if self.is_empty() || other.is_empty() {
            let r = Self::none();
            proof {
                assert forall|v: u64| !#[trigger] sum_cover(self@, other@)(v) by {
                    if sum_cover(self@, other@)(v) {
                        let (x, y) = choose|x: u64, y: u64| covers(self@, x) && covers(other@, y)
                            && #[trigger] wadd(x, y) == v;
                    }
                }
                assert(is_canonical_of(Seq::<(u64, u64)>::empty(), sum_cover(self@, other@)));
                lemma_canonical_of_exact(Seq::<(u64, u64)>::empty(), sum_cover(self@, other@));
            }
            return r;
        }
        let left = self.ranges();
        let right = other.ranges();
        let mut pieces: Vec<(u64, u64)> = Vec::new();
        let mut i: usize = 0;
        while i < left.len()
            invariant
                left@ == self@,
                right@ == other@,
                ordered_pieces(self@),
                ordered_pieces(other@),
                i <= left@.len(),
                ordered_pieces(pieces@),
                forall|v: u64| #[trigger] covers(pieces@, v) == (exists|p: int, q: int|
                    0 <= p < i && 0 <= q < right@.len() && #[trigger] pair_sum(
                        left@[p],
                        right@[q],
                        v,
                    )),
            decreases left@.len() - i,
        {
            let a = left[i];
            let mut j: usize = 0;
            let ghost before = pieces@;
            while j < right.len()
                invariant
                    left@ == self@,
                    right@ == other@,
                    ordered_pieces(self@),
                    ordered_pieces(other@),
                    i < left@.len(),
                    a == left@[i as int],
                    j <= right@.len(),
                    ordered_pieces(pieces@),
                    forall|v: u64| #[trigger] covers(pieces@, v) == (covers(before, v) || exists|
                        q: int,
                    | 0 <= q < j && #[trigger] pair_sum(a, right@[q], v)),
                decreases right@.len() - j,
            {
                let b = right[j];
                let ghost prev = pieces@;
                proof {
                    assert(a.0 <= a.1);
                    assert(b.0 <= b.1);
                }
                add_linear(a, b, &mut pieces);
                proof {
                    assert forall|v: u64| #[trigger] covers(pieces@, v) == (covers(before, v)
                        || exists|q: int| 0 <= q < j + 1 && #[trigger] pair_sum(a, right@[q], v)) by {
                        lemma_covers_append(prev, linear_sum_pieces(a, b), v);
                        lemma_linear_sum_cover(a, b, v);
                        if pair_sum(a, b, v) {
                            assert(pair_sum(a, right@[j as int], v));
                        }
                    }
                    assert forall|k: int| 0 <= k < pieces@.len() implies (#[trigger] pieces@[k]).0
                        <= pieces@[k].1 by {
                        if k < prev.len() {
                            assert(prev[k].0 <= prev[k].1);
                        } else {
                            assert(linear_sum_pieces(a, b)[k - prev.len()].0 <= linear_sum_pieces(
                                a,
                                b,
                            )[k - prev.len()].1);
                        }
                    }
                }
                j += 1;
            }
            proof {
                assert forall|v: u64| #[trigger] covers(pieces@, v) == (exists|p: int, q: int|
                    0 <= p < i + 1 && 0 <= q < right@.len() && #[trigger] pair_sum(
                        left@[p],
                        right@[q],
                        v,
                    )) by {
                    if exists|p: int, q: int|
                        0 <= p < i + 1 && 0 <= q < right@.len() && #[trigger] pair_sum(
                            left@[p],
                            right@[q],
                            v,
                        ) {
                        let (p, q) = choose|p: int, q: int|
                            0 <= p < i + 1 && 0 <= q < right@.len() && #[trigger] pair_sum(
                                left@[p],
                                right@[q],
                                v,
                            );
                        if p == i {
                            assert(pair_sum(a, right@[q], v));
                        }
                    }
                }
            }
            i += 1;
        }
        proof {
            assert forall|v: u64| #[trigger] cover_of(pieces@)(v) == sum_cover(self@, other@)(v) by {
                if covers(pieces@, v) {
                    let (p, q) = choose|p: int, q: int|
                        0 <= p < left@.len() && 0 <= q < right@.len() && #[trigger] pair_sum(
                            left@[p],
                            right@[q],
                            v,
                        );
                    let (x, y) = choose|x: u64, y: u64| in_range(left@[p], x) && in_range(
                        right@[q],
                        y,
                    ) && #[trigger] wadd(x, y) == v;
                    assert(covers(self@, x));
                    assert(covers(other@, y));
                }
                if sum_cover(self@, other@)(v) {
                    let (x, y) = choose|x: u64, y: u64| covers(self@, x) && covers(other@, y)
                        && #[trigger] wadd(x, y) == v;
                    let p = choose|p: int| 0 <= p < self@.len() && #[trigger] in_range(self@[p], x);
                    let q = choose|q: int| 0 <= q < other@.len() && #[trigger] in_range(
                        other@[q],
                        y,
                    );
                    assert(pair_sum(left@[p], right@[q], v));
                }
            }
            assert(cover_of(pieces@) =~= sum_cover(self@, other@));
        }
        let r = Self::from_pieces(pieces);
        proof {
            assert forall|v: u64| #[trigger] r.has(v) == covers(r@, v) by {
                lemma_fill_canonical_of(sum_cover(self@, other@), K as nat, v);
            }
            assert forall|v: u64| sum_cover(self@, other@)(v) implies #[trigger] r.has(v) by {
                lemma_fill_canonical_of(sum_cover(self@, other@), K as nat, v);
            }
            if canonical_of(sum_cover(self@, other@)).len() <= K {
                assert forall|v: u64| #[trigger] r.has(v) == sum_cover(self@, other@)(v) by {
                    lemma_fill_canonical_of(sum_cover(self@, other@), K as nat, v);
                }
            }
        }
        r
    }

    /// The number of held values (`2^64` for the full set).
    pub fn cardinality(&self) -> (r: u128)
        ensures
            r == total(self@),
            r == value_set(self@).len(),
    {
        proof {
            use_type_invariant(self);
            lemma_total_counts(self@);
        }
        let ranges = self.ranges();
        let mut sum: u128 = 0;
        let mut i: usize = 0;
        while i < ranges.len()
            invariant
                ranges@ == self@,
                canonical(self@),
                i <= ranges@.len(),
                sum == total(ranges@.take(i as int)),
            decreases ranges@.len() - i,
        {
            let (low, high) = ranges[i];
            proof {
                assert(ranges@.take(i + 1).drop_last() =~= ranges@.take(i as int));
                lemma_total_bound(ranges@.take(i + 1));
                assert(ranges@.take(i + 1)[0] == ranges@[0]);
                assert(ranges@[0].0 <= ranges@[0].1);
            }
            sum = sum + (high as u128) - (low as u128) + 1;
            i += 1;
        }
        assert(ranges@.take(ranges@.len() as int) =~= ranges@);
        sum
    }
}

/// The sizes of the intervals of a canonical list add up to at most the span from the
/// first lower end to the last upper end.
pub proof fn lemma_total_bound(s: Seq<(u64, u64)>)
    requires
        canonical(s),
        s.len() > 0,
    ensures
        total(s) <= s.last().1 - s[0].0 + 1,
    decreases s.len(),
{
    let t = s.drop_last();
    if t.len() > 0 {
        assert forall|i: int, j: int| 0 <= i < j < t.len() implies (#[trigger] t[i]).1 + 1 < (
        #[trigger] t[j]).0 by {
            assert(s[i].1 + 1 < s[j].0);
        }
        assert forall|i: int| 0 <= i < t.len() implies (#[trigger] t[i]).0 <= t[i].1 by {
            assert(s[i].0 <= s[i].1);
        }
        lemma_total_bound(t);
        assert(t.last() == s[t.len() - 1]);
        assert(t[0] == s[0]);
        assert(s[t.len() - 1].1 + 1 < s[s.len() - 1].0);
    } else {
        assert(total(t) == 0);
        assert(s.last() == s[0]);
    }
    assert(s.last().0 <= s.last().1);
    assert(total(s) == total(t) + (s.last().1 - s.last().0 + 1));
}

impl<const K: usize> Default for RangeSet<K> {
    /// Every 64-bit value; a set without capacity holds nothing.
    fn default() -> (r: Self)
        ensures
            K > 0 ==> r@ == seq![(0u64, u64::MAX)],
            K == 0 ==> r@ == Seq::<(u64, u64)>::empty(),
    {
        if K == 0 {
            Self::none()
        } else {
            Self::full()
        }
    }
}

/// The sum is specified through the intervals it holds (see `add`), not as a value here.
impl<const K: usize> vstd::std_specs::ops::AddSpecImpl for RangeSet<K> {
    open spec fn obeys_add_spec() -> bool {
        false
    }

    open spec fn add_req(self, rhs: RangeSet<K>) -> bool {
        true
    }

    open spec fn add_spec(self, rhs: RangeSet<K>) -> RangeSet<K> {
        self
    }
}

impl<const K: usize> core::ops::Add for RangeSet<K> {
    type Output = RangeSet<K>;

    fn add(self, other: RangeSet<K>) -> (r: RangeSet<K>)
        ensures
            r@ == fill_gaps(canonical_of(sum_cover(self@, other@)), K as nat),
            forall|v: u64| sum_cover(self@, other@)(v) ==> #[trigger] r.has(v),
            canonical_of(sum_cover(self@, other@)).len() <= K ==> forall|v: u64|
                #[trigger] r.has(v) == sum_cover(self@, other@)(v),
    {
        RangeSet::add(self, other)
    }
}

} // verus!

verus! {

/// The intervals of `s` clipped to `[lo, hi]`, dropping those that miss it.
pub open spec fn clip(s: Seq<(u64, u64)>, lo: u64, hi: u64) -> Seq<(u64, u64)>
    decreases s.len(),
{
    if s.len() == 0 {
        s
    } else {
        let rest = clip(s.drop_last(), lo, hi);
        match meet(s.last(), (lo, hi)) {
            Some(r) => rest.push(r),
            None => rest,
        }
    }
}

proof fn lemma_clip(s: Seq<(u64, u64)>, lo: u64, hi: u64)
    requires
        canonical(s),
        lo <= hi,
    ensures
        canonical(clip(s, lo, hi)),
        clip(s, lo, hi).len() <= s.len(),
        forall|v: u64| #[trigger] covers(clip(s, lo, hi), v) == (covers(s, v) && lo <= v <= hi),
        forall|i: int| 0 <= i < clip(s, lo, hi).len() ==> s.len() > 0 && s[0].0 <= (#[trigger] clip(s, lo, hi)[i]).0
            && clip(s, lo, hi)[i].1 <= s.last().1,
    decreases s.len(),
{
    if s.len() > 0 {
        let t = s.drop_last();
        assert forall|i: int, j: int| 0 <= i < j < t.len() implies (#[trigger] t[i]).1 + 1 < (
        #[trigger] t[j]).0 by {
            assert(s[i].1 + 1 < s[j].0);
        }
        assert forall|i: int| 0 <= i < t.len() implies (#[trigger] t[i]).0 <= t[i].1 by {
            assert(s[i].0 <= s[i].1);
        }
        lemma_clip(t, lo, hi);
        let rest = clip(t, lo, hi);
        let p = s.last();
        assert(p == s[s.len() - 1]);
        assert(p.0 <= p.1);
        assert forall|v: u64| #[trigger] covers(s, v) == (covers(t, v) || in_range(p, v)) by {
            assert(s =~= t.push(p));
            lemma_covers_push(t, p, v);
        }
        if let Some(r) = meet(p, (lo, hi)) {
            assert forall|v: u64| #[trigger] covers(clip(s, lo, hi), v) == (covers(s, v) && lo <= v
                <= hi) by {
                lemma_covers_push(rest, r, v);
                lemma_meet(p, (lo, hi), v);
            }
            assert forall|i: int, j: int|
                0 <= i < j < clip(s, lo, hi).len() implies (#[trigger] clip(s, lo, hi)[i]).1 + 1 < (
            #[trigger] clip(s, lo, hi)[j]).0 by {
                if j == rest.len() {
                    assert(t.len() > 0);
                    assert(rest[i].1 <= t.last().1);
                    assert(t.last() == s[s.len() - 2]);
                    assert(s[s.len() - 2].1 + 1 < s[s.len() - 1].0);
                }
            }
            assert forall|i: int| 0 <= i < clip(s, lo, hi).len() implies s.len() > 0 && s[0].0 <= (
            #[trigger] clip(s, lo, hi)[i]).0 && clip(s, lo, hi)[i].1 <= s.last().1 by {
                if i < rest.len() {
                    assert(t[0] == s[0]);
                    assert(t.last() == s[s.len() - 2]);
                    assert(s[s.len() - 2].1 < s[s.len() - 1].0);
                } else if t.len() > 0 {
                    assert(s[0].1 + 1 < s[s.len() - 1].0 || s.len() == 1);
                    assert(s[0].0 <= s[0].1);
                }
            }
        } else {
            assert forall|v: u64| #[trigger] covers(clip(s, lo, hi), v) == (covers(s, v) && lo <= v
                <= hi) by {
                lemma_meet(p, (lo, hi), v);
            }
            assert forall|i: int| 0 <= i < clip(s, lo, hi).len() implies s.len() > 0 && s[0].0 <= (
            #[trigger] clip(s, lo, hi)[i]).0 && clip(s, lo, hi)[i].1 <= s.last().1 by {
                assert(t[0] == s[0]);
                assert(t.last() == s[s.len() - 2]);
                assert(s[s.len() - 2].1 < s[s.len() - 1].0);
                assert(s[s.len() - 1].0 <= s[s.len() - 1].1);
            }
        }
    }
}

/// Restricting a canonical list to one interval needs no more intervals than the list has.
pub proof fn lemma_restrict_fits(s: Seq<(u64, u64)>, lo: u64, hi: u64)
    requires
        canonical(s),
        lo <= hi,
    ensures
        canonical_of(intersection_cover(s, seq![(lo, hi)])).len() <= s.len(),
        is_canonical_of(
            canonical_of(intersection_cover(s, seq![(lo, hi)])),
            intersection_cover(s, seq![(lo, hi)]),
        ),
{
    lemma_clip(s, lo, hi);
    let c = intersection_cover(s, seq![(lo, hi)]);
    assert forall|v: u64| #[trigger] covers(clip(s, lo, hi), v) == c(v) by {
        if lo <= v <= hi {
            assert(in_range(seq![(lo, hi)][0], v));
        }
    }
    lemma_canonical_of_exact(clip(s, lo, hi), c);
}

} // verus!

verus! {

use vstd::set_lib::{set_int_range, lemma_int_range, lemma_set_disjoint_lens};

/// The values held by a list of intervals, as integers.
pub open spec fn value_set(s: Seq<(u64, u64)>) -> Set<int> {
    Set::new(|v: int| 0 <= v <= u64::MAX && covers(s, v as u64))
}

/// The sizes of the intervals of a canonical list add up to the number of values it holds.
pub proof fn lemma_total_counts(s: Seq<(u64, u64)>)
    requires
        canonical(s),
    ensures
        value_set(s).finite(),
        value_set(s).len() == total(s),
    decreases s.len(),
{
    if s.len() == 0 {
        assert(value_set(s) =~= Set::<int>::empty());
    } else {
        let t = s.drop_last();
        let p = s.last();
        assert(p == s[s.len() - 1]);
        assert forall|i: int, j: int| 0 <= i < j < t.len() implies (#[trigger] t[i]).1 + 1 < (
        #[trigger] t[j]).0 by {
            assert(s[i].1 + 1 < s[j].0);
        }
        assert forall|i: int| 0 <= i < t.len() implies (#[trigger] t[i]).0 <= t[i].1 by {
            assert(s[i].0 <= s[i].1);
        }
        lemma_total_counts(t);
        let r = set_int_range(p.0 as int, p.1 + 1);
        assert(p.0 <= p.1);
        lemma_int_range(p.0 as int, p.1 + 1);
        assert(s =~= t.push(p));
        assert(value_set(s) =~= value_set(t) + r) by {
            assert forall|v: int| #[trigger] value_set(s).contains(v) == (value_set(t) + r).contains(
                v,
            ) by {
                if 0 <= v <= u64::MAX {
                    lemma_covers_push(t, p, v as u64);
                }
            }
        }
        assert(value_set(t).disjoint(r)) by {
            assert forall|v: int| value_set(t).contains(v) implies !r.contains(v) by {
                let i = choose|i: int| 0 <= i < t.len() && #[trigger] in_range(t[i], v as u64);
                assert(s[i].1 + 1 < s[s.len() - 1].0);
            }
        }
        lemma_set_disjoint_lens(value_set(t), r);
    }
}

} // verus!
