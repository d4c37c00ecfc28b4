# numeric_domains

Abstract domains for 64-bit machine integers, written in Verus. Each domain describes a
set of `u64` values, and every operation carries a contract that Verus proves: exactly
what the result stores. For every domain but `simple_tnum`, public laws also state that
each operation keeps every value the concrete operation can produce.

- `src/tnum.rs`: tracking numbers (known bits, unknown mask, empty flag).
- `src/znum.rs`: may-be-zero / may-be-one bit pairs, with wrapping arithmetic.
- `src/rnum.rs`: independent unsigned and signed ranges.
- `src/wrapped.rs`: arcs on the circle of integers modulo 2^64.
- `src/range_set.rs`: unions of at most `K` intervals, closing the smallest gaps when
  more pieces arise.
- `src/bit_range.rs`: the reduced product of a `RangeSet` and a `Tnum`.
- `src/simple_tnum.rs`: a minimal tracking number without an empty state. Its contracts
  fix the computed bits exactly, but its `&`, `^` and `+` formulas are not sound in
  general; the one law stated of it is that the sum of two constants is the constant of
  their wrapping sum.
- `src/word.rs`: wrapping word arithmetic and the facts the proofs share.

The public `lemma_*` proof functions state the laws of each domain: soundness of every
operation, exactness of intersections, least unions, bounds attained by members.

`tests/` holds the executable tests; `app/` prints a comparison of the domains.
Run Verus on `src/lib.rs` to check the proofs.
