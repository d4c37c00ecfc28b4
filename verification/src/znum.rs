use vstd::prelude::*;

use crate::tnum::SIGN_BIT;
use crate::word::{lemma_wrapping_add, lemma_wrapping_sub, wadd, wsub};

verus! {

/// For every bit, whether it may be one (`o`) and whether it may be zero (`z`).
///
/// A bit that may be neither has no possible value, so such an encoding denotes the
/// empty set; every empty value is normalized to `o == z == 0`.
#[derive(Debug, Eq, PartialEq, Clone, Copy)]
pub struct Znum {
    z: u64,
    o: u64,
}

/// Whether the masks of bits that may be one (`ones`) and may be zero (`zeros`) allow `x`.
pub open spec fn allows(ones: u64, zeros: u64, x: u64) -> bool {
    (ones & x) | (zeros & !x) == u64::MAX
}

/// The known-value/unknown-mask sum of the pairs (`o1`, `z1`) and (`o2`, `z2`), as
/// (ones, zeros).
pub open spec fn masks_sum(o1: u64, z1: u64, o2: u64, z2: u64) -> (u64, u64) {
    let left_value = o1 & !z1;
    let left_mask = o1 & z1;
    let right_value = o2 & !z2;
    let right_mask = o2 & z2;
    let value_sum = wadd(left_value, right_value);
    let sigma = wadd(wadd(left_mask, right_mask), value_sum);
    let mask = (sigma ^ value_sum) | left_mask | right_mask;
    let value = value_sum & !mask;
    (value | mask, !value | mask)
}

/// The known-value/unknown-mask difference of the pairs (`o1`, `z1`) and (`o2`, `z2`), as
/// (ones, zeros).
pub open spec fn masks_difference(o1: u64, z1: u64, o2: u64, z2: u64) -> (u64, u64) {
    let left_value = o1 & !z1;
    let left_mask = o1 & z1;
    let right_value = o2 & !z2;
    let right_mask = o2 & z2;
    let value_difference = wsub(left_value, right_value);
    let alpha = wadd(value_difference, left_mask);
    let beta = wsub(value_difference, right_mask);
    let mask = (alpha ^ beta) | left_mask | right_mask;
    let value = value_difference & !mask;
    (value | mask, !value | mask)
}

/// The masks of the product of `a` and `b` after the multiplier bits below `bit` are
/// handled: for each bit that may be one, `b` shifted to it is added, and where that bit
/// may also be zero the sum is joined with the product before it.
pub open spec fn product_masks(a: Znum, b: Znum, bit: nat) -> (u64, u64)
    decreases bit,
{
    if bit == 0 {
        (0u64, u64::MAX)
    } else {
        let k = (bit - 1) as nat;
        let p = product_masks(a, b, k);
        let m = 1u64 << (k as u64);
        if a.may_be_one() & m != 0 {
            let shifted = if b.is_bottom() {
                (0u64, 0u64)
            } else {
                b.shl_masks(k as u64)
            };
            let with_bit = if p.0 | p.1 == 0 || shifted.0 | shifted.1 == 0 {
                (0u64, 0u64)
            } else {
                masks_sum(p.0, p.1, shifted.0, shifted.1)
            };
            if a.may_be_zero() & m != 0 {
                if p.0 | p.1 == 0 {
                    with_bit
                } else if with_bit.0 | with_bit.1 == 0 {
                    p
                } else {
                    (p.0 | with_bit.0, p.1 | with_bit.1)
                }
            } else {
                with_bit
            }
        } else {
            p
        }
    }
}

impl Znum {
    /// The bits that may be one.
    pub closed spec fn may_be_one(self) -> u64 {
        self.o
    }

    /// The bits that may be zero.
    pub closed spec fn may_be_zero(self) -> u64 {
        self.z
    }

    /// Every bit may be zero or one, or the value is the normalized empty set.
    #[verifier::type_invariant]
    pub closed spec fn wf(self) -> bool {
        self.o | self.z == u64::MAX || (self.o == 0 && self.z == 0)
    }

    /// Whether this is the empty set.
    pub open spec fn is_bottom(self) -> bool {
        self.may_be_one() | self.may_be_zero() == 0
    }

    /// Exactly these masks are stored.
    pub open spec fn stores(self, ones: u64, zeros: u64) -> bool {
        self.may_be_one() == ones && self.may_be_zero() == zeros
    }

    /// The masks as given where every bit may be zero or one, else the empty encoding.
    pub open spec fn stores_parts(self, ones: u64, zeros: u64) -> bool {
        if ones | zeros == u64::MAX {
            self.stores(ones, zeros)
        } else {
            self.stores(0, 0)
        }
    }

    /// The stored masks of a union: one operand where the other is empty, else the
    /// bitwise or of each mask.
    pub open spec fn union_stored(self, other: Znum, r: Znum) -> bool {
        if self.is_bottom() {
            r == other
        } else if other.is_bottom() {
            r == self
        } else {
            r.stores(self.may_be_one() | other.may_be_one(), self.may_be_zero() | other.may_be_zero())
        }
    }

    /// The bits valid in both operands.
    pub open spec fn valid_bits(self, other: Znum) -> u64 {
        (self.may_be_one() | self.may_be_zero()) & (other.may_be_one() | other.may_be_zero())
    }

    /// The known-value/unknown-mask sum of two non-empty operands, as (ones, zeros).
    pub open spec fn sum_masks(self, other: Znum) -> (u64, u64) {
        masks_sum(self.may_be_one(), self.may_be_zero(), other.may_be_one(), other.may_be_zero())
    }

    /// The known-value/unknown-mask difference of two non-empty operands, as (ones, zeros).
    pub open spec fn difference_masks(self, other: Znum) -> (u64, u64) {
        masks_difference(
            self.may_be_one(),
            self.may_be_zero(),
            other.may_be_one(),
            other.may_be_zero(),
        )
    }

    /// The stored masks of an arithmetic result: empty where an operand is empty.
    pub open spec fn stores_unless_empty(self, a: Znum, b: Znum, masks: (u64, u64)) -> bool {
        if a.is_bottom() || b.is_bottom() {
            self.stores(0, 0)
        } else {
            self.stores(masks.0, masks.1)
        }
    }

    /// The masks of a left shift by `s`: the vacated low bits may only be zero.
    pub open spec fn shl_masks(self, s: u64) -> (u64, u64) {
        (self.may_be_one() << s, (self.may_be_zero() << s) | (((1u64 << s) - 1u64) as u64))
    }

    /// The masks of a logical right shift by `s`: the vacated high bits may only be zero.
    pub open spec fn shr_masks(self, s: u64) -> (u64, u64) {
        (
            self.may_be_one() >> s,
            (self.may_be_zero() >> s) | if s == 0 {
                0u64
            } else {
                u64::MAX << ((64 - s) as u64)
            },
        )
    }

    /// The stored masks of a quotient by a divisor that is not only zero: empty where an
    /// operand is empty, the exact quotient of two constants, else every value.
    pub open spec fn quotient_stored(self, other: Znum, q: Znum) -> bool {
        if self.is_bottom() || other.is_bottom() {
            q.stores(0, 0)
        } else if self.spec_is_const() && other.spec_is_const() {
            q.stores(
                self.may_be_one() / other.may_be_one(),
                !(self.may_be_one() / other.may_be_one()),
            )
        } else {
            q.stores(u64::MAX, u64::MAX)
        }
    }

    /// The stored masks of a remainder: empty where an operand is empty or the divisor is
    /// the constant zero, the exact remainder of two constants, else every value.
    pub open spec fn remainder_stored(self, other: Znum, r: Znum) -> bool {
        if self.is_bottom() || other.is_bottom() || (other.spec_is_const() && other.may_be_one()
            == 0) {
            r.stores(0, 0)
        } else if self.spec_is_const() && other.spec_is_const() {
            r.stores(
                self.may_be_one() % other.may_be_one(),
                !(self.may_be_one() % other.may_be_one()),
            )
        } else {
            r.stores(u64::MAX, u64::MAX)
        }
    }

    /// Membership of a concrete value: each one bit may be one, each zero bit may be zero.
    pub open spec fn has(self, v: u64) -> bool {
        allows(self.may_be_one(), self.may_be_zero(), v)
    }

    /// `v` is the one and only member.
    pub open spec fn only_member(self, v: u64) -> bool {
        forall|x: u64| #[trigger] self.has(x) <==> x == v
    }

    /// Set inclusion of the concrete values of `other` in those of `self`.
    pub open spec fn includes(self, other: Znum) -> bool {
        forall|v: u64| #[trigger] other.has(v) ==> self.has(v)
    }

    pub closed spec fn spec_empty() -> Znum {
        Znum { z: 0, o: 0 }
    }

    pub closed spec fn spec_unknown() -> Znum {
        Znum { z: u64::MAX, o: u64::MAX }
    }

    pub closed spec fn spec_from_value(v: u64) -> Znum {
        Znum { o: v, z: !v }
    }

    pub closed spec fn spec_from_parts(ones: u64, zeros: u64) -> Znum {
        if ones | zeros == u64::MAX {
            Znum { o: ones, z: zeros }
        } else {
            Znum::spec_empty()
        }
    }

    pub open spec fn spec_is_const(self) -> bool {
        !(self.may_be_zero() ^ self.may_be_one()) == 0
    }

    pub closed spec fn spec_union(self, other: Znum) -> Znum {
        if self.o | self.z == 0 {
            other
        } else if other.o | other.z == 0 {
            self
        } else {
            Znum { o: self.o | other.o, z: self.z | other.z }
        }
    }

    pub closed spec fn spec_intersection(self, other: Znum) -> Znum {
        Znum::spec_from_parts(self.o & other.o, self.z & other.z)
    }

    pub open spec fn spec_contains(self, other: Znum) -> bool {
        other.may_be_one() | other.may_be_zero() == 0 || (!(self.may_be_one() | self.may_be_zero() == 0) && other.may_be_one() & !self.may_be_one() == 0 && other.may_be_zero()
            & !self.may_be_zero() == 0)
    }

    pub open spec fn spec_min(self) -> u64 {
        self.may_be_one() & !self.may_be_zero()
    }

    pub closed spec fn spec_signed_bounds(self) -> Option<(i64, i64)> {
        if self.o | self.z == 0 {
            None
        } else if self.z & SIGN_BIT != 0 && self.o & SIGN_BIT != 0 {
            Some(((((self.o & !self.z) | SIGN_BIT) as i64), ((self.o & !SIGN_BIT) as i64)))
        } else if self.z & SIGN_BIT != 0 || self.o & SIGN_BIT != 0 {
            Some((((self.o & !self.z) as i64), (self.o as i64)))
        } else {
            None
        }
    }

    pub closed spec fn spec_or(self, other: Znum) -> Znum {
        let valid = (self.o | self.z) & (other.o | other.z);
        Znum { z: (self.z & other.z) & valid, o: (self.o | other.o) & valid }
    }

    pub closed spec fn spec_and(self, other: Znum) -> Znum {
        let valid = (self.o | self.z) & (other.o | other.z);
        Znum { z: (self.z | other.z) & valid, o: (self.o & other.o) & valid }
    }

    pub closed spec fn spec_xor(self, other: Znum) -> Znum {
        let valid = (self.o | self.z) & (other.o | other.z);
        Znum {
            z: ((self.z & other.z) | (self.o & other.o)) & valid,
            o: ((self.z & other.o) | (self.o & other.z)) & valid,
        }
    }

    pub closed spec fn spec_not(self) -> Znum {
        Znum { z: self.o, o: self.z }
    }

    /// The known-value/unknown-mask sum, re-encoded.
    pub closed spec fn spec_add(self, other: Znum) -> Znum {
        if self.o | self.z == 0 || other.o | other.z == 0 {
            Znum::spec_empty()
        } else {
            let left_value = self.o & !self.z;
            let left_mask = self.o & self.z;
            let right_value = other.o & !other.z;
            let right_mask = other.o & other.z;
            let value_sum = wadd(left_value, right_value);
            let sigma = wadd(wadd(left_mask, right_mask), value_sum);
            let mask = (sigma ^ value_sum) | left_mask | right_mask;
            let value = value_sum & !mask;
            Znum { o: value | mask, z: !value | mask }
        }
    }

    /// The known-value/unknown-mask difference, re-encoded.
    pub closed spec fn spec_sub(self, other: Znum) -> Znum {
        if self.o | self.z == 0 || other.o | other.z == 0 {
            Znum::spec_empty()
        } else {
            let left_value = self.o & !self.z;
            let left_mask = self.o & self.z;
            let right_value = other.o & !other.z;
            let right_mask = other.o & other.z;
            let value_difference = wsub(left_value, right_value);
            let alpha = wadd(value_difference, left_mask);
            let beta = wsub(value_difference, right_mask);
            let mask = (alpha ^ beta) | left_mask | right_mask;
            let value = value_difference & !mask;
            Znum { o: value | mask, z: !value | mask }
        }
    }

    pub closed spec fn spec_shl(self, shift: u8) -> Znum {
        if self.o | self.z == 0 {
            Znum::spec_empty()
        } else {
            let s = (shift as u64) % 64;
            Znum { z: (self.z << s) | (((1u64 << s) - 1u64) as u64), o: self.o << s }
        }
    }

    pub closed spec fn spec_shr(self, shift: u8) -> Znum {
        if self.o | self.z == 0 {
            Znum::spec_empty()
        } else {
            let s = (shift as u64) % 64;
            let new_zeros = if s == 0 {
                0u64
            } else {
                u64::MAX << ((64 - s) as u64)
            };
            Znum { z: (self.z >> s) | new_zeros, o: self.o >> s }
        }
    }

    pub open spec fn spec_neg(self) -> Znum {
        Znum::spec_from_value(0).spec_sub(self)
    }

    /// The product after the loop over multiplier bits has handled the bits below `bit`.
    pub closed spec fn spec_mul_upto(self, other: Znum, bit: nat) -> Znum
        decreases bit,
    {
        if bit == 0 {
            Znum::spec_from_value(0)
        } else {
            let b = (bit - 1) as nat;
            let product = self.spec_mul_upto(other, b);
            let m = 1u64 << (b as u64);
            if self.o & m != 0 {
                let with_bit = product.spec_add(other.spec_shl(b as u8));
                if self.z & m != 0 {
                    product.spec_union(with_bit)
                } else {
                    with_bit
                }
            } else {
                product
            }
        }
    }

    pub open spec fn spec_mul(self, other: Znum) -> Znum {
        if self.is_bottom() || other.is_bottom() {
            Znum::spec_empty()
        } else {
            self.spec_mul_upto(other, 64)
        }
    }

    pub closed spec fn spec_checked_div(self, other: Znum) -> Option<Znum> {
        if !(other.o | other.z == 0) && other.o == 0 {
            None
        } else if self.o | self.z == 0 || other.o | other.z == 0 {
            Some(Znum::spec_empty())
        } else if self.spec_is_const() && other.spec_is_const() {
            Some(Znum::spec_from_value(self.o / other.o))
        } else {
            Some(Znum::spec_unknown())
        }
    }

    pub open spec fn spec_div(self, other: Znum) -> Znum {
        match self.spec_checked_div(other) {
            Some(r) => r,
            None => Znum::spec_empty(),
        }
    }

    pub closed spec fn spec_rem(self, other: Znum) -> Znum {
        if self.o | self.z == 0 || other.o | other.z == 0 {
            Znum::spec_empty()
        } else if other.spec_is_const() && other.o == 0 {
            Znum::spec_empty()
        } else if self.spec_is_const() && other.spec_is_const() {
            Znum::spec_from_value(self.o % other.o)
        } else {
            Znum::spec_unknown()
        }
    }

    /// Construct from the may-be-one and may-be-zero masks; an encoding in which some bit
    /// may be neither is the empty set.
    pub fn from_parts(ones: u64, zeros: u64) -> (r: Self)
        ensures
            r == Znum::spec_from_parts(ones, zeros),
            r.stores_parts(ones, zeros),
    {
        if ones | zeros == u64::MAX {
            Znum { o: ones, z: zeros }
        } else {
            Self::empty()
        }
    }

    fn empty() -> (r: Self)
        ensures
            r == Znum::spec_empty(),
            r.stores(0, 0),
    {
        Self { z: 0, o: 0 }
    }

    fn is_empty(&self) -> (r: bool)
        ensures
            r == self.is_bottom(),
    {
        self.o | self.z == 0
    }

    fn validity_mask(&self) -> (r: u64)
        ensures
            r == self.may_be_one() | self.may_be_zero(),
    {
        self.o | self.z
    }

    fn unknown() -> (r: Self)
        ensures
            r == Znum::spec_unknown(),
            r.stores(u64::MAX, u64::MAX),
    {
        proof {
            bv_one(0, 0, 0, 0);
        }
        Self { z: u64::MAX, o: u64::MAX }
    }

    /// The Znum of exactly one value.
    pub fn from_value(v: u64) -> (r: Self)
        ensures
            r == Znum::spec_from_value(v),
            r.may_be_one() == v,
            r.may_be_zero() == !v,
    {
        let z = !v;
        proof {
            bv_one(0, 0, 0, v);
        }
        Znum { o: v, z }
    }

    /// Whether exactly one value is represented.
    pub fn is_const(&self) -> (r: bool)
        ensures
            r == self.spec_is_const(),
    {
        let a = self.z ^ self.o;
        !a == 0
    }

    /// The single represented value, if there is exactly one.
    pub fn value(&self) -> (r: Option<u64>)
        ensures
            r == (if self.spec_is_const() { Some(self.may_be_one()) } else { None }),
    {
        if self.is_const() {
            Some(self.o)
        } else {
            None
        }
    }

    /// Whether any value is represented.
    pub fn is_defined(&self) -> (r: bool)
        ensures
            r == !self.is_bottom(),
    {
        !self.is_empty()
    }

    /// Whether `v` is one of the represented values.
    pub fn contains_value(&self, v: u64) -> (r: bool)
        ensures
            r == self.has(v),
    {
        let po = self.o & v;
        let pz = self.z & !v;
        let both = po | pz;
        proof {
            bv_one(0, 0, both, 0);
        }
        !both == 0
    }

    /// The least Znum containing every value of either operand.
    pub fn union(&self, other: Self) -> (r: Self)
        ensures
            r == self.spec_union(other),
            self.union_stored(other, r),
    {
        proof {
            use_type_invariant(self);
            use_type_invariant(&other);
        }
        if self.is_empty() {
            return other;
        }
        if other.is_empty() {
            return *self;
        }
        let (o1, z1, o2, z2) = (self.o, self.z, other.o, other.z);
        proof {
            bv_one(o1, z1, 0, 0);
            bv_two(o1, z1, o2, z2, 0, 0, 0, 0);
        }
        Znum { o: self.o | other.o, z: self.z | other.z }
    }

    /// Whether every value of `other` is a value of `self`.
    pub fn contains(&self, other: Self) -> (r: bool)
        ensures
            r == self.spec_contains(other),
    {
        other.is_empty() || (!self.is_empty() && other.o & !self.o == 0 && other.z & !self.z == 0)
    }

    /// The values represented by both operands.
    pub fn intersection(&self, other: Self) -> (r: Self)
        ensures
            r == self.spec_intersection(other),
            r.stores_parts(self.may_be_one() & other.may_be_one(), self.may_be_zero() & other.may_be_zero()),
    {
        Self::from_parts(self.o & other.o, self.z & other.z)
    }

    /// Whether any value is represented.
    pub fn has_value(&self) -> (r: bool)
        ensures
            r == !self.is_bottom(),
    {
        !self.is_empty()
    }

    /// The greatest represented value, if any.
    pub fn max_value(&self) -> (r: Option<u64>)
        ensures
            r == (if self.is_bottom() { None } else { Some(self.may_be_one()) }),
    {
        if self.has_value() {
            Some(self.o)
        } else {
            None
        }
    }

    /// The least represented value, if any.
    pub fn min_value(&self) -> (r: Option<u64>)
        ensures
            r == (if self.is_bottom() { None } else { Some(self.spec_min()) }),
    {
        if self.has_value() {
            Some(self.o & !(self.z))
        } else {
            None
        }
    }

    /// Unsigned extrema, if any value is represented.
    pub fn unsigned_bounds(&self) -> (r: Option<(u64, u64)>)
        ensures
            r == (if self.is_bottom() {
                None
            } else {
                Some((self.spec_min(), self.may_be_one()))
            }),
    {
        if self.is_empty() {
            None
        } else {
            Some((self.o & !self.z, self.o))
        }
    }

    /// Signed extrema, if any value is represented.
    pub fn signed_bounds(&self) -> (r: Option<(i64, i64)>)
        ensures
            r == self.spec_signed_bounds(),
            r is None <==> self.is_bottom(),
            r matches Some((lo, hi)) ==> {
                &&& exists|w: u64| #[trigger] self.has(w) && (w as i64) == lo
                &&& exists|w: u64| #[trigger] self.has(w) && (w as i64) == hi
                &&& forall|x: u64| #[trigger] self.has(x) ==> lo <= (x as i64) <= hi
            },
    {
        proof {
            use_type_invariant(self);
            if !self.is_bottom() {
                assert forall|x: u64| #[trigger] self.has(x) implies self.spec_signed_bounds().unwrap().0
                    <= (x as i64) <= self.spec_signed_bounds().unwrap().1 by {
                    lemma_bounds_exact(*self, x);
                }
                lemma_bounds_exact(*self, 0);
            }
        }
        if !self.has_value() {
            return None;
        }
        let sign_may_be_zero = self.z & SIGN_BIT != 0;
        let sign_may_be_one = self.o & SIGN_BIT != 0;
        if sign_may_be_zero && sign_may_be_one {
            Some((((self.o & !self.z) | SIGN_BIT) as i64, (self.o & !SIGN_BIT) as i64))
        } else if sign_may_be_zero || sign_may_be_one {
            Some(((self.o & !self.z) as i64, self.o as i64))
        } else {
            None
        }
    }

    /// Bitwise or of every pair of values.
    pub fn bit_or(self, other: Self) -> (r: Self)
        ensures
            r == self.spec_or(other),
            r.stores((self.may_be_one() | other.may_be_one()) & self.valid_bits(other), (self.may_be_zero() & other.may_be_zero()) & self.valid_bits(other)),
    {
        proof {
            use_type_invariant(&self);
            use_type_invariant(&other);
        }
        let valid = self.validity_mask() & other.validity_mask();
        let (o1, z1, o2, z2) = (self.o, self.z, other.o, other.z);
        let z = (z1 & z2) & valid;
        let o = (o1 | o2) & valid;
        proof {
            bv_two(o1, z1, o2, z2, 0, 0, 0, 0);
        }
        Self { z, o }
    }

    /// Bitwise and of every pair of values.
    pub fn bit_and(self, other: Self) -> (r: Self)
        ensures
            r == self.spec_and(other),
            r.stores((self.may_be_one() & other.may_be_one()) & self.valid_bits(other), (self.may_be_zero() | other.may_be_zero()) & self.valid_bits(other)),
    {
        proof {
            use_type_invariant(&self);
            use_type_invariant(&other);
        }
        let valid = self.validity_mask() & other.validity_mask();
        let (o1, z1, o2, z2) = (self.o, self.z, other.o, other.z);
        let z = (z1 | z2) & valid;
        let o = (o1 & o2) & valid;
        proof {
            bv_two(o1, z1, o2, z2, 0, 0, 0, 0);
        }
        Self { z, o }
    }

    /// Exclusive or of every pair of values.
    pub fn bit_xor(self, other: Self) -> (r: Self)
        ensures
            r == self.spec_xor(other),
            r.stores(((self.may_be_zero() & other.may_be_one()) | (self.may_be_one() & other.may_be_zero())) & self.valid_bits(other), ((self.may_be_zero() & other.may_be_zero()) | (self.may_be_one() & other.may_be_one())) & self.valid_bits(other)),
    {
        proof {
            use_type_invariant(&self);
            use_type_invariant(&other);
        }
        let valid = self.validity_mask() & other.validity_mask();
        let (o1, z1, o2, z2) = (self.o, self.z, other.o, other.z);
        let z = ((z1 & z2) | (o1 & o2)) & valid;
        let o = ((z1 & o2) | (o1 & z2)) & valid;
        proof {
            bv_two(o1, z1, o2, z2, 0, 0, 0, 0);
        }
        Self { z, o }
    }

    /// Bitwise complement of every value.
    pub fn bit_not(self) -> (r: Self)
        ensures
            r == self.spec_not(),
            r.stores(self.may_be_zero(), self.may_be_one()),
    {
        proof {
            use_type_invariant(&self);
        }
        let (o, z) = (self.o, self.z);
        proof {
            bv_one(o, z, 0, 0);
        }
        Self { z: o, o: z }
    }

    /// Wrapping addition of every pair of values.
    pub fn add(self, other: Self) -> (r: Self)
        ensures
            r == self.spec_add(other),
            r.stores_unless_empty(self, other, self.sum_masks(other)),
    {
        if self.is_empty() || other.is_empty() {
            return Self::empty();
        }
        let left_value = self.o & !self.z;
        let left_mask = self.o & self.z;
        let right_value = other.o & !other.z;
        let right_mask = other.o & other.z;
        let mask_sum = left_mask.wrapping_add(right_mask);
        let value_sum = left_value.wrapping_add(right_value);
        let sigma = mask_sum.wrapping_add(value_sum);
        let carry_changes = sigma ^ value_sum;
        let mask = carry_changes | left_mask | right_mask;
        let value = value_sum & !mask;
        proof {
            lemma_wrapping_add(left_mask, right_mask);
            lemma_wrapping_add(left_value, right_value);
            lemma_wrapping_add(mask_sum, value_sum);
        }
        proof {
            bv_one(0, 0, mask, value);
        }
        Self { o: value | mask, z: !value | mask }
    }

    /// Wrapping subtraction of every pair of values.
    pub fn subtract(self, other: Self) -> (r: Self)
        ensures
            r == self.spec_sub(other),
            r.stores_unless_empty(self, other, self.difference_masks(other)),
    {
        if self.is_empty() || other.is_empty() {
            return Self::empty();
        }
        let left_value = self.o & !self.z;
        let left_mask = self.o & self.z;
        let right_value = other.o & !other.z;
        let right_mask = other.o & other.z;
        let value_difference = left_value.wrapping_sub(right_value);
        let alpha = value_difference.wrapping_add(left_mask);
        let beta = value_difference.wrapping_sub(right_mask);
        let borrow_changes = alpha ^ beta;
        let mask = borrow_changes | left_mask | right_mask;
        let value = value_difference & !mask;
        proof {
            lemma_wrapping_sub(left_value, right_value);
            lemma_wrapping_add(value_difference, left_mask);
            lemma_wrapping_sub(value_difference, right_mask);
        }
        proof {
            bv_one(0, 0, mask, value);
        }
        Self { o: value | mask, z: !value | mask }
    }

    /// Left shift of every value by `shift % 64`; the vacated low bits are zero.
    pub fn shift_left(self, shift: u8) -> (r: Self)
        ensures
            r == self.spec_shl(shift),
            r.stores_unless_empty(self, self, self.shl_masks((shift as u64) % 64)),
    {
        proof {
            use_type_invariant(&self);
        }
        if self.is_empty() {
            return Self::empty();
        }
        let shift: u32 = (shift as u32) % 64;
        let ghost s: u64 = shift as u64;
        let one_shifted = 1_u64.wrapping_shl(shift);
        assert(one_shifted == 1u64 << s);
        proof {
            bv_one(self.o, self.z, 0, 0);
            bv_shifts(self.o, self.z, 0, s);
        }
        let low = one_shifted - 1;
        let z = self.z.wrapping_shl(shift) | low;
        let o = self.o.wrapping_shl(shift);

        Self { z, o }
    }

    /// Logical right shift of every value by `shift % 64`; the vacated high bits are zero.
    pub fn shift_right(self, shift: u8) -> (r: Self)
        ensures
            r == self.spec_shr(shift),
            r.stores_unless_empty(self, self, self.shr_masks((shift as u64) % 64)),
    {
        proof {
            use_type_invariant(&self);
        }
        if self.is_empty() {
            return Self::empty();
        }
        let shift: u32 = (shift as u32) % 64;
        let ghost s: u64 = shift as u64;
        let new_zeros = if shift == 0 {
            0
        } else {
            u64::MAX.wrapping_shl(64 - shift)
        };
        let z = self.z.wrapping_shr(shift) | new_zeros;
        let o = self.o.wrapping_shr(shift);
        proof {
            bv_one(self.o, self.z, 0, 0);
            bv_shifts(self.o, self.z, 0, s);
        }
        Self { z, o }
    }

    /// Wrapping negation of every value.
    pub fn negate(self) -> (r: Self)
        ensures
            r == self.spec_neg(),
            r.stores_unless_empty(
                self,
                self,
                masks_difference(0, u64::MAX, self.may_be_one(), self.may_be_zero()),
            ),
    {
        assert(!0u64 == u64::MAX && 0u64 | u64::MAX == u64::MAX) by (bit_vector);
        Self::from_value(0).subtract(self)
    }

    /// Wrapping multiplication: shifted copies of `other` are added for every bit that may
    /// be one in `self`, joined with the running product where that bit may also be zero.
    pub fn multiply(self, other: Self) -> (r: Self)
        ensures
            r == self.spec_mul(other),
            r.stores_unless_empty(self, other, product_masks(self, other, 64)),
    {
        if self.is_empty() || other.is_empty() {
            return Self::empty();
        }
        let mut product = Self::from_value(0);
        assert(!0u64 == u64::MAX) by (bit_vector);
        let mut bit: u8 = 0;
        while bit < 64
            invariant
                bit <= 64,
                product == self.spec_mul_upto(other, bit as nat),
                !other.is_bottom(),
                product.stores(
                    product_masks(self, other, bit as nat).0,
                    product_masks(self, other, bit as nat).1,
                ),
            decreases 64 - bit,
        {
            let mask: u64 = 1u64 << (bit as u64);
            if self.o & mask != 0 {
                let with_bit = product.add(other.shift_left(bit));
                product = if self.z & mask != 0 {
                    product.union(with_bit)
                } else {
                    with_bit
                };
            }
            bit += 1;
        }
        product
    }

    /// Divide by `other`; `None` when `other` can only be zero. Where `other` holds zero and
    /// other values, the result describes the divisions by its nonzero values.
    pub fn checked_div(self, other: Self) -> (r: Option<Self>)
        ensures
            r == self.spec_checked_div(other),
            r is None <==> other.only_member(0),
            r matches Some(q) ==> self.quotient_stored(other, q),
    {
        proof {
            use_type_invariant(&self);
            use_type_invariant(&other);
            lemma_zero_divisor(self, other);
        }
        if let Some(0) = other.max_value() {
            return None;
        }
        if self.is_empty() || other.is_empty() {
            return Some(Self::empty());
        }
        match (self.value(), other.value()) {
            (Some(_), Some(0)) => None,
            (Some(dividend), Some(divisor)) => Some(Self::from_value(dividend / divisor)),
            _ => Some(Self::unknown()),
        }
    }

    /// Division, with the empty set where `other` can only be zero.
    pub fn divide(self, other: Self) -> (r: Self)
        ensures
            r == self.spec_div(other),
            other.only_member(0) ==> r.is_bottom(),
            !other.only_member(0) ==> self.quotient_stored(other, r),
    {
        proof {
            use_type_invariant(&self);
            use_type_invariant(&other);
            lemma_zero_divisor(self, other);
        }
        match self.checked_div(other) {
            Some(result) => result,
            None => Self::empty(),
        }
    }

    /// Remainder; the empty set where `other` is the constant zero.
    pub fn remainder(self, other: Self) -> (r: Self)
        ensures
            r == self.spec_rem(other),
            other.only_member(0) ==> r.is_bottom(),
            self.remainder_stored(other, r),
    {
        proof {
            use_type_invariant(&self);
            use_type_invariant(&other);
            lemma_zero_divisor(self, other);
        }
        if self.is_empty() || other.is_empty() {
            return Self::empty();
        }
        match (self.value(), other.value()) {
            (_, Some(0)) => Self::empty(),
            (Some(dividend), Some(divisor)) => Self::from_value(dividend % divisor),
            _ => Self::unknown(),
        }
    }
}


impl Default for Znum {
    /// The completely unknown value: every 64-bit value.
    fn default() -> (r: Self)
        ensures
            r == Znum::spec_unknown(),
            r.stores(u64::MAX, u64::MAX),
    {
        Self::unknown()
    }
}

impl vstd::std_specs::ops::NotSpecImpl for Znum {
    open spec fn obeys_not_spec() -> bool {
        true
    }

    open spec fn not_req(self) -> bool {
        true
    }

    open spec fn not_spec(self) -> Znum {
        self.spec_not()
    }
}

impl core::ops::Not for Znum {
    type Output = Znum;

    fn not(self) -> (r: Znum)
        ensures
            r == self.spec_not(),
            r.stores(self.may_be_zero(), self.may_be_one()),
    {
        self.bit_not()
    }
}

impl vstd::std_specs::ops::NegSpecImpl for Znum {
    open spec fn obeys_neg_spec() -> bool {
        true
    }

    open spec fn neg_req(self) -> bool {
        true
    }

    open spec fn neg_spec(self) -> Znum {
        self.spec_neg()
    }
}

impl core::ops::Neg for Znum {
    type Output = Znum;

    fn neg(self) -> (r: Znum)
        ensures
            r == self.spec_neg(),
            r.stores_unless_empty(
                self,
                self,
                masks_difference(0, u64::MAX, self.may_be_one(), self.may_be_zero()),
            ),
    {
        self.negate()
    }
}

impl vstd::std_specs::ops::BitOrSpecImpl for Znum {
    open spec fn obeys_bitor_spec() -> bool {
        true
    }

    open spec fn bitor_req(self, rhs: Znum) -> bool {
        true
    }

    open spec fn bitor_spec(self, rhs: Znum) -> Znum {
        self.spec_or(rhs)
    }
}

impl core::ops::BitOr for Znum {
    type Output = Znum;

    fn bitor(self, other: Znum) -> (r: Znum)
        ensures
            r == self.spec_or(other),
            r.stores((self.may_be_one() | other.may_be_one()) & self.valid_bits(other), (self.may_be_zero() & other.may_be_zero()) & self.valid_bits(other)),
    {
        self.bit_or(other)
    }
}

impl vstd::std_specs::ops::BitAndSpecImpl for Znum {
    open spec fn obeys_bitand_spec() -> bool {
        true
    }

    open spec fn bitand_req(self, rhs: Znum) -> bool {
        true
    }

    open spec fn bitand_spec(self, rhs: Znum) -> Znum {
        self.spec_and(rhs)
    }
}

impl core::ops::BitAnd for Znum {
    type Output = Znum;

    fn bitand(self, other: Znum) -> (r: Znum)
        ensures
            r == self.spec_and(other),
            r.stores((self.may_be_one() & other.may_be_one()) & self.valid_bits(other), (self.may_be_zero() | other.may_be_zero()) & self.valid_bits(other)),
    {
        self.bit_and(other)
    }
}

impl vstd::std_specs::ops::BitXorSpecImpl for Znum {
    open spec fn obeys_bitxor_spec() -> bool {
        true
    }

    open spec fn bitxor_req(self, rhs: Znum) -> bool {
        true
    }

    open spec fn bitxor_spec(self, rhs: Znum) -> Znum {
        self.spec_xor(rhs)
    }
}

impl core::ops::BitXor for Znum {
    type Output = Znum;

    fn bitxor(self, other: Znum) -> (r: Znum)
        ensures
            r == self.spec_xor(other),
            r.stores(((self.may_be_zero() & other.may_be_one()) | (self.may_be_one() & other.may_be_zero())) & self.valid_bits(other), ((self.may_be_zero() & other.may_be_zero()) | (self.may_be_one() & other.may_be_one())) & self.valid_bits(other)),
    {
        self.bit_xor(other)
    }
}

impl vstd::std_specs::ops::AddSpecImpl for Znum {
    open spec fn obeys_add_spec() -> bool {
        true
    }

    open spec fn add_req(self, rhs: Znum) -> bool {
        true
    }

    open spec fn add_spec(self, rhs: Znum) -> Znum {
        self.spec_add(rhs)
    }
}

impl core::ops::Add for Znum {
    type Output = Znum;

    fn add(self, other: Znum) -> (r: Znum)
        ensures
            r == self.spec_add(other),
            r.stores_unless_empty(self, other, self.sum_masks(other)),
    {
        Znum::add(self, other)
    }
}

impl vstd::std_specs::ops::SubSpecImpl for Znum {
    open spec fn obeys_sub_spec() -> bool {
        true
    }

    open spec fn sub_req(self, rhs: Znum) -> bool {
        true
    }

    open spec fn sub_spec(self, rhs: Znum) -> Znum {
        self.spec_sub(rhs)
    }
}

impl core::ops::Sub for Znum {
    type Output = Znum;

    fn sub(self, other: Znum) -> (r: Znum)
        ensures
            r == self.spec_sub(other),
            r.stores_unless_empty(self, other, self.difference_masks(other)),
    {
        self.subtract(other)
    }
}

impl vstd::std_specs::ops::ShlSpecImpl<u8> for Znum {
    open spec fn obeys_shl_spec() -> bool {
        true
    }

    open spec fn shl_req(self, rhs: u8) -> bool {
        true
    }

    open spec fn shl_spec(self, rhs: u8) -> Znum {
        self.spec_shl(rhs)
    }
}

impl core::ops::Shl<u8> for Znum {
    type Output = Znum;

    fn shl(self, shift: u8) -> (r: Znum)
        ensures
            r == self.spec_shl(shift),
            r.stores_unless_empty(self, self, self.shl_masks((shift as u64) % 64)),
    {
        self.shift_left(shift)
    }
}

impl vstd::std_specs::ops::ShrSpecImpl<u8> for Znum {
    open spec fn obeys_shr_spec() -> bool {
        true
    }

    open spec fn shr_req(self, rhs: u8) -> bool {
        true
    }

    open spec fn shr_spec(self, rhs: u8) -> Znum {
        self.spec_shr(rhs)
    }
}

impl core::ops::Shr<u8> for Znum {
    type Output = Znum;

    fn shr(self, shift: u8) -> (r: Znum)
        ensures
            r == self.spec_shr(shift),
            r.stores_unless_empty(self, self, self.shr_masks((shift as u64) % 64)),
    {
        self.shift_right(shift)
    }
}

impl vstd::std_specs::ops::MulSpecImpl for Znum {
    open spec fn obeys_mul_spec() -> bool {
        true
    }

    open spec fn mul_req(self, rhs: Znum) -> bool {
        true
    }

    open spec fn mul_spec(self, rhs: Znum) -> Znum {
        self.spec_mul(rhs)
    }
}

impl core::ops::Mul for Znum {
    type Output = Znum;

    fn mul(self, other: Znum) -> (r: Znum)
        ensures
            r == self.spec_mul(other),
            r.stores_unless_empty(self, other, product_masks(self, other, 64)),
    {
        self.multiply(other)
    }
}

impl vstd::std_specs::ops::DivSpecImpl for Znum {
    open spec fn obeys_div_spec() -> bool {
        true
    }

    open spec fn div_req(self, rhs: Znum) -> bool {
        true
    }

    open spec fn div_spec(self, rhs: Znum) -> Znum {
        self.spec_div(rhs)
    }
}

impl core::ops::Div for Znum {
    type Output = Znum;

    fn div(self, other: Znum) -> (r: Znum)
        ensures
            r == self.spec_div(other),
            other.only_member(0) ==> r.is_bottom(),
            !other.only_member(0) ==> self.quotient_stored(other, r),
    {
        self.divide(other)
    }
}

impl vstd::std_specs::ops::RemSpecImpl for Znum {
    open spec fn obeys_rem_spec() -> bool {
        true
    }

    open spec fn rem_req(self, rhs: Znum) -> bool {
        true
    }

    open spec fn rem_spec(self, rhs: Znum) -> Znum {
        self.spec_rem(rhs)
    }
}

impl core::ops::Rem for Znum {
    type Output = Znum;

    fn rem(self, other: Znum) -> (r: Znum)
        ensures
            r == self.spec_rem(other),
            self.remainder_stored(other, r),
    {
        self.remainder(other)
    }
}

} // verus!

verus! {

// Bit-level facts about (may-be-one, may-be-zero) pairs, for the operations and laws.

/// Facts about one pair (`o`, `z`) and words `x` and `v`.
#[verifier::rlimit(40)]
proof fn bv_one(o: u64, z: u64, x: u64, v: u64)
    by (bit_vector)
    ensures
        u64::MAX | u64::MAX == u64::MAX,
        0u64 & x == 0,
        x & 0u64 == 0,
        0u64 | 0u64 == 0,
        v | !v == u64::MAX,
        (!x == 0) == (x == u64::MAX),
        (v | x) | (!v | x) == u64::MAX,
        !allows(0, 0, x),
        allows(u64::MAX, u64::MAX, x),
        allows(v, !v, x) <==> x == v,
        !(!v ^ v) == 0,
        o | z != u64::MAX ==> !allows(o, z, x),
        o | z == 0 ==> !(!(z ^ o) == 0),
        o | z == u64::MAX || (o == 0 && z == 0) ==> {
            &&& z | o == u64::MAX || (z == 0 && o == 0)
            &&& o | z != 0 ==> o | z == u64::MAX
            &&& o | z == 0 ==> !allows(o, z, x)
            &&& allows(o, z, x) && x != 0 ==> o != 0
            &&& o | z != 0 ==> allows(o, z, o) && allows(o, z, o & !z)
        },
        o | z == u64::MAX ==> {
            &&& !(z ^ o) == 0 ==> (allows(o, z, x) <==> x == o)
            &&& !(!(z ^ o) == 0) ==> o & !z != o && allows(o, z, o) && allows(o, z, o & !z)
            &&& allows(o, z, x) ==> o & !z <= x <= o
        },
{
}

/// Signed bounds of one pair (`o`, `z`) with member `x`.
proof fn bv_signed(o: u64, z: u64, x: u64)
    by (bit_vector)
    requires
        o | z == u64::MAX,
        allows(o, z, x),
    ensures
        z & SIGN_BIT != 0 && o & SIGN_BIT != 0 ==> allows(o, z, (o & !z) | SIGN_BIT) && allows(
            o,
            z,
            o & !SIGN_BIT,
        ) && (((o & !z) | SIGN_BIT) as i64) <= (x as i64) && (x as i64) <= ((o & !SIGN_BIT)
            as i64),
        !(z & SIGN_BIT != 0 && o & SIGN_BIT != 0) ==> ((o & !z) as i64) <= (x as i64) && (x
            as i64) <= (o as i64),
        z & SIGN_BIT != 0 || o & SIGN_BIT != 0,
{
}

/// Members of two pairs whose or is a given member of the or.
proof fn bv_or_witness(o1: u64, z1: u64, o2: u64, z2: u64, w: u64)
    by (bit_vector)
    requires
        allows((o1 | o2) & ((o1 | z1) & (o2 | z2)), (z1 & z2) & ((o1 | z1) & (o2 | z2)), w),
    ensures
        allows(o1, z1, w & o1) && allows(o2, z2, w & o2) && ((w & o1) | (w & o2)) == w,
{
}

/// Members of two pairs whose and is a given member of the and.
proof fn bv_and_witness(o1: u64, z1: u64, o2: u64, z2: u64, w: u64)
    by (bit_vector)
    requires
        allows((o1 & o2) & ((o1 | z1) & (o2 | z2)), (z1 | z2) & ((o1 | z1) & (o2 | z2)), w),
    ensures
        allows(o1, z1, w | !z1) && allows(o2, z2, w | !z2) && ((w | !z1) & (w | !z2)) == w,
{
}

/// Members of two pairs whose exclusive or is a given member of the exclusive or.
#[verifier::rlimit(40)]
proof fn bv_xor_witness(o1: u64, z1: u64, o2: u64, z2: u64, w: u64, x: u64, y: u64)
    by (bit_vector)
    requires
        allows(
            ((z1 & o2) | (o1 & z2)) & ((o1 | z1) & (o2 | z2)),
            ((z1 & z2) | (o1 & o2)) & ((o1 | z1) & (o2 | z2)),
            w,
        ),
        x == (o1 & !z1) | ((o1 & z1) & (w ^ (o2 & !z2))),
        y == (o2 & !z2) | ((o2 & z2) & (w ^ x)),
    ensures
        allows(o1, z1, x) && allows(o2, z2, y) && (x ^ y) == w,
{
}

/// The low bits of the re-encoded sum and difference of two pairs whose low bits are all
/// fixed.
#[verifier::rlimit(40)]
proof fn bv_low_bits_fixed(o1: u64, z1: u64, o2: u64, z2: u64, t: u64)
    by (bit_vector)
    requires
        t < 64,
        ((o1 & z1) | (o2 & z2)) & (((1u64 << t) - 1u64) as u64) == 0,
    ensures
        ({
            let low = ((1u64 << t) - 1u64) as u64;
            let left_value = o1 & !z1;
            let left_mask = o1 & z1;
            let right_value = o2 & !z2;
            let right_mask = o2 & z2;
            let value_sum = wadd(left_value, right_value);
            let sigma = wadd(wadd(left_mask, right_mask), value_sum);
            let mask = (sigma ^ value_sum) | left_mask | right_mask;
            let value = value_sum & !mask;
            let value_difference = wsub(left_value, right_value);
            let alpha = wadd(value_difference, left_mask);
            let beta = wsub(value_difference, right_mask);
            let dmask = (alpha ^ beta) | left_mask | right_mask;
            let dvalue = value_difference & !dmask;
            &&& ((value | mask) & (!value | mask)) & low == 0
            &&& ((value | mask) & !(!value | mask)) & low == value_sum & low
            &&& ((dvalue | dmask) & (!dvalue | dmask)) & low == 0
            &&& ((dvalue | dmask) & !(!dvalue | dmask)) & low == value_difference & low
        }),
{
}

/// A member of (`o`, `z`) whose left shift by `s` is a given member of the shifted pair.
proof fn bv_shift_left_witness(o: u64, z: u64, w: u64, s: u64)
    by (bit_vector)
    requires
        o | z == u64::MAX,
        s < 64,
    ensures
        allows(o << s, (z << s) | (((1u64 << s) - 1u64) as u64), w) ==> allows(
            o,
            z,
            (w >> s) | (!z & !(u64::MAX >> s)),
        ) && ((w >> s) | (!z & !(u64::MAX >> s))) << s == w,
{
}

/// A member of (`o`, `z`) whose right shift by `s` is a given member of the shifted pair.
proof fn bv_shift_right_witness(o: u64, z: u64, w: u64, s: u64)
    by (bit_vector)
    requires
        o | z == u64::MAX,
        s < 64,
    ensures
        s == 0 && allows(o >> s, (z >> s) | 0u64, w) ==> allows(
            o,
            z,
            (w << s) | (o & (((1u64 << s) - 1u64) as u64)),
        ) && ((w << s) | (o & (((1u64 << s) - 1u64) as u64))) >> s == w,
        s != 0 && allows(o >> s, (z >> s) | (u64::MAX << ((64 - s) as u64)), w) ==> allows(
            o,
            z,
            (w << s) | (o & (((1u64 << s) - 1u64) as u64)),
        ) && ((w << s) | (o & (((1u64 << s) - 1u64) as u64))) >> s == w,
{
}

/// Shifting one pair (`o`, `z`) and a word `x` by `s`.
proof fn bv_shifts(o: u64, z: u64, x: u64, s: u64)
    by (bit_vector)
    requires
        s < 64,
    ensures
        1u64 << s >= 1u64,
        o | z == u64::MAX ==> (o << s) | ((z << s) | (((1u64 << s) - 1u64) as u64)) == u64::MAX,
        o | z == u64::MAX && s != 0 ==> (o >> s) | ((z >> s) | (u64::MAX << ((64 - s) as u64)))
            == u64::MAX,
        o | z == u64::MAX && s == 0 ==> (o >> s) | ((z >> s) | 0u64) == u64::MAX,
        allows(o, z, x) ==> {
            &&& allows(o << s, (z << s) | (((1u64 << s) - 1u64) as u64), x << s)
            &&& s == 0 ==> allows(o >> s, (z >> s) | 0u64, x >> s)
            &&& s != 0 ==> allows(o >> s, (z >> s) | (u64::MAX << ((64 - s) as u64)), x >> s)
            &&& x & (1u64 << s) != 0 ==> o & (1u64 << s) != 0
            &&& x & (1u64 << s) == 0 ==> z & (1u64 << s) != 0
        },
{
}

/// Set operations and bitwise operations on two pairs, with members `x` and `y` and a
/// third pair (`o3`, `z3`).
proof fn bv_two(o1: u64, z1: u64, o2: u64, z2: u64, x: u64, y: u64, o3: u64, z3: u64)
    by (bit_vector)
    ensures
        allows(o1, z1, x) || allows(o2, z2, x) ==> allows(o1 | o2, z1 | z2, x),
        (o1 & !o3 == 0 && z1 & !z3 == 0 && o2 & !o3 == 0 && z2 & !z3 == 0) ==> ((o1 | o2) & !o3
            == 0 && (z1 | z2) & !z3 == 0),
        allows(o1 & o2, z1 & z2, x) <==> (allows(o1, z1, x) && allows(o2, z2, x)),
        (o1 & o2) | (z1 & z2) != u64::MAX ==> !allows(o1 & o2, z1 & z2, x),
        o1 | z1 == u64::MAX ==> (o1 | o2) | (z1 | z2) == u64::MAX,
        o2 | z2 == u64::MAX ==> {
            &&& (o2 & !o1 == 0 && z2 & !z1 == 0 && allows(o2, z2, x)) ==> allows(o1, z1, x)
            &&& o2 & !o1 != 0 ==> allows(o2, z2, o2) && !allows(o1, z1, o2)
            &&& z2 & !z1 != 0 ==> allows(o2, z2, o2 & !z2) && !allows(o1, z1, o2 & !z2)
        },
        (o1 | z1 == u64::MAX || (o1 == 0 && z1 == 0)) && (o2 | z2 == u64::MAX || (o2 == 0 && z2
            == 0)) ==> {
            let valid = (o1 | z1) & (o2 | z2);
            &&& ((o1 | o2) & valid) | ((z1 & z2) & valid) == u64::MAX || (((o1 | o2) & valid) == 0
                && ((z1 & z2) & valid) == 0)
            &&& ((o1 & o2) & valid) | ((z1 | z2) & valid) == u64::MAX || (((o1 & o2) & valid) == 0
                && ((z1 | z2) & valid) == 0)
            &&& (((z1 & o2) | (o1 & z2)) & valid) | (((z1 & z2) | (o1 & o2)) & valid) == u64::MAX
                || ((((z1 & o2) | (o1 & z2)) & valid) == 0 && (((z1 & z2) | (o1 & o2)) & valid)
                == 0)
        },
        allows(o1, z1, x) && allows(o2, z2, y) ==> {
            let valid = (o1 | z1) & (o2 | z2);
            &&& allows((o1 | o2) & valid, (z1 & z2) & valid, x | y)
            &&& allows((o1 & o2) & valid, (z1 | z2) & valid, x & y)
            &&& allows(((z1 & o2) | (o1 & z2)) & valid, ((z1 & z2) | (o1 & o2)) & valid, x ^ y)
            &&& allows(z1, o1, !x)
        },
{
}

/// Sums of members of two pairs.
proof fn bv_arith(o1: u64, z1: u64, o2: u64, z2: u64, x: u64, y: u64)
    by (bit_vector)
    requires
        allows(o1, z1, x),
        allows(o2, z2, y),
    ensures
        ({
            let left_value = o1 & !z1;
            let left_mask = o1 & z1;
            let right_value = o2 & !z2;
            let right_mask = o2 & z2;
            let value_sum = wadd(left_value, right_value);
            let sigma = wadd(wadd(left_mask, right_mask), value_sum);
            let mask = (sigma ^ value_sum) | left_mask | right_mask;
            let value = value_sum & !mask;
            allows(value | mask, !value | mask, wadd(x, y))
        }),
{
}

/// Differences of members of two pairs.
proof fn bv_difference(o1: u64, z1: u64, o2: u64, z2: u64, x: u64, y: u64)
    by (bit_vector)
    requires
        allows(o1, z1, x),
        allows(o2, z2, y),
    ensures
        ({
            let left_value = o1 & !z1;
            let left_mask = o1 & z1;
            let right_value = o2 & !z2;
            let right_mask = o2 & z2;
            let value_difference = wsub(left_value, right_value);
            let alpha = wadd(value_difference, left_mask);
            let beta = wsub(value_difference, right_mask);
            let mask = (alpha ^ beta) | left_mask | right_mask;
            let value = value_difference & !mask;
            allows(value | mask, !value | mask, wsub(x, y))
        }),
{
}

proof fn lemma_valid(a: Znum)
    requires
        a.wf(),
        !a.is_bottom(),
    ensures
        a.o | a.z == u64::MAX,
{
    bv_one(a.o, a.z, 0, 0);
}

/// Division by a divisor whose only member is zero has no result, and the remainder is
/// empty; any other divisor gives a quotient.
pub proof fn lemma_zero_divisor(a: Znum, b: Znum)
    requires
        a.wf(),
        b.wf(),
    ensures
        a.spec_checked_div(b) is None <==> b.only_member(0),
        b.only_member(0) ==> a.spec_div(b).is_bottom() && a.spec_rem(b).is_bottom(),
{
    bv_one(0, 0, 0, 0);
    if b.is_bottom() {
        assert(!b.has(0)) by {
            bv_one(b.o, b.z, 0, 0);
        }
    } else {
        lemma_bounds_exact(b, 0);
        if b.o == 0 {
            assert forall|x: u64| #[trigger] b.has(x) <==> x == 0 by {
                lemma_bounds_exact(b, x);
            }
            lemma_valid(b);
            bv_one(b.o, b.z, 0, 0);
        } else {
            assert(b.has(b.o));
        }
    }
}

/// The empty encoding has no member; any other valid encoding has members.
pub proof fn lemma_bottom_iff_no_member(a: Znum)
    requires
        a.wf(),
    ensures
        a.is_bottom() <==> (forall|x: u64| !#[trigger] a.has(x)),
{
    if a.is_bottom() {
        assert forall|x: u64| !#[trigger] a.has(x) by {
            bv_one(a.o, a.z, x, 0);
        }
    } else {
        bv_one(a.o, a.z, a.o, 0);
        assert(a.has(a.o));
    }
}

/// `from_parts` denotes the values its masks allow; normalizing changes no membership.
pub proof fn lemma_from_parts_members(ones: u64, zeros: u64, x: u64)
    ensures
        Znum::spec_from_parts(ones, zeros).has(x) <==> allows(ones, zeros, x),
{
    if ones | zeros != u64::MAX {
        bv_one(0, 0, x, 0);
        bv_one(ones, zeros, x, 0);
    }
}

/// A constant holds its value and nothing else.
pub proof fn lemma_from_value_exact(v: u64)
    ensures
        Znum::spec_from_value(v).only_member(v),
        Znum::spec_from_value(v).spec_is_const(),
{
    assert forall|x: u64| #[trigger] Znum::spec_from_value(v).has(x) <==> x == v by {
        bv_one(0, 0, x, v);
    }
    bv_one(0, 0, v, v);
}

/// The unknown value holds every word.
pub proof fn lemma_unknown_all(x: u64)
    ensures
        Znum::spec_unknown().has(x),
{
    bv_one(0, 0, x, 0);
}

/// Every value of either operand is a value of their union.
pub proof fn lemma_union_sound(a: Znum, b: Znum, x: u64)
    requires
        a.wf(),
        b.wf(),
        a.has(x) || b.has(x),
    ensures
        a.spec_union(b).has(x),
{
    bv_two(a.o, a.z, b.o, b.z, x, 0, 0, 0);
    bv_one(a.o, a.z, x, 0);
    bv_one(b.o, b.z, x, 0);
}

/// The union is the least Znum that contains both operands.
pub proof fn lemma_union_least(a: Znum, b: Znum, c: Znum)
    requires
        a.wf(),
        b.wf(),
        c.wf(),
        c.spec_contains(a),
        c.spec_contains(b),
    ensures
        c.spec_contains(a.spec_union(b)),
{
    bv_two(a.o, a.z, b.o, b.z, 0, 0, c.o, c.z);
    if !a.is_bottom() && !b.is_bottom() {
        lemma_valid(a);
        bv_two(a.o, a.z, b.o, b.z, 0, 0, 0, 0);
    }
}

/// A value belongs to the intersection exactly when it belongs to both operands.
pub proof fn lemma_intersection_exact(a: Znum, b: Znum, x: u64)
    requires
        a.wf(),
        b.wf(),
    ensures
        a.spec_intersection(b).has(x) <==> (a.has(x) && b.has(x)),
{
    bv_two(a.o, a.z, b.o, b.z, x, 0, 0, 0);
    lemma_from_parts_members(a.o & b.o, a.z & b.z, x);
}

/// `contains` decides inclusion of the concrete value sets.
pub proof fn lemma_contains_iff_includes(a: Znum, b: Znum)
    requires
        a.wf(),
        b.wf(),
    ensures
        a.spec_contains(b) <==> a.includes(b),
{
    if b.is_bottom() {
        lemma_bottom_iff_no_member(b);
    } else {
        lemma_valid(b);
        if a.is_bottom() {
            lemma_bottom_iff_no_member(a);
            bv_one(b.o, b.z, 0, 0);
            assert(b.has(b.o));
        } else if a.spec_contains(b) {
            assert forall|x: u64| #[trigger] b.has(x) implies a.has(x) by {
                bv_two(a.o, a.z, b.o, b.z, x, 0, 0, 0);
            }
        } else {
            bv_two(a.o, a.z, b.o, b.z, 0, 0, 0, 0);
            bv_one(b.o, b.z, 0, 0);
            assert(b.has(b.o));
            assert(b.has(b.o & !b.z));
        }
    }
}

/// Bitwise operations of members are members of the results.
pub proof fn lemma_bitwise_sound(a: Znum, b: Znum, x: u64, y: u64)
    requires
        a.wf(),
        b.wf(),
        a.has(x),
        b.has(y),
    ensures
        a.spec_or(b).has(x | y),
        a.spec_and(b).has(x & y),
        a.spec_xor(b).has(x ^ y),
        a.spec_not().has(!x),
{
    bv_two(a.o, a.z, b.o, b.z, x, y, 0, 0);
}

/// Every member of a bitwise or, and, or exclusive or is the result of the operation on
/// a member of each operand.
pub proof fn lemma_bitwise_exact(a: Znum, b: Znum, w: u64)
    requires
        a.wf(),
        b.wf(),
    ensures
        a.spec_or(b).has(w) ==> exists|x: u64, y: u64| a.has(x) && b.has(y) && #[trigger] (x | y)
            == w,
        a.spec_and(b).has(w) ==> exists|x: u64, y: u64| a.has(x) && b.has(y) && #[trigger] (x
            & y) == w,
        a.spec_xor(b).has(w) ==> exists|x: u64, y: u64| a.has(x) && b.has(y) && #[trigger] (x
            ^ y) == w,
{
    let (o1, z1, o2, z2) = (a.o, a.z, b.o, b.z);
    if a.spec_or(b).has(w) {
        bv_or_witness(o1, z1, o2, z2, w);
        let (x, y) = (w & o1, w & o2);
        assert(a.has(x) && b.has(y) && (x | y) == w);
    }
    if a.spec_and(b).has(w) {
        bv_and_witness(o1, z1, o2, z2, w);
        let (x, y) = (w | !z1, w | !z2);
        assert(a.has(x) && b.has(y) && (x & y) == w);
    }
    if a.spec_xor(b).has(w) {
        let x = (o1 & !z1) | ((o1 & z1) & (w ^ (o2 & !z2)));
        let y = (o2 & !z2) | ((o2 & z2) & (w ^ x));
        bv_xor_witness(o1, z1, o2, z2, w, x, y);
        assert(a.has(x) && b.has(y) && (x ^ y) == w);
    }
}

/// Every member of a left shift is a member shifted left.
pub proof fn lemma_shift_left_exact(a: Znum, shift: u8, w: u64)
    requires
        a.wf(),
        a.spec_shl(shift).has(w),
    ensures
        exists|x: u64| a.has(x) && #[trigger] (x << ((shift as u64) % 64)) == w,
{
    let s = (shift as u64) % 64;
    if a.o | a.z == 0 {
        bv_one(0, 0, w, 0);
    } else {
        lemma_valid(a);
        bv_shift_left_witness(a.o, a.z, w, s);
        let x = (w >> s) | (!a.z & !(u64::MAX >> s));
        assert(a.has(x) && (x << s) == w);
    }
}

/// Shifting a member by `shift % 64` gives a member of the shifted Znum.
pub proof fn lemma_shift_sound(a: Znum, x: u64, shift: u8)
    requires
        a.wf(),
        a.has(x),
    ensures
        a.spec_shl(shift).has(x << ((shift as u64) % 64)),
        a.spec_shr(shift).has(x >> ((shift as u64) % 64)),
{
    bv_shifts(a.o, a.z, x, (shift as u64) % 64);
    bv_one(a.o, a.z, x, 0);
}

/// Every member of a right shift is a member shifted right.
pub proof fn lemma_shift_right_exact(a: Znum, shift: u8, w: u64)
    requires
        a.wf(),
        a.spec_shr(shift).has(w),
    ensures
        exists|x: u64| a.has(x) && #[trigger] (x >> ((shift as u64) % 64)) == w,
{
    let s = (shift as u64) % 64;
    if a.o | a.z == 0 {
        bv_one(0, 0, w, 0);
    } else {
        lemma_valid(a);
        bv_shift_right_witness(a.o, a.z, w, s);
        let x = (w << s) | (a.o & (((1u64 << s) - 1u64) as u64));
        assert(a.has(x) && (x >> s) == w);
    }
}

/// Below the lowest bit that may be either zero or one in an operand, every bit of the
/// sum and of the difference is fixed, to the bit of the wrapping sum or difference of the
/// fixed values.
pub proof fn lemma_add_sub_low_bits_fixed(a: Znum, b: Znum, t: u64)
    requires
        a.wf(),
        b.wf(),
        !a.is_bottom(),
        !b.is_bottom(),
        t < 64,
        ((a.may_be_one() & a.may_be_zero()) | (b.may_be_one() & b.may_be_zero())) & (((1u64
            << t) - 1u64) as u64) == 0,
    ensures
        ({
            let low = ((1u64 << t) - 1u64) as u64;
            let (x, y) = (a.may_be_one() & !a.may_be_zero(), b.may_be_one() & !b.may_be_zero());
            let (sum, difference) = (a.spec_add(b), a.spec_sub(b));
            &&& (sum.may_be_one() & sum.may_be_zero()) & low == 0
            &&& (sum.may_be_one() & !sum.may_be_zero()) & low == wadd(x, y) & low
            &&& (difference.may_be_one() & difference.may_be_zero()) & low == 0
            &&& (difference.may_be_one() & !difference.may_be_zero()) & low == wsub(x, y) & low
        }),
{
    bv_low_bits_fixed(a.o, a.z, b.o, b.z, t);
}

/// The wrapping sum of members is a member of the sum.
pub proof fn lemma_add_sound(a: Znum, b: Znum, x: u64, y: u64)
    requires
        a.wf(),
        b.wf(),
        a.has(x),
        b.has(y),
    ensures
        a.spec_add(b).has(wadd(x, y)),
{
    bv_arith(a.o, a.z, b.o, b.z, x, y);
    bv_one(a.o, a.z, x, 0);
    bv_one(b.o, b.z, y, 0);
}

/// The wrapping difference of members is a member of the difference.
pub proof fn lemma_sub_sound(a: Znum, b: Znum, x: u64, y: u64)
    requires
        a.wf(),
        b.wf(),
        a.has(x),
        b.has(y),
    ensures
        a.spec_sub(b).has(wsub(x, y)),
{
    bv_difference(a.o, a.z, b.o, b.z, x, y);
    bv_one(a.o, a.z, x, 0);
    bv_one(b.o, b.z, y, 0);
}

/// The wrapping negation of a member is a member of the negation.
pub proof fn lemma_neg_sound(a: Znum, x: u64)
    requires
        a.wf(),
        a.has(x),
    ensures
        a.spec_neg().has(wsub(0, x)),
{
    lemma_from_value_exact(0);
    bv_one(0, 0, 0, 0);
    lemma_sub_sound(Znum::spec_from_value(0), a, 0, x);
}

/// Division and remainder of members by a nonzero member are members of the results.
pub proof fn lemma_div_rem_sound(a: Znum, b: Znum, x: u64, y: u64)
    requires
        a.wf(),
        b.wf(),
        a.has(x),
        b.has(y),
        y != 0,
    ensures
        a.spec_checked_div(b) is Some,
        a.spec_div(b).has(x / y),
        a.spec_rem(b).has(x % y),
{
    bv_one(a.o, a.z, x, 0);
    bv_one(b.o, b.z, y, 0);
    lemma_valid(a);
    lemma_valid(b);
    bv_one(a.o, a.z, x, 0);
    bv_one(b.o, b.z, y, 0);
    bv_one(0, 0, (x / y) as u64, 0);
    bv_one(0, 0, (x % y) as u64, 0);
    if a.spec_is_const() && b.spec_is_const() {
        bv_one(0, 0, (x / y) as u64, (x / y) as u64);
        bv_one(0, 0, (x % y) as u64, (x % y) as u64);
    }
}

/// The bounds of a non-empty Znum are attained by members and bound every member.
pub proof fn lemma_bounds_exact(a: Znum, x: u64)
    requires
        a.wf(),
        !a.is_bottom(),
    ensures
        a.has(a.spec_min()),
        a.has(a.may_be_one()),
        a.has(x) ==> a.spec_min() <= x <= a.may_be_one(),
        a.spec_signed_bounds() is Some,
        a.has(x) ==> a.spec_signed_bounds().unwrap().0 <= (x as i64) <= a.spec_signed_bounds().unwrap().1,
        exists|w: u64| #[trigger] a.has(w) && (w as i64) == a.spec_signed_bounds().unwrap().0,
        exists|w: u64| #[trigger] a.has(w) && (w as i64) == a.spec_signed_bounds().unwrap().1,
{
    lemma_valid(a);
    bv_one(a.o, a.z, x, 0);
    bv_one(a.o, a.z, a.o, 0);
    bv_signed(a.o, a.z, a.o);
    if a.z & SIGN_BIT != 0 && a.o & SIGN_BIT != 0 {
        assert(a.has((a.o & !a.z) | SIGN_BIT));
        assert(a.has(a.o & !SIGN_BIT));
    } else {
        assert(a.has(a.o & !a.z));
        assert(a.has(a.o));
    }
    if a.has(x) {
        bv_one(a.o, a.z, x, 0);
        bv_signed(a.o, a.z, x);
    } else {
        bv_one(a.o, a.z, a.o, 0);
        bv_signed(a.o, a.z, a.o);
    }
}

/// A Znum is constant exactly when it has one member.
pub proof fn lemma_const_iff_singleton(a: Znum)
    requires
        a.wf(),
    ensures
        a.spec_is_const() <==> (exists|v: u64| #[trigger] a.only_member(v)),
{
    if a.is_bottom() {
        lemma_bottom_iff_no_member(a);
        bv_one(a.o, a.z, 0, 0);
        assert forall|v: u64| !#[trigger] a.only_member(v) by {
            assert(!a.has(v));
        }
    } else {
        lemma_valid(a);
        if a.spec_is_const() {
            assert forall|x: u64| #[trigger] a.has(x) <==> x == a.o by {
                bv_one(a.o, a.z, x, 0);
            }
            assert(a.only_member(a.o));
        } else {
            bv_one(a.o, a.z, 0, 0);
            assert forall|v: u64| !#[trigger] a.only_member(v) by {
                assert(a.has(a.o));
                assert(a.has(a.o & !a.z));
            }
        }
    }
}

} // verus!

verus! {

use vstd::arithmetic::power2::pow2;
use crate::word::{wmul, word_modulus, lemma_low_bits_step, lemma_low_bits_all, lemma_partial_product_step};

proof fn bits_results_valid(o1: u64, z1: u64, o2: u64, z2: u64, s: u64, v: u64)
    requires
        o1 | z1 == u64::MAX || (o1 == 0 && z1 == 0),
        o2 | z2 == u64::MAX || (o2 == 0 && z2 == 0),
        s < 64,
    ensures
        (v | (!v)) == u64::MAX,
        (o1 | o2) | (z1 | z2) == u64::MAX || (o1 | z1 == 0) || (o2 | z2 == 0),
        o1 | z1 != 0 ==> (o1 << s) | ((z1 << s) | (((1u64 << s) - 1u64) as u64)) == u64::MAX,
{
    bv_one(o1, z1, 0, v);
    bv_one(o2, z2, 0, v);
    bv_two(o1, z1, o2, z2, 0, 0, 0, 0);
    bv_shifts(o1, z1, 0, s);
}

/// Results of the arithmetic on valid operands are valid.
proof fn lemma_results_wf(a: Znum, b: Znum, shift: u8)
    requires
        a.wf(),
        b.wf(),
    ensures
        a.spec_add(b).wf(),
        a.spec_union(b).wf(),
        b.spec_shl(shift).wf(),
{
    let s = (shift as u64) % 64;
    bits_results_valid(a.o, a.z, b.o, b.z, s, 0);
    bits_results_valid(b.o, b.z, a.o, a.z, s, 0);
    if !a.is_bottom() && !b.is_bottom() {
        let r = a.spec_add(b);
        let left_value = a.o & !a.z;
        let left_mask = a.o & a.z;
        let right_value = b.o & !b.z;
        let right_mask = b.o & b.z;
        let value_sum = wadd(left_value, right_value);
        let sigma = wadd(wadd(left_mask, right_mask), value_sum);
        let mask = (sigma ^ value_sum) | left_mask | right_mask;
        bits_results_valid(a.o, a.z, b.o, b.z, 0, 0);
        let value = value_sum & !mask;
        bv_one(0, 0, mask, value);
    }
    if a.is_bottom() {
        assert(a.o == 0 && a.z == 0);
    }
}

proof fn lemma_from_value_wf(v: u64)
    ensures
        Znum::spec_from_value(v).wf(),
{
    bv_one(0, 0, v, v);
}

/// The running product after the bits below `k` holds the low `k` bits of any member of
/// `a` times any member of `b`, modulo 2^64.
proof fn lemma_mul_upto_sound(a: Znum, b: Znum, x: u64, y: u64, k: nat)
    requires
        a.wf(),
        b.wf(),
        a.has(x),
        b.has(y),
        k <= 64,
    ensures
        a.spec_mul_upto(b, k).wf(),
        a.spec_mul_upto(b, k).has(((((x as nat) % pow2(k)) * y) % word_modulus()) as u64),
    decreases k,
{
    if k == 0 {
        lemma_from_value_wf(0);
        vstd::arithmetic::power2::lemma2_to64();
        assert((x as nat) % pow2(0) == 0);
        lemma_from_value_exact(0);
        bv_one(0, 0, 0, 0);
    } else {
        let j = (k - 1) as nat;
        lemma_mul_upto_sound(a, b, x, y, j);
        let product = a.spec_mul_upto(b, j);
        let p = (x as nat) % pow2(j);
        let acc = (((p * y) % word_modulus()) as u64);
        let m = 1u64 << (j as u64);
        let shifted = b.spec_shl(j as u8);
        assert(((j as u8) as u64) % 64 == j as u64);
        lemma_shift_sound(b, y, j as u8);
        lemma_results_wf(b, b, j as u8);
        lemma_results_wf(product, shifted, j as u8);
        let with_bit = product.spec_add(shifted);
        lemma_results_wf(product, with_bit, 0);
        lemma_add_sound(product, shifted, acc, y << (j as u64));
        lemma_low_bits_step(x, j);
        bv_shifts(a.o, a.z, x, j as u64);
        vstd::arithmetic::power2::lemma_pow2_pos(j);
        assert(0 <= (p * y) % word_modulus() < word_modulus()) by {
            vstd::arithmetic::div_mod::lemma_mod_bound((p * y) as int, word_modulus());
        }
        if x & m != 0 {
            lemma_partial_product_step(p, j, y, acc);
            assert((x as nat) % pow2(k) == p + pow2(j));
            if a.z & m != 0 {
                lemma_union_sound(product, with_bit, wadd(acc, y << (j as u64)));
            }
        } else {
            assert((x as nat) % pow2(k) == p);
            if a.o & m != 0 {
                lemma_union_sound(product, with_bit, acc);
            }
        }
    }
}

/// The wrapping product of members is a member of the product.
pub proof fn lemma_mul_sound(a: Znum, b: Znum, x: u64, y: u64)
    requires
        a.wf(),
        b.wf(),
        a.has(x),
        b.has(y),
    ensures
        a.spec_mul(b).has(wmul(x, y)),
{
    bv_one(a.o, a.z, x, 0);
    bv_one(b.o, b.z, y, 0);
    lemma_mul_upto_sound(a, b, x, y, 64);
    lemma_low_bits_all(x);
}

} // verus!

verus! {

proof fn bv_constants(x: u64, y: u64, s: u64)
    by (bit_vector)
    requires
        s < 64,
    ensures
        (x | !x) & (y | !y) == u64::MAX,
        (!x & !y) & u64::MAX == !(x | y),
        (x | y) & u64::MAX == x | y,
        (!x | !y) & u64::MAX == !(x & y),
        (x & y) & u64::MAX == x & y,
        ((!x & !y) | (x & y)) & u64::MAX == !(x ^ y),
        ((!x & y) | (x & !y)) & u64::MAX == x ^ y,
        !!x == x,
        x & !!x == x,
        x & !x == 0,
        x | !x != 0,
        wadd(wadd(0, 0), wadd(x, y)) ^ wadd(x, y) == 0,
        wadd(wsub(x, y), 0) ^ wsub(x, y) == 0,
        wsub(wsub(x, y), 0) == wsub(x, y),
        (0u64 | 0u64 | 0u64) == 0,
        x & !0u64 == x,
        x | 0u64 == x,
        (!x << s) | (((1u64 << s) - 1u64) as u64) == !(x << s),
        s == 0 ==> (!x >> s) | 0u64 == !(x >> s),
        s != 0 ==> (!x >> s) | (u64::MAX << ((64 - s) as u64)) == !(x >> s),
        x & (1u64 << s) != 0 ==> !x & (1u64 << s) == 0,
{
}

/// Operations on constants give the constant of the concrete result.
pub proof fn lemma_constant_ops(x: u64, y: u64, shift: u8)
    ensures
        ({
            let (a, b) = (Znum::spec_from_value(x), Znum::spec_from_value(y));
            let s = (shift as u64) % 64;
            &&& a.spec_or(b) == Znum::spec_from_value(x | y)
            &&& a.spec_and(b) == Znum::spec_from_value(x & y)
            &&& a.spec_xor(b) == Znum::spec_from_value(x ^ y)
            &&& a.spec_not() == Znum::spec_from_value(!x)
            &&& a.spec_add(b) == Znum::spec_from_value(wadd(x, y))
            &&& a.spec_sub(b) == Znum::spec_from_value(wsub(x, y))
            &&& a.spec_shl(shift) == Znum::spec_from_value(x << s)
            &&& a.spec_shr(shift) == Znum::spec_from_value(x >> s)
        }),
{
    let s = (shift as u64) % 64;
    bv_constants(x, y, s);
    bv_constants(y, x, s);
    bv_constants(wadd(x, y), 0, s);
    bv_constants(wsub(x, y), 0, s);
    bv_constants(x | y, 0, s);
    bv_constants(x & y, 0, s);
    bv_constants(x ^ y, 0, s);
    bv_constants(!x, 0, s);
    bv_constants(x << s, 0, s);
    bv_constants(x >> s, 0, s);
    bv_constants(!wadd(x, y), 0, s);
    bv_constants(!wsub(x, y), 0, s);
}

proof fn lemma_mul_upto_constant(x: u64, y: u64, k: nat)
    requires
        k <= 64,
    ensures
        exists|p: u64| Znum::spec_from_value(x).spec_mul_upto(Znum::spec_from_value(y), k)
            == #[trigger] Znum::spec_from_value(p),
    decreases k,
{
    let (a, b) = (Znum::spec_from_value(x), Znum::spec_from_value(y));
    if k == 0 {
        assert(a.spec_mul_upto(b, 0) == Znum::spec_from_value(0));
    } else {
        let j = (k - 1) as nat;
        lemma_mul_upto_constant(x, y, j);
        let p = choose|p: u64| a.spec_mul_upto(b, j) == #[trigger] Znum::spec_from_value(p);
        let m = 1u64 << (j as u64);
        assert(((j as u8) as u64) % 64 == j as u64);
        lemma_constant_ops(y, 0, j as u8);
        let shifted = y << (j as u64);
        lemma_constant_ops(p, shifted, 0);
        let (xo, xz) = (a.o, a.z);
        bv_constants(x, 0, j as u64);
        if a.o & m != 0 {
            assert(a.spec_mul_upto(b, k) == Znum::spec_from_value(wadd(p, shifted)));
        } else {
            assert(a.spec_mul_upto(b, k) == Znum::spec_from_value(p));
        }
    }
}

/// Multiplication, division and remainder of constants give the constant of the concrete
/// result; division by the constant zero has no result.
pub proof fn lemma_constant_arith(x: u64, y: u64)
    ensures
        Znum::spec_from_value(x).spec_mul(Znum::spec_from_value(y)) == Znum::spec_from_value(
            wmul(x, y),
        ),
        Znum::spec_from_value(x).spec_neg() == Znum::spec_from_value(wsub(0, x)),
        y != 0 ==> Znum::spec_from_value(x).spec_div(Znum::spec_from_value(y))
            == Znum::spec_from_value(x / y),
        y != 0 ==> Znum::spec_from_value(x).spec_rem(Znum::spec_from_value(y))
            == Znum::spec_from_value(x % y),
        y == 0 ==> Znum::spec_from_value(x).spec_checked_div(Znum::spec_from_value(y)) is None,
{
    let (a, b) = (Znum::spec_from_value(x), Znum::spec_from_value(y));
    bv_constants(x, y, 0);
    bv_constants(y, x, 0);
    lemma_from_value_exact(x);
    lemma_from_value_exact(y);
    lemma_from_value_wf(x);
    lemma_from_value_wf(y);
    lemma_constant_ops(0, x, 0);
    lemma_mul_upto_constant(x, y, 64);
    let p = choose|p: u64| a.spec_mul_upto(b, 64) == #[trigger] Znum::spec_from_value(p);
    lemma_mul_sound(a, b, x, y);
    lemma_from_value_exact(p);
    assert(a.spec_mul(b) == Znum::spec_from_value(p));
    assert(a.spec_mul(b).has(wmul(x, y)));
}

} // verus!

verus! {

/// The empty set absorbs every operation, and is the identity of union.
pub proof fn lemma_bottom_absorbs(a: Znum, b: Znum, shift: u8)
    requires
        a.is_bottom(),
        a.wf(),
        b.wf(),
    ensures
        a.spec_union(b) == b,
        b.spec_union(a) == b,
        a.spec_or(b).is_bottom() && b.spec_or(a).is_bottom(),
        a.spec_and(b).is_bottom() && b.spec_and(a).is_bottom(),
        a.spec_xor(b).is_bottom() && b.spec_xor(a).is_bottom(),
        a.spec_not().is_bottom(),
        a.spec_add(b).is_bottom() && b.spec_add(a).is_bottom(),
        a.spec_sub(b).is_bottom() && b.spec_sub(a).is_bottom(),
        a.spec_shl(shift).is_bottom() && a.spec_shr(shift).is_bottom(),
        a.spec_neg().is_bottom(),
        a.spec_mul(b).is_bottom() && b.spec_mul(a).is_bottom(),
        a.spec_div(b).is_bottom() && b.spec_div(a).is_bottom(),
        a.spec_rem(b).is_bottom() && b.spec_rem(a).is_bottom(),
{
    bv_one(a.o, a.z, 0, 0);
    assert(a.o == 0 && a.z == 0);
    bv_bottom_operand(b.o, b.z);
    lemma_from_value_wf(0);
    bv_constants(0, 0, 0);
}

/// Union does not depend on the order of its operands.
pub proof fn lemma_union_commutative(a: Znum, b: Znum)
    requires
        a.wf(),
        b.wf(),
    ensures
        a.spec_union(b) == b.spec_union(a),
{
    bv_two(a.o, a.z, b.o, b.z, 0, 0, 0, 0);
    bv_two(b.o, b.z, a.o, a.z, 0, 0, 0, 0);
    bv_one(a.o, a.z, 0, 0);
    bv_one(b.o, b.z, 0, 0);
    assert((a.o | b.o) == (b.o | a.o) && (a.z | b.z) == (b.z | a.z)) by {
        bv_commute(a.o, b.o);
        bv_commute(a.z, b.z);
    }
}

proof fn bv_bottom_operand(o: u64, z: u64)
    by (bit_vector)
    ensures
        ({
            let v1 = (0u64 | 0u64) & (o | z);
            let v2 = (o | z) & (0u64 | 0u64);
            &&& ((0u64 | o) & v1) | ((0u64 & z) & v1) == 0
            &&& ((o | 0u64) & v2) | ((z & 0u64) & v2) == 0
            &&& ((0u64 & o) & v1) | ((0u64 | z) & v1) == 0
            &&& ((o & 0u64) & v2) | ((z | 0u64) & v2) == 0
            &&& (((0u64 & o) | (0u64 & z)) & v1) | (((0u64 & z) | (0u64 & o)) & v1) == 0
            &&& (((z & 0u64) | (o & 0u64)) & v2) | (((z & 0u64) | (o & 0u64)) & v2) == 0
        }),
        0u64 | 0u64 == 0,
{
}

proof fn bv_commute(x: u64, y: u64)
    by (bit_vector)
    ensures
        x | y == y | x,
        x & y == y & x,
{
}

} // verus!
