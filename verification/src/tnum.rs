use vstd::prelude::*;

use crate::word::wadd;

verus! {

/// The sign bit of a 64-bit word.
pub const SIGN_BIT: u64 = 0x8000_0000_0000_0000u64;

/// Tracking number: for every bit, whether it is known and, if known, its value.
///
/// Bits set in `mask` are unknown; bits of `value` under the mask are always 0.
/// A separate flag marks the empty set.
#[derive(Copy, Clone, PartialEq, Eq, Debug)]
pub struct Tnum {
    value: u64,
    mask: u64,
    empty: bool,
}

impl Tnum {
    /// The known bits (those outside `unknown()`).
    pub closed spec fn known(self) -> u64 {
        self.value
    }

    /// The bits whose value is not known.
    pub closed spec fn unknown(self) -> u64 {
        self.mask
    }

    /// Whether this is the empty set.
    pub closed spec fn is_bottom(self) -> bool {
        self.empty
    }

    /// The canonical representation: no value bit under the mask, and a single empty set.
    #[verifier::type_invariant]
    pub closed spec fn wf(self) -> bool {
        &&& self.value & self.mask == 0
        &&& self.empty ==> self.value == 0 && self.mask == 0
    }

    /// Not empty, with exactly these known bits and unknown mask stored.
    pub open spec fn stores(self, value: u64, mask: u64) -> bool {
        !self.is_bottom() && self.known() == value && self.unknown() == mask
    }

    /// The empty set, stored with no known and no unknown bit.
    pub open spec fn stores_empty(self) -> bool {
        self.is_bottom() && self.known() == 0 && self.unknown() == 0
    }

    /// The stored form of a union: one operand where the other is empty, else the known
    /// bits of `self` with every bit unknown in either operand or differing between them.
    pub open spec fn union_stored(self, other: Tnum, r: Tnum) -> bool {
        let mask = self.unknown() | other.unknown() | (self.known() ^ other.known());
        if self.is_bottom() {
            r == other
        } else if other.is_bottom() {
            r == self
        } else {
            r.stores(self.known() & !mask, mask)
        }
    }

    /// The stored form of an intersection: empty where an operand is or a bit known in
    /// both differs, else the known bits of both with the bits unknown in both.
    pub open spec fn intersection_stored(self, other: Tnum, r: Tnum) -> bool {
        let mask = self.unknown() & other.unknown();
        if self.is_bottom() || other.is_bottom() || (self.known() ^ other.known()) & !(
        self.unknown() | other.unknown()) != 0 {
            r.stores_empty()
        } else {
            r.stores((self.known() | other.known()) & !mask, mask)
        }
    }

    /// The stored form of a binary operation: empty where an operand is empty, else the
    /// given value bits and mask.
    pub open spec fn binary_stored(self, other: Tnum, r: Tnum, value: u64, mask: u64) -> bool {
        if self.is_bottom() || other.is_bottom() {
            r.stores_empty()
        } else {
            r.stores(value, mask)
        }
    }

    /// The stored form of a unary operation: unchanged where empty, else the given value
    /// bits and mask.
    pub open spec fn unary_stored(self, r: Tnum, value: u64, mask: u64) -> bool {
        if self.is_bottom() {
            r == self
        } else {
            r.stores(value, mask)
        }
    }

    /// The mask of a bitwise and: the bits that may be one in both and are not known ones
    /// in both.
    pub open spec fn and_mask(self, other: Tnum) -> u64 {
        ((self.known() | self.unknown()) & (other.known() | other.unknown())) & !(self.known()
            & other.known())
    }

    /// The mask of a sum: the bits whose carry can differ, and the unknown bits.
    pub open spec fn sum_mask(self, other: Tnum) -> u64 {
        let value_sum = wadd(self.known(), other.known());
        let sigma = wadd(wadd(self.unknown(), other.unknown()), value_sum);
        (sigma ^ value_sum) | self.unknown() | other.unknown()
    }

    /// Membership of a concrete value.
    pub open spec fn has(self, v: u64) -> bool {
        !self.is_bottom() && v & !self.unknown() == self.known()
    }

    /// `v` is the one and only member.
    pub open spec fn only_member(self, v: u64) -> bool {
        forall|x: u64| #[trigger] self.has(x) <==> x == v
    }

    /// Set inclusion of the concrete values of `other` in those of `self`.
    pub open spec fn includes(self, other: Tnum) -> bool {
        forall|v: u64| #[trigger] other.has(v) ==> self.has(v)
    }

    pub closed spec fn spec_empty() -> Tnum {
        Tnum { value: 0, mask: 0, empty: true }
    }

    pub closed spec fn spec_from_parts(value: u64, mask: u64) -> Tnum {
        Tnum { value: value & !mask, mask, empty: false }
    }

    /// The whole 64-bit space.
    pub closed spec fn spec_unknown() -> Tnum {
        Tnum { value: 0, mask: u64::MAX, empty: false }
    }

    pub closed spec fn spec_union(self, other: Tnum) -> Tnum {
        if self.empty {
            other
        } else if other.empty {
            self
        } else {
            Tnum::spec_from_parts(
                self.value,
                self.mask | other.mask | (self.value ^ other.value),
            )
        }
    }

    pub closed spec fn spec_intersection(self, other: Tnum) -> Tnum {
        if self.empty || other.empty {
            Tnum::spec_empty()
        } else if (self.value ^ other.value) & !(self.mask | other.mask) != 0 {
            Tnum::spec_empty()
        } else {
            Tnum::spec_from_parts(self.value | other.value, self.mask & other.mask)
        }
    }

    pub open spec fn spec_contains(self, other: Tnum) -> bool {
        other.is_bottom() || (!self.is_bottom() && other.unknown() & !self.unknown() == 0
            && other.known() & !self.unknown() == self.known())
    }

    /// The words whose signed readings are the signed extrema.
    pub open spec fn signed_extreme_words(self) -> (u64, u64) {
        if self.unknown() & SIGN_BIT != 0 {
            (self.known() | SIGN_BIT, (self.known() | self.unknown()) & !SIGN_BIT)
        } else {
            (self.known(), self.known() | self.unknown())
        }
    }

    pub open spec fn spec_signed_bounds(self) -> (i64, i64) {
        ((self.signed_extreme_words().0 as i64), (self.signed_extreme_words().1 as i64))
    }

    pub closed spec fn spec_not(self) -> Tnum {
        if self.empty {
            self
        } else {
            Tnum { value: !self.value & !self.mask, mask: self.mask, empty: false }
        }
    }

    pub closed spec fn spec_or(self, other: Tnum) -> Tnum {
        if self.empty || other.empty {
            Tnum::spec_empty()
        } else {
            Tnum {
                value: self.value | other.value,
                mask: (self.mask | other.mask) & !(self.value | other.value),
                empty: false,
            }
        }
    }

    pub closed spec fn spec_and(self, other: Tnum) -> Tnum {
        if self.empty || other.empty {
            Tnum::spec_empty()
        } else {
            Tnum::spec_from_parts(
                self.value & other.value,
                ((self.value | self.mask) & (other.value | other.mask)) & !(self.value
                    & other.value),
            )
        }
    }

    pub closed spec fn spec_xor(self, other: Tnum) -> Tnum {
        if self.empty || other.empty {
            Tnum::spec_empty()
        } else {
            Tnum::spec_from_parts(self.value ^ other.value, self.mask | other.mask)
        }
    }

    pub closed spec fn spec_shl(self, shift: u8) -> Tnum {
        if self.empty {
            self
        } else {
            Tnum {
                value: self.value << ((shift as u64) % 64),
                mask: self.mask << ((shift as u64) % 64),
                empty: false,
            }
        }
    }

    pub closed spec fn spec_shr(self, shift: u8) -> Tnum {
        if self.empty {
            self
        } else {
            Tnum {
                value: self.value >> ((shift as u64) % 64),
                mask: self.mask >> ((shift as u64) % 64),
                empty: false,
            }
        }
    }

    pub closed spec fn spec_add(self, other: Tnum) -> Tnum {
        if self.empty || other.empty {
            Tnum::spec_empty()
        } else {
            let value_sum = wadd(self.value, other.value);
            let sigma = wadd(wadd(self.mask, other.mask), value_sum);
            Tnum::spec_from_parts(value_sum, (sigma ^ value_sum) | self.mask | other.mask)
        }
    }

    /// The empty set.
    pub fn empty() -> (r: Self)
        ensures
            r == Tnum::spec_empty(),
            r.is_bottom(),
            r.known() == 0,
            r.unknown() == 0,
            forall|x: u64| !r.has(x),
    {
        proof {
            bv_one(0, 0, 0);
        }
        Self { value: 0, mask: 0, empty: true }
    }

    /// Construct from known value bits and an unknown-bit mask; value bits under the
    /// mask are cleared to keep the representation canonical.
    pub fn from_parts(value: u64, mask: u64) -> (r: Self)
        ensures
            r == Tnum::spec_from_parts(value, mask),
            !r.is_bottom(),
            r.known() == value & !mask,
            r.unknown() == mask,
            forall|x: u64| #[trigger] r.has(x) <==> x & !mask == value & !mask,
    {
        proof {
            bv_one(value, mask, 0);
        }
        Self { value: value & !mask, mask, empty: false }
    }

    /// The tracking number of exactly one value.
    pub fn from_value(value: u64) -> (r: Self)
        ensures
            !r.is_bottom(),
            r.known() == value,
            r.unknown() == 0,
            r.only_member(value),
            r == Tnum::spec_from_parts(value, 0),
    {
        proof {
            bv_one(value, 0, 0);
            assert forall|x: u64| x & !0u64 == x by {
                bv_one(0, 0, x);
            }
        }
        Self { value, mask: 0, empty: false }
    }

    /// The canonical `(known_value, unknown_mask)` pair, or `None` for the empty set.
    pub fn parts(&self) -> (r: Option<(u64, u64)>)
        ensures
            r == (if self.is_bottom() { None } else { Some((self.known(), self.unknown())) }),
    {
        if self.empty {
            None
        } else {
            Some((self.value, self.mask))
        }
    }

    /// Whether exactly one value is represented.
    pub fn is_const(&self) -> (r: bool)
        ensures
            r == (!self.is_bottom() && self.unknown() == 0),
    {
        !self.empty && self.mask == 0
    }

    /// The single represented value, if there is exactly one.
    pub fn value(&self) -> (r: Option<u64>)
        ensures
            r == (if !self.is_bottom() && self.unknown() == 0 {
                Some(self.known())
            } else {
                None
            }),
    {
        if self.is_const() {
            Some(self.value)
        } else {
            None
        }
    }

    /// Whether `value` is one of the represented values.
    pub fn contains_value(&self, value: u64) -> (r: bool)
        ensures
            r == self.has(value),
    {
        !self.empty && value & !self.mask == self.value
    }

    /// The least tracking number containing both operands.
    pub fn union(self, other: Self) -> (r: Self)
        ensures
            r == self.spec_union(other),
            self.union_stored(other, r),
    {
        if self.empty {
            return other;
        }
        if other.empty {
            return self;
        }
        let differing = self.value ^ other.value;
        let mask = self.mask | other.mask | differing;
        Self::from_parts(self.value, mask)
    }

    /// The values represented by both operands.
    pub fn intersection(self, other: Self) -> (r: Self)
        ensures
            r == self.spec_intersection(other),
            self.intersection_stored(other, r),
    {
        if self.empty || other.empty {
            return Self::empty();
        }
        let conflicting = (self.value ^ other.value) & !(self.mask | other.mask);
        if conflicting != 0 {
            Self::empty()
        } else {
            Self::from_parts(self.value | other.value, self.mask & other.mask)
        }
    }

    /// Whether any value is represented.
    pub fn is_defined(&self) -> (r: bool)
        ensures
            r == !self.is_bottom(),
    {
        !self.empty
    }

    /// Whether every value of `other` is also a value of `self`.
    pub fn contains(&self, other: Self) -> (r: bool)
        ensures
            r == self.spec_contains(other),
    {
        other.empty || (!self.empty && other.mask & !self.mask == 0 && other.value & !self.mask
            == self.value)
    }

    /// Whether any value is represented.
    pub fn has_value(&self) -> (r: bool)
        ensures
            r == !self.is_bottom(),
    {
        !self.empty
    }

    /// The least represented value, if any.
    pub fn min_value(&self) -> (r: Option<u64>)
        ensures
            r == (if self.is_bottom() { None } else { Some(self.known()) }),
    {
        if self.empty {
            None
        } else {
            Some(self.value)
        }
    }

    /// The greatest represented value, if any.
    pub fn max_value(&self) -> (r: Option<u64>)
        ensures
            r == (if self.is_bottom() { None } else { Some(self.known() | self.unknown()) }),
    {
        if self.empty {
            None
        } else {
            Some(self.value | self.mask)
        }
    }

    /// Unsigned extrema, computed from the representation (also for the empty set).
    pub fn unsigned_bounds(&self) -> (r: (u64, u64))
        ensures
            r == (self.known(), self.known() | self.unknown()),
    {
        (self.value, self.value | self.mask)
    }

    /// Signed extrema, computed from the representation (also for the empty set).
    pub fn signed_bounds(&self) -> (r: (i64, i64))
        ensures
            r == self.spec_signed_bounds(),
    {
        if self.mask & SIGN_BIT != 0 {
            ((self.value | SIGN_BIT) as i64, ((self.value | self.mask) & !SIGN_BIT) as i64)
        } else {
            (self.value as i64, (self.value | self.mask) as i64)
        }
    }

    /// Bitwise complement of every value.
    pub fn bit_not(self) -> (r: Self)
        ensures
            r == self.spec_not(),
            self.unary_stored(r, !self.known() & !self.unknown(), self.unknown()),
    {
        proof {
            use_type_invariant(&self);
        }
        if self.empty {
            return self;
        }
        let v = self.value;
        let m = self.mask;
        let value = !v & !m;
        proof {
            bv_one(v, m, 0);
        }
        Self { value, mask: self.mask, empty: false }
    }

    /// Bitwise or of every pair of values.
    pub fn bit_or(self, other: Self) -> (r: Self)
        ensures
            r == self.spec_or(other),
            self.binary_stored(
                other,
                r,
                self.known() | other.known(),
                (self.unknown() | other.unknown()) & !(self.known() | other.known()),
            ),
    {
        if self.empty || other.empty {
            return Self::empty();
        }
        let v1 = self.value | other.value;
        let m1 = self.mask | other.mask;
        let m2 = m1 & !v1;
        proof {
            bv_two(self.value, self.mask, other.value, other.mask, 0, 0, 0, 0);
        }
        Self { value: v1, mask: m2, empty: false }
    }

    /// Bitwise and of every pair of values.
    pub fn bit_and(self, other: Self) -> (r: Self)
        ensures
            r == self.spec_and(other),
            self.binary_stored(
                other,
                r,
                (self.known() & other.known()) & !self.and_mask(other),
                self.and_mask(other),
            ),
    {
        if self.empty || other.empty {
            return Self::empty();
        }
        let value = self.value & other.value;
        let may_be_one = (self.value | self.mask) & (other.value | other.mask);
        Self::from_parts(value, may_be_one & !value)
    }

    /// Bitwise exclusive or of every pair of values.
    pub fn bit_xor(self, other: Self) -> (r: Self)
        ensures
            r == self.spec_xor(other),
            self.binary_stored(
                other,
                r,
                (self.known() ^ other.known()) & !(self.unknown() | other.unknown()),
                self.unknown() | other.unknown(),
            ),
    {
        if self.empty || other.empty {
            return Self::empty();
        }
        let mask = self.mask | other.mask;
        Self::from_parts(self.value ^ other.value, mask)
    }

    /// Left shift of every value by `shift % 64`.
    pub fn shift_left(self, shift: u8) -> (r: Self)
        ensures
            r == self.spec_shl(shift),
            self.unary_stored(r, self.known() << ((shift as u64) % 64), self.unknown() << ((shift as u64) % 64)),
    {
        proof {
            use_type_invariant(&self);
        }
        if self.empty {
            return self;
        }
        let s: u32 = (shift as u32) % 64;
        let value = self.value.wrapping_shl(s);
        let mask = self.mask.wrapping_shl(s);
        let ghost sh: u64 = (shift as u64) % 64;
        assert(value == self.value << sh && mask == self.mask << sh && value & mask == 0) by {
            let v = self.value;
            let m = self.mask;
            assert(s as u64 == sh);
            bv_shift(v, m, 0, sh);
        }
        Self { value, mask, empty: false }
    }

    /// Logical right shift of every value by `shift % 64`.
    pub fn shift_right(self, shift: u8) -> (r: Self)
        ensures
            r == self.spec_shr(shift),
            self.unary_stored(r, self.known() >> ((shift as u64) % 64), self.unknown() >> ((shift as u64) % 64)),
    {
        proof {
            use_type_invariant(&self);
        }
        if self.empty {
            return self;
        }
        let s: u32 = (shift as u32) % 64;
        let value = self.value.wrapping_shr(s);
        let mask = self.mask.wrapping_shr(s);
        let ghost sh: u64 = (shift as u64) % 64;
        assert(value == self.value >> sh && mask == self.mask >> sh && value & mask == 0) by {
            let v = self.value;
            let m = self.mask;
            assert(s as u64 == sh);
            bv_shift(v, m, 0, sh);
        }
        Self { value, mask, empty: false }
    }

    /// Wrapping addition of every pair of values.
    pub fn add(self, other: Self) -> (r: Self)
        ensures
            r == self.spec_add(other),
            self.binary_stored(
                other,
                r,
                wadd(self.known(), other.known()) & !self.sum_mask(other),
                self.sum_mask(other),
            ),
    {
        if self.empty || other.empty {
            return Self::empty();
        }
        let mask_sum = self.mask.wrapping_add(other.mask);
        let value_sum = self.value.wrapping_add(other.value);
        let sigma = mask_sum.wrapping_add(value_sum);
        let carry_changes = sigma ^ value_sum;
        let mask = carry_changes | self.mask | other.mask;
        proof {
            crate::word::lemma_wrapping_add(self.mask, other.mask);
            crate::word::lemma_wrapping_add(self.value, other.value);
            crate::word::lemma_wrapping_add(mask_sum, value_sum);
        }
        Self::from_parts(value_sum, mask)
    }
}

impl Default for Tnum {
    /// The completely unknown value: every 64-bit value.
    fn default() -> (r: Self)
        ensures
            r == Tnum::spec_unknown(),
            r.stores(0, u64::MAX),
            forall|x: u64| r.has(x),
    {
        proof {
            bv_one(0, 0, 0);
            assert forall|x: u64| x & !u64::MAX == 0 by {
                bv_one(0, 0, x);
            }
        }
        Self { value: 0, mask: u64::MAX, empty: false }
    }
}

impl vstd::std_specs::ops::NotSpecImpl for Tnum {
    open spec fn obeys_not_spec() -> bool {
        true
    }

    open spec fn not_req(self) -> bool {
        true
    }

    open spec fn not_spec(self) -> Tnum {
        self.spec_not()
    }
}

impl vstd::std_specs::ops::BitOrSpecImpl for Tnum {
    open spec fn obeys_bitor_spec() -> bool {
        true
    }

    open spec fn bitor_req(self, rhs: Tnum) -> bool {
        true
    }

    open spec fn bitor_spec(self, rhs: Tnum) -> Tnum {
        self.spec_or(rhs)
    }
}

impl vstd::std_specs::ops::BitAndSpecImpl for Tnum {
    open spec fn obeys_bitand_spec() -> bool {
        true
    }

    open spec fn bitand_req(self, rhs: Tnum) -> bool {
        true
    }

    open spec fn bitand_spec(self, rhs: Tnum) -> Tnum {
        self.spec_and(rhs)
    }
}

impl vstd::std_specs::ops::BitXorSpecImpl for Tnum {
    open spec fn obeys_bitxor_spec() -> bool {
        true
    }

    open spec fn bitxor_req(self, rhs: Tnum) -> bool {
        true
    }

    open spec fn bitxor_spec(self, rhs: Tnum) -> Tnum {
        self.spec_xor(rhs)
    }
}

impl vstd::std_specs::ops::ShlSpecImpl<u8> for Tnum {
    open spec fn obeys_shl_spec() -> bool {
        true
    }

    open spec fn shl_req(self, rhs: u8) -> bool {
        true
    }

    open spec fn shl_spec(self, rhs: u8) -> Tnum {
        self.spec_shl(rhs)
    }
}

impl vstd::std_specs::ops::ShrSpecImpl<u8> for Tnum {
    open spec fn obeys_shr_spec() -> bool {
        true
    }

    open spec fn shr_req(self, rhs: u8) -> bool {
        true
    }

    open spec fn shr_spec(self, rhs: u8) -> Tnum {
        self.spec_shr(rhs)
    }
}

impl vstd::std_specs::ops::AddSpecImpl for Tnum {
    open spec fn obeys_add_spec() -> bool {
        true
    }

    open spec fn add_req(self, rhs: Tnum) -> bool {
        true
    }

    open spec fn add_spec(self, rhs: Tnum) -> Tnum {
        self.spec_add(rhs)
    }
}

impl core::ops::Not for Tnum {
    type Output = Tnum;

    fn not(self) -> (r: Tnum)
        ensures
            r == self.spec_not(),
            self.unary_stored(r, !self.known() & !self.unknown(), self.unknown()),
    {
        self.bit_not()
    }
}

impl core::ops::BitOr for Tnum {
    type Output = Tnum;

    fn bitor(self, other: Tnum) -> (r: Tnum)
        ensures
            r == self.spec_or(other),
            self.binary_stored(
                other,
                r,
                self.known() | other.known(),
                (self.unknown() | other.unknown()) & !(self.known() | other.known()),
            ),
    {
        self.bit_or(other)
    }
}

impl core::ops::BitAnd for Tnum {
    type Output = Tnum;

    fn bitand(self, other: Tnum) -> (r: Tnum)
        ensures
            r == self.spec_and(other),
            self.binary_stored(
                other,
                r,
                (self.known() & other.known()) & !self.and_mask(other),
                self.and_mask(other),
            ),
    {
        self.bit_and(other)
    }
}

impl core::ops::BitXor for Tnum {
    type Output = Tnum;

    fn bitxor(self, other: Tnum) -> (r: Tnum)
        ensures
            r == self.spec_xor(other),
            self.binary_stored(
                other,
                r,
                (self.known() ^ other.known()) & !(self.unknown() | other.unknown()),
                self.unknown() | other.unknown(),
            ),
    {
        self.bit_xor(other)
    }
}

impl core::ops::Shl<u8> for Tnum {
    type Output = Tnum;

    fn shl(self, shift: u8) -> (r: Tnum)
        ensures
            r == self.spec_shl(shift),
            self.unary_stored(r, self.known() << ((shift as u64) % 64), self.unknown() << ((shift as u64) % 64)),
    {
        self.shift_left(shift)
    }
}

impl core::ops::Shr<u8> for Tnum {
    type Output = Tnum;

    fn shr(self, shift: u8) -> (r: Tnum)
        ensures
            r == self.spec_shr(shift),
            self.unary_stored(r, self.known() >> ((shift as u64) % 64), self.unknown() >> ((shift as u64) % 64)),
    {
        self.shift_right(shift)
    }
}

impl core::ops::Add for Tnum {
    type Output = Tnum;

    fn add(self, other: Tnum) -> (r: Tnum)
        ensures
            r == self.spec_add(other),
            self.binary_stored(
                other,
                r,
                wadd(self.known(), other.known()) & !self.sum_mask(other),
                self.sum_mask(other),
            ),
    {
        Tnum::add(self, other)
    }
}

} // verus!

verus! {

// Bit-level facts about (value, mask) pairs, for the operations and laws.

/// Facts about shifting one pair (`v`, `m`) and a word `x` by `s`.
proof fn bv_shift(v: u64, m: u64, x: u64, s: u64)
    by (bit_vector)
    ensures
        v & m == 0 && s < 64 ==> (v << s) & (m << s) == 0 && (v >> s) & (m >> s) == 0,
        x & !m == v && s < 64 ==> (x << s) & !(m << s) == v << s && (x >> s) & !(m >> s) == v
            >> s,
{
}

/// Members of two tracking numbers whose and, or exclusive or, is a given member of the
/// and, or exclusive or.
proof fn bv_and_xor_witness(v1: u64, m1: u64, v2: u64, m2: u64, z: u64)
    by (bit_vector)
    requires
        v1 & m1 == 0,
        v2 & m2 == 0,
    ensures
        ({
            let m = ((v1 | m1) & (v2 | m2)) & !(v1 & v2);
            z & !m == (v1 & v2) & !m ==> {
                &&& (v1 | (m1 & z)) & !m1 == v1
                &&& (v2 | (m2 & z)) & !m2 == v2
                &&& (v1 | (m1 & z)) & (v2 | (m2 & z)) == z
            }
        }),
        ({
            let m = m1 | m2;
            z & !m == (v1 ^ v2) & !m ==> {
                &&& (v1 | (m1 & (z ^ v2))) & !m1 == v1
                &&& (v2 | (m2 & !m1 & (z ^ v1))) & !m2 == v2
                &&& (v1 | (m1 & (z ^ v2))) ^ (v2 | (m2 & !m1 & (z ^ v1))) == z
            }
        }),
{
}

/// Members of two tracking numbers whose or is a given member of the or.
proof fn bv_or_witness(v1: u64, m1: u64, v2: u64, m2: u64, z: u64)
    by (bit_vector)
    requires
        v1 & m1 == 0,
        v2 & m2 == 0,
        z & !((m1 | m2) & !(v1 | v2)) == v1 | v2,
    ensures
        (v1 | (z & m1)) & !m1 == v1,
        (v2 | (z & m2)) & !m2 == v2,
        (v1 | (z & m1)) | (v2 | (z & m2)) == z,
{
}

/// A member of a tracking number whose shift is a given member of the shifted one.
proof fn bv_shift_witness(v: u64, m: u64, z: u64, s: u64)
    by (bit_vector)
    requires
        v & m == 0,
        s < 64,
    ensures
        z & !(m << s) == v << s ==> (((z >> s) & m) | v) & !m == v && (((z >> s) & m) | v) << s
            == z,
        z & !(m >> s) == v >> s ==> (((z << s) & m) | v) & !m == v && (((z << s) & m) | v) >> s
            == z,
{
}

/// Facts about one pair (`v`, `m`) and a word `x`.
proof fn bv_one(v: u64, m: u64, x: u64)
    by (bit_vector)
    ensures
        0u64 & 0u64 == 0,
        (v & !m) & m == 0,
        (v & !m) & !m == v & !m,
        v & 0u64 == 0,
        v & !0u64 == v,
        x & !0u64 == x,
        0u64 & u64::MAX == 0,
        x & !u64::MAX == 0,
        (!v & !m) & m == 0,
        v <= v | m,
        v & m == 0 ==> v & !m == v && (v | m) & !m == v,
        x & !m == v ==> !x & !m == !v & !m,
        v & m == 0 && x & !m == v ==> {
            &&& v <= x
            &&& x <= v | m
            &&& m & SIGN_BIT != 0 ==> ((v | SIGN_BIT) as i64) <= (x as i64) && (x as i64) <= (((v
                | m) & !SIGN_BIT) as i64)
            &&& m & SIGN_BIT == 0 ==> (v as i64) <= (x as i64) && (x as i64) <= ((v | m) as i64)
        },
        v & m == 0 && m & SIGN_BIT != 0 ==> (v | SIGN_BIT) & !m == v && ((v | m) & !SIGN_BIT) & !m
            == v,
        v & m == 0 && m != 0 ==> v != v | m,
{
}

/// Facts about two pairs (`v1`, `m1`) and (`v2`, `m2`), their members `x` and `y`, and a
/// third pair (`v3`, `m3`).
proof fn bv_two(v1: u64, m1: u64, v2: u64, m2: u64, x: u64, y: u64, v3: u64, m3: u64)
    by (bit_vector)
    ensures
        ({
            let um = m1 | m2 | (v1 ^ v2);
            let vs = wadd(v1, v2);
            let am = (wadd(wadd(m1, m2), vs) ^ vs) | m1 | m2;
            &&& (v1 & !um) & um == 0
            &&& ((v1 | v2) & !(m1 & m2)) & (m1 & m2) == 0
            &&& (v1 | v2) & ((m1 | m2) & !(v1 | v2)) == 0
            &&& (vs & !am) & am == 0
            &&& v1 & m1 == 0 && v2 & m2 == 0 && (x & !m1 == v1 || x & !m2 == v2) ==> x & !um == v1
                & !um
            &&& (m1 & !m3 == 0 && v1 & !m3 == v3 && m2 & !m3 == 0 && v2 & !m3 == v3) ==> (um & !m3
                == 0 && (v1 & !um) & !m3 == v3)
            &&& v1 & m1 == 0 && v2 & m2 == 0 && x & !m1 == v1 && x & !m2 == v2 ==> (v1 ^ v2) & !(m1
                | m2) == 0
            &&& v1 & m1 == 0 && v2 & m2 == 0 && (v1 ^ v2) & !(m1 | m2) == 0 ==> ((x & !(m1 & m2)
                == (v1 | v2) & !(m1 & m2)) <==> (x & !m1 == v1 && x & !m2 == v2))
            &&& m2 & !m1 == 0 && v2 & !m1 == v1 && x & !m2 == v2 ==> x & !m1 == v1
            &&& v2 & m2 == 0 && !(m2 & !m1 == 0 && v2 & !m1 == v1) ==> (v2 | m2) & !m2 == v2 && v2
                & !m2 == v2 && (v2 & !m1 != v1 || (v2 | m2) & !m1 != v1)
        }),
        v1 & m1 == 0 && v2 & m2 == 0 && x & !m1 == v1 && y & !m2 == v2 ==> {
            let am_and = ((v1 | m1) & (v2 | m2)) & !(v1 & v2);
            let vs = wadd(v1, v2);
            let am = (wadd(wadd(m1, m2), vs) ^ vs) | m1 | m2;
            &&& (x | y) & !((m1 | m2) & !(v1 | v2)) == v1 | v2
            &&& (x & y) & !am_and == (v1 & v2) & !am_and
            &&& (x ^ y) & !(m1 | m2) == (v1 ^ v2) & !(m1 | m2)
            &&& wadd(x, y) & !am == vs & !am
        },
{
}

/// Every value of either operand is a value of their union.
pub proof fn lemma_union_sound(a: Tnum, b: Tnum, x: u64)
    requires
        a.wf(),
        b.wf(),
        a.has(x) || b.has(x),
    ensures
        a.spec_union(b).has(x),
{
    if !a.empty && !b.empty {
        bv_two(a.value, a.mask, b.value, b.mask, x, 0, 0, 0);
    }
}

/// The union is the least tracking number that contains both operands.
pub proof fn lemma_union_least(a: Tnum, b: Tnum, c: Tnum)
    requires
        a.wf(),
        b.wf(),
        c.wf(),
        c.spec_contains(a),
        c.spec_contains(b),
    ensures
        c.spec_contains(a.spec_union(b)),
{
    if !a.empty && !b.empty {
        bv_two(a.value, a.mask, b.value, b.mask, 0, 0, c.value, c.mask);
    }
}

/// A value belongs to the intersection exactly when it belongs to both operands.
pub proof fn lemma_intersection_exact(a: Tnum, b: Tnum, x: u64)
    requires
        a.wf(),
        b.wf(),
    ensures
        a.spec_intersection(b).has(x) <==> (a.has(x) && b.has(x)),
{
    if !a.empty && !b.empty {
        bv_two(a.value, a.mask, b.value, b.mask, x, 0, 0, 0);
    }
}

/// There is one empty tracking number.
pub proof fn lemma_bottom_is_empty(t: Tnum)
    requires
        t.wf(),
        t.is_bottom(),
    ensures
        t == Tnum::spec_empty(),
{
}

/// `contains` decides inclusion of the concrete value sets.
pub proof fn lemma_contains_iff_includes(a: Tnum, b: Tnum)
    requires
        a.wf(),
        b.wf(),
    ensures
        a.spec_contains(b) <==> a.includes(b),
{
    if a.spec_contains(b) {
        assert forall|x: u64| #[trigger] b.has(x) implies a.has(x) by {
            bv_two(a.value, a.mask, b.value, b.mask, x, 0, 0, 0);
        }
    } else {
        assert(!b.empty);
        if a.empty {
            bv_one(b.value, b.mask, 0);
            assert(b.has(b.value));
        } else {
            bv_two(a.value, a.mask, b.value, b.mask, 0, 0, 0, 0);
            assert(b.has(b.value));
            assert(b.has(b.value | b.mask));
        }
    }
}

/// The complement of a member is a member of the complement.
pub proof fn lemma_not_sound(a: Tnum, x: u64)
    requires
        a.wf(),
        a.has(x),
    ensures
        a.spec_not().has(!x),
{
    bv_one(a.value, a.mask, x);
}

/// Bitwise or of members is a member of the result.
pub proof fn lemma_or_sound(a: Tnum, b: Tnum, x: u64, y: u64)
    requires
        a.wf(),
        b.wf(),
        a.has(x),
        b.has(y),
    ensures
        a.spec_or(b).has(x | y),
{
    bv_two(a.value, a.mask, b.value, b.mask, x, y, 0, 0);
}

/// Bitwise and of members is a member of the result.
pub proof fn lemma_and_sound(a: Tnum, b: Tnum, x: u64, y: u64)
    requires
        a.wf(),
        b.wf(),
        a.has(x),
        b.has(y),
    ensures
        a.spec_and(b).has(x & y),
{
    bv_two(a.value, a.mask, b.value, b.mask, x, y, 0, 0);
}

/// Exclusive or of members is a member of the result.
pub proof fn lemma_xor_sound(a: Tnum, b: Tnum, x: u64, y: u64)
    requires
        a.wf(),
        b.wf(),
        a.has(x),
        b.has(y),
    ensures
        a.spec_xor(b).has(x ^ y),
{
    bv_two(a.value, a.mask, b.value, b.mask, x, y, 0, 0);
}

/// Shifting a member by `shift % 64` gives a member of the shifted tracking number.
pub proof fn lemma_shift_sound(a: Tnum, x: u64, shift: u8)
    requires
        a.wf(),
        a.has(x),
    ensures
        a.spec_shl(shift).has(x << ((shift as u64) % 64)),
        a.spec_shr(shift).has(x >> ((shift as u64) % 64)),
{
    bv_shift(a.value, a.mask, x, (shift as u64) % 64);
}

/// Every member of a bitwise or is the or of a member of each operand.
pub proof fn lemma_or_exact(a: Tnum, b: Tnum, z: u64)
    requires
        a.wf(),
        b.wf(),
        a.spec_or(b).has(z),
    ensures
        exists|x: u64, y: u64| a.has(x) && b.has(y) && #[trigger] (x | y) == z,
{
    let x = a.value | (z & a.mask);
    let y = b.value | (z & b.mask);
    bv_or_witness(a.value, a.mask, b.value, b.mask, z);
    assert(a.has(x) && b.has(y) && (x | y) == z);
}

/// Every member of a bitwise and is the and of a member of each operand.
pub proof fn lemma_and_exact(a: Tnum, b: Tnum, z: u64)
    requires
        a.wf(),
        b.wf(),
        a.spec_and(b).has(z),
    ensures
        exists|x: u64, y: u64| a.has(x) && b.has(y) && #[trigger] (x & y) == z,
{
    let x = a.value | (a.mask & z);
    let y = b.value | (b.mask & z);
    bv_and_xor_witness(a.value, a.mask, b.value, b.mask, z);
    assert(a.has(x) && b.has(y) && (x & y) == z);
}

/// Every member of an exclusive or is the exclusive or of a member of each operand.
pub proof fn lemma_xor_exact(a: Tnum, b: Tnum, z: u64)
    requires
        a.wf(),
        b.wf(),
        a.spec_xor(b).has(z),
    ensures
        exists|x: u64, y: u64| a.has(x) && b.has(y) && #[trigger] (x ^ y) == z,
{
    let x = a.value | (a.mask & (z ^ b.value));
    let y = b.value | (b.mask & !a.mask & (z ^ a.value));
    bv_and_xor_witness(a.value, a.mask, b.value, b.mask, z);
    assert(a.has(x) && b.has(y) && (x ^ y) == z);
}

/// Every member of a shifted tracking number is a member shifted.
pub proof fn lemma_shift_exact(a: Tnum, shift: u8, z: u64)
    requires
        a.wf(),
    ensures
        a.spec_shl(shift).has(z) ==> exists|x: u64| a.has(x) && #[trigger] (x << ((shift as u64)
            % 64)) == z,
        a.spec_shr(shift).has(z) ==> exists|x: u64| a.has(x) && #[trigger] (x >> ((shift as u64)
            % 64)) == z,
{
    let s = (shift as u64) % 64;
    bv_shift_witness(a.value, a.mask, z, s);
    if a.spec_shl(shift).has(z) {
        let x = ((z >> s) & a.mask) | a.value;
        assert(a.has(x) && (x << s) == z);
    }
    if a.spec_shr(shift).has(z) {
        let x = ((z << s) & a.mask) | a.value;
        assert(a.has(x) && (x >> s) == z);
    }
}

/// Below the lowest bit unknown in either operand, every bit of the sum is known and is
/// the bit of the wrapping sum of the known values.
pub proof fn lemma_add_low_bits_known(a: Tnum, b: Tnum, t: u64)
    requires
        a.wf(),
        b.wf(),
        !a.is_bottom(),
        !b.is_bottom(),
        t < 64,
        (a.unknown() | b.unknown()) & (((1u64 << t) - 1u64) as u64) == 0,
    ensures
        a.spec_add(b).unknown() & (((1u64 << t) - 1u64) as u64) == 0,
        a.spec_add(b).known() & (((1u64 << t) - 1u64) as u64) == wadd(a.known(), b.known()) & (((
        1u64 << t) - 1u64) as u64),
{
    let (v1, m1, v2, m2) = (a.value, a.mask, b.value, b.mask);
    assert({
        let low = ((1u64 << t) - 1u64) as u64;
        let value_sum = wadd(v1, v2);
        let sigma = wadd(wadd(m1, m2), value_sum);
        let mask = (sigma ^ value_sum) | m1 | m2;
        &&& mask & low == 0
        &&& (value_sum & !mask) & low == value_sum & low
    }) by (bit_vector)
        requires
            t < 64,
            (m1 | m2) & (((1u64 << t) - 1u64) as u64) == 0,
    ;
}

/// The wrapping sum of members is a member of the sum.
pub proof fn lemma_add_sound(a: Tnum, b: Tnum, x: u64, y: u64)
    requires
        a.wf(),
        b.wf(),
        a.has(x),
        b.has(y),
    ensures
        a.spec_add(b).has(wadd(x, y)),
{
    bv_two(a.value, a.mask, b.value, b.mask, x, y, 0, 0);
}

/// The unsigned and signed bounds of a non-empty tracking number are attained by members
/// and bound every member.
pub proof fn lemma_bounds_exact(a: Tnum, x: u64)
    requires
        a.wf(),
        !a.is_bottom(),
    ensures
        a.has(a.known()),
        a.has(a.known() | a.unknown()),
        a.has(x) ==> a.known() <= x <= a.known() | a.unknown(),
        a.has(x) ==> a.spec_signed_bounds().0 <= (x as i64) <= a.spec_signed_bounds().1,
        a.has(a.signed_extreme_words().0),
        a.has(a.signed_extreme_words().1),
{
    let v = a.value;
    let m = a.mask;
    bv_one(v, m, v);
    if a.has(x) {
        bv_one(v, m, x);
    }
}

/// A tracking number is constant exactly when it has one member.
pub proof fn lemma_const_iff_singleton(a: Tnum)
    requires
        a.wf(),
    ensures
        (!a.is_bottom() && a.unknown() == 0) <==> (exists|v: u64| #[trigger] a.only_member(v)),
{
    if !a.empty && a.mask == 0 {
        assert forall|x: u64| #[trigger] a.has(x) <==> x == a.value by {
            bv_one(0, 0, x);
        }
        assert(a.only_member(a.value));
    } else if a.empty {
        assert forall|v: u64| !#[trigger] a.only_member(v) by {
            assert(!a.has(v));
        }
    } else {
        bv_one(a.value, a.mask, 0);
        assert forall|v: u64| !#[trigger] a.only_member(v) by {
            assert(a.has(a.value));
            assert(a.has(a.value | a.mask));
        }
    }
}

} // verus!

verus! {

/// The constructors build canonical tracking numbers, and `from_parts` holds exactly the
/// values that agree with `value` outside `mask`.
pub proof fn lemma_constructors(value: u64, mask: u64, x: u64)
    ensures
        Tnum::spec_empty().wf(),
        Tnum::spec_empty().stores_empty(),
        !Tnum::spec_empty().has(x),
        Tnum::spec_from_parts(value, mask).wf(),
        Tnum::spec_from_parts(value, mask).has(x) <==> x & !mask == value & !mask,
        !Tnum::spec_from_parts(value, mask).is_bottom(),
        Tnum::spec_from_parts(value, mask).known() == value & !mask,
        Tnum::spec_from_parts(value, mask).unknown() == mask,
{
    bv_one(value, mask, 0);
}

/// The operations build canonical tracking numbers from canonical ones.
pub proof fn lemma_results_wf(a: Tnum, b: Tnum)
    requires
        a.wf(),
        b.wf(),
    ensures
        a.spec_union(b).wf(),
        a.spec_intersection(b).wf(),
        a.spec_add(b).wf(),
{
    bv_one(0, 0, 0);
    bv_two(a.value, a.mask, b.value, b.mask, 0, 0, 0, 0);
}

} // verus!

verus! {

proof fn bv_constants(a: u64, b: u64, s: u64)
    by (bit_vector)
    ensures
        a & !0u64 == a,
        (0u64 | 0u64) & !(a | b) == 0,
        ((a | 0u64) & (b | 0u64)) & !(a & b) == 0,
        0u64 | 0u64 == 0,
        (!a & !0u64) == !a,
        0u64 << s == 0,
        0u64 >> s == 0,
        (wadd(wadd(0, 0), wadd(a, b)) ^ wadd(a, b)) | 0u64 | 0u64 == 0,
{
}

/// Operations on constants give the constant of the concrete result.
pub proof fn lemma_constant_ops(a: u64, b: u64, shift: u8)
    ensures
        ({
            let (ta, tb) = (Tnum::spec_from_parts(a, 0), Tnum::spec_from_parts(b, 0));
            let s = (shift as u64) % 64;
            &&& ta.spec_add(tb) == Tnum::spec_from_parts(wadd(a, b), 0)
            &&& ta.spec_or(tb) == Tnum::spec_from_parts(a | b, 0)
            &&& ta.spec_and(tb) == Tnum::spec_from_parts(a & b, 0)
            &&& ta.spec_xor(tb) == Tnum::spec_from_parts(a ^ b, 0)
            &&& ta.spec_not() == Tnum::spec_from_parts(!a, 0)
            &&& ta.spec_shl(shift) == Tnum::spec_from_parts(a << s, 0)
            &&& ta.spec_shr(shift) == Tnum::spec_from_parts(a >> s, 0)
        }),
{
    let s = (shift as u64) % 64;
    bv_constants(a, b, s);
    bv_constants(b, a, s);
    bv_constants(a | b, 0, s);
    bv_constants(a & b, 0, s);
    bv_constants(a ^ b, 0, s);
    bv_constants(!a, 0, s);
    bv_constants(a << s, 0, s);
    bv_constants(a >> s, 0, s);
    bv_constants(wadd(a, b), 0, s);
}

} // verus!

verus! {

proof fn bv_union_symmetric(v1: u64, m1: u64, v2: u64, m2: u64)
    by (bit_vector)
    ensures
        m1 | m2 | (v1 ^ v2) == m2 | m1 | (v2 ^ v1),
        v1 & !(m1 | m2 | (v1 ^ v2)) == v2 & !(m1 | m2 | (v1 ^ v2)),
{
}

/// Union does not depend on the order of its operands.
pub proof fn lemma_union_commutative(a: Tnum, b: Tnum)
    requires
        a.wf(),
        b.wf(),
    ensures
        a.spec_union(b) == b.spec_union(a),
{
    bv_union_symmetric(a.value, a.mask, b.value, b.mask);
}

/// The empty set absorbs every operation, and is the identity of union.
pub proof fn lemma_bottom_absorbs(a: Tnum, b: Tnum, shift: u8)
    requires
        a.is_bottom(),
        a.wf(),
        b.wf(),
    ensures
        a.spec_union(b) == b,
        b.spec_union(a) == b,
        a.spec_intersection(b).is_bottom() && b.spec_intersection(a).is_bottom(),
        a.spec_or(b).is_bottom() && b.spec_or(a).is_bottom(),
        a.spec_and(b).is_bottom() && b.spec_and(a).is_bottom(),
        a.spec_xor(b).is_bottom() && b.spec_xor(a).is_bottom(),
        a.spec_add(b).is_bottom() && b.spec_add(a).is_bottom(),
        a.spec_not().is_bottom(),
        a.spec_shl(shift).is_bottom() && a.spec_shr(shift).is_bottom(),
{
}

} // verus!
