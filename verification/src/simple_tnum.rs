use vstd::prelude::*;

use crate::word::{lemma_wrapping_add, lemma_wrapping_sub, wadd, wsub};

verus! {

/// Tracking number without an empty state: bits set in `mask` are unknown, the other bits
/// have the value of the corresponding bit of `value`.
///
/// Shifts need a count below 64; addition wraps modulo 2^64.
#[derive(Copy, Clone, PartialEq, Eq, Debug)]
pub struct Tnum {
    value: u64,
    mask: u64,
}

/// The carry-propagation terms of the addition of (`v1`, `m1`) and (`v2`, `m2`).
pub open spec fn carry_terms(v1: u64, m1: u64, v2: u64, m2: u64) -> (u64, u64, u64, u64) {
    let an = !v1 & m1;
    let bn = !v2 & m2;
    let g0 = an & bn;
    let g1 = v1 & v2;
    let p0 = an ^ bn;
    let pg1 = v1 | v2;
    let g0l = !g0 & ((g0 << 1u64) | 1u64);
    let g1f = g1 & !(g1 << 1u64);
    (p0, g0l, pg1, g1f)
}

impl Tnum {
    /// The value bits.
    pub closed spec fn known(self) -> u64 {
        self.value
    }

    /// The bits whose value is not known.
    pub closed spec fn unknown(self) -> u64 {
        self.mask
    }

    /// `v` agrees with the known bits on every bit outside the mask.
    pub open spec fn has(self, v: u64) -> bool {
        v & !self.unknown() == self.known() & !self.unknown()
    }

    /// No known bit is set under the mask.
    pub open spec fn canonical(self) -> bool {
        self.known() & self.unknown() == 0
    }

    pub closed spec fn spec_make(value: u64, mask: u64) -> Tnum {
        Tnum { value, mask }
    }

    /// The known bits and mask of the complement.
    pub open spec fn not_parts(self) -> (u64, u64) {
        (!self.known(), self.unknown())
    }

    pub open spec fn spec_not(self) -> Tnum {
        Tnum::spec_make(self.not_parts().0, self.not_parts().1)
    }

    /// The known bits and mask of a bitwise or.
    pub open spec fn or_parts(self, other: Tnum) -> (u64, u64) {
        let v1 = self.known() | other.known();
        (v1, (self.unknown() | other.unknown()) & !v1)
    }

    pub open spec fn spec_or(self, other: Tnum) -> Tnum {
        Tnum::spec_make(self.or_parts(other).0, self.or_parts(other).1)
    }

    /// The known bits and mask computed for a bitwise and.
    pub open spec fn and_parts(self, other: Tnum) -> (u64, u64) {
        (
            self.known() ^ other.known(),
            (self.unknown() & other.unknown()) | (self.unknown() ^ self.known()) | (
            other.unknown() ^ other.known()),
        )
    }

    pub open spec fn spec_and(self, other: Tnum) -> Tnum {
        Tnum::spec_make(self.and_parts(other).0, self.and_parts(other).1)
    }

    /// The known bits and mask computed for an exclusive or.
    pub open spec fn xor_parts(self, other: Tnum) -> (u64, u64) {
        (
            (self.known() ^ other.known()) & self.unknown() & other.unknown(),
            self.unknown() & other.unknown(),
        )
    }

    pub open spec fn spec_xor(self, other: Tnum) -> Tnum {
        Tnum::spec_make(self.xor_parts(other).0, self.xor_parts(other).1)
    }

    /// The known bits and mask of a left shift.
    pub open spec fn shl_parts(self, shift: u8) -> (u64, u64) {
        (self.known() << (shift as u64), self.unknown() << (shift as u64))
    }

    pub open spec fn spec_shl(self, shift: u8) -> Tnum {
        Tnum::spec_make(self.shl_parts(shift).0, self.shl_parts(shift).1)
    }

    /// The known bits and mask of a right shift.
    pub open spec fn shr_parts(self, shift: u8) -> (u64, u64) {
        (self.known() >> (shift as u64), self.unknown() >> (shift as u64))
    }

    pub open spec fn spec_shr(self, shift: u8) -> Tnum {
        Tnum::spec_make(self.shr_parts(shift).0, self.shr_parts(shift).1)
    }

    /// The known bits and mask of a carry-tracking wrapping sum.
    pub open spec fn add_parts(self, other: Tnum) -> (u64, u64) {
        let (v1, m1, v2, m2) = (self.known(), self.unknown(), other.known(), other.unknown());
        let an = !v1 & m1;
        let bn = !v2 & m2;
        let g0 = an & bn;
        let (p0, g0l, pg1, g1f) = carry_terms(v1, m1, v2, m2);
        let nc = wsub(wadd(p0, g0l) & !p0, g0l) | g0;
        let m1x = !pg1 | (pg1 & g1f);
        let c = wsub(wadd(pg1, g1f) & m1x, g1f);
        let cm = ((c | nc) << 1u64) | 1u64;
        (wadd(v1, v2), cm & m1 & v1)
    }

    pub open spec fn spec_add(self, other: Tnum) -> Tnum {
        Tnum::spec_make(self.add_parts(other).0, self.add_parts(other).1)
    }

    /// The tracking number of exactly one value.
    pub fn from_value(value: u64) -> (r: Self)
        ensures
            r.known() == value,
            r.unknown() == 0,
    {
        Self { value, mask: 0 }
    }

    /// Whether no bit is unknown.
    pub fn is_const(&self) -> (r: bool)
        ensures
            r == (self.unknown() == 0),
    {
        self.mask == 0
    }

    /// The value, when no bit is unknown.
    pub fn value(&self) -> (r: Option<u64>)
        ensures
            r == (if self.unknown() == 0 { Some(self.known()) } else { None }),
    {
        if self.mask == 0 {
            Some(self.value)
        } else {
            None
        }
    }
}

impl Default for Tnum {
    /// The completely unknown value.
    fn default() -> (r: Self)
        ensures
            r.known() == 0,
            r.unknown() == u64::MAX,
    {
        Self { value: 0, mask: u64::MAX }
    }
}

/// The bitwise or of members of canonical operands is a member of their or, which is
/// canonical again.
pub proof fn lemma_or_sound(a: Tnum, b: Tnum, x: u64, y: u64)
    requires
        a.canonical(),
        b.canonical(),
        a.has(x),
        b.has(y),
    ensures
        a.spec_or(b).has(x | y),
        a.spec_or(b).canonical(),
{
    let (v1, m1, v2, m2) = (a.known(), a.unknown(), b.known(), b.unknown());
    assert({
        let v = v1 | v2;
        let m = (m1 | m2) & !v;
        (x | y) & !m == v & !m && v & m == 0
    }) by (bit_vector)
        requires
            v1 & m1 == 0,
            v2 & m2 == 0,
            x & !m1 == v1 & !m1,
            y & !m2 == v2 & !m2,
    ;
}

/// The complement of a member is a member of the complement; shifts by less than 64 of a
/// member are members of the shifted tracking number.
pub proof fn lemma_not_and_shifts_sound(a: Tnum, x: u64, shift: u8)
    requires
        a.has(x),
        shift < 64,
    ensures
        a.spec_not().has(!x),
        a.spec_shl(shift).has(x << (shift as u64)),
        a.spec_shr(shift).has(x >> (shift as u64)),
{
    let (v, m, s) = (a.known(), a.unknown(), shift as u64);
    assert(!x & !m == !v & !m && (x << s) & !(m << s) == (v << s) & !(m << s) && (x >> s) & !(m
        >> s) == (v >> s) & !(m >> s)) by (bit_vector)
        requires
            x & !m == v & !m,
            s < 64,
    ;
}

/// The sum of two constants is the constant of their wrapping sum.
pub proof fn lemma_constant_sum(x: Tnum, y: Tnum)
    requires
        x.unknown() == 0,
        y.unknown() == 0,
    ensures
        x.add_parts(y) == (wadd(x.known(), y.known()), 0u64),
{
    assert(forall|c: u64, v: u64| #[trigger] (c & 0u64 & v) == 0u64) by (bit_vector);
}

impl vstd::std_specs::ops::NotSpecImpl for Tnum {
    open spec fn obeys_not_spec() -> bool {
        true
    }

    open spec fn not_req(self) -> bool {
        true
    }

    open spec fn not_spec(self) -> Tnum {
        self.spec_not()
    }
}

impl core::ops::Not for Tnum {
    type Output = Tnum;

    /// Complements the value bits and keeps the mask.
    fn not(self) -> (r: Tnum)
        ensures
            r == self.spec_not(),
            r.known() == self.not_parts().0,
            r.unknown() == self.not_parts().1,
    {
        Self { value: !self.value, mask: self.mask }
    }
}

impl vstd::std_specs::ops::BitOrSpecImpl for Tnum {
    open spec fn obeys_bitor_spec() -> bool {
        true
    }

    open spec fn bitor_req(self, rhs: Tnum) -> bool {
        true
    }

    open spec fn bitor_spec(self, rhs: Tnum) -> Tnum {
        self.spec_or(rhs)
    }
}

impl core::ops::BitOr for Tnum {
    type Output = Tnum;

    /// A bit is known where both are known or either is a known one.
    fn bitor(self, other: Tnum) -> (r: Tnum)
        ensures
            r == self.spec_or(other),
            r.known() == self.or_parts(other).0,
            r.unknown() == self.or_parts(other).1,
    {
        let v1 = self.value | other.value;
        let m1 = self.mask | other.mask;
        let m2 = m1 & !v1;
        Self { value: v1, mask: m2 }
    }
}

impl vstd::std_specs::ops::BitAndSpecImpl for Tnum {
    open spec fn obeys_bitand_spec() -> bool {
        true
    }

    open spec fn bitand_req(self, rhs: Tnum) -> bool {
        true
    }

    open spec fn bitand_spec(self, rhs: Tnum) -> Tnum {
        self.spec_and(rhs)
    }
}

impl core::ops::BitAnd for Tnum {
    type Output = Tnum;

    fn bitand(self, other: Tnum) -> (r: Tnum)
        ensures
            r == self.spec_and(other),
            r.known() == self.and_parts(other).0,
            r.unknown() == self.and_parts(other).1,
    {
        Self {
            mask: (self.mask & other.mask) | (self.mask ^ self.value) | (other.mask ^ other.value),
            value: self.value ^ other.value,
        }
    }
}

impl vstd::std_specs::ops::BitXorSpecImpl for Tnum {
    open spec fn obeys_bitxor_spec() -> bool {
        true
    }

    open spec fn bitxor_req(self, rhs: Tnum) -> bool {
        true
    }

    open spec fn bitxor_spec(self, rhs: Tnum) -> Tnum {
        self.spec_xor(rhs)
    }
}

impl core::ops::BitXor for Tnum {
    type Output = Tnum;

    fn bitxor(self, other: Tnum) -> (r: Tnum)
        ensures
            r == self.spec_xor(other),
            r.known() == self.xor_parts(other).0,
            r.unknown() == self.xor_parts(other).1,
    {
        Self {
            mask: self.mask & other.mask,
            value: (self.value ^ other.value) & self.mask & other.mask,
        }
    }
}

impl vstd::std_specs::ops::ShlSpecImpl<u8> for Tnum {
    open spec fn obeys_shl_spec() -> bool {
        true
    }

    open spec fn shl_req(self, rhs: u8) -> bool {
        rhs < 64
    }

    open spec fn shl_spec(self, rhs: u8) -> Tnum {
        self.spec_shl(rhs)
    }
}

impl core::ops::Shl<u8> for Tnum {
    type Output = Tnum;

    fn shl(self, shift: u8) -> (r: Tnum)
        ensures
            r == self.spec_shl(shift),
            r.known() == self.shl_parts(shift).0,
            r.unknown() == self.shl_parts(shift).1,
    {
        Self { value: self.value << shift, mask: self.mask << shift }
    }
}

impl vstd::std_specs::ops::ShrSpecImpl<u8> for Tnum {
    open spec fn obeys_shr_spec() -> bool {
        true
    }

    open spec fn shr_req(self, rhs: u8) -> bool {
        rhs < 64
    }

    open spec fn shr_spec(self, rhs: u8) -> Tnum {
        self.spec_shr(rhs)
    }
}

impl core::ops::Shr<u8> for Tnum {
    type Output = Tnum;

    fn shr(self, shift: u8) -> (r: Tnum)
        ensures
            r == self.spec_shr(shift),
            r.known() == self.shr_parts(shift).0,
            r.unknown() == self.shr_parts(shift).1,
    {
        Self { value: self.value >> shift, mask: self.mask >> shift }
    }
}

impl vstd::std_specs::ops::AddSpecImpl for Tnum {
    open spec fn obeys_add_spec() -> bool {
        true
    }

    open spec fn add_req(self, rhs: Tnum) -> bool {
        true
    }

    open spec fn add_spec(self, rhs: Tnum) -> Tnum {
        self.spec_add(rhs)
    }
}

impl core::ops::Add for Tnum {
    type Output = Tnum;

    /// Carry-tracking addition, wrapping modulo 2^64.
    fn add(self, other: Tnum) -> (r: Tnum)
        ensures
            r == self.spec_add(other),
            r.known() == self.add_parts(other).0,
            r.unknown() == self.add_parts(other).1,
            self.unknown() == 0 && other.unknown() == 0 ==> r.known() == wadd(
                self.known(),
                other.known(),
            ) && r.unknown() == 0,
    {
        proof {
            if self.unknown() == 0 && other.unknown() == 0 {
                lemma_constant_sum(self, other);
            }
        }
        let an = !self.value & self.mask;
        let bn = !other.value & other.mask;
        let g0 = an & bn;
        let g1 = self.value & other.value;
        let p0 = an ^ bn;
        let pg1 = self.value | other.value;
        let g0l = !g0 & ((g0 << 1) | 1);
        let g1f = g1 & !(g1 << 1);
        let nc = (p0.wrapping_add(g0l) & !p0).wrapping_sub(g0l) | g0;
        let m1 = !pg1 | (pg1 & g1f);
        let c = (pg1.wrapping_add(g1f) & m1).wrapping_sub(g1f);
        let cm = (c | nc) << 1 | 1;
        let m = cm & self.mask & self.value;
        let v = self.value.wrapping_add(other.value);
        proof {
            lemma_wrapping_add(p0, g0l);
            lemma_wrapping_sub(p0.wrapping_add(g0l) & !p0, g0l);
            lemma_wrapping_add(pg1, g1f);
            lemma_wrapping_sub(pg1.wrapping_add(g1f) & m1, g1f);
            lemma_wrapping_add(self.value, other.value);
        }
        Self { mask: m, value: v }
    }
}

} // verus!
