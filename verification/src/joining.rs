//! Joining types of codepoints and masks over them.

use vstd::prelude::*;

verus! {

/// What the joining-type data of the Unicode Character Database assigns to
/// `c`, as the position of the category in [`JoiningType::from_code`].
pub uninterp spec fn joining_type_code(c: char) -> u8;

/// Value of the Joining_Type Unicode property.
#[derive(Clone, Copy, Debug, PartialEq, Eq, Structural)]
pub enum JoiningType {
    DualJoining,
    JoinCausing,
    LeftJoining,
    NonJoining,
    RightJoining,
    Transparent,
}

/// A mask that stands for a set of `JoiningType` values: bit `t.code()` is
/// set exactly when `t` belongs to the set.
#[derive(Clone, Copy, Debug)]
pub struct JoiningTypeMask(u32);

impl JoiningType {
    /// The position of the category, which is also the number of its bit in
    /// a mask.
    pub open spec fn code(self) -> u8 {
        match self {
            JoiningType::DualJoining => 0,
            JoiningType::JoinCausing => 1,
            JoiningType::LeftJoining => 2,
            JoiningType::NonJoining => 3,
            JoiningType::RightJoining => 4,
            JoiningType::Transparent => 5,
        }
    }

    /// The mask of this category alone, as a number: bit `code()`.
    pub open spec fn bit(self) -> u32 {
        match self {
            JoiningType::DualJoining => 0x01,
            JoiningType::JoinCausing => 0x02,
            JoiningType::LeftJoining => 0x04,
            JoiningType::NonJoining => 0x08,
            JoiningType::RightJoining => 0x10,
            JoiningType::Transparent => 0x20,
        }
    }

    /// The mask that holds this category and no other.
    pub closed spec fn mask(self) -> JoiningTypeMask {
        JoiningTypeMask(self.bit())
    }

    /// The category at position `code`.
    pub open spec fn of_code(code: u8) -> JoiningType {
        if code == 0 {
            JoiningType::DualJoining
        } else if code == 1 {
            JoiningType::JoinCausing
        } else if code == 2 {
            JoiningType::LeftJoining
        } else if code == 3 {
            JoiningType::NonJoining
        } else if code == 4 {
            JoiningType::RightJoining
        } else {
            JoiningType::Transparent
        }
    }

    /// Returns the category at position `code`.
    pub fn from_code(code: u8) -> (t: JoiningType)
        requires
            code < 6,
        ensures
            t == JoiningType::of_code(code),
            t.code() == code,
    {
        if code == 0 {
            JoiningType::DualJoining
        } else if code == 1 {
            JoiningType::JoinCausing
        } else if code == 2 {
            JoiningType::LeftJoining
        } else if code == 3 {
            JoiningType::NonJoining
        } else if code == 4 {
            JoiningType::RightJoining
        } else {
            JoiningType::Transparent
        }
    }

    /// Returns the mask that holds this category and no other.
    pub fn to_mask(self) -> (m: JoiningTypeMask)
        ensures
            m == self.mask(),
            m.bits() == self.bit(),
            m.wf(),
            forall|t: JoiningType| m.contains(t) <==> t == self,
    {
        let bits: u32 = match self {
            JoiningType::DualJoining => 0x01,
            JoiningType::JoinCausing => 0x02,
            JoiningType::LeftJoining => 0x04,
            JoiningType::NonJoining => 0x08,
            JoiningType::RightJoining => 0x10,
            JoiningType::Transparent => 0x20,
        };
        proof {
            assert forall|t: JoiningType| bits & t.bit() != 0 <==> t == self by {
                lemma_distinct_bits(bits, t.bit());
            }
        }
        JoiningTypeMask(bits)
    }

    /// `true` iff this value is `Transparent`.
    pub fn is_transparent(self) -> (b: bool)
        ensures
            b <==> self == JoiningType::Transparent,
    {
        match self {
            JoiningType::Transparent => true,
            _ => false,
        }
    }
}

impl JoiningTypeMask {
    /// The mask as a number.
    pub closed spec fn bits(self) -> u32 {
        self.0
    }

    /// Only bits that stand for a category are set.
    pub open spec fn wf(self) -> bool {
        self.bits() < 64
    }

    /// Whether `t` belongs to the set that the mask stands for.
    pub open spec fn contains(self, t: JoiningType) -> bool {
        self.bits() & t.bit() != 0
    }

    /// Whether the two masks have a set bit in common.
    pub open spec fn meets(self, other: JoiningTypeMask) -> bool {
        self.bits() & other.bits() != 0
    }

    /// The mask of `LeftJoining` and `DualJoining`.
    pub closed spec fn left_or_dual() -> JoiningTypeMask {
        JoiningTypeMask(0x05)
    }

    /// The mask of `RightJoining` and `DualJoining`.
    pub closed spec fn right_or_dual() -> JoiningTypeMask {
        JoiningTypeMask(0x11)
    }

    /// `true` iff both masks have a `JoiningType` in common.
    pub fn intersects(self, other: JoiningTypeMask) -> (b: bool)
        ensures
            b <==> self.meets(other),
            self.wf() || other.wf() ==> (b <==> exists|t: JoiningType|
                self.contains(t) && other.contains(t)),
    {
        proof {
            lemma_common_bit(self, other);
        }
        self.0 & other.0 != 0
    }
}

/// The bit of a category is one shifted left by its position.
pub proof fn lemma_bit_is_shifted_one(t: JoiningType)
    ensures
        t.bit() == 1u32 << t.code(),
{
    assert(1u32 << 0u8 == 0x01) by (bit_vector);
    assert(1u32 << 1u8 == 0x02) by (bit_vector);
    assert(1u32 << 2u8 == 0x04) by (bit_vector);
    assert(1u32 << 3u8 == 0x08) by (bit_vector);
    assert(1u32 << 4u8 == 0x10) by (bit_vector);
    assert(1u32 << 5u8 == 0x20) by (bit_vector);
}

/// Two single bits meet exactly when they are the same bit.
proof fn lemma_distinct_bits(a: u32, b: u32)
    requires
        a == 0x01 || a == 0x02 || a == 0x04 || a == 0x08 || a == 0x10 || a == 0x20,
        b == 0x01 || b == 0x02 || b == 0x04 || b == 0x08 || b == 0x10 || b == 0x20,
    ensures
        a & b != 0 <==> a == b,
{
    assert((a == 0x01 || a == 0x02 || a == 0x04 || a == 0x08 || a == 0x10 || a == 0x20) && (b
        == 0x01 || b == 0x02 || b == 0x04 || b == 0x08 || b == 0x10 || b == 0x20) ==> (a & b != 0
        <==> a == b)) by (bit_vector);
}

/// Two masks, one of them well formed, share a set bit exactly when they
/// share a category.
proof fn lemma_common_bit(x: JoiningTypeMask, y: JoiningTypeMask)
    ensures
        x.wf() || y.wf() ==> (x.bits() & y.bits() != 0 <==> exists|t: JoiningType|
            x.contains(t) && y.contains(t)),
{
    let a = x.bits();
    let b = y.bits();
    assert((a < 64 || b < 64) && a & b != 0 ==> (a & 0x01 != 0 && b & 0x01 != 0) || (a & 0x02 != 0
        && b & 0x02 != 0) || (a & 0x04 != 0 && b & 0x04 != 0) || (a & 0x08 != 0 && b & 0x08 != 0)
        || (a & 0x10 != 0 && b & 0x10 != 0) || (a & 0x20 != 0 && b & 0x20 != 0)) by (bit_vector);
    assert((a & 0x01 != 0 && b & 0x01 != 0) || (a & 0x02 != 0 && b & 0x02 != 0) || (a & 0x04 != 0
        && b & 0x04 != 0) || (a & 0x08 != 0 && b & 0x08 != 0) || (a & 0x10 != 0 && b & 0x10 != 0)
        || (a & 0x20 != 0 && b & 0x20 != 0) ==> a & b != 0) by (bit_vector);
    if (a < 64 || b < 64) && a & b != 0 {
        let t = if a & 0x01 != 0 && b & 0x01 != 0 {
            JoiningType::DualJoining
        } else if a & 0x02 != 0 && b & 0x02 != 0 {
            JoiningType::JoinCausing
        } else if a & 0x04 != 0 && b & 0x04 != 0 {
            JoiningType::LeftJoining
        } else if a & 0x08 != 0 && b & 0x08 != 0 {
            JoiningType::NonJoining
        } else if a & 0x10 != 0 && b & 0x10 != 0 {
            JoiningType::RightJoining
        } else {
            JoiningType::Transparent
        };
        assert(x.contains(t) && y.contains(t));
    }
}

/// Calls `unicode_joining_type::get_joining_type` and hands back the position
/// of the category among the six that the crate declares, in the order of
/// its declaration. The contract names that number and bounds it by six;
/// which category a codepoint has is not stated.
#[verifier::external_body]
fn lookup_joining_type_code(c: char) -> (code: u8)
    ensures
        code == joining_type_code(c),
        code < 6,
{
    unicode_joining_type::get_joining_type(c) as u8
}

/// Returns the Joining_Type of `c`.
pub fn joining_type(c: char) -> (t: JoiningType)
    ensures
        t == JoiningType::of_code(joining_type_code(c)),
        t.code() == joining_type_code(c),
{
    JoiningType::from_code(lookup_joining_type_code(c))
}

/// The union of two masks holds what either holds.
proof fn lemma_union(a: u32, b: u32)
    ensures
        a < 64 && b < 64 ==> (a | b) < 64,
        forall|m: u32| #![auto] ((a | b) & m != 0) <==> (a & m != 0 || b & m != 0),
{
    assert(a < 64 && b < 64 ==> (a | b) < 64) by (bit_vector);
    assert forall|m: u32| #![auto] ((a | b) & m != 0) <==> (a & m != 0 || b & m != 0) by {
        assert(((a | b) & m != 0) <==> (a & m != 0 || b & m != 0)) by (bit_vector);
    }
}

/// Mask for checking for both left and dual joining.
pub fn left_or_dual_joining_mask() -> (m: JoiningTypeMask)
    ensures
        m == JoiningTypeMask::left_or_dual(),
        m.wf(),
        forall|t: JoiningType|
            m.contains(t) <==> (t == JoiningType::LeftJoining || t == JoiningType::DualJoining),
{
    let left = JoiningType::LeftJoining.to_mask();
    let dual = JoiningType::DualJoining.to_mask();
    proof {
        lemma_union(left.0, dual.0);
        assert(0x04u32 | 0x01u32 == 0x05u32) by (bit_vector);
        assert forall|t: JoiningType|
            ((left.0 | dual.0) & t.bit() != 0) <==> (t == JoiningType::LeftJoining || t
                == JoiningType::DualJoining) by {
            assert(left.contains(t) <==> t == JoiningType::LeftJoining);
            assert(dual.contains(t) <==> t == JoiningType::DualJoining);
        }
    }
    JoiningTypeMask(left.0 | dual.0)
}

/// Mask for checking for both right and dual joining.
pub fn right_or_dual_joining_mask() -> (m: JoiningTypeMask)
    ensures
        m == JoiningTypeMask::right_or_dual(),
        m.wf(),
        forall|t: JoiningType|
            m.contains(t) <==> (t == JoiningType::RightJoining || t == JoiningType::DualJoining),
{
    let right = JoiningType::RightJoining.to_mask();
    let dual = JoiningType::DualJoining.to_mask();
    proof {
        lemma_union(right.0, dual.0);
        assert(0x10u32 | 0x01u32 == 0x11u32) by (bit_vector);
        assert forall|t: JoiningType|
            ((right.0 | dual.0) & t.bit() != 0) <==> (t == JoiningType::RightJoining || t
                == JoiningType::DualJoining) by {
            assert(right.contains(t) <==> t == JoiningType::RightJoining);
            assert(dual.contains(t) <==> t == JoiningType::DualJoining);
        }
    }
    JoiningTypeMask(right.0 | dual.0)
}

/// A mask meets the mask of a single category exactly when it holds that
/// category.
pub proof fn lemma_meets_single(m: JoiningTypeMask, t: JoiningType)
    ensures
        m.meets(t.mask()) <==> m.contains(t),
        t.mask().meets(m) <==> m.contains(t),
        t.mask().wf(),
        forall|u: JoiningType| t.mask().contains(u) <==> u == t,
{
    let a = m.bits();
    let b = t.bit();
    assert(a & b == b & a) by (bit_vector);
    assert(b < 64);
    assert forall|u: JoiningType| t.mask().contains(u) <==> u == t by {
        lemma_distinct_bits(t.bit(), u.bit());
    }
}

/// The mask of left and dual joining meets the mask of a single category
/// exactly when the category is `LeftJoining` or `DualJoining`: so it meets
/// that of `LeftJoining` and not that of `RightJoining`.
pub proof fn lemma_left_or_dual_meets(t: JoiningType)
    ensures
        JoiningTypeMask::left_or_dual().meets(t.mask()) <==> (t == JoiningType::LeftJoining || t
            == JoiningType::DualJoining),
        JoiningTypeMask::left_or_dual().meets(JoiningType::LeftJoining.mask()),
        !JoiningTypeMask::left_or_dual().meets(JoiningType::RightJoining.mask()),
{
    assert(0x05u32 & 0x01 != 0 && 0x05u32 & 0x02 == 0 && 0x05u32 & 0x04 != 0 && 0x05u32 & 0x08 == 0
        && 0x05u32 & 0x10 == 0 && 0x05u32 & 0x20 == 0) by (bit_vector);
}

/// The mask of right and dual joining meets the mask of a single category
/// exactly when the category is `RightJoining` or `DualJoining`.
pub proof fn lemma_right_or_dual_meets(t: JoiningType)
    ensures
        JoiningTypeMask::right_or_dual().meets(t.mask()) <==> (t == JoiningType::RightJoining || t
            == JoiningType::DualJoining),
        JoiningTypeMask::right_or_dual().meets(JoiningType::RightJoining.mask()),
        !JoiningTypeMask::right_or_dual().meets(JoiningType::LeftJoining.mask()),
{
    assert(0x11u32 & 0x01 != 0 && 0x11u32 & 0x02 == 0 && 0x11u32 & 0x04 == 0 && 0x11u32 & 0x08 == 0
        && 0x11u32 & 0x10 != 0 && 0x11u32 & 0x20 == 0) by (bit_vector);
}

} // verus!
