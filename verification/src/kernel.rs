//! What a compute dispatch is made of: the width of a kernel's elements and the number of
//! workgroups.

use vstd::prelude::*;

verus! {

/// The scalar or vector type that a kernel loads at a time.
#[derive(Debug, Clone, Copy, PartialEq, Eq, Structural)]
pub enum KernelElement {
    Scalar,
    Vec2,
    Vec4,
}

impl KernelElement {
    /// The number of scalars in one element.
    pub open spec fn size(self) -> nat {
        match self {
            KernelElement::Scalar => 1,
            KernelElement::Vec2 => 2,
            KernelElement::Vec4 => 4,
        }
    }

    /// The number of scalars in one element.
    pub fn as_size(&self) -> (size: usize)
        ensures
            size == self.size(),
            *self == KernelElement::Scalar ==> size == 1,
            *self == KernelElement::Vec2 ==> size == 2,
            *self == KernelElement::Vec4 ==> size == 4,
    {
        match self {
            KernelElement::Scalar => 1,
            KernelElement::Vec2 => 2,
            KernelElement::Vec4 => 4,
        }
    }
}

/// A scalar is one scalar, and the vectors are two and four of them.
pub proof fn law_element_sizes(element: KernelElement)
    ensures
        element is Scalar <==> element.size() == 1,
        element is Vec2 <==> element.size() == 2,
        element is Vec4 <==> element.size() == 4,
        element.size() == 1 || element.size() == 2 || element.size() == 4,
{
}

/// The quotient of `num` by `div`, rounded up.
pub open spec fn ceil_quotient(num: int, div: int) -> int {
    (num + div - 1) / div
}

/// The low 32 bits of a non-negative number.
pub open spec fn low32(x: int) -> u32 {
    (x % 0x1_0000_0000) as u32
}

/// The low 32 bits differ from the number by a multiple of two to the 32nd, and are the number
/// itself where it has no more bits.
pub proof fn law_low_bits(x: int)
    requires
        x >= 0,
    ensures
        low32(x) <= x,
        (x - low32(x)) % 0x1_0000_0000 == 0,
        x <= u32::MAX ==> low32(x) == x,
{
}

/// The low 32 bits of `x`.
pub fn truncate_u32(x: usize) -> (low: u32)
    ensures
        low == low32(x as int),
        (x - low) % 0x1_0000_0000 == 0,
        x <= u32::MAX ==> low == x,
{
    let wide: u64 = x as u64;
    assert(wide as u32 == wide % 0x1_0000_0000) by (bit_vector);
    #[verifier::truncate]
    let low: u32 = wide as u32;
    low
}

/// How many workgroups a dispatch runs along each axis.
#[derive(Debug, Clone, Copy, PartialEq, Eq, Structural)]
pub struct WorkgroupCount {
    pub x: u32,
    pub y: u32,
    pub z: u32,
}

impl WorkgroupCount {
    /// The given number of workgroups along each axis.
    pub fn new(x: u32, y: u32, z: u32) -> (count: Self)
        ensures
            count.x == x,
            count.y == y,
            count.z == z,
    {
        WorkgroupCount { x, y, z }
    }

    /// The quotient of `num` by `div`, rounded up.
    pub fn div_ceil(num: usize, div: usize) -> (q: usize)
        requires
            div > 0,
        ensures
            q == ceil_quotient(num as int, div as int),
            q * div >= num,
            num > 0 ==> (q - 1) * div < num,
            num == 0 ==> q == 0,
    {
        proof {
            law_groups_cover(num as int, div as int);
            lemma_ceil_quotient(num as int, div as int);
        }
        let q: usize = num / div;
        if num % div == 0 {
            q
        } else {
            q + 1
        }
    }
}

/// A quotient rounded up is the quotient, or one more where the division leaves a remainder, and
/// never exceeds what is divided.
pub proof fn lemma_ceil_quotient(num: int, div: int)
    requires
        num >= 0,
        div > 0,
    ensures
        num % div == 0 ==> ceil_quotient(num, div) == num / div,
        num % div != 0 ==> ceil_quotient(num, div) == num / div + 1,
        num % div != 0 ==> num / div + 1 <= num,
        0 <= num / div <= num,
        0 <= ceil_quotient(num, div) <= num,
{
    let q = num / div;
    let r = num % div;
    vstd::arithmetic::div_mod::lemma_fundamental_div_mod(num, div);
    vstd::arithmetic::div_mod::lemma_div_pos_is_pos(num, div);
    vstd::arithmetic::div_mod::lemma_div_is_ordered_by_denominator(num, 1, div);
    assert(num / 1 == num);
    if r == 0 {
        vstd::arithmetic::div_mod::lemma_fundamental_div_mod_converse(
            num + div - 1,
            div,
            q,
            div - 1,
        );
    } else {
        assert(div * (q + 1) == div * q + div) by (nonlinear_arith);
        assert((q + 1) * div == div * q + div) by (nonlinear_arith);
        assert(q * div == div * q) by (nonlinear_arith);
        vstd::arithmetic::div_mod::lemma_fundamental_div_mod_converse(
            num + div - 1,
            div,
            q + 1,
            r - 1,
        );
        assert(q + 1 <= num) by (nonlinear_arith)
            requires
                num == div * q + r,
                0 < r < div,
                q >= 0,
        ;
    }
}

/// Rounding up gives the least number of groups that covers every item: all items have a group,
/// and one group fewer would leave one out.
pub proof fn law_groups_cover(num: int, div: int)
    requires
        num >= 0,
        div > 0,
    ensures
        ceil_quotient(num, div) * div >= num,
        num > 0 ==> (ceil_quotient(num, div) - 1) * div < num,
        num == 0 ==> ceil_quotient(num, div) == 0,
{
    lemma_ceil_quotient(num, div);
    let q = num / div;
    let r = num % div;
    vstd::arithmetic::div_mod::lemma_fundamental_div_mod(num, div);
    assert(q * div == div * q) by (nonlinear_arith);
    assert((q + 1) * div == div * q + div) by (nonlinear_arith);
    assert((q - 1) * div == div * q - div) by (nonlinear_arith);
    if num == 0 {
        vstd::arithmetic::div_mod::lemma_div_basics(div);
        vstd::arithmetic::div_mod::lemma_small_mod(0, div as nat);
    }
}

} // verus!
