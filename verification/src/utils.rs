//! Bit fields, sign extension and the condition flags.

use crate::hardware::{CondFlags, COND};
use crate::registers::{map_index_set, RegisterFile};
use vstd::prelude::*;

verus! {

/// Mask of a register field.
pub const MASK_REG: u16 = 0b111;

/// Mask of a 5-bit immediate.
pub const MASK_IMM5: u16 = 0b1_1111;

/// Mask of a 6-bit offset.
pub const MASK_OFFSET6: u16 = 0b11_1111;

/// Mask of a 9-bit offset.
pub const MASK_SE_9: u16 = 0b1_1111_1111;

/// Mask of an 11-bit offset.
pub const MASK_SE_11: u16 = 0b111_1111_1111;

/// The sign bit of a `bit_count`-bit value.
pub open spec fn sign_bit(x: u16, bit_count: u32) -> bool {
    (x >> ((bit_count - 1) as u32)) & 1 != 0
}

/// `x` with bits `bit_count` and up filled from its sign bit
/// `bit_count - 1`.
pub open spec fn sign_extend_spec(x: u16, bit_count: u32) -> u16 {
    if sign_bit(x, bit_count) {
        x | (0xFFFFu16 << bit_count)
    } else {
        x
    }
}

/// The inputs on which `sign_extend` works: a width of 1 to 15 bits, or of 16
/// bits with the sign bit clear (filling nothing).
pub open spec fn sign_extend_ok(x: u16, bit_count: u32) -> bool {
    1 <= bit_count <= 15 || (bit_count == 16 && x >> 15u16 == 0)
}

/// Extends the sign bit of a `bit_count`-bit value to 16 bits.
pub fn sign_extend(x: u16, bit_count: u32) -> (r: u16)
    requires
        sign_extend_ok(x, bit_count),
    ensures
        r == sign_extend_spec(x, bit_count),
{
    let mut x = x;
    if (x >> (bit_count - 1)) & 1 != 0 {
        assert(bit_count < 16) by (bit_vector)
            requires
                (x >> ((bit_count - 1) as u32)) & 1 != 0,
                1 <= bit_count <= 15 || (bit_count == 16 && x >> 15u16 == 0),
        ;
        x = x | (0xFFFF << bit_count);
    }
    x
}

/// Sign extension keeps the value of a `bit_count`-bit two's complement
/// number: a value whose sign bit is clear is unchanged, one whose sign bit is
/// set becomes, read as a signed 16-bit number, `x - 2^bit_count`. The sign
/// bit is set exactly when `x` is at least `2^(bit_count - 1)`.
pub proof fn lemma_sign_extend_value(x: u16, bit_count: u32)
    requires
        1 <= bit_count <= 15,
        x < (1u16 << bit_count),
    ensures
        sign_bit(x, bit_count) <==> x >= (1u16 << ((bit_count - 1) as u32)),
        !sign_bit(x, bit_count) ==> sign_extend_spec(x, bit_count) == x,
        sign_bit(x, bit_count) ==> (sign_extend_spec(x, bit_count) as i16) as i32 == (x as i32) - (
        1i32 << bit_count),
{
    assert(((x >> ((bit_count - 1) as u32)) & 1 != 0) <==> x >= (1u16 << ((bit_count - 1) as u32)))
        by (bit_vector)
        requires
            1 <= bit_count <= 15,
            x < (1u16 << bit_count),
    ;
    assert((x >> ((bit_count - 1) as u32)) & 1 != 0 ==> ((x | (0xFFFFu16 << bit_count)) as i16) as i32
        == (x as i32) - (1i32 << bit_count)) by (bit_vector)
        requires
            1 <= bit_count <= 15,
            x < (1u16 << bit_count),
    ;
}

/// The number of a condition flag in the condition register.
pub open spec fn flag_word(f: CondFlags) -> u16 {
    match f {
        CondFlags::Pos => 0,
        CondFlags::Zero => 1,
        CondFlags::Neg => 2,
    }
}

/// The flag for a value: negative when its top bit is set, else zero or
/// positive.
pub open spec fn flag_of(value: u16) -> CondFlags {
    if value >> 15u16 == 1 {
        CondFlags::Neg
    } else if value == 0 {
        CondFlags::Zero
    } else {
        CondFlags::Pos
    }
}

impl CondFlags {
    /// The flag's number in the condition register.
    pub fn to_word(self) -> (w: u16)
        ensures
            w == flag_word(self),
    {
        match self {
            CondFlags::Pos => 0,
            CondFlags::Zero => 1,
            CondFlags::Neg => 2,
        }
    }
}

/// Sets the condition register from the sign of `value`.
pub fn update_flags(value: u16, register_data: &mut RegisterFile)
    requires
        old(register_data).wf(),
    ensures
        final(register_data).wf(),
        final(register_data)@ == old(register_data)@.update(COND as int, flag_word(flag_of(value))),
{
    let flag = if (value >> 15) == 1 {
        CondFlags::Neg
    } else if value == 0 {
        CondFlags::Zero
    } else {
        CondFlags::Pos
    };
    map_index_set(register_data, COND, flag.to_word());
}

} // verus!
