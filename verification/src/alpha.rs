//! Compact per-cell record codec for the `alpha` and `beta` attributes.
//!
//! One 64-bit word packs a small discrete id (12 bits), a discrete subtype
//! (4 bits) and three bounded fixed-point scalars (16 bits each).  The three
//! scalars are quantized: their 6 lowest fixed-point bits are dropped, so a
//! decoded scalar is the encoded one rounded down to a multiple of 64
//! fixed-point steps (a sixteenth of a unit).  The bit layout is a binary
//! contract for boards persisted or transmitted across a process boundary.

use vstd::prelude::*;

verus! {

/// Exclusive upper bound of the id field.
pub const ALPHA_ID_LIMIT: u64 = 4096;
/// Exclusive upper bound of the subtype field.
pub const ALPHA_SUB_LIMIT: u64 = 16;
/// Exclusive upper bound of each fixed-point scalar field.
pub const ALPHA_FIELD_LIMIT: i64 = 0x400000;
/// Quantization step of the scalar fields, in fixed-point units.
pub const ALPHA_STEP: i64 = 64;

/// The id stored in a packed word.
pub open spec fn alpha_id(w: u64) -> u64 {
    w & 0xFFF
}

/// The subtype stored in a packed word.
pub open spec fn alpha_sub(w: u64) -> u64 {
    (w >> 12) & 0xF
}

/// The first quantized scalar stored in a packed word, in fixed-point units.
pub open spec fn alpha_f1(w: u64) -> i64 {
    (((w >> 16) & 0xFFFF) << 6) as i64
}

/// The second quantized scalar stored in a packed word.
pub open spec fn alpha_f2(w: u64) -> i64 {
    (((w >> 32) & 0xFFFF) << 6) as i64
}

/// The third quantized scalar stored in a packed word.
pub open spec fn alpha_f3(w: u64) -> i64 {
    (((w >> 48) & 0xFFFF) << 6) as i64
}

/// The packed word for the given fields.
pub open spec fn encode_alpha_spec(id: u64, sub: u64, f1: i64, f2: i64, f3: i64) -> u64 {
    id | (sub << 12) | (((f1 as u64) >> 6) << 16) | (((f2 as u64) >> 6) << 32) | (((f3 as u64)
        >> 6) << 48)
}

/// Packs an id, a subtype and three bounded nonnegative fixed-point scalars
/// into one word.
pub fn encode_alpha(id: u64, sub: u64, f1: i64, f2: i64, f3: i64) -> (r: u64)
    requires
        id < ALPHA_ID_LIMIT,
        sub < ALPHA_SUB_LIMIT,
        0 <= f1 < ALPHA_FIELD_LIMIT,
        0 <= f2 < ALPHA_FIELD_LIMIT,
        0 <= f3 < ALPHA_FIELD_LIMIT,
    ensures
        r == encode_alpha_spec(id, sub, f1, f2, f3),
{
    id | (sub << 12u64) | (((f1 as u64) >> 6u64) << 16u64) | (((f2 as u64) >> 6u64) << 32u64) | ((
    (f3 as u64) >> 6u64) << 48u64)
}

/// Unpacks a word into its id, subtype and three quantized fixed-point
/// scalars.
pub fn decode_alpha(w: u64) -> (r: (u64, u64, i64, i64, i64))
    ensures
        r.0 == alpha_id(w),
        r.1 == alpha_sub(w),
        r.2 == alpha_f1(w),
        r.3 == alpha_f2(w),
        r.4 == alpha_f3(w),
{
    let id = w & 0xFFF;
    let sub = (w >> 12u64) & 0xF;
    let f1 = (((w >> 16u64) & 0xFFFF) << 6u64) as i64;
    let f2 = (((w >> 32u64) & 0xFFFF) << 6u64) as i64;
    let f3 = (((w >> 48u64) & 0xFFFF) << 6u64) as i64;
    (id, sub, f1, f2, f3)
}

/// Decoding an encoded word recovers the id and the subtype exactly, and
/// each scalar rounded down to the quantization step: the decoded scalar is
/// the encoded one minus its remainder modulo the step, so it is never more
/// than a step below it, and a scalar already on the step grid comes back
/// unchanged.
pub proof fn lemma_alpha_round_trip(id: u64, sub: u64, f1: i64, f2: i64, f3: i64)
    by (bit_vector)
    requires
        id < 4096,
        sub < 16,
        0 <= f1 < 0x400000,
        0 <= f2 < 0x400000,
        0 <= f3 < 0x400000,
    ensures
        alpha_id(encode_alpha_spec(id, sub, f1, f2, f3)) == id,
        alpha_sub(encode_alpha_spec(id, sub, f1, f2, f3)) == sub,
        alpha_f1(encode_alpha_spec(id, sub, f1, f2, f3)) == f1 - (f1 % 64),
        alpha_f2(encode_alpha_spec(id, sub, f1, f2, f3)) == f2 - (f2 % 64),
        alpha_f3(encode_alpha_spec(id, sub, f1, f2, f3)) == f3 - (f3 % 64),
{
}

} // verus!
