//! The `delta` attribute packs 64 independent boolean flags into one word.
//!
//! The numeric flag positions are a binary contract: boards persisted or
//! transmitted with these positions keep their meaning only if the positions
//! stay fixed.

use vstd::prelude::*;

verus! {

/// Wall / solid marker, set on cells the maze generator fills in.
pub const FLAG_SOLID: u64 = 0;
/// First forge marker flag.
pub const FLAG_FORGE_A: u64 = 3;
/// Second forge marker flag.
pub const FLAG_FORGE_B: u64 = 4;
/// First room-boundary marker flag.
pub const FLAG_ROOM_A: u64 = 10;
/// Second room-boundary marker flag.
pub const FLAG_ROOM_B: u64 = 11;
/// Forge center marker flag.
pub const FLAG_FORGE: u64 = 63;

/// Flag `n` of a packed word.
pub open spec fn spec_bit(word: u64, n: u64) -> bool {
    (word >> n) & 1 == 1
}

/// Returns flag `n` of `word`.
pub fn get_bit(word: u64, n: u64) -> (r: bool)
    requires
        n < 64,
    ensures
        r == spec_bit(word, n),
{
    (word >> n) & 1 == 1
}

/// Sets or clears flag `n` of `word`, leaving every other flag unchanged.
pub fn set_bit(word: &mut u64, value: bool, n: u64)
    requires
        n < 64,
    ensures
        spec_bit(*final(word), n) == value,
        forall|m: u64| m < 64 && m != n ==> spec_bit(*final(word), m) == spec_bit(*old(word), m),
{
    let w = *word;
    let r: u64 = if value {
        w | (1u64 << n)
    } else {
        w & !(1u64 << n)
    };
    proof {
        if value {
            assert(spec_bit(r, n) == true && forall|m: u64|
                m < 64 && m != n ==> (#[trigger] spec_bit(r, m)) == spec_bit(w, m)) by (bit_vector)
                requires
                    n < 64,
                    r == w | (1u64 << n),
            ;
        } else {
            assert(spec_bit(r, n) == false && forall|m: u64|
                m < 64 && m != n ==> (#[trigger] spec_bit(r, m)) == spec_bit(w, m)) by (bit_vector)
                requires
                    n < 64,
                    r == w & !(1u64 << n),
            ;
        }
    }
    *word = r;
}

} // verus!
