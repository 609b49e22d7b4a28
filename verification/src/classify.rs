//! Connex classification: a 201-entry table of five-way boolean categories,
//! one entry per connex number.
//!
//! The generation algorithm is a compatibility-critical constant: boards that
//! were produced against one table only keep their meaning if the table is
//! reproduced bit for bit.  Callers compute the table once at startup and
//! share it read-only; the table is a pure function of nothing, so any two
//! generations agree.

use vstd::prelude::*;

verus! {

/// Largest connex number; the table has `CONNEX_NUMBER_MAX + 1` entries.
pub const CONNEX_NUMBER_MAX: u64 = 200;

/// First integer mixer of the table generator.
pub open spec fn lfsr_1_spec(seed: u64) -> u64 {
    seed.wrapping_mul(17624813).wrapping_add(7069067389)
}

/// Second integer mixer of the table generator.
pub open spec fn lfsr_2_spec(seed: u64) -> u64 {
    seed.wrapping_mul(9737333).wrapping_add(326851121)
}

/// Third integer mixer of the table generator.
pub open spec fn lfsr_3_spec(seed: u64) -> u64 {
    seed.wrapping_mul(648391).wrapping_add(174440041)
}

pub fn lfsr_1(seed: u64) -> (r: u64)
    ensures
        r == lfsr_1_spec(seed),
{
    seed.wrapping_mul(17624813).wrapping_add(7069067389)
}

pub fn lfsr_2(seed: u64) -> (r: u64)
    ensures
        r == lfsr_2_spec(seed),
{
    seed.wrapping_mul(9737333).wrapping_add(326851121)
}

pub fn lfsr_3(seed: u64) -> (r: u64)
    ensures
        r == lfsr_3_spec(seed),
{
    seed.wrapping_mul(648391).wrapping_add(174440041)
}

/// The five-way classification of connex number `i`.
///
/// For `i` below 21 the three mixers are forced to the out-of-range sentinel
/// 5; categories A, C and D exclude multiples of 100; category E holds only
/// for even numbers not divisible by 10, except that 20 is always in E.
pub open spec fn conx_class(i: int) -> (bool, bool, bool, bool, bool) {
    let isub = if i == 0 { 0 } else { i - 1 };
    let g2 = (isub / 5) % 5;
    let g4: int = if i < 21 {
        5
    } else {
        (lfsr_1_spec(isub as u64) % 5) as int
    };
    let g5: int = if i < 21 {
        5
    } else {
        (lfsr_2_spec(isub as u64) % 5) as int
    };
    let g6: int = if i < 21 {
        5
    } else {
        (lfsr_3_spec(isub as u64) % 5) as int
    };
    (
        (g2 == 0 || g4 == 0 || g5 == 0 || g6 == 0) && i % 100 != 0,
        g2 == 1 || g4 == 1 || g5 == 1 || g6 == 1,
        (g2 == 2 || g4 == 2 || g5 == 2 || g6 == 2) && i % 100 != 0,
        (g2 == 3 || g4 == 3 || g5 == 3 || g6 == 3) && i % 100 != 0,
        (g2 == 4 && (g4 == 1 || g5 == 2 || g6 == 3) && i % 2 == 0 && i % 10 != 0) || i == 20,
    )
}

/// The whole 201-entry classification table.
pub open spec fn conx_table() -> Seq<(bool, bool, bool, bool, bool)> {
    Seq::new((CONNEX_NUMBER_MAX + 1) as nat, |i: int| conx_class(i))
}

/// Generates the classification table.
pub fn gen_map() -> (r: Vec<(bool, bool, bool, bool, bool)>)
    ensures
        r@ == conx_table(),
{
    let mut r: Vec<(bool, bool, bool, bool, bool)> = Vec::new();
    let mut i: u64 = 0;
    while i < CONNEX_NUMBER_MAX + 1
        invariant
            i <= CONNEX_NUMBER_MAX + 1,
            r@.len() == i,
            forall|k: int| 0 <= k < i ==> r@[k] == conx_class(k),
        decreases CONNEX_NUMBER_MAX + 1 - i,
    {
        let isub = if i == 0 {
            0
        } else {
            i - 1
        };
        let g2 = (isub / 5) % 5;
        let (g4, g5, g6): (u64, u64, u64) = if i < 21 {
            (5, 5, 5)
        } else {
            (lfsr_1(isub) % 5, lfsr_2(isub) % 5, lfsr_3(isub) % 5)
        };
        let entry = (
            (g2 == 0 || g4 == 0 || g5 == 0 || g6 == 0) && i % 100 != 0,
            g2 == 1 || g4 == 1 || g5 == 1 || g6 == 1,
            (g2 == 2 || g4 == 2 || g5 == 2 || g6 == 2) && i % 100 != 0,
            (g2 == 3 || g4 == 3 || g5 == 3 || g6 == 3) && i % 100 != 0,
            (g2 == 4 && (g4 == 1 || g5 == 2 || g6 == 3) && i % 2 == 0 && i % 10 != 0) || i == 20,
        );
        r.push(entry);
        i += 1;
    }
    proof {
        assert(r@ =~= conx_table());
    }
    r
}

/// The table is a pure function of nothing: any two generated tables are
/// identical, entry for entry.
pub proof fn lemma_classifier_deterministic(
    t1: Seq<(bool, bool, bool, bool, bool)>,
    t2: Seq<(bool, bool, bool, bool, bool)>,
)
    requires
        t1 == conx_table(),
        t2 == conx_table(),
    ensures
        t1 == t2,
{
}

/// Categories A, C and D exclude every multiple of 100 (index 0 included),
/// whatever the mixers produce there.
pub proof fn lemma_century_exclusion(i: int)
    requires
        0 <= i <= CONNEX_NUMBER_MAX,
        i % 100 == 0,
    ensures
        !conx_class(i).0,
        !conx_class(i).2,
        !conx_class(i).3,
{
}

/// Connex number 20 is always in category E.
pub proof fn lemma_class_twenty()
    ensures
        conx_class(20).4,
{
}

} // verus!
