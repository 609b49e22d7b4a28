use gridsim::classify::{gen_map, lfsr_1, lfsr_2, lfsr_3};

#[test]
fn table_regeneration_is_identical() {
    let t1 = gen_map();
    let t2 = gen_map();
    assert_eq!(t1.len(), 201);
    assert_eq!(t1, t2);
}

#[test]
fn century_indices_excluded_from_a_c_d() {
    let t = gen_map();
    for i in [0usize, 100, 200] {
        assert!(!t[i].0);
        assert!(!t[i].2);
        assert!(!t[i].3);
    }
}

#[test]
fn twenty_is_in_category_e() {
    let t = gen_map();
    assert!(t[20].4);
}

#[test]
fn low_entries_use_the_sentinel_mixers() {
    let t = gen_map();
    // For index 5 the mixers are forced to 5 and the coarse group is
    // (4 / 5) % 5 == 0, so only category A holds.
    assert_eq!(t[5], (true, false, false, false, false));
    // For index 20 the coarse group is (19 / 5) % 5 == 3: category D, plus
    // the unconditional membership of 20 in category E.
    assert_eq!(t[20], (false, false, false, true, true));
}

#[test]
fn mixers_match_their_multiply_add_forms() {
    assert_eq!(lfsr_1(0), 7069067389);
    assert_eq!(lfsr_2(0), 326851121);
    assert_eq!(lfsr_3(0), 174440041);
    assert_eq!(lfsr_1(1), 17624813u64.wrapping_add(7069067389));
    assert_eq!(
        lfsr_3(u64::MAX),
        u64::MAX.wrapping_mul(648391).wrapping_add(174440041)
    );
}
