use gridsim::alpha::{decode_alpha, encode_alpha};
use gridsim::bits::{get_bit, set_bit};

#[test]
fn alpha_round_trip_exact_on_step_grid() {
    // Every scalar is a multiple of the 64-step quantization grid, so the
    // round trip is exact.
    let w = encode_alpha(123, 7, 640, 102400, 0);
    let (id, sub, f1, f2, f3) = decode_alpha(w);
    assert_eq!(id, 123);
    assert_eq!(sub, 7);
    assert_eq!(f1, 640);
    assert_eq!(f2, 102400);
    assert_eq!(f3, 0);
}

#[test]
fn alpha_round_trip_within_tolerance() {
    // Off-grid scalars come back rounded down by less than one step.
    let (f1, f2, f3) = (641i64, 102463i64, 77i64);
    let w = encode_alpha(4095, 15, f1, f2, f3);
    let (id, sub, g1, g2, g3) = decode_alpha(w);
    assert_eq!(id, 4095);
    assert_eq!(sub, 15);
    for (orig, dec) in [(f1, g1), (f2, g2), (f3, g3)] {
        assert!(dec <= orig);
        assert!(orig - dec < 64);
        assert_eq!(dec, orig - orig % 64);
    }
}

#[test]
fn alpha_extreme_fields() {
    let top = 0x400000 - 1;
    let w = encode_alpha(0, 0, top, 0, top);
    let (id, sub, f1, f2, f3) = decode_alpha(w);
    assert_eq!(id, 0);
    assert_eq!(sub, 0);
    assert_eq!(f1, top - top % 64);
    assert_eq!(f2, 0);
    assert_eq!(f3, top - top % 64);
}

#[test]
fn alpha_zero_word() {
    assert_eq!(encode_alpha(0, 0, 0, 0, 0), 0);
    assert_eq!(decode_alpha(0), (0, 0, 0, 0, 0));
}

#[test]
fn bit_set_and_get() {
    let mut w: u64 = 0;
    set_bit(&mut w, true, 10);
    assert!(get_bit(w, 10));
    assert!(!get_bit(w, 9));
    assert!(!get_bit(w, 11));
    set_bit(&mut w, true, 63);
    assert!(get_bit(w, 63));
    assert!(get_bit(w, 10));
    set_bit(&mut w, false, 10);
    assert!(!get_bit(w, 10));
    assert!(get_bit(w, 63));
}

#[test]
fn bit_set_leaves_others() {
    let mut w: u64 = 0xDEAD_BEEF_0123_4567;
    let before = w;
    set_bit(&mut w, true, 0);
    set_bit(&mut w, false, 0);
    for n in 1..64 {
        assert_eq!(get_bit(w, n), get_bit(before, n));
    }
}
