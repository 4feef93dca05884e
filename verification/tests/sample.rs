use asteroid_field::field::SPAWN_SEED;
use asteroid_field::sample::{
    NoiseSample, SIZE_FACTOR, SPAWN_CUTOFF_DENOMINATOR, SPAWN_CUTOFF_NUMERATOR,
};

fn sample_of(value: f64) -> NoiseSample {
    NoiseSample { bits: value.to_bits() }
}

fn worley_level(k: u32) -> f64 {
    (k as f64 / 255.0) * 2.0 - 1.0
}

#[test]
fn seed_cutoff_and_factor() {
    assert_eq!(SPAWN_SEED, 69);
    assert_eq!((SPAWN_CUTOFF_NUMERATOR, SPAWN_CUTOFF_DENOMINATOR), (7, 10));
    assert_eq!(SIZE_FACTOR, 1000);
}

#[test]
fn cutoff_is_exclusive() {
    assert!(!sample_of(0.7).exceeds_cutoff());
    assert!(sample_of(f64::from_bits(0.7f64.to_bits() + 1)).exceeds_cutoff());
    assert!(!sample_of(f64::from_bits(0.7f64.to_bits() - 1)).exceeds_cutoff());
}

#[test]
fn cutoff_on_plain_values() {
    assert!(sample_of(0.71).exceeds_cutoff());
    assert!(sample_of(1.0).exceeds_cutoff());
    assert!(sample_of(12345.0).exceeds_cutoff());
    assert!(!sample_of(0.69).exceeds_cutoff());
    assert!(!sample_of(0.5).exceeds_cutoff());
    assert!(!sample_of(0.0).exceeds_cutoff());
    assert!(!sample_of(-0.0).exceeds_cutoff());
    assert!(!sample_of(-0.71).exceeds_cutoff());
    assert!(!sample_of(-1.0).exceeds_cutoff());
}

#[test]
fn cutoff_on_special_values() {
    assert!(sample_of(f64::INFINITY).exceeds_cutoff());
    assert!(sample_of(f64::MAX).exceeds_cutoff());
    assert!(!sample_of(f64::NEG_INFINITY).exceeds_cutoff());
    assert!(!sample_of(f64::NAN).exceeds_cutoff());
    assert!(!sample_of(-f64::NAN).exceeds_cutoff());
    assert!(!sample_of(f64::MIN_POSITIVE).exceeds_cutoff());
    assert!(!sample_of(f64::from_bits(1)).exceeds_cutoff());
    assert!(!NoiseSample { bits: u64::MAX }.exceeds_cutoff());
    assert!(!NoiseSample { bits: 0x7ff0_0000_0000_0001 }.exceeds_cutoff());
}

#[test]
fn cutoff_agrees_with_comparison_on_every_noise_level() {
    let mut above = 0;
    for k in 0..=255 {
        let value = worley_level(k);
        assert_eq!(sample_of(value).exceeds_cutoff(), value > 0.7, "level {}", k);
        if value > 0.7 {
            above += 1;
        }
    }
    assert_eq!(above, 39);
}

#[test]
fn size_is_a_thousand_times_the_value() {
    assert_eq!(sample_of(0.75).size(), 750);
    assert_eq!(sample_of(1.0).size(), 1000);
    assert_eq!(sample_of(0.5).size(), 500);
    assert_eq!(sample_of(0.0).size(), 0);
    assert_eq!(sample_of(-0.25).size(), -250);
    assert_eq!(sample_of(2.0).size(), 2000);
}

#[test]
fn size_is_cut_toward_zero() {
    assert_eq!(sample_of(0.7009).size(), 700);
    assert_eq!(sample_of(0.0019).size(), 1);
    assert_eq!(sample_of(0.0009).size(), 0);
    assert_eq!(sample_of(-0.0009).size(), 0);
    assert_eq!(sample_of(-0.7009).size(), -700);
}

#[test]
fn size_is_held_to_the_range() {
    assert_eq!(sample_of(f64::INFINITY).size(), i32::MAX);
    assert_eq!(sample_of(f64::NEG_INFINITY).size(), i32::MIN);
    assert_eq!(sample_of(f64::MAX).size(), i32::MAX);
    assert_eq!(sample_of(f64::MIN).size(), i32::MIN);
    assert_eq!(sample_of(2147483.647).size(), (2147483.647f64 * 1000.0) as i32);
    assert_eq!(sample_of(2147483.648).size(), i32::MAX);
    assert_eq!(sample_of(-2147483.648).size(), i32::MIN);
    assert_eq!(sample_of(-2147483.649).size(), i32::MIN);
    assert_eq!(sample_of(1.0e300).size(), i32::MAX);
}

#[test]
fn size_of_no_number_is_zero() {
    assert_eq!(sample_of(f64::NAN).size(), 0);
    assert_eq!(NoiseSample { bits: u64::MAX }.size(), 0);
    assert_eq!(NoiseSample { bits: 0x7ff0_0000_0000_0001 }.size(), 0);
}

#[test]
fn size_of_tiny_values_is_zero() {
    assert_eq!(sample_of(f64::MIN_POSITIVE).size(), 0);
    assert_eq!(sample_of(f64::from_bits(1)).size(), 0);
    assert_eq!(sample_of(-f64::MIN_POSITIVE).size(), 0);
    assert_eq!(sample_of(1.0e-300).size(), 0);
}

#[test]
fn size_agrees_with_product_on_every_noise_level() {
    for k in 0..=255 {
        let value = worley_level(k);
        assert_eq!(sample_of(value).size(), (value * 1000.0) as i32, "level {}", k);
    }
}

#[test]
fn size_rounds_the_product_as_doubles_do() {
    // Just below a whole number of thousandths the product of doubles may
    // round up to the whole number.
    for whole in [1u32, 7, 700, 701, 999, 1000, 4095, 65535, 1_000_000] {
        let exact = whole as f64 / 1000.0;
        for step in 0..8u64 {
            let below = f64::from_bits(exact.to_bits() - step);
            let above = f64::from_bits(exact.to_bits() + step);
            assert_eq!(sample_of(below).size(), (below * 1000.0) as i32);
            assert_eq!(sample_of(above).size(), (above * 1000.0) as i32);
            assert_eq!(sample_of(-below).size(), (-below * 1000.0) as i32);
        }
    }
}

#[test]
fn size_agrees_with_product_on_scattered_patterns() {
    let mut state: u64 = 0x2545_f491_4f6c_dd1d;
    for _ in 0..200_000 {
        state ^= state << 13;
        state ^= state >> 7;
        state ^= state << 17;
        let value = f64::from_bits(state);
        assert_eq!(sample_of(value).size(), (value * 1000.0) as i32, "pattern {:#x}", state);
        assert_eq!(sample_of(value).exceeds_cutoff(), value > 0.7, "pattern {:#x}", state);
        // the same fraction near one, where sizes are in range
        let near = f64::from_bits((state & 0x800f_ffff_ffff_ffff) | ((1015 + state % 24) << 52));
        assert_eq!(sample_of(near).size(), (near * 1000.0) as i32, "pattern {:#x}", near.to_bits());
        assert_eq!(sample_of(near).exceeds_cutoff(), near > 0.7);
    }
}
