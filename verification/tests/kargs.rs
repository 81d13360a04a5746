use greppy::kargs::{KargsArgmax, KargsCpy, KargsMulMm, KargsSum};
use std::mem::size_of;

#[test]
fn size_cpy_matches() {
    assert_eq!(size_of::<KargsCpy>(), 136);
}

#[test]
fn size_argmax_matches() {
    assert_eq!(size_of::<KargsArgmax>(), 16);
}

#[test]
fn size_sum_matches() {
    assert_eq!(size_of::<KargsSum>(), 8);
}

#[test]
fn size_mul_mm_matches() {
    let s = size_of::<KargsMulMm>();
    assert!(s > 0 && s % 8 == 0, "KargsMulMm size = {s}, not 8-aligned");
}
