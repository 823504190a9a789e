use flagger::model::{FlagValue, Width};

fn val(width: Width, bits: u128) -> FlagValue {
    FlagValue { width, bits }
}

#[test]
fn bitwise_operators_compute() {
    let a = val(Width::W8, 0b0011);
    let b = val(Width::W8, 0b0101);
    assert_eq!(a.and(b).to_bits(), 0b0001);
    assert_eq!(a.or(b).to_bits(), 0b0111);
    assert_eq!(a.xor(b).to_bits(), 0b0110);
    assert_eq!(a.not().to_bits(), 0b1111_1100);
}

#[test]
fn bitwise_results_stay_in_width() {
    let a = val(Width::W8, 0xf0);
    let b = val(Width::W8, 0x0f);
    assert!(a.or(b).to_bits() <= 0xff);
    assert!(a.xor(b).to_bits() <= 0xff);
    assert!(a.not().to_bits() <= 0xff);
    let w = val(Width::W16, 0x00ff);
    assert_eq!(w.not().to_bits(), 0xff00);
}

#[test]
fn double_complement_is_identity() {
    let a = val(Width::W8, 0b1010_0101);
    assert_eq!(a.not().not(), a);
    let b = val(Width::W32, 0xdead_beef);
    assert_eq!(b.not().not(), b);
}

#[test]
fn containment_laws_hold() {
    let none = val(Width::W8, 0);
    let x = val(Width::W8, 0b0110);
    assert!(x.has_all_flags(x));
    assert!(!none.has_any_flag(none));
    assert!(x.has_all_flags(none));
    assert!(none.has_all_flags(none));
    assert!(!x.has_any_flag(none));
}

#[test]
fn widths_report_bit_counts_and_masks() {
    assert_eq!(Width::W8.bit_count(), 8);
    assert_eq!(Width::W16.bit_count(), 16);
    assert_eq!(Width::W32.bit_count(), 32);
    assert_eq!(Width::W64.bit_count(), 64);
    assert_eq!(Width::W128.bit_count(), 128);
    assert_eq!(Width::W8.all_ones(), 0xff);
    assert_eq!(Width::W128.all_ones(), u128::MAX);
}
