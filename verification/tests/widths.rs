use flagger::expr::{FlagError, FlagExpr, VariantDecl};
use flagger::flagset::flags;
use flagger::model::Width;
use flagger::width::{highest_bit, max_value, width_for_bit};

fn width_of(values: &[u128]) -> Width {
    let mut variants = Vec::new();
    for (i, v) in values.iter().enumerate() {
        variants.push(VariantDecl {
            name: format!("V{}", i),
            is_unit: true,
            discriminant: Some(FlagExpr::Literal(*v)),
        });
    }
    flags(&"Sized".to_string(), variants).unwrap().width
}

#[test]
fn max_value_four_selects_eight_bits() {
    assert_eq!(width_of(&[1, 2, 4]), Width::W8);
}

#[test]
fn width_follows_highest_bit_position() {
    assert_eq!(width_of(&[0]), Width::W8);
    assert_eq!(width_of(&[200]), Width::W8);
    assert_eq!(width_of(&[255]), Width::W8);
    assert_eq!(width_of(&[256]), Width::W16);
    assert_eq!(width_of(&[0xffff]), Width::W16);
    assert_eq!(width_of(&[0x1_0000]), Width::W32);
    assert_eq!(width_of(&[0xffff_ffff]), Width::W32);
    assert_eq!(width_of(&[0x1_0000_0000]), Width::W64);
    assert_eq!(width_of(&[0xffff_ffff_ffff_ffff]), Width::W64);
    assert_eq!(width_of(&[0x1_0000_0000_0000_0000]), Width::W128);
    assert_eq!(width_of(&[u128::MAX]), Width::W128);
}

#[test]
fn highest_bit_positions() {
    assert_eq!(highest_bit(0), 0);
    assert_eq!(highest_bit(1), 0);
    assert_eq!(highest_bit(4), 2);
    assert_eq!(highest_bit(200), 7);
    assert_eq!(highest_bit(256), 8);
    assert_eq!(highest_bit(u128::MAX), 127);
}

#[test]
fn width_for_bit_breakpoints() {
    let name = "Wide".to_string();
    assert_eq!(width_for_bit(0, &name).unwrap(), Width::W8);
    assert_eq!(width_for_bit(7, &name).unwrap(), Width::W8);
    assert_eq!(width_for_bit(8, &name).unwrap(), Width::W16);
    assert_eq!(width_for_bit(15, &name).unwrap(), Width::W16);
    assert_eq!(width_for_bit(16, &name).unwrap(), Width::W32);
    assert_eq!(width_for_bit(31, &name).unwrap(), Width::W32);
    assert_eq!(width_for_bit(32, &name).unwrap(), Width::W64);
    assert_eq!(width_for_bit(63, &name).unwrap(), Width::W64);
    assert_eq!(width_for_bit(64, &name).unwrap(), Width::W128);
    assert_eq!(width_for_bit(127, &name).unwrap(), Width::W128);
}

#[test]
fn oversized_bit_position_fails() {
    let name = "Wide".to_string();
    assert_eq!(
        width_for_bit(128, &name).unwrap_err(),
        FlagError::OversizedFlagSet { name: "Wide".to_string() }
    );
    assert_eq!(
        width_for_bit(200, &name).unwrap_err(),
        FlagError::OversizedFlagSet { name: "Wide".to_string() }
    );
}

#[test]
fn max_value_over_flags() {
    let fs = flags(
        &"Sized".to_string(),
        vec![
            VariantDecl {
                name: "Low".to_string(),
                is_unit: true,
                discriminant: Some(FlagExpr::Literal(3)),
            },
            VariantDecl {
                name: "High".to_string(),
                is_unit: true,
                discriminant: Some(FlagExpr::Literal(40)),
            },
        ],
    )
    .unwrap();
    assert_eq!(max_value(&fs.flags), 40);
}
