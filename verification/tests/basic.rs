use flagger::expr::{FlagExpr, FlagOp, VariantDecl};
use flagger::flagset::{flags, FlagSet};
use should::ShouldBeEqual;

fn variant(name: &str, expr: Option<FlagExpr>) -> VariantDecl {
    VariantDecl { name: name.to_string(), is_unit: true, discriminant: expr }
}

fn reference(name: &str) -> FlagExpr {
    FlagExpr::Reference(vec!["Self".to_string(), name.to_string()])
}

fn test_enum() -> FlagSet {
    flags(
        &"TestEnum".to_string(),
        vec![
            variant("First", Some(FlagExpr::Literal(1))),
            variant("Second", Some(FlagExpr::Literal(2))),
            variant("Third", Some(FlagExpr::Literal(4))),
            variant(
                "FirstAndSecond",
                Some(FlagExpr::BinaryOp(
                    FlagOp::Or,
                    Box::new(reference("First")),
                    Box::new(reference("Second")),
                )),
            ),
        ],
    )
    .unwrap()
}

fn get_bits(fs: &FlagSet, name: &str) -> u128 {
    fs.get(&name.to_string()).unwrap().to_bits()
}

#[test]
fn variants_exist() {
    let fs = test_enum();
    fs.none_flag().to_bits().should_be(0);
    get_bits(&fs, "First").should_be(1);
    get_bits(&fs, "Second").should_be(2);
    get_bits(&fs, "Third").should_be(4);
    get_bits(&fs, "FirstAndSecond").should_be(3);
}

#[test]
fn can_test_for_flags() {
    let fs = test_enum();
    let first = fs.get(&"First".to_string()).unwrap();
    let second = fs.get(&"Second".to_string()).unwrap();
    let first_and_second = fs.get(&"FirstAndSecond".to_string()).unwrap();

    first.has_any_flag(first).should_be(true);
    first.has_any_flag(second).should_be(false);
    first.has_any_flag(first_and_second).should_be(true);
    first.has_all_flags(first).should_be(true);
    first.has_all_flags(second).should_be(false);
    first.has_all_flags(first_and_second).should_be(false);

    second.has_any_flag(first).should_be(false);
    second.has_any_flag(second).should_be(true);
    second.has_any_flag(first_and_second).should_be(true);
    second.has_all_flags(first).should_be(false);
    second.has_all_flags(second).should_be(true);
    second.has_all_flags(first_and_second).should_be(false);

    first_and_second.has_any_flag(first).should_be(true);
    first_and_second.has_any_flag(second).should_be(true);
    first_and_second.has_any_flag(first_and_second).should_be(true);
    first_and_second.has_all_flags(first).should_be(true);
    first_and_second.has_all_flags(second).should_be(true);
    first_and_second.has_all_flags(first_and_second).should_be(true);
}

#[test]
fn works_with_derive_macros() {
    let fs = test_enum();
    let first = fs.get(&"First".to_string()).unwrap();
    println!("{:?}", first);
}

#[test]
fn scenario_resolves_whole_set() {
    let fs = test_enum();
    assert_eq!(fs.len(), 4);
    assert_eq!(get_bits(&fs, "First"), 1);
    assert_eq!(get_bits(&fs, "Second"), 2);
    assert_eq!(get_bits(&fs, "Third"), 4);
    assert_eq!(get_bits(&fs, "FirstAndSecond"), 3);
    assert_eq!(fs.none_flag().to_bits(), 0);
    assert_eq!(fs.all_flag().to_bits(), 255);
    assert_eq!(fs.width, flagger::model::Width::W8);
    assert!(fs.get(&"Fourth".to_string()).is_none());
}
