use flagger::expr::{FlagError, FlagExpr, FlagOp, VariantDecl};
use flagger::flagset::flags;

fn variant(name: &str, expr: Option<FlagExpr>) -> VariantDecl {
    VariantDecl { name: name.to_string(), is_unit: true, discriminant: expr }
}

fn reference(qualifier: &str, name: &str) -> FlagExpr {
    FlagExpr::Reference(vec![qualifier.to_string(), name.to_string()])
}

#[test]
fn resolution_is_deterministic() {
    let build = || {
        flags(
            &"Modes".to_string(),
            vec![
                variant("Read", Some(FlagExpr::Literal(1))),
                variant("Write", Some(FlagExpr::Literal(2))),
                variant(
                    "ReadWrite",
                    Some(FlagExpr::BinaryOp(
                        FlagOp::Or,
                        Box::new(reference("Self", "Read")),
                        Box::new(reference("Self", "Write")),
                    )),
                ),
            ],
        )
        .unwrap()
    };
    let a = build();
    let b = build();
    assert_eq!(a.width, b.width);
    assert_eq!(a.len(), b.len());
    for i in 0..a.flags.len() {
        assert_eq!(a.flags[i].name, b.flags[i].name);
        assert_eq!(a.flags[i].value, b.flags[i].value);
    }
}

#[test]
fn forward_reference_resolves() {
    let fs = flags(
        &"Modes".to_string(),
        vec![
            variant(
                "FirstAndSecond",
                Some(FlagExpr::BinaryOp(
                    FlagOp::Or,
                    Box::new(reference("Self", "First")),
                    Box::new(reference("Self", "Second")),
                )),
            ),
            variant("First", Some(FlagExpr::Literal(1))),
            variant("Second", Some(FlagExpr::Literal(2))),
        ],
    )
    .unwrap();
    assert_eq!(fs.get(&"FirstAndSecond".to_string()).unwrap().to_bits(), 3);
}

#[test]
fn type_qualified_reference_resolves() {
    let fs = flags(
        &"Modes".to_string(),
        vec![
            variant("First", Some(FlagExpr::Literal(1))),
            variant("Alias", Some(reference("Modes", "First"))),
        ],
    )
    .unwrap();
    assert_eq!(fs.get(&"Alias".to_string()).unwrap().to_bits(), 1);
}

#[test]
fn cyclic_references_fail_unresolved() {
    let r = flags(
        &"Modes".to_string(),
        vec![
            variant("A", Some(reference("Self", "B"))),
            variant("B", Some(reference("Self", "A"))),
        ],
    );
    assert_eq!(
        r.unwrap_err(),
        FlagError::UnresolvedDiscriminant { name: "A".to_string() }
    );
}

#[test]
fn implicit_variant_stays_unresolved() {
    let r = flags(
        &"Modes".to_string(),
        vec![variant("First", Some(FlagExpr::Literal(1))), variant("Auto", None)],
    );
    assert_eq!(
        r.unwrap_err(),
        FlagError::UnresolvedDiscriminant { name: "Auto".to_string() }
    );
}

#[test]
fn missing_reference_stays_unresolved() {
    let r = flags(
        &"Modes".to_string(),
        vec![variant("Ghostly", Some(reference("Self", "Nowhere")))],
    );
    assert_eq!(
        r.unwrap_err(),
        FlagError::UnresolvedDiscriminant { name: "Ghostly".to_string() }
    );
}

#[test]
fn nested_expressions_resolve() {
    // (First | Second) ^ (Second & Third) over 1, 2, 4 gives 3 ^ 0 == 3.
    let fs = flags(
        &"Modes".to_string(),
        vec![
            variant("First", Some(FlagExpr::Literal(1))),
            variant("Second", Some(FlagExpr::Literal(2))),
            variant("Third", Some(FlagExpr::Literal(4))),
            variant(
                "Mixed",
                Some(FlagExpr::BinaryOp(
                    FlagOp::Xor,
                    Box::new(FlagExpr::BinaryOp(
                        FlagOp::Or,
                        Box::new(reference("Self", "First")),
                        Box::new(reference("Self", "Second")),
                    )),
                    Box::new(FlagExpr::BinaryOp(
                        FlagOp::And,
                        Box::new(reference("Self", "Second")),
                        Box::new(reference("Self", "Third")),
                    )),
                )),
            ),
        ],
    )
    .unwrap();
    assert_eq!(fs.get(&"Mixed".to_string()).unwrap().to_bits(), 3);
}

#[test]
fn variant_with_fields_fails() {
    let r = flags(
        &"Modes".to_string(),
        vec![VariantDecl {
            name: "Payload".to_string(),
            is_unit: false,
            discriminant: Some(FlagExpr::Literal(1)),
        }],
    );
    assert_eq!(r.unwrap_err(), FlagError::NonUnitVariant { name: "Payload".to_string() });
}

#[test]
fn wrong_qualifier_is_invalid() {
    let r = flags(
        &"Modes".to_string(),
        vec![
            variant("First", Some(FlagExpr::Literal(1))),
            variant("Alias", Some(reference("Elsewhere", "First"))),
        ],
    );
    assert_eq!(r.unwrap_err(), FlagError::InvalidExpression { name: "Alias".to_string() });
}

#[test]
fn one_segment_path_is_invalid() {
    let r = flags(
        &"Modes".to_string(),
        vec![
            variant("First", Some(FlagExpr::Literal(1))),
            variant("Alias", Some(FlagExpr::Reference(vec!["First".to_string()]))),
        ],
    );
    assert_eq!(r.unwrap_err(), FlagError::InvalidExpression { name: "Alias".to_string() });
}

#[test]
fn unsupported_expression_is_invalid() {
    let r = flags(
        &"Modes".to_string(),
        vec![variant("Odd", Some(FlagExpr::Unsupported))],
    );
    assert_eq!(r.unwrap_err(), FlagError::InvalidExpression { name: "Odd".to_string() });
}

#[test]
fn unsupported_operator_is_invalid() {
    let r = flags(
        &"Modes".to_string(),
        vec![variant(
            "Sum",
            Some(FlagExpr::UnsupportedBinaryOp(
                Box::new(FlagExpr::Literal(1)),
                Box::new(FlagExpr::Literal(2)),
            )),
        )],
    );
    assert_eq!(r.unwrap_err(), FlagError::InvalidExpression { name: "Sum".to_string() });
}

#[test]
fn unsupported_operator_behind_missing_reference_defers() {
    // The bad operator is only reported once both operands resolve; a
    // left operand that never resolves leaves the declaration deadlocked
    // instead.
    let r = flags(
        &"Modes".to_string(),
        vec![variant(
            "Sum",
            Some(FlagExpr::UnsupportedBinaryOp(
                Box::new(reference("Self", "Nowhere")),
                Box::new(FlagExpr::Literal(2)),
            )),
        )],
    );
    assert_eq!(
        r.unwrap_err(),
        FlagError::UnresolvedDiscriminant { name: "Sum".to_string() }
    );
}

#[test]
fn empty_set_resolves() {
    let fs = flags(&"Modes".to_string(), vec![]).unwrap();
    assert_eq!(fs.len(), 0);
    assert_eq!(fs.none_flag().to_bits(), 0);
    assert_eq!(fs.all_flag().to_bits(), 255);
}
