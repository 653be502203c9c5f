use abe_policy::{AccessPolicy, Attribute, EncryptionHint, Error, Policy, PolicyAxis};

fn policy() -> Policy {
    let mut policy = Policy::new(100);
    policy
        .add_axis(PolicyAxis::new(
            "Security Level",
            vec![
                ("Protected", EncryptionHint::Classic),
                ("Confidential", EncryptionHint::Classic),
                ("Top Secret", EncryptionHint::Hybridized),
            ],
            true,
        ))
        .unwrap();
    policy
        .add_axis(PolicyAxis::new(
            "Department",
            vec![
                ("R&D", EncryptionHint::Classic),
                ("HR", EncryptionHint::Classic),
                ("MKG", EncryptionHint::Classic),
                ("FIN", EncryptionHint::Classic),
            ],
            false,
        ))
        .unwrap();
    policy
}

#[test]
fn parses_the_documented_example() {
    let ap = AccessPolicy::from_boolean_expression(
        "Department::MKG && (Country::France || Country::Spain)",
    )
    .unwrap();
    let expected = AccessPolicy::new("Department", "MKG").and(
        AccessPolicy::new("Country", "France").or(AccessPolicy::new("Country", "Spain")),
    );
    assert_eq!(expected, ap);
}

#[test]
fn first_operator_takes_the_whole_remainder() {
    // `A && B || C` parses as And(A, Or(B, C)), not left to right
    let ap = AccessPolicy::from_boolean_expression("D::a && D::b || D::c").unwrap();
    let expected = AccessPolicy::new("D", "a")
        .and(AccessPolicy::new("D", "b").or(AccessPolicy::new("D", "c")));
    assert_eq!(expected, ap);
}

#[test]
fn spaces_are_trimmed_around_separators_only() {
    let ap =
        AccessPolicy::from_boolean_expression("  Security Level ::  Top Secret  ").unwrap();
    let expected = AccessPolicy::new("Security Level", "Top Secret");
    assert_eq!(expected, ap);
    // internal spaces of names survive
    let ap = AccessPolicy::from_boolean_expression("(A::b c || d e::F)").unwrap();
    let expected = AccessPolicy::new("A", "b c").or(AccessPolicy::new("d e", "F"));
    assert_eq!(expected, ap);
}

#[test]
fn rejects_malformed_expressions() {
    assert!(matches!(
        AccessPolicy::from_boolean_expression("no separator here"),
        Err(Error::InvalidBooleanExpression(_))
    ));
    assert!(matches!(
        AccessPolicy::from_boolean_expression("(D::a && D::b"),
        Err(Error::InvalidBooleanExpression(_))
    ));
    assert!(matches!(
        AccessPolicy::from_boolean_expression("D::a::b"),
        Err(Error::InvalidBooleanExpression(_))
    ));
    assert!(matches!(
        AccessPolicy::from_boolean_expression("::name"),
        Err(Error::InvalidBooleanExpression(_))
    ));
    match AccessPolicy::from_boolean_expression("(D::a)zz D::b") {
        Err(Error::UnsupportedOperator(op)) => assert_eq!("zz", op),
        other => panic!("unexpected result: {other:?}"),
    }
}

#[test]
fn renders_and_reparses_structurally_equal() {
    // an access policy built via combinators, rendered to its textual form
    // and re-parsed, is structurally equal to the original
    let original = AccessPolicy::new("Security Level", "Top Secret").and(
        AccessPolicy::new("Department", "MKG").or(AccessPolicy::new("Department", "FIN")),
    );
    let text = original.to_boolean_expression();
    assert_eq!("(Security Level::Top Secret&&(Department::MKG||Department::FIN))", text);
    let reparsed = AccessPolicy::from_boolean_expression(&text).unwrap();
    assert_eq!(original, reparsed);

    let original = AccessPolicy::new("D", "a")
        .or(AccessPolicy::new("D", "b"))
        .or(AccessPolicy::new("D", "c").and(AccessPolicy::new("E", "d")));
    let reparsed =
        AccessPolicy::from_boolean_expression(&original.to_boolean_expression()).unwrap();
    assert_eq!(original, reparsed);
}

#[test]
fn structural_equality_tolerates_grouping() {
    let a = AccessPolicy::new("D", "a");
    let b = AccessPolicy::new("D", "b");
    let c = AccessPolicy::new("D", "c");
    let left = a.and(b).and(c);
    let a2 = AccessPolicy::new("D", "a");
    let b2 = AccessPolicy::new("D", "b");
    let c2 = AccessPolicy::new("D", "c");
    let right = a2.and(b2.and(c2));
    assert_eq!(left, right);
    // algebraically distinct expressions stay distinct
    let conj = AccessPolicy::new("D", "a").and(AccessPolicy::new("D", "b"));
    let disj = AccessPolicy::new("D", "a").or(AccessPolicy::new("D", "b"));
    assert_ne!(conj, disj);
    let other = AccessPolicy::new("D", "a").and(AccessPolicy::new("D", "c"));
    assert_ne!(conj, other);
}

#[test]
fn from_axes_ors_attributes_and_ands_axes() {
    // {"Department": ["HR","FIN"], "Level": ["level_2"]} equals
    // (Department::HR | Department::FIN) & Level::level_2
    let axes = vec![
        ("Department".to_string(), vec!["HR".to_string(), "FIN".to_string()]),
        ("Level".to_string(), vec!["level_2".to_string()]),
    ];
    let ap = AccessPolicy::from_axes(&axes).unwrap();
    let expected = (AccessPolicy::new("Department", "HR")
        .or(AccessPolicy::new("Department", "FIN")))
    .and(AccessPolicy::new("Level", "level_2"));
    assert_eq!(expected, ap);
}

#[test]
fn from_axes_rejects_empty_inputs() {
    assert!(matches!(
        AccessPolicy::from_axes(&vec![]),
        Err(Error::MissingAxis)
    ));
    let axes = vec![
        ("Department".to_string(), vec!["HR".to_string()]),
        ("Level".to_string(), vec![]),
    ];
    match AccessPolicy::from_axes(&axes) {
        Err(Error::MissingAttribute { item, axis_name }) => {
            assert!(item.is_none());
            assert_eq!(Some("Level".to_string()), axis_name);
        },
        other => panic!("unexpected result: {other:?}"),
    }
}

#[test]
fn attributes_are_sorted() {
    let ap = AccessPolicy::new("Z", "z")
        .and(AccessPolicy::new("A", "b").or(AccessPolicy::new("A", "a")));
    let attrs = ap.attributes();
    assert_eq!(
        vec![
            Attribute::new("A", "a"),
            Attribute::new("A", "b"),
            Attribute::new("Z", "z"),
        ],
        attrs
    );
}

#[test]
fn hierarchical_axis_expands_to_lower_ranks() {
    // resolving Attr(Security Level, Top Secret) with follow_hierarchy=true
    // yields exactly three singleton tuples, the literal first
    let policy = policy();
    let ap = AccessPolicy::new("Security Level", "Top Secret");
    let combinations = ap.to_attribute_combinations(&policy, true).unwrap();
    assert_eq!(
        vec![
            vec![Attribute::new("Security Level", "Top Secret")],
            vec![Attribute::new("Security Level", "Protected")],
            vec![Attribute::new("Security Level", "Confidential")],
        ],
        combinations
    );
    // without following the hierarchy only the literal itself remains
    let combinations = ap.to_attribute_combinations(&policy, false).unwrap();
    assert_eq!(vec![vec![Attribute::new("Security Level", "Top Secret")]], combinations);
}

#[test]
fn combinations_form_the_disjunctive_normal_form() {
    let policy = policy();
    // (MKG || FIN) && Protected, non-hierarchical resolution
    let ap = (AccessPolicy::new("Department", "MKG")
        .or(AccessPolicy::new("Department", "FIN")))
    .and(AccessPolicy::new("Security Level", "Protected"));
    let combinations = ap.to_attribute_combinations(&policy, false).unwrap();
    assert_eq!(
        vec![
            vec![
                Attribute::new("Department", "MKG"),
                Attribute::new("Security Level", "Protected"),
            ],
            vec![
                Attribute::new("Department", "FIN"),
                Attribute::new("Security Level", "Protected"),
            ],
        ],
        combinations
    );
    // All resolves to a single empty tuple
    let all = AccessPolicy::All;
    assert_eq!(vec![Vec::<Attribute>::new()], all.to_attribute_combinations(&policy, true).unwrap());
    // an unknown axis is reported
    let ap = AccessPolicy::new("Country", "France");
    match ap.to_attribute_combinations(&policy, true) {
        Err(Error::InvalidAxis(axis)) => assert_eq!("Country", axis),
        other => panic!("unexpected result: {other:?}"),
    }
}
