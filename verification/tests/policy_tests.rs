use abe_policy::{Attribute, EncryptionHint, Error, Policy, PolicyAxis};

/// Creates the policy object used in tests.
fn policy() -> Result<Policy, Error> {
    let sec_level = PolicyAxis::new(
        "Security Level",
        vec![
            ("Protected", EncryptionHint::Classic),
            ("Confidential", EncryptionHint::Classic),
            ("Top Secret", EncryptionHint::Hybridized),
        ],
        true,
    );
    let department = PolicyAxis::new(
        "Department",
        vec![
            ("R&D", EncryptionHint::Classic),
            ("HR", EncryptionHint::Classic),
            ("MKG", EncryptionHint::Classic),
            ("FIN", EncryptionHint::Classic),
        ],
        false,
    );
    let mut policy = Policy::new(100);
    policy.add_axis(sec_level)?;
    policy.add_axis(department)?;
    Ok(policy)
}

#[test]
fn check_policy() {
    let security_level = PolicyAxis::new(
        "Security Level",
        vec![
            ("Protected", EncryptionHint::Classic),
            ("Confidential", EncryptionHint::Classic),
            ("Top Secret", EncryptionHint::Hybridized),
        ],
        true,
    );
    let department = PolicyAxis::new(
        "Department",
        vec![
            ("R&D", EncryptionHint::Classic),
            ("HR", EncryptionHint::Classic),
            ("MKG", EncryptionHint::Classic),
            ("FIN", EncryptionHint::Classic),
        ],
        false,
    );
    let mut policy = Policy::new(100);
    policy.add_axis(security_level.clone()).unwrap();
    policy.add_axis(department.clone()).unwrap();
    // check that policy
    let attributes = policy.attributes();
    assert_eq!(security_level.len() + department.len(), attributes.len());
    for properties in &security_level.attributes_properties {
        assert!(attributes.contains(&Attribute::new("Security Level", &properties.name)))
    }
    for properties in &department.attributes_properties {
        assert!(attributes.contains(&Attribute::new("Department", &properties.name)))
    }
    for attribute in &attributes {
        assert_eq!(
            policy.attribute_values(attribute).unwrap()[0],
            policy.attribute_current_value(attribute).unwrap()
        )
    }
}

#[test]
fn test_rotate_policy_attributes() -> Result<(), Error> {
    let mut policy = policy()?;
    let attributes = policy.attributes();
    // rotate few attributes
    policy.rotate(&attributes[0])?;
    assert_eq!(2, policy.attribute_values(&attributes[0])?.len());
    policy.rotate(&attributes[2])?;
    assert_eq!(2, policy.attribute_values(&attributes[2])?.len());
    for attribute in &attributes {
        assert_eq!(
            policy.attribute_values(attribute)?[0],
            policy.attribute_current_value(attribute)?
        )
    }
    Ok(())
}

#[test]
fn fresh_axis_gets_singleton_histories() {
    // after add_axis every listed attribute has a one-slot history equal to
    // its current value, slots assigned in listed order
    let mut policy = Policy::new(10);
    let axis = PolicyAxis::new(
        "Department",
        vec![("HR", EncryptionHint::Classic), ("FIN", EncryptionHint::Hybridized)],
        false,
    );
    policy.add_axis(axis).unwrap();
    let hr = Attribute::new("Department", "HR");
    let fin = Attribute::new("Department", "FIN");
    assert_eq!(vec![1], policy.attribute_values(&hr).unwrap());
    assert_eq!(vec![2], policy.attribute_values(&fin).unwrap());
    assert_eq!(1, policy.attribute_current_value(&hr).unwrap());
    assert_eq!(2, policy.attribute_current_value(&fin).unwrap());
    assert_eq!(
        EncryptionHint::Hybridized,
        policy.attribute_hybridization_hint(&fin).unwrap()
    );
    assert_eq!(8, policy.remaining_attribute_creations());
}

#[test]
fn rotation_is_monotone() {
    let mut policy = policy().unwrap();
    let attr = Attribute::new("Department", "MKG");
    let before = policy.attribute_values(&attr).unwrap();
    let current_before = policy.attribute_current_value(&attr).unwrap();
    policy.rotate(&attr).unwrap();
    let after = policy.attribute_values(&attr).unwrap();
    let current_after = policy.attribute_current_value(&attr).unwrap();
    // history grows by exactly one
    assert_eq!(before.len() + 1, after.len());
    // the current value strictly increases
    assert!(current_after > current_before);
    assert_eq!(current_after, after[0]);
    // all prior values remain present
    for v in &before {
        assert!(after.contains(v));
    }
}

#[test]
fn capacity_is_a_hard_ceiling() {
    // a policy with three slots: the third allocation succeeds, the fourth
    // fails, whatever its kind
    let mut policy = Policy::new(3);
    let axis = PolicyAxis::new(
        "Department",
        vec![("HR", EncryptionHint::Classic), ("FIN", EncryptionHint::Classic)],
        false,
    );
    policy.add_axis(axis).unwrap();
    let hr = Attribute::new("Department", "HR");
    policy.rotate(&hr).unwrap();
    assert_eq!(0, policy.remaining_attribute_creations());
    // the (max_value + 1)-th allocation always fails with CapacityOverflow
    assert!(matches!(policy.rotate(&hr), Err(Error::CapacityOverflow)));
    let extra = PolicyAxis::new("Level", vec![("low", EncryptionHint::Classic)], false);
    assert!(matches!(policy.add_axis(extra), Err(Error::CapacityOverflow)));
    // an axis larger than the whole capacity is rejected up front
    let mut small = Policy::new(2);
    let big = PolicyAxis::new(
        "Department",
        vec![
            ("HR", EncryptionHint::Classic),
            ("FIN", EncryptionHint::Classic),
            ("MKG", EncryptionHint::Classic),
        ],
        false,
    );
    assert!(matches!(small.add_axis(big), Err(Error::CapacityOverflow)));
    assert_eq!(2, small.remaining_attribute_creations());
}

#[test]
fn readding_an_axis_is_rejected_unchanged() {
    // re-adding an axis of the same name always fails with ExistingPolicy
    // and never mutates the slot counter, whatever the new contents
    let mut policy = policy().unwrap();
    let remaining = policy.remaining_attribute_creations();
    let same_name_other_content = PolicyAxis::new(
        "Department",
        vec![("Other", EncryptionHint::Hybridized)],
        true,
    );
    match policy.add_axis(same_name_other_content) {
        Err(Error::ExistingPolicy(name)) => assert_eq!("Department", name),
        other => panic!("unexpected result: {other:?}"),
    }
    // an oversized duplicate still reports the duplicate, not the capacity
    let mut tiny = Policy::new(1);
    tiny.add_axis(PolicyAxis::new("D", vec![("a", EncryptionHint::Classic)], false))
        .unwrap();
    let oversized_duplicate = PolicyAxis::new(
        "D",
        vec![
            ("x", EncryptionHint::Classic),
            ("y", EncryptionHint::Classic),
            ("z", EncryptionHint::Classic),
        ],
        false,
    );
    assert!(matches!(
        tiny.add_axis(oversized_duplicate),
        Err(Error::ExistingPolicy(_))
    ));
    assert_eq!(remaining, policy.remaining_attribute_creations());
}

#[test]
fn duplicate_attribute_within_axis_is_rejected() {
    let mut policy = Policy::new(10);
    let axis = PolicyAxis::new(
        "Department",
        vec![("HR", EncryptionHint::Classic), ("HR", EncryptionHint::Hybridized)],
        false,
    );
    assert!(matches!(policy.add_axis(axis), Err(Error::ExistingPolicy(_))));
    // nothing was registered
    assert!(policy.attributes().is_empty());
    assert_eq!(10, policy.remaining_attribute_creations());
}

#[test]
fn unknown_attribute_queries_fail() {
    let policy = policy().unwrap();
    let ghostly = Attribute::new("Department", "Nowhere");
    assert!(matches!(
        policy.attribute_values(&ghostly),
        Err(Error::AttributeNotFound(_))
    ));
    assert!(matches!(
        policy.attribute_current_value(&ghostly),
        Err(Error::AttributeNotFound(_))
    ));
    assert!(matches!(
        policy.attribute_hybridization_hint(&ghostly),
        Err(Error::AttributeNotFound(_))
    ));
    let mut policy = policy;
    assert!(matches!(
        policy.rotate(&ghostly),
        Err(Error::AttributeNotFound(_))
    ));
}

#[test]
fn attributes_values_follow_input_order() {
    let policy = policy().unwrap();
    let list = vec![
        Attribute::new("Department", "FIN"),
        Attribute::new("Security Level", "Protected"),
    ];
    let values = policy.attributes_values(&list).unwrap();
    assert_eq!(
        vec![
            policy.attribute_current_value(&list[0]).unwrap(),
            policy.attribute_current_value(&list[1]).unwrap(),
        ],
        values
    );
    let bad = vec![
        Attribute::new("Department", "FIN"),
        Attribute::new("Country", "France"),
    ];
    assert!(matches!(
        policy.attributes_values(&bad),
        Err(Error::AttributeNotFound(_))
    ));
}

#[test]
fn hint_join_is_hybridized_if_either_is() {
    assert_eq!(
        EncryptionHint::Hybridized,
        EncryptionHint::Classic.bitor(EncryptionHint::Hybridized)
    );
    assert_eq!(
        EncryptionHint::Hybridized,
        EncryptionHint::Hybridized.bitor(EncryptionHint::Classic)
    );
    assert_eq!(
        EncryptionHint::Classic,
        EncryptionHint::Classic.bitor(EncryptionHint::Classic)
    );
    let axis = PolicyAxis::new("D", vec![("a", EncryptionHint::Classic)], true);
    assert_eq!(1, axis.len());
    assert!(!axis.is_empty());
}
