use abe_policy::{AccessPolicy, Attribute, EncryptionHint, Error, Policy, PolicyAxis};

/// Generate a new policy.
fn policy() -> Result<Policy, Error> {
    let sec_level = PolicyAxis::new(
        "Security Level",
        vec![
            ("Protected", EncryptionHint::Classic),
            ("Confidential", EncryptionHint::Classic),
            ("Top Secret", EncryptionHint::Hybridized),
        ],
        true,
    );
    let department = PolicyAxis::new(
        "Department",
        vec![
            ("R&D", EncryptionHint::Classic),
            ("HR", EncryptionHint::Classic),
            ("MKG", EncryptionHint::Classic),
            ("FIN", EncryptionHint::Classic),
        ],
        false,
    );
    let mut policy = Policy::new(100);
    policy.add_axis(sec_level)?;
    policy.add_axis(department)?;
    Ok(policy)
}

/// Serialize the policy.
#[test]
fn write_policy() {
    let policy = policy().unwrap();
    let _blob = policy.to_json_string();
}

/// Read a policy in either schema.
#[test]
fn read_policy() {
    // read policy
    let policy_str = policy().unwrap().to_json_string();
    let _policy = Policy::parse_and_convert(policy_str.as_bytes()).unwrap();

    // read legacy policy (no version tag, bare slot histories) as current policy
    let legacy_policy_str = r#"{
        "last_attribute_value": 2,
        "max_attribute_creations": 10,
        "axes": {"Department": {"attribute_names": ["HR", "FIN"], "is_hierarchical": false}},
        "attributes": {"Department::HR": [1], "Department::FIN": [2]}
    }"#;
    let _policy = Policy::parse_and_convert(legacy_policy_str.as_bytes()).unwrap();
}

#[test]
fn policy_round_trips_through_its_encoding() {
    let mut policy = policy().unwrap();
    policy.rotate(&Attribute::new("Department", "FIN")).unwrap();
    let blob = policy.to_json_string();
    let decoded = Policy::parse_and_convert(blob.as_bytes()).unwrap();
    assert_eq!(blob, decoded.to_json_string());
    assert_eq!(
        policy.attribute_values(&Attribute::new("Department", "FIN")).unwrap(),
        decoded.attribute_values(&Attribute::new("Department", "FIN")).unwrap()
    );
}

#[test]
fn encoding_escapes_special_characters() {
    let mut policy = Policy::new(5);
    policy
        .add_axis(PolicyAxis::new(
            "Na\"me\\with\nspecials",
            vec![("Dépar€ment", EncryptionHint::Classic)],
            false,
        ))
        .unwrap();
    let blob = policy.to_json_string();
    let decoded = Policy::parse_and_convert(blob.as_bytes()).unwrap();
    assert_eq!(blob, decoded.to_json_string());
    let attr = Attribute::new("Na\"me\\with\nspecials", "Dépar€ment");
    assert_eq!(1, decoded.attribute_current_value(&attr).unwrap());
}

#[test]
fn legacy_blob_upgrades_to_the_native_policy() {
    // a hand-written legacy blob, decoded via the migration path, equals a
    // policy built natively with the same axes and Classic hints
    let legacy = r#" {
        "max_attribute_creations": 50,
        "axes": {
            "Security Level": {"attribute_names": ["Protected", "Top Secret"], "is_hierarchical": true},
            "Department": {"attribute_names": ["HR"], "is_hierarchical": false}
        },
        "attributes": {
            "Security Level::Protected": [1],
            "Security Level::Top Secret": [2],
            "Department::HR": [3]
        },
        "last_attribute_value": 3
    } "#;
    let decoded = Policy::parse_and_convert(legacy.as_bytes()).unwrap();
    let mut native = Policy::new(50);
    native
        .add_axis(PolicyAxis::new(
            "Security Level",
            vec![
                ("Protected", EncryptionHint::Classic),
                ("Top Secret", EncryptionHint::Classic),
            ],
            true,
        ))
        .unwrap();
    native
        .add_axis(PolicyAxis::new("Department", vec![("HR", EncryptionHint::Classic)], false))
        .unwrap();
    assert_eq!(native.to_json_string(), decoded.to_json_string());
}

#[test]
fn current_schema_wins_over_legacy() {
    // a current-schema blob keeps its hints through decoding
    let mut policy = Policy::new(5);
    policy
        .add_axis(PolicyAxis::new(
            "Department",
            vec![("HR", EncryptionHint::Hybridized)],
            false,
        ))
        .unwrap();
    let blob = policy.to_json_string();
    let decoded = Policy::parse_and_convert(blob.as_bytes()).unwrap();
    assert_eq!(
        EncryptionHint::Hybridized,
        decoded
            .attribute_hybridization_hint(&Attribute::new("Department", "HR"))
            .unwrap()
    );
}

#[test]
fn undecodable_blobs_are_deserialization_errors() {
    assert!(matches!(
        Policy::parse_and_convert(b"not json at all"),
        Err(Error::DeserializationError(_))
    ));
    assert!(matches!(
        Policy::parse_and_convert(b"{\"version\":\"V2\"}"),
        Err(Error::DeserializationError(_))
    ));
    // invalid UTF-8
    assert!(matches!(
        Policy::parse_and_convert(&[0xff, 0xfe, b'{']),
        Err(Error::DeserializationError(_))
    ));
    // truncated
    assert!(matches!(
        Policy::parse_and_convert(b"{\"version\":\"V1\""),
        Err(Error::DeserializationError(_))
    ));
}

#[test]
fn decoded_registry_inconsistencies_are_reported() {
    // an attribute with an empty slot history decodes, but cannot answer a
    // current-value query
    let blob = r#"{
        "last_attribute_value": 0,
        "max_attribute_creations": 5,
        "axes": {"D": {"attribute_names": ["a"], "is_hierarchical": false}},
        "attributes": {"D::a": []}
    }"#;
    let decoded = Policy::parse_and_convert(blob.as_bytes()).unwrap();
    assert!(matches!(
        decoded.attribute_current_value(&Attribute::new("D", "a")),
        Err(Error::InvalidAttribute(_))
    ));
}

#[test]
fn test_policy_expression_to_json() {
    let expr = "Department::   MKG && (   Country::France || Country::Spain)";
    let access_policy = AccessPolicy::from_boolean_expression(expr).unwrap();
    let json = access_policy.to_json_string();
    assert_eq!(
        r#"{"And":[{"Attr":"Department::MKG"},{"Or":[{"Attr":"Country::France"},{"Attr":"Country::Spain"}]}]}"#,
        json
    );
    assert_eq!(98, json.len());
}

#[test]
fn access_policy_all_encodes_as_a_bare_tag() {
    assert_eq!("\"All\"", AccessPolicy::All.to_json_string());
}

#[test]
fn error_messages_carry_their_diagnostic_text() {
    let e = Error::AttributeNotFound("Department::MKG".to_string());
    assert_eq!("attribute not found: Department::MKG", e.message());
    assert_eq!("attribute capacity overflow", Error::CapacityOverflow.message());
    assert_eq!("no axis given", Error::MissingAxis.message());
    assert_eq!(
        "policy Department already exists",
        Error::ExistingPolicy("Department".to_string()).message()
    );
}

#[test]
fn access_policy_round_trips_through_its_encoding() {
    let original = AccessPolicy::new("Security Level", "Top Secret").and(
        AccessPolicy::new("Department", "MKG").or(AccessPolicy::new("Department", "FIN")),
    );
    let json = original.to_json_string();
    let decoded = AccessPolicy::from_json_string(&json).unwrap();
    assert_eq!(original, decoded);
    assert_eq!(json, decoded.to_json_string());

    let all = AccessPolicy::All;
    assert_eq!(all, AccessPolicy::from_json_string(&all.to_json_string()).unwrap());

    assert!(matches!(
        AccessPolicy::from_json_string("{\"Not\":[]}"),
        Err(Error::DeserializationError(_))
    ));
}
