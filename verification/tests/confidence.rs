use haste::confidence::ConfidenceLevel;

#[test]
fn confidence_level_default() {
    assert_eq!(ConfidenceLevel::default(), ConfidenceLevel::CL99);
}

#[test]
fn confidence_level_from_str() {
    assert_eq!(
        ConfidenceLevel::from_str("90", false).unwrap(),
        ConfidenceLevel::CL90
    );
    assert_eq!(
        ConfidenceLevel::from_str("95", false).unwrap(),
        ConfidenceLevel::CL95
    );
    assert_eq!(
        ConfidenceLevel::from_str("99", false).unwrap(),
        ConfidenceLevel::CL99
    );
}

#[test]
fn confidence_level_from_str_ignoring_case() {
    assert_eq!(
        ConfidenceLevel::from_str("95", true).unwrap(),
        ConfidenceLevel::CL95
    );
}

#[test]
fn confidence_level_from_str_rejects_other_names() {
    assert_eq!(
        ConfidenceLevel::from_str("80", false),
        Err("invalid variant: 80".to_string())
    );
    assert_eq!(
        ConfidenceLevel::from_str("", false),
        Err("invalid variant: ".to_string())
    );
    assert_eq!(
        ConfidenceLevel::from_str("990", false),
        Err("invalid variant: 990".to_string())
    );
    assert_eq!(
        ConfidenceLevel::from_str(" 99", false),
        Err("invalid variant:  99".to_string())
    );
}

#[test]
fn confidence_level_critical_values() {
    assert_eq!(ConfidenceLevel::CL90.zval(), 1645);
    assert_eq!(ConfidenceLevel::CL95.zval(), 1960);
    assert_eq!(ConfidenceLevel::CL99.zval(), 2576);
}

#[test]
fn confidence_level_percentages() {
    assert_eq!(ConfidenceLevel::CL90.as_percent(), 90);
    assert_eq!(ConfidenceLevel::CL95.as_percent(), 95);
    assert_eq!(ConfidenceLevel::CL99.as_percent(), 99);
}
