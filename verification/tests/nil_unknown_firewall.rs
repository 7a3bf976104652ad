use ajisai::value::Value;

#[test]
fn unknown_variant_satisfies_type_level_firewall() {
    let u = Value::unknown();
    assert!(u.is_unknown(), "unknown() must be U");
    assert!(!u.is_nil(), "U is not NIL (type-level split)");
    assert!(!u.is_absent(), "U is not an operational absence");
    assert!(!u.is_operational_nil(), "U is not an operational NIL");
    assert_eq!(u.nil_reason(), None, "U carries no NIL reason");
    assert!(u.absence_metadata().is_none(), "U carries no NIL absence metadata");

    let nil = Value::nil();
    assert!(!nil.is_unknown(), "NIL is not U");
    assert!(nil.is_nil(), "NIL is NIL");
    assert!(nil.is_operational_nil(), "NIL is an operational NIL");
}

#[test]
fn unknown_agreed_prefix_diagnosis_survives_on_its_own_carrier() {
    let diagnosed = Value::unknown_with_agreed_prefix(Some("COMPARE-WITHIN"), 5);
    assert!(diagnosed.is_unknown());
    assert_eq!(
        diagnosed.nil_diagnosis().and_then(|d| d.agreed_prefix),
        Some(5),
        "agreedPrefix must survive on U's own diagnostic carrier"
    );
    assert!(
        diagnosed.absence_metadata().is_none(),
        "the diagnosis must not be carried as NIL absence metadata"
    );
    let bare = Value::unknown();
    assert!(bare.nil_diagnosis().is_none(), "a bare U carries no diagnosis");
}
