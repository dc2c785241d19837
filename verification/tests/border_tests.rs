use winr::border::BorderType;

fn json_value(s: &str) -> serde_json::Value {
    serde_json::from_str(s).unwrap()
}

#[test]
fn test_border_type_serialization() {
    let border_types = vec![
        BorderType::Solid,
        BorderType::Dashed,
        BorderType::Dotted,
        BorderType::Double,
    ];

    for border_type in border_types {
        let deserialized = BorderType::from_json(&border_type.to_json()).unwrap();
        assert_eq!(border_type, deserialized);
    }

    assert_eq!(json_value(&BorderType::Solid.to_json()), json_value(r#""Solid""#));
    assert_eq!(json_value(&BorderType::Dashed.to_json()), json_value(r#""Dashed""#));
    assert_eq!(json_value(&BorderType::Dotted.to_json()), json_value(r#""Dotted""#));
    assert_eq!(json_value(&BorderType::Double.to_json()), json_value(r#""Double""#));
}

#[test]
fn test_border_type_from_json() {
    assert_eq!(BorderType::from_json(r#""Solid""#).unwrap(), BorderType::Solid);
    assert_eq!(BorderType::from_json(r#""Dashed""#).unwrap(), BorderType::Dashed);
    assert_eq!(BorderType::from_json(r#""Dotted""#).unwrap(), BorderType::Dotted);
    assert_eq!(BorderType::from_json(r#""Double""#).unwrap(), BorderType::Double);
}
