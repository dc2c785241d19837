use winr::overflow::Overflow;
use std::collections::hash_map::DefaultHasher;
use std::hash::{Hash, Hasher};

fn json_value(s: &str) -> serde_json::Value {
    serde_json::from_str(s).unwrap()
}

#[test]
fn test_overflow_variants_serialization() {
    let overflow_variants = vec![
        Overflow::Visible,
        Overflow::Hidden,
        Overflow::Scroll,
        Overflow::Auto,
    ];

    for overflow in overflow_variants {
        let deserialized = Overflow::from_json(&overflow.to_json()).unwrap();
        assert_eq!(overflow, deserialized);
    }
}

#[test]
fn test_overflow_json_output() {
    assert_eq!(json_value(&Overflow::Visible.to_json()), json_value(r#""Visible""#));
    assert_eq!(json_value(&Overflow::Hidden.to_json()), json_value(r#""Hidden""#));
    assert_eq!(json_value(&Overflow::Scroll.to_json()), json_value(r#""Scroll""#));
    assert_eq!(json_value(&Overflow::Auto.to_json()), json_value(r#""Auto""#));
}

#[test]
fn test_overflow_default() {
    let default_overflow = Overflow::default();
    assert_eq!(default_overflow, Overflow::Visible);

    let deserialized = Overflow::from_json(&default_overflow.to_json()).unwrap();
    assert_eq!(default_overflow, deserialized);

    let expected_json = r#""Visible""#;
    assert_eq!(json_value(&default_overflow.to_json()), json_value(expected_json));
}

#[test]
fn test_overflow_deserialization_from_json() {
    assert_eq!(Overflow::from_json(r#""Visible""#).unwrap(), Overflow::Visible);
    assert_eq!(Overflow::from_json(r#""Hidden""#).unwrap(), Overflow::Hidden);
    assert_eq!(Overflow::from_json(r#""Scroll""#).unwrap(), Overflow::Scroll);
    assert_eq!(Overflow::from_json(r#""Auto""#).unwrap(), Overflow::Auto);
}

#[test]
fn test_overflow_as_str() {
    assert_eq!(Overflow::Visible.as_str(), "visible");
    assert_eq!(Overflow::Hidden.as_str(), "hidden");
    assert_eq!(Overflow::Scroll.as_str(), "scroll");
    assert_eq!(Overflow::Auto.as_str(), "auto");

    let overflow = Overflow::Hidden;
    let _ = overflow.as_str();
    let deserialized = Overflow::from_json(&overflow.to_json()).unwrap();
    assert_eq!(overflow, deserialized);
}

#[test]
fn test_overflow_equality() {
    let overflow1 = Overflow::Scroll;
    let overflow2 = Overflow::Scroll;
    let overflow3 = Overflow::Auto;

    assert_eq!(overflow1, overflow2);
    assert_ne!(overflow1, overflow3);

    let mut hasher1 = DefaultHasher::new();
    overflow1.hash(&mut hasher1);
    let hash1 = hasher1.finish();

    let mut hasher2 = DefaultHasher::new();
    overflow2.hash(&mut hasher2);
    let hash2 = hasher2.finish();

    assert_eq!(hash1, hash2);
}

#[test]
fn test_overflow_clone() {
    let original = Overflow::Hidden;
    let cloned = original.clone();

    assert_eq!(original, cloned);

    let deserialized = Overflow::from_json(&cloned.to_json()).unwrap();
    assert_eq!(original, deserialized);
}

#[test]
fn test_overflow_debug() {
    let overflow = Overflow::Auto;
    let debug_str = format!("{:?}", overflow);
    assert_eq!(debug_str, "Auto");

    let deserialized = Overflow::from_json(&overflow.to_json()).unwrap();
    assert_eq!(overflow, deserialized);
}

#[test]
fn test_overflow_copy_semantics() {
    let overflow1 = Overflow::Visible;
    let overflow2 = overflow1; // This should be a copy, not a move

    assert_eq!(overflow1, Overflow::Visible);
    assert_eq!(overflow2, Overflow::Visible);
    assert_eq!(overflow1, overflow2);

    let deserialized1 = Overflow::from_json(&overflow1.to_json()).unwrap();
    let deserialized2 = Overflow::from_json(&overflow2.to_json()).unwrap();
    assert_eq!(deserialized1, deserialized2);
}

#[test]
fn test_overflow_in_collections() {
    let overflow_vec = vec![
        Overflow::Visible,
        Overflow::Hidden,
        Overflow::Scroll,
        Overflow::Auto,
    ];

    let deserialized_vec: Vec<Overflow> = overflow_vec
        .iter()
        .map(|o| Overflow::from_json(&o.to_json()).unwrap())
        .collect();
    assert_eq!(overflow_vec, deserialized_vec);

    for (original, deserialized) in overflow_vec.iter().zip(deserialized_vec.iter()) {
        assert_eq!(original, deserialized);
    }
}

#[test]
fn test_overflow_pattern_matching() {
    let overflows = vec![
        Overflow::Visible,
        Overflow::Hidden,
        Overflow::Scroll,
        Overflow::Auto,
    ];

    for overflow in overflows {
        let description = match overflow {
            Overflow::Visible => "visible",
            Overflow::Hidden => "hidden",
            Overflow::Scroll => "scroll",
            Overflow::Auto => "auto",
        };

        assert_eq!(description, overflow.as_str());

        let deserialized = Overflow::from_json(&overflow.to_json()).unwrap();
        assert_eq!(overflow, deserialized);
    }
}
