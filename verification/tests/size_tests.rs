use winr::size::{Size, SizePolicy};
use std::collections::hash_map::DefaultHasher;
use std::hash::{Hash, Hasher};

fn json_value(s: &str) -> serde_json::Value {
    serde_json::from_str(s).unwrap()
}

#[test]
fn test_size_policy_serialization() {
    let policies = vec![SizePolicy::Fixed, SizePolicy::Fill, SizePolicy::Fit];

    for policy in policies {
        let deserialized = SizePolicy::from_json(&policy.to_json()).unwrap();
        assert_eq!(policy, deserialized);
    }

    assert_eq!(json_value(&SizePolicy::Fixed.to_json()), json_value(r#""Fixed""#));
    assert_eq!(json_value(&SizePolicy::Fill.to_json()), json_value(r#""Fill""#));
    assert_eq!(json_value(&SizePolicy::Fit.to_json()), json_value(r#""Fit""#));
}

#[test]
fn test_size_policy_default() {
    let default_policy = SizePolicy::default();
    assert_eq!(default_policy, SizePolicy::Fixed);

    let deserialized = SizePolicy::from_json(&default_policy.to_json()).unwrap();
    assert_eq!(default_policy, deserialized);
}

#[test]
fn test_size_serialization() {
    let size = Size::new(800, 600);

    let deserialized = Size::from_json(&size.to_json()).unwrap();
    assert_eq!(size, deserialized);

    let expected_json = r#"{"height":800,"width":600}"#;
    assert_eq!(json_value(&size.to_json()), json_value(expected_json));
}

#[test]
fn test_size_default() {
    let size = Size::default();

    let deserialized = Size::from_json(&size.to_json()).unwrap();
    assert_eq!(size, deserialized);

    assert_eq!(size.height(), 0);
    assert_eq!(size.width(), 0);

    let expected_json = r#"{"height":0,"width":0}"#;
    assert_eq!(json_value(&size.to_json()), json_value(expected_json));
}

#[test]
fn test_size_builder_methods() {
    let size = Size::new(100, 200).with_width(300).with_height(400);

    assert_eq!(size.width(), 300);
    assert_eq!(size.height(), 400);

    let deserialized = Size::from_json(&size.to_json()).unwrap();
    assert_eq!(size, deserialized);
}

#[test]
fn test_size_getters() {
    let size = Size::new(1920, 1080);

    assert_eq!(size.height(), 1920);
    assert_eq!(size.width(), 1080);

    let deserialized = Size::from_json(&size.to_json()).unwrap();
    assert_eq!(deserialized.height(), 1920);
    assert_eq!(deserialized.width(), 1080);
}

#[test]
fn test_size_deserialization_from_json() {
    let json = r#"{"height":1024,"width":768}"#;
    let expected_size = Size::new(1024, 768);
    assert_eq!(Size::from_json(json).unwrap(), expected_size);
}

#[test]
fn test_size_edge_cases() {
    let zero_size = Size::new(0, 0);
    let deserialized = Size::from_json(&zero_size.to_json()).unwrap();
    assert_eq!(zero_size, deserialized);

    let max_size = Size::new(u16::MAX, u16::MAX);
    let deserialized = Size::from_json(&max_size.to_json()).unwrap();
    assert_eq!(max_size, deserialized);

    let min_size = Size::new(u16::MIN, u16::MIN);
    let deserialized = Size::from_json(&min_size.to_json()).unwrap();
    assert_eq!(min_size, deserialized);
}

#[test]
fn test_size_equality() {
    let size1 = Size::new(800, 600);
    let size2 = Size::new(800, 600);
    let size3 = Size::new(600, 800);

    assert_eq!(size1, size2);
    assert_ne!(size1, size3);

    let mut hasher1 = DefaultHasher::new();
    size1.hash(&mut hasher1);
    let hash1 = hasher1.finish();

    let mut hasher2 = DefaultHasher::new();
    size2.hash(&mut hasher2);
    let hash2 = hasher2.finish();

    assert_eq!(hash1, hash2);
}

#[test]
fn test_size_chain_operations() {
    let initial = Size::default();
    let final_size = initial
        .with_width(200)
        .with_height(300)
        .with_width(400) // Should override previous width
        .with_height(500); // Should override previous height

    assert_eq!(final_size.width(), 400);
    assert_eq!(final_size.height(), 500);

    let deserialized = Size::from_json(&final_size.to_json()).unwrap();
    assert_eq!(final_size, deserialized);
}

#[test]
fn test_size_policy_deserialization_from_json() {
    assert_eq!(SizePolicy::from_json(r#""Fixed""#).unwrap(), SizePolicy::Fixed);
    assert_eq!(SizePolicy::from_json(r#""Fill""#).unwrap(), SizePolicy::Fill);
    assert_eq!(SizePolicy::from_json(r#""Fit""#).unwrap(), SizePolicy::Fit);
}

#[test]
fn test_size_common_resolutions() {
    let common_sizes = vec![
        Size::new(1920, 1080), // Full HD
        Size::new(1280, 720),  // HD
        Size::new(3840, 2160), // 4K
        Size::new(800, 600),   // SVGA
        Size::new(1024, 768),  // XGA
    ];

    for size in common_sizes {
        let deserialized = Size::from_json(&size.to_json()).unwrap();
        assert_eq!(size, deserialized);
    }
}

#[test]
fn test_size_aspect_ratios() {
    let aspect_ratios = vec![
        Size::new(16, 9), // 16:9
        Size::new(4, 3),  // 4:3
        Size::new(21, 9), // 21:9 (ultrawide)
        Size::new(1, 1),  // 1:1 (square)
        Size::new(3, 2),  // 3:2
    ];

    for size in aspect_ratios {
        let deserialized = Size::from_json(&size.to_json()).unwrap();
        assert_eq!(size, deserialized);
    }
}
