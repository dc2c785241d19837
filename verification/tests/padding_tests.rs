use winr::padding::Padding;
use std::collections::hash_map::DefaultHasher;
use std::hash::{Hash, Hasher};

fn json_value(s: &str) -> serde_json::Value {
    serde_json::from_str(s).unwrap()
}

#[test]
fn test_padding_serialization() {
    let padding = Padding::new(10, 20, 30, 40);

    let deserialized = Padding::from_json(&padding.to_json()).unwrap();
    assert_eq!(padding, deserialized);

    let expected_json = r#"{"top":10,"right":20,"bottom":30,"left":40}"#;
    assert_eq!(json_value(&padding.to_json()), json_value(expected_json));
}

#[test]
fn test_padding_default() {
    let padding = Padding::default();

    let deserialized = Padding::from_json(&padding.to_json()).unwrap();
    assert_eq!(padding, deserialized);

    assert_eq!(padding.top, 0);
    assert_eq!(padding.right, 0);
    assert_eq!(padding.bottom, 0);
    assert_eq!(padding.left, 0);

    let expected_json = r#"{"top":0,"right":0,"bottom":0,"left":0}"#;
    assert_eq!(json_value(&padding.to_json()), json_value(expected_json));
}

#[test]
fn test_padding_builder_methods() {
    let padding = Padding::new(5, 5, 5, 5).top(10).right(15).bottom(20).left(25);

    assert_eq!(padding.top, 10);
    assert_eq!(padding.right, 15);
    assert_eq!(padding.bottom, 20);
    assert_eq!(padding.left, 25);

    let deserialized = Padding::from_json(&padding.to_json()).unwrap();
    assert_eq!(padding, deserialized);
}

#[test]
fn test_padding_horizontal_method() {
    let padding = Padding::new(10, 0, 20, 0).horizontal(30);

    // Should set left and right to 15 each (30/2)
    assert_eq!(padding.top, 10);
    assert_eq!(padding.right, 15);
    assert_eq!(padding.bottom, 20);
    assert_eq!(padding.left, 15);

    let deserialized = Padding::from_json(&padding.to_json()).unwrap();
    assert_eq!(padding, deserialized);
}

#[test]
fn test_padding_vertical_method() {
    let padding = Padding::new(0, 10, 0, 20).vertical(40);

    // Should set top and bottom to 20 each (40/2)
    assert_eq!(padding.top, 20);
    assert_eq!(padding.right, 10);
    assert_eq!(padding.bottom, 20);
    assert_eq!(padding.left, 20);

    let deserialized = Padding::from_json(&padding.to_json()).unwrap();
    assert_eq!(padding, deserialized);
}

#[test]
fn test_padding_deserialization_from_json() {
    let json = r#"{"top":5,"right":10,"bottom":15,"left":20}"#;
    let expected_padding = Padding::new(5, 10, 15, 20);
    assert_eq!(Padding::from_json(json).unwrap(), expected_padding);
}

#[test]
fn test_padding_edge_cases() {
    let zero_padding = Padding::new(0, 0, 0, 0);
    let deserialized = Padding::from_json(&zero_padding.to_json()).unwrap();
    assert_eq!(zero_padding, deserialized);

    let max_padding = Padding::new(u16::MAX, u16::MAX, u16::MAX, u16::MAX);
    let deserialized = Padding::from_json(&max_padding.to_json()).unwrap();
    assert_eq!(max_padding, deserialized);

    let min_padding = Padding::new(u16::MIN, u16::MIN, u16::MIN, u16::MIN);
    let deserialized = Padding::from_json(&min_padding.to_json()).unwrap();
    assert_eq!(min_padding, deserialized);
}

#[test]
fn test_padding_equality() {
    let padding1 = Padding::new(10, 20, 30, 40);
    let padding2 = Padding::new(10, 20, 30, 40);
    let padding3 = Padding::new(40, 30, 20, 10);

    assert_eq!(padding1, padding2);
    assert_ne!(padding1, padding3);

    let mut hasher1 = DefaultHasher::new();
    padding1.hash(&mut hasher1);
    let hash1 = hasher1.finish();

    let mut hasher2 = DefaultHasher::new();
    padding2.hash(&mut hasher2);
    let hash2 = hasher2.finish();

    assert_eq!(hash1, hash2);
}

#[test]
fn test_padding_chain_operations() {
    let initial = Padding::default();
    let final_padding = initial
        .top(10)
        .right(20)
        .bottom(30)
        .left(40)
        .top(50) // Should override previous top
        .right(60); // Should override previous right

    assert_eq!(final_padding.top, 50);
    assert_eq!(final_padding.right, 60);
    assert_eq!(final_padding.bottom, 30);
    assert_eq!(final_padding.left, 40);

    let deserialized = Padding::from_json(&final_padding.to_json()).unwrap();
    assert_eq!(final_padding, deserialized);
}

#[test]
fn test_padding_symmetrical_values() {
    let uniform = Padding::new(15, 15, 15, 15);
    let deserialized = Padding::from_json(&uniform.to_json()).unwrap();
    assert_eq!(uniform, deserialized);

    let horizontal_sym = Padding::new(10, 20, 30, 20);
    let deserialized = Padding::from_json(&horizontal_sym.to_json()).unwrap();
    assert_eq!(horizontal_sym, deserialized);

    let vertical_sym = Padding::new(15, 10, 15, 25);
    let deserialized = Padding::from_json(&vertical_sym.to_json()).unwrap();
    assert_eq!(vertical_sym, deserialized);
}

#[test]
fn test_padding_horizontal_vertical_combinations() {
    let base = Padding::new(10, 20, 30, 40);

    let padding1 = base.horizontal(50).vertical(60);
    assert_eq!(padding1.top, 30); // 60/2
    assert_eq!(padding1.right, 25); // 50/2
    assert_eq!(padding1.bottom, 30); // 60/2
    assert_eq!(padding1.left, 25); // 50/2

    let padding2 = base.vertical(60).horizontal(50);
    assert_eq!(padding2.top, 30); // 60/2
    assert_eq!(padding2.right, 25); // 50/2
    assert_eq!(padding2.bottom, 30); // 60/2
    assert_eq!(padding2.left, 25); // 50/2

    assert_eq!(padding1, padding2);

    let deserialized = Padding::from_json(&padding1.to_json()).unwrap();
    assert_eq!(padding1, deserialized);
}

#[test]
fn test_padding_common_ui_values() {
    let common_paddings = vec![
        Padding::new(4, 4, 4, 4),
        Padding::new(8, 8, 8, 8),
        Padding::new(12, 12, 12, 12),
        Padding::new(16, 16, 16, 16),
        Padding::new(20, 20, 20, 20),
        Padding::new(24, 24, 24, 24),
    ];

    for padding in common_paddings {
        let deserialized = Padding::from_json(&padding.to_json()).unwrap();
        assert_eq!(padding, deserialized);
    }
}

#[test]
fn test_padding_responsive_values() {
    let responsive_paddings = vec![
        Padding::new(8, 16, 8, 16),
        Padding::new(16, 32, 16, 32),
        Padding::new(24, 48, 24, 48),
    ];

    for padding in responsive_paddings {
        let deserialized = Padding::from_json(&padding.to_json()).unwrap();
        assert_eq!(padding, deserialized);
    }
}
