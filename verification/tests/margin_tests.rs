use winr::margin::Margin;
use std::collections::hash_map::DefaultHasher;
use std::hash::{Hash, Hasher};

fn json_value(s: &str) -> serde_json::Value {
    serde_json::from_str(s).unwrap()
}

#[test]
fn test_margin_serialization() {
    let margin = Margin::new(10, 20, 30, 40);

    let deserialized = Margin::from_json(&margin.to_json()).unwrap();
    assert_eq!(margin, deserialized);

    let expected_json = r#"{"top":10,"right":20,"bottom":30,"left":40}"#;
    assert_eq!(json_value(&margin.to_json()), json_value(expected_json));
}

#[test]
fn test_margin_default() {
    let margin = Margin::default();

    let deserialized = Margin::from_json(&margin.to_json()).unwrap();
    assert_eq!(margin, deserialized);

    assert_eq!(margin.top, 0);
    assert_eq!(margin.right, 0);
    assert_eq!(margin.bottom, 0);
    assert_eq!(margin.left, 0);

    let expected_json = r#"{"top":0,"right":0,"bottom":0,"left":0}"#;
    assert_eq!(json_value(&margin.to_json()), json_value(expected_json));
}

#[test]
fn test_margin_builder_methods() {
    let margin = Margin::new(5, 5, 5, 5).top(10).right(15).bottom(20).left(25);

    assert_eq!(margin.top, 10);
    assert_eq!(margin.right, 15);
    assert_eq!(margin.bottom, 20);
    assert_eq!(margin.left, 25);

    let deserialized = Margin::from_json(&margin.to_json()).unwrap();
    assert_eq!(margin, deserialized);
}

#[test]
fn test_margin_horizontal_method() {
    let margin = Margin::new(10, 0, 20, 0).horizontal(30);

    // Should set left and right to 15 each (30/2)
    assert_eq!(margin.top, 10);
    assert_eq!(margin.right, 15);
    assert_eq!(margin.bottom, 20);
    assert_eq!(margin.left, 15);

    let deserialized = Margin::from_json(&margin.to_json()).unwrap();
    assert_eq!(margin, deserialized);
}

#[test]
fn test_margin_vertical_method() {
    let margin = Margin::new(0, 10, 0, 20).vertical(40);

    // Should set top and bottom to 20 each (40/2)
    assert_eq!(margin.top, 20);
    assert_eq!(margin.right, 10);
    assert_eq!(margin.bottom, 20);
    assert_eq!(margin.left, 20);

    let deserialized = Margin::from_json(&margin.to_json()).unwrap();
    assert_eq!(margin, deserialized);
}

#[test]
fn test_margin_deserialization_from_json() {
    let json = r#"{"top":5,"right":10,"bottom":15,"left":20}"#;
    let expected_margin = Margin::new(5, 10, 15, 20);
    assert_eq!(Margin::from_json(json).unwrap(), expected_margin);
}

#[test]
fn test_margin_edge_cases() {
    let zero_margin = Margin::new(0, 0, 0, 0);
    let deserialized = Margin::from_json(&zero_margin.to_json()).unwrap();
    assert_eq!(zero_margin, deserialized);

    let max_margin = Margin::new(u16::MAX, u16::MAX, u16::MAX, u16::MAX);
    let deserialized = Margin::from_json(&max_margin.to_json()).unwrap();
    assert_eq!(max_margin, deserialized);

    let min_margin = Margin::new(u16::MIN, u16::MIN, u16::MIN, u16::MIN);
    let deserialized = Margin::from_json(&min_margin.to_json()).unwrap();
    assert_eq!(min_margin, deserialized);
}

#[test]
fn test_margin_equality() {
    let margin1 = Margin::new(10, 20, 30, 40);
    let margin2 = Margin::new(10, 20, 30, 40);
    let margin3 = Margin::new(40, 30, 20, 10);

    assert_eq!(margin1, margin2);
    assert_ne!(margin1, margin3);

    let mut hasher1 = DefaultHasher::new();
    margin1.hash(&mut hasher1);
    let hash1 = hasher1.finish();

    let mut hasher2 = DefaultHasher::new();
    margin2.hash(&mut hasher2);
    let hash2 = hasher2.finish();

    assert_eq!(hash1, hash2);
}

#[test]
fn test_margin_chain_operations() {
    let initial = Margin::default();
    let final_margin = initial
        .top(10)
        .right(20)
        .bottom(30)
        .left(40)
        .top(50) // Should override previous top
        .right(60); // Should override previous right

    assert_eq!(final_margin.top, 50);
    assert_eq!(final_margin.right, 60);
    assert_eq!(final_margin.bottom, 30);
    assert_eq!(final_margin.left, 40);

    let deserialized = Margin::from_json(&final_margin.to_json()).unwrap();
    assert_eq!(final_margin, deserialized);
}

#[test]
fn test_margin_symmetrical_values() {
    let uniform = Margin::new(15, 15, 15, 15);
    let deserialized = Margin::from_json(&uniform.to_json()).unwrap();
    assert_eq!(uniform, deserialized);

    let horizontal_sym = Margin::new(10, 20, 30, 20);
    let deserialized = Margin::from_json(&horizontal_sym.to_json()).unwrap();
    assert_eq!(horizontal_sym, deserialized);

    let vertical_sym = Margin::new(15, 10, 15, 25);
    let deserialized = Margin::from_json(&vertical_sym.to_json()).unwrap();
    assert_eq!(vertical_sym, deserialized);
}

#[test]
fn test_margin_horizontal_vertical_combinations() {
    let base = Margin::new(10, 20, 30, 40);

    let margin1 = base.horizontal(50).vertical(60);
    assert_eq!(margin1.top, 30); // 60/2
    assert_eq!(margin1.right, 25); // 50/2
    assert_eq!(margin1.bottom, 30); // 60/2
    assert_eq!(margin1.left, 25); // 50/2

    let margin2 = base.vertical(60).horizontal(50);
    assert_eq!(margin2.top, 30); // 60/2
    assert_eq!(margin2.right, 25); // 50/2
    assert_eq!(margin2.bottom, 30); // 60/2
    assert_eq!(margin2.left, 25); // 50/2

    assert_eq!(margin1, margin2);

    let deserialized = Margin::from_json(&margin1.to_json()).unwrap();
    assert_eq!(margin1, deserialized);
}
