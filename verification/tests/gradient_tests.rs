use winr::color::Color;
use winr::gradient::{Gradient, GradientType};

fn json_value(s: &str) -> serde_json::Value {
    serde_json::from_str(s).unwrap()
}

#[test]
fn test_gradient_type_linear_serialization() {
    let gradient_type = GradientType::Linear(45);

    let deserialized = GradientType::from_json(&gradient_type.to_json()).unwrap();
    assert_eq!(gradient_type, deserialized);

    let expected_json = r#"{"Linear":45}"#;
    assert_eq!(json_value(&gradient_type.to_json()), json_value(expected_json));
}

#[test]
fn test_gradient_type_radial_serialization() {
    let gradient_type = GradientType::Radial((100, 200), 50);

    let deserialized = GradientType::from_json(&gradient_type.to_json()).unwrap();
    assert_eq!(gradient_type, deserialized);

    let expected_json = r#"{"Radial":[[100,200],50]}"#;
    assert_eq!(json_value(&gradient_type.to_json()), json_value(expected_json));
}

#[test]
fn test_gradient_type_conic_serialization() {
    let gradient_type = GradientType::Conic(90);

    let deserialized = GradientType::from_json(&gradient_type.to_json()).unwrap();
    assert_eq!(gradient_type, deserialized);

    let expected_json = r#"{"Conic":90}"#;
    assert_eq!(json_value(&gradient_type.to_json()), json_value(expected_json));
}

#[test]
fn test_gradient_type_constructors() {
    let linear = GradientType::lienar(45);
    assert!(linear.is_linear());
    assert!(!linear.is_radial());
    assert!(!linear.is_conic());

    let radial = GradientType::radial((100, 200), 50);
    assert!(!radial.is_linear());
    assert!(radial.is_radial());
    assert!(!radial.is_conic());

    let conic = GradientType::conic(90);
    assert!(!conic.is_linear());
    assert!(!conic.is_radial());
    assert!(conic.is_conic());

    let deserialized_linear = GradientType::from_json(&linear.to_json()).unwrap();
    assert_eq!(linear, deserialized_linear);

    let deserialized_radial = GradientType::from_json(&radial.to_json()).unwrap();
    assert_eq!(radial, deserialized_radial);

    let deserialized_conic = GradientType::from_json(&conic.to_json()).unwrap();
    assert_eq!(conic, deserialized_conic);
}

#[test]
fn test_gradient_serialization() {
    let stops = vec![
        (Color::rgb(255, 0, 0), 0),
        (Color::rgb(0, 255, 0), 50),
        (Color::rgb(0, 0, 255), 100),
    ];

    let gradient = Gradient::new(GradientType::Linear(45), stops.clone());

    let deserialized = Gradient::from_json(&gradient.to_json()).unwrap();
    assert_eq!(gradient, deserialized);

    let expected_json = r#"{"gradient_type":{"Linear":45},"stops":[[{"RGB":{"r":255,"g":0,"b":0}},0],[{"RGB":{"r":0,"g":255,"b":0}},50],[{"RGB":{"r":0,"g":0,"b":255}},100]]}"#;
    assert_eq!(json_value(&gradient.to_json()), json_value(expected_json));
}

#[test]
fn test_gradient_deserialization_from_json() {
    let linear_json = r#"{"gradient_type":{"Linear":45},"stops":[[{"RGB":{"r":255,"g":0,"b":0}},0],[{"RGB":{"r":0,"g":255,"b":0}},50],[{"RGB":{"r":0,"g":0,"b":255}},100]]}"#;
    let stops = vec![
        (Color::rgb(255, 0, 0), 0),
        (Color::rgb(0, 255, 0), 50),
        (Color::rgb(0, 0, 255), 100),
    ];
    let expected_gradient = Gradient::new(GradientType::Linear(45), stops);
    assert_eq!(Gradient::from_json(linear_json).unwrap(), expected_gradient);

    let radial_json = r#"{"gradient_type":{"Radial":[[100,200],50]},"stops":[[{"RGBA":{"r":255,"g":255,"b":255,"a":255}},0],[{"RGBA":{"r":0,"g":0,"b":0,"a":0}},100]]}"#;
    let stops = vec![
        (Color::rgba(255, 255, 255, 255), 0),
        (Color::rgba(0, 0, 0, 0), 100),
    ];
    let expected_gradient = Gradient::new(GradientType::Radial((100, 200), 50), stops);
    assert_eq!(Gradient::from_json(radial_json).unwrap(), expected_gradient);

    let conic_json = r##"{"gradient_type":{"Conic":90},"stops":[[{"HEX":{"value":"#FF0000"}},0],[{"HEX":{"value":"#00FF00"}},50],[{"HEX":{"value":"#0000FF"}},100]]}"##;
    let stops = vec![
        (Color::hex("#FF0000"), 0),
        (Color::hex("#00FF00"), 50),
        (Color::hex("#0000FF"), 100),
    ];
    let expected_gradient = Gradient::new(GradientType::Conic(90), stops);
    assert_eq!(Gradient::from_json(conic_json).unwrap(), expected_gradient);
}

#[test]
fn test_gradient_with_radial_type() {
    let stops = vec![
        (Color::rgba(255, 255, 255, 255), 0),
        (Color::rgba(0, 0, 0, 0), 100),
    ];

    let gradient = Gradient::new(GradientType::Radial((50, 50), 25), stops);

    let deserialized = Gradient::from_json(&gradient.to_json()).unwrap();
    assert_eq!(gradient, deserialized);
}

#[test]
fn test_gradient_with_conic_type() {
    let stops = vec![
        (Color::hex("#FF0000"), 0),
        (Color::hex("#00FF00"), 33),
        (Color::hex("#0000FF"), 66),
        (Color::hex("#FF0000"), 100),
    ];

    let gradient = Gradient::new(GradientType::Conic(0), stops);

    let deserialized = Gradient::from_json(&gradient.to_json()).unwrap();
    assert_eq!(gradient, deserialized);
}

#[test]
fn test_gradient_with_mixed_color_types() {
    let stops = vec![
        (Color::rgb(255, 0, 0), 0),
        (Color::rgba(0, 255, 0, 128), 25),
        (Color::hsv(240, 100, 100), 50),
        (Color::hex("#FFFF00"), 75),
        (Color::rgb(255, 0, 255), 100),
    ];

    let gradient = Gradient::new(GradientType::Linear(90), stops);

    let deserialized = Gradient::from_json(&gradient.to_json()).unwrap();
    assert_eq!(gradient, deserialized);
}

#[test]
fn test_gradient_edge_cases() {
    // Gradient with a single color stop
    let single_stop = vec![(Color::rgb(255, 255, 255), 0)];
    let gradient = Gradient::new(GradientType::Linear(0), single_stop);
    let deserialized = Gradient::from_json(&gradient.to_json()).unwrap();
    assert_eq!(gradient, deserialized);

    // Gradient with many color stops
    let many_stops: Vec<(Color, u16)> = (0..10u8)
        .map(|i| (Color::rgb(i * 25, i * 25, i * 25), (i * 10) as u16))
        .collect();
    let gradient = Gradient::new(GradientType::Linear(180), many_stops);
    let deserialized = Gradient::from_json(&gradient.to_json()).unwrap();
    assert_eq!(gradient, deserialized);

    // Gradient with extreme angle values
    let extreme_angle_gradient = Gradient::new(
        GradientType::Linear(-360),
        vec![(Color::rgb(0, 0, 0), 0), (Color::rgb(255, 255, 255), 100)],
    );
    let deserialized = Gradient::from_json(&extreme_angle_gradient.to_json()).unwrap();
    assert_eq!(extreme_angle_gradient, deserialized);
}

#[test]
fn test_gradient_type_boundary_values() {
    let max_linear = GradientType::Linear(i16::MAX);
    let min_linear = GradientType::Linear(i16::MIN);

    let deserialized_max = GradientType::from_json(&max_linear.to_json()).unwrap();
    assert_eq!(max_linear, deserialized_max);

    let deserialized_min = GradientType::from_json(&min_linear.to_json()).unwrap();
    assert_eq!(min_linear, deserialized_min);

    let extreme_radial = GradientType::Radial((i16::MAX, i16::MIN), i16::MAX);
    let deserialized_radial = GradientType::from_json(&extreme_radial.to_json()).unwrap();
    assert_eq!(extreme_radial, deserialized_radial);
}

#[test]
fn test_gradient_stops_boundary_values() {
    let boundary_stops = vec![(Color::rgb(255, 0, 0), 0), (Color::rgb(0, 255, 0), 100)];

    let gradient = Gradient::new(GradientType::Linear(45), boundary_stops);
    let deserialized = Gradient::from_json(&gradient.to_json()).unwrap();
    assert_eq!(gradient, deserialized);
}

#[test]
fn test_empty_gradient_stops() {
    let empty_stops: Vec<(Color, u16)> = vec![];
    let gradient = Gradient::new(GradientType::Linear(0), empty_stops);
    let deserialized = Gradient::from_json(&gradient.to_json()).unwrap();
    assert_eq!(gradient, deserialized);
}
