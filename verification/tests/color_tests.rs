use winr::color::{Color, HEX, HSV, RGB, RGBA};

fn json_value(s: &str) -> serde_json::Value {
    serde_json::from_str(s).unwrap()
}

#[test]
fn test_rgba_serialization() {
    let rgba = RGBA::new(255, 128, 64, 200);

    let deserialized = RGBA::from_json(&rgba.to_json()).unwrap();
    assert_eq!(rgba, deserialized);

    let expected_json = r#"{"r":255,"g":128,"b":64,"a":200}"#;
    assert_eq!(json_value(&rgba.to_json()), json_value(expected_json));
}

#[test]
fn test_rgb_serialization() {
    let rgb = RGB::new(255, 128, 64);

    let deserialized = RGB::from_json(&rgb.to_json()).unwrap();
    assert_eq!(rgb, deserialized);

    let expected_json = r#"{"r":255,"g":128,"b":64}"#;
    assert_eq!(json_value(&rgb.to_json()), json_value(expected_json));
}

#[test]
fn test_hsv_serialization() {
    let hsv = HSV::new(120, 100, 80);

    let deserialized = HSV::from_json(&hsv.to_json()).unwrap();
    assert_eq!(hsv, deserialized);

    let expected_json = r#"{"h":120,"s":100,"v":80}"#;
    assert_eq!(json_value(&hsv.to_json()), json_value(expected_json));
}

#[test]
fn test_hex_serialization() {
    let hex = HEX::new("#FF8040");

    let deserialized = HEX::from_json(&hex.to_json()).unwrap();
    assert_eq!(hex, deserialized);

    let expected_json = r##"{"value":"#FF8040"}"##;
    assert_eq!(json_value(&hex.to_json()), json_value(expected_json));
}

#[test]
fn test_color_enum_serialization() {
    let color_rgba = Color::rgba(255, 128, 64, 200);
    let deserialized_rgba = Color::from_json(&color_rgba.to_json()).unwrap();
    assert_eq!(color_rgba, deserialized_rgba);

    let color_rgb = Color::rgb(255, 128, 64);
    let deserialized_rgb = Color::from_json(&color_rgb.to_json()).unwrap();
    assert_eq!(color_rgb, deserialized_rgb);

    let color_hsv = Color::hsv(120, 100, 80);
    let deserialized_hsv = Color::from_json(&color_hsv.to_json()).unwrap();
    assert_eq!(color_hsv, deserialized_hsv);

    let color_hex = Color::hex("#FF8040");
    let deserialized_hex = Color::from_json(&color_hex.to_json()).unwrap();
    assert_eq!(color_hex, deserialized_hex);
}

#[test]
fn test_color_enum_json_structure() {
    let color_rgba = Color::rgba(255, 128, 64, 200);
    let expected_json = r#"{"RGBA":{"r":255,"g":128,"b":64,"a":200}}"#;
    assert_eq!(json_value(&color_rgba.to_json()), json_value(expected_json));

    let color_rgb = Color::rgb(255, 128, 64);
    let expected_json = r#"{"RGB":{"r":255,"g":128,"b":64}}"#;
    assert_eq!(json_value(&color_rgb.to_json()), json_value(expected_json));

    let color_hsv = Color::hsv(120, 100, 80);
    let expected_json = r#"{"HSV":{"h":120,"s":100,"v":80}}"#;
    assert_eq!(json_value(&color_hsv.to_json()), json_value(expected_json));

    let color_hex = Color::hex("#FF8040");
    let expected_json = r##"{"HEX":{"value":"#FF8040"}}"##;
    assert_eq!(json_value(&color_hex.to_json()), json_value(expected_json));
}

#[test]
fn test_color_deserialization_from_json() {
    let rgba_json = r#"{"RGBA":{"r":255,"g":128,"b":64,"a":200}}"#;
    let expected_rgba = Color::rgba(255, 128, 64, 200);
    assert_eq!(Color::from_json(rgba_json).unwrap(), expected_rgba);

    let rgb_json = r#"{"RGB":{"r":255,"g":128,"b":64}}"#;
    let expected_rgb = Color::rgb(255, 128, 64);
    assert_eq!(Color::from_json(rgb_json).unwrap(), expected_rgb);

    let hsv_json = r#"{"HSV":{"h":120,"s":100,"v":80}}"#;
    let expected_hsv = Color::hsv(120, 100, 80);
    assert_eq!(Color::from_json(hsv_json).unwrap(), expected_hsv);

    let hex_json = r##"{"HEX":{"value":"#FF8040"}}"##;
    let expected_hex = Color::hex("#FF8040");
    assert_eq!(Color::from_json(hex_json).unwrap(), expected_hex);
}

#[test]
fn test_rgba_from_tuple() {
    let rgba = RGBA::from((255, 128, 64, 200));
    let expected = RGBA::new(255, 128, 64, 200);
    assert_eq!(rgba, expected);

    let deserialized = RGBA::from_json(&rgba.to_json()).unwrap();
    assert_eq!(rgba, deserialized);
}

#[test]
fn test_rgb_from_tuple() {
    let rgb = RGB::from((255, 128, 64));
    let expected = RGB::new(255, 128, 64);
    assert_eq!(rgb, expected);

    let deserialized = RGB::from_json(&rgb.to_json()).unwrap();
    assert_eq!(rgb, deserialized);
}

#[test]
fn test_hsv_from_tuple() {
    let hsv = HSV::from((120, 100, 80));
    let expected = HSV::new(120, 100, 80);
    assert_eq!(hsv, expected);

    let deserialized = HSV::from_json(&hsv.to_json()).unwrap();
    assert_eq!(hsv, deserialized);
}

#[test]
fn test_rgb_to_rgba_conversion() {
    let rgb = RGB::new(255, 128, 64);
    let rgba = rgb.to_rgba(200);
    let expected = RGBA::new(255, 128, 64, 200);
    assert_eq!(rgba, expected);

    let deserialized = RGBA::from_json(&rgba.to_json()).unwrap();
    assert_eq!(rgba, deserialized);
}

#[test]
fn test_edge_cases() {
    let rgba_min = RGBA::new(0, 0, 0, 0);
    let deserialized_min = RGBA::from_json(&rgba_min.to_json()).unwrap();
    assert_eq!(rgba_min, deserialized_min);

    let rgba_max = RGBA::new(255, 255, 255, 255);
    let deserialized_max = RGBA::from_json(&rgba_max.to_json()).unwrap();
    assert_eq!(rgba_max, deserialized_max);
}

#[test]
fn test_hex_various_formats() {
    let hex_formats = vec![
        "#FF8040",
        "#ABC",
        "#ABCD1234",
        "0xFF8040",
        "0xABC",
        "0xABCD1234",
    ];

    for format in hex_formats {
        let hex = HEX::new(format);
        let deserialized = HEX::from_json(&hex.to_json()).unwrap();
        assert_eq!(hex, deserialized);
    }
}
