//! The decoders accept exactly the canonical text forms: anything else —
//! wrong keys, reordered keys, whitespace, leading zeros, signs where none
//! belong, trailing text — is rejected.

use winr::color::{Color, HEX};
use winr::gradient::{Gradient, GradientType};
use winr::margin::Margin;
use winr::overflow::Overflow;
use winr::position::Position;
use winr::size::Size;

#[test]
fn decoders_reject_malformed_input() {
    assert!(Margin::from_json("").is_none());
    assert!(Margin::from_json("{}").is_none());
    assert!(Margin::from_json(r#"{"top":1,"right":2,"bottom":3}"#).is_none());
    assert!(Margin::from_json(r#"{"left":40,"top":10,"right":20,"bottom":30}"#).is_none());
    assert!(Position::from_json(r#"{"x":1,"y":2} "#).is_none());
    assert!(Position::from_json(r#" {"x":1,"y":2}"#).is_none());
    assert!(Position::from_json(r#"{"x": 1,"y":2}"#).is_none());
    assert!(Size::from_json(r#"{"width":600,"height":800}"#).is_none());
}

#[test]
fn decoders_reject_non_canonical_numbers() {
    assert!(Position::from_json(r#"{"x":01,"y":0}"#).is_none());
    assert!(Position::from_json(r#"{"x":+1,"y":0}"#).is_none());
    assert!(Position::from_json(r#"{"x":-1,"y":0}"#).is_none());
    assert!(Position::from_json(r#"{"x":65536,"y":0}"#).is_none());
    assert!(Position::from_json(r#"{"x":999999999999,"y":0}"#).is_none());
    assert!(GradientType::from_json(r#"{"Linear":-0}"#).is_none());
    assert!(GradientType::from_json(r#"{"Linear":32768}"#).is_none());
    assert!(GradientType::from_json(r#"{"Linear":-32769}"#).is_none());
    assert_eq!(
        GradientType::from_json(r#"{"Linear":-32768}"#).unwrap(),
        GradientType::Linear(i16::MIN)
    );
}

#[test]
fn decoders_reject_wrong_enum_names() {
    assert!(Overflow::from_json(r#""visible""#).is_none());
    assert!(Overflow::from_json("Visible").is_none());
    assert!(Overflow::from_json(r#""Visible" "#).is_none());
}

#[test]
fn color_decoder_requires_well_formed_hex_values() {
    assert!(Color::from_json(r##"{"HEX":{"value":"#FF8040"}}"##).is_some());
    assert!(Color::from_json(r##"{"HEX":{"value":"#FF80"}}"##).is_none());
    assert!(Color::from_json(r##"{"HEX":{"value":"nonsense"}}"##).is_none());
    assert!(HEX::from_json(r##"{"value":"#GG8040"}"##).is_none());
    assert!(Color::from_json(r#"{"RGB":{"r":256,"g":0,"b":0}}"#).is_none());
}

#[test]
fn gradient_decoder_requires_exact_structure() {
    let gradient = Gradient::new(
        GradientType::Linear(45),
        vec![(Color::rgb(255, 0, 0), 0), (Color::rgb(0, 255, 0), 100)],
    );
    let json = gradient.to_json();
    assert_eq!(
        json,
        r#"{"gradient_type":{"Linear":45},"stops":[[{"RGB":{"r":255,"g":0,"b":0}},0],[{"RGB":{"r":0,"g":255,"b":0}},100]]}"#
    );
    assert!(Gradient::from_json(&json).is_some());

    // A truncated or padded form is not the encoding of any gradient.
    assert!(Gradient::from_json(&json[..json.len() - 1]).is_none());
    let padded = format!("{} ", json);
    assert!(Gradient::from_json(&padded).is_none());
    assert!(Gradient::from_json(r#"{"gradient_type":{"Linear":45},"stops":[]}"#).is_some());
    assert!(Gradient::from_json(r#"{"gradient_type":{"Linear":45},"stops":[,]}"#).is_none());
}
