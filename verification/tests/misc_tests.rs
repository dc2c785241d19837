use winr::action_state::ActionState;
use winr::color::HEX;
use winr::theme::{LayoutSystem, Theme, ThemeSystem};
use winr::util::clamp;

#[test]
fn clamp_forces_values_into_range() {
    assert_eq!(clamp(5, 10, 20), 10);
    assert_eq!(clamp(25, 10, 20), 20);
    assert_eq!(clamp(15, 10, 20), 15);
    assert_eq!(clamp(10, 10, 20), 10);
    assert_eq!(clamp(20, 10, 20), 20);
}

#[test]
fn action_state_predicates() {
    assert!(ActionState::Normal.is_normal());
    assert!(ActionState::Hovered.is_hovered());
    assert!(ActionState::Pressed.is_pressed());
    assert!(ActionState::Disabled.is_disabled());
    assert!(!ActionState::Normal.is_hovered());
    assert_eq!(ActionState::default(), ActionState::Normal);
}

#[test]
fn hex_format_validation_accepts_only_hex_colors() {
    assert!(HEX::validate_format("#FF8040"));
    assert!(HEX::validate_format("#ABC"));
    assert!(HEX::validate_format("#ABCD1234"));
    assert!(HEX::validate_format("0xFF8040"));
    assert!(HEX::validate_format("0xABC"));
    assert!(HEX::validate_format("0xABCD1234"));
    assert!(HEX::validate_format("abc"));
    assert!(HEX::validate_format("AABBCC"));

    assert!(!HEX::validate_format(""));
    assert!(!HEX::validate_format("#"));
    assert!(!HEX::validate_format("#AB"));
    assert!(!HEX::validate_format("#ABCD"));
    assert!(!HEX::validate_format("#GGGGGG"));
    assert!(!HEX::validate_format("0x12"));
    assert!(!HEX::validate_format("FF80401"));
    assert!(!HEX::validate_format("##ABC"));
    assert!(!HEX::validate_format("#ABC "));
}

#[test]
fn layout_system_holds_the_theme() {
    let mut layout = LayoutSystem::new();
    assert_eq!(*layout.get_theme(), Theme::default());
    layout.set_theme(ThemeSystem::load_theme());
    assert_eq!(*layout.get_theme(), Theme::default());
    layout.initialize();
    assert_eq!(*layout.get_theme(), Theme::default());
}
