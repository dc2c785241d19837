use vstd::prelude::*;

verus! {

/// The face variant a text run is drawn with.
#[derive(Debug, Clone, PartialEq, Eq, Structural)]
pub enum FontType {
    Regular,
    Bold,
    Italic,
    BoldItalic,
}

/// A run of text with its font settings.
#[derive(Debug, Clone, PartialEq, Eq)]
pub struct TextComponent {
    pub font_size: u32,
    pub font_family: String,
    pub font_type: FontType,
    pub text: String,
}

/// A standard font weight.
#[allow(non_camel_case_types)]
#[derive(Debug, Default, Clone, PartialEq, Eq, Structural)]
pub enum FontWeight {
    THIN,
    EXTRA_LIGHT,
    LIGHT,
    #[default]
    NORMAL,
    MEDIUM,
    SEMI_BOLD,
    BOLD,
    EXTRA_BOLD,
    BLACK,
}

/// Typography settings for a widget's text.
#[derive(Debug, Clone, PartialEq, Eq)]
pub struct TypoGraphy {
    pub font_size: u32,
    pub font_family: String,
    pub font_type: FontWeight,
}

} // verus!
