use vstd::prelude::*;
use vstd::string::*;
use crate::codec::str_eq_lit;

verus! {

/// The stroke style of a component border. The border itself — its color
/// and fractional width — lives with the rendering layer; only the style
/// selector takes part in the verified core and its persisted form.
#[derive(Debug, Clone, Copy, PartialEq, Eq, Hash, Structural)]
pub enum BorderType {
    Solid,
    Dashed,
    Dotted,
    Double,
}

/// The canonical text form of a border type: its name, quoted.
pub open spec fn json_of_border_type(b: BorderType) -> Seq<char> {
    match b {
        BorderType::Solid => "\"Solid\""@,
        BorderType::Dashed => "\"Dashed\""@,
        BorderType::Dotted => "\"Dotted\""@,
        BorderType::Double => "\"Double\""@,
    }
}

impl BorderType {
    /// The canonical text form of this border type.
    pub fn to_json(&self) -> (r: String)
        ensures
            r@ == json_of_border_type(*self),
    {
        match self {
            BorderType::Solid => String::from_str("\"Solid\""),
            BorderType::Dashed => String::from_str("\"Dashed\""),
            BorderType::Dotted => String::from_str("\"Dotted\""),
            BorderType::Double => String::from_str("\"Double\""),
        }
    }

    /// Reads a border type back from its canonical text form, and from
    /// nothing else.
    pub fn from_json(s: &str) -> (r: Option<BorderType>)
        ensures
            match r {
                Some(b) => s@ == json_of_border_type(b),
                None => forall|b: BorderType| s@ != json_of_border_type(b),
            },
    {
        if str_eq_lit(s, "\"Solid\"") {
            Some(BorderType::Solid)
        } else if str_eq_lit(s, "\"Dashed\"") {
            Some(BorderType::Dashed)
        } else if str_eq_lit(s, "\"Dotted\"") {
            Some(BorderType::Dotted)
        } else if str_eq_lit(s, "\"Double\"") {
            Some(BorderType::Double)
        } else {
            None
        }
    }
}

} // verus!
