use vstd::prelude::*;
use vstd::string::*;
use crate::codec::str_eq_lit;

verus! {

/// How content that exceeds a component's bounds is treated.
#[derive(Debug, Default, Clone, Copy, PartialEq, Eq, Hash, Structural)]
pub enum Overflow {
    #[default]
    Visible,
    Hidden,
    Scroll,
    Auto,
}

/// The lower-case name of an overflow policy.
pub open spec fn overflow_name(o: Overflow) -> Seq<char> {
    match o {
        Overflow::Visible => "visible"@,
        Overflow::Hidden => "hidden"@,
        Overflow::Scroll => "scroll"@,
        Overflow::Auto => "auto"@,
    }
}

/// The canonical text form of an overflow policy: its name, quoted.
pub open spec fn json_of_overflow(o: Overflow) -> Seq<char> {
    match o {
        Overflow::Visible => "\"Visible\""@,
        Overflow::Hidden => "\"Hidden\""@,
        Overflow::Scroll => "\"Scroll\""@,
        Overflow::Auto => "\"Auto\""@,
    }
}

impl Overflow {
    /// The lower-case name of this policy.
    pub fn as_str(&self) -> (r: &str)
        ensures
            r@ == overflow_name(*self),
    {
        match self {
            Overflow::Visible => "visible",
            Overflow::Hidden => "hidden",
            Overflow::Scroll => "scroll",
            Overflow::Auto => "auto",
        }
    }

    /// The canonical text form of this policy.
    pub fn to_json(&self) -> (r: String)
        ensures
            r@ == json_of_overflow(*self),
    {
        match self {
            Overflow::Visible => String::from_str("\"Visible\""),
            Overflow::Hidden => String::from_str("\"Hidden\""),
            Overflow::Scroll => String::from_str("\"Scroll\""),
            Overflow::Auto => String::from_str("\"Auto\""),
        }
    }

    /// Reads a policy back from its canonical text form, and from nothing
    /// else.
    pub fn from_json(s: &str) -> (r: Option<Overflow>)
        ensures
            match r {
                Some(o) => s@ == json_of_overflow(o),
                None => forall|o: Overflow| s@ != json_of_overflow(o),
            },
    {
        if str_eq_lit(s, "\"Visible\"") {
            Some(Overflow::Visible)
        } else if str_eq_lit(s, "\"Hidden\"") {
            Some(Overflow::Hidden)
        } else if str_eq_lit(s, "\"Scroll\"") {
            Some(Overflow::Scroll)
        } else if str_eq_lit(s, "\"Auto\"") {
            Some(Overflow::Auto)
        } else {
            None
        }
    }
}

} // verus!
