use vstd::prelude::*;
use vstd::string::*;
use crate::codec::{
    dec_str, fields_at, json_of_fields, lemma_fields_unique, lemma_json_of_fields_2, lit_conds,
    parse_fields, push_uint, str_eq_lit, vals_in_bounds, views_of,
};

verus! {

/// How a container is allowed to resize a component.
#[derive(Debug, Default, Clone, Copy, PartialEq, Eq, Hash, Structural)]
pub enum SizePolicy {
    #[default]
    Fixed,
    Fill,
    Fit,
}

/// The canonical text form of a size policy: its name, quoted.
pub open spec fn json_of_size_policy(p: SizePolicy) -> Seq<char> {
    match p {
        SizePolicy::Fixed => "\"Fixed\""@,
        SizePolicy::Fill => "\"Fill\""@,
        SizePolicy::Fit => "\"Fit\""@,
    }
}

impl SizePolicy {
    /// The canonical text form of this policy.
    pub fn to_json(&self) -> (r: String)
        ensures
            r@ == json_of_size_policy(*self),
    {
        match self {
            SizePolicy::Fixed => String::from_str("\"Fixed\""),
            SizePolicy::Fill => String::from_str("\"Fill\""),
            SizePolicy::Fit => String::from_str("\"Fit\""),
        }
    }

    /// Reads a policy back from its canonical text form, and from nothing
    /// else.
    pub fn from_json(s: &str) -> (r: Option<SizePolicy>)
        ensures
            match r {
                Some(p) => s@ == json_of_size_policy(p),
                None => forall|p: SizePolicy| s@ != json_of_size_policy(p),
            },
    {
        if str_eq_lit(s, "\"Fixed\"") {
            Some(SizePolicy::Fixed)
        } else if str_eq_lit(s, "\"Fill\"") {
            Some(SizePolicy::Fill)
        } else if str_eq_lit(s, "\"Fit\"") {
            Some(SizePolicy::Fit)
        } else {
            None
        }
    }
}

/// The extent of a component: two non-negative bounded integers.
/// Immutable by value; the builders return a modified copy.
#[derive(Debug, Default, Clone, Copy, PartialEq, Eq, Hash, Structural)]
pub struct Size {
    pub height: u16,
    pub width: u16,
}

impl Size {
    pub fn new(height: u16, width: u16) -> (s: Size)
        ensures
            s == (Size { height, width }),
    {
        Size { height, width }
    }

    /// Copy of `self` with the width replaced.
    pub fn with_width(self, width: u16) -> (s: Size)
        ensures
            s == (Size { height: self.height, width }),
    {
        Size { height: self.height, width }
    }

    /// Copy of `self` with the height replaced.
    pub fn with_height(self, height: u16) -> (s: Size)
        ensures
            s == (Size { height, width: self.width }),
    {
        Size { height, width: self.width }
    }

    pub fn height(&self) -> (r: u16)
        ensures
            r == self.height,
    {
        self.height
    }

    pub fn width(&self) -> (r: u16)
        ensures
            r == self.width,
    {
        self.width
    }

    /// The canonical text form of this size.
    pub fn to_json(&self) -> (r: String)
        ensures
            r@ == json_of_size(*self),
    {
        let mut out = String::new();
        out.append("{\"height\":");
        push_uint(&mut out, self.height as u64);
        out.append(",\"width\":");
        push_uint(&mut out, self.width as u64);
        out.append("}");
        proof {
            assert(out@ =~= json_of_size(*self));
        }
        out
    }

    /// Reads a size back from its canonical text form, and from nothing
    /// else.
    pub fn from_json(s: &str) -> (r: Option<Size>)
        ensures
            match r {
                Some(z) => s@ == json_of_size(z),
                None => forall|z: Size| s@ != json_of_size(z),
            },
    {
        let mut lits: Vec<&str> = Vec::new();
        lits.push("{\"height\":");
        lits.push(",\"width\":");
        lits.push("}");
        proof {
            reveal_strlit("{\"height\":");
            reveal_strlit(",\"width\":");
            reveal_strlit("}");
            assert(views_of(lits@) =~= size_lits());
            assert(lit_conds(size_lits())) by {
                assert(size_lits()[1][0] == ',');
                assert(size_lits()[2][0] == '}');
            }
        }
        let len = s.unicode_len();
        match parse_fields(s, 0, &lits, 0, 0xffff) {
            None => {
                proof {
                    assert forall|z: Size| s@ != json_of_size(z) by {
                        if s@ == json_of_size(z) {
                            lemma_size_fields_form(s@, z);
                            assert(false);
                        }
                    }
                }
                None
            },
            Some((vals, end)) => {
                if end == len {
                    let z = Size { height: vals[0] as u16, width: vals[1] as u16 };
                    proof {
                        let ints = vals@.map_values(|v: i64| v as int);
                        assert(ints[0] == vals@[0] as int);
                        assert(size_vals(z) =~= ints);
                        lemma_size_is_fields(z);
                        assert(s@.subrange(0, len as int) =~= s@);
                    }
                    Some(z)
                } else {
                    proof {
                        let ints = vals@.map_values(|v: i64| v as int);
                        assert forall|z: Size| s@ != json_of_size(z) by {
                            if s@ == json_of_size(z) {
                                lemma_size_fields_form(s@, z);
                                lemma_fields_unique(
                                    s@,
                                    0,
                                    size_lits(),
                                    size_vals(z),
                                    s@.len() as int,
                                    ints,
                                    end as int,
                                );
                                assert(false);
                            }
                        }
                    }
                    None
                }
            },
        }
    }
}

/// The canonical text form of a size: its extents as decimal numbers behind
/// fixed keys, height first.
pub open spec fn json_of_size(z: Size) -> Seq<char> {
    "{\"height\":"@ + dec_str(z.height as nat) + ",\"width\":"@ + dec_str(z.width as nat) + "}"@
}

pub open spec fn size_lits() -> Seq<Seq<char>> {
    seq!["{\"height\":"@, ",\"width\":"@, "}"@]
}

pub open spec fn size_vals(z: Size) -> Seq<int> {
    seq![z.height as int, z.width as int]
}

/// The concatenated form and the record form of a size's encoding agree.
proof fn lemma_size_is_fields(z: Size)
    ensures
        json_of_size(z) == json_of_fields(size_lits(), size_vals(z)),
{
    lemma_json_of_fields_2("{\"height\":"@, ",\"width\":"@, "}"@, z.height as int, z.width as int);
}

/// A string equal to a size's encoding is a whole-string record
/// decomposition with in-range values.
proof fn lemma_size_fields_form(s: Seq<char>, z: Size)
    requires
        s == json_of_size(z),
    ensures
        fields_at(s, 0, s.len() as int, size_lits(), size_vals(z)),
        vals_in_bounds(size_vals(z), 0, 0xffff),
{
    lemma_size_is_fields(z);
    assert(s.subrange(0, s.len() as int) =~= s);
}

} // verus!
