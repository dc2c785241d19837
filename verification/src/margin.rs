use vstd::prelude::*;
use vstd::string::*;
use crate::codec::{
    dec_str, fields_at, json_of_fields, lemma_fields_unique, lemma_json_of_fields_4, lit_conds,
    parse_fields, push_uint, vals_in_bounds, views_of,
};

verus! {

/// Outer insets of a component, one per side. Immutable by value: the
/// builders set one side, or distribute a total evenly across the
/// horizontal or vertical pair (integer division, truncating).
#[derive(Debug, Default, Clone, Copy, PartialEq, Eq, Hash, Structural)]
pub struct Margin {
    pub top: u16,
    pub right: u16,
    pub bottom: u16,
    pub left: u16,
}

impl Margin {
    pub fn new(top: u16, right: u16, bottom: u16, left: u16) -> (m: Margin)
        ensures
            m == (Margin { top, right, bottom, left }),
    {
        Margin { top, right, bottom, left }
    }

    /// Copy of `self` with `horizontal` split evenly between left and right.
    pub fn horizontal(self, horizontal: u16) -> (m: Margin)
        ensures
            m == (Margin { top: self.top, right: horizontal / 2, bottom: self.bottom, left: horizontal / 2 }),
    {
        Margin { top: self.top, right: horizontal / 2, bottom: self.bottom, left: horizontal / 2 }
    }

    /// Copy of `self` with `vertical` split evenly between top and bottom.
    pub fn vertical(self, vertical: u16) -> (m: Margin)
        ensures
            m == (Margin { top: vertical / 2, right: self.right, bottom: vertical / 2, left: self.left }),
    {
        Margin { top: vertical / 2, right: self.right, bottom: vertical / 2, left: self.left }
    }

    /// Copy of `self` with the top inset replaced.
    pub fn top(self, top: u16) -> (m: Margin)
        ensures
            m == (Margin { top, ..self }),
    {
        Margin { top, ..self }
    }

    /// Copy of `self` with the right inset replaced.
    pub fn right(self, right: u16) -> (m: Margin)
        ensures
            m == (Margin { right, ..self }),
    {
        Margin { right, ..self }
    }

    /// Copy of `self` with the bottom inset replaced.
    pub fn bottom(self, bottom: u16) -> (m: Margin)
        ensures
            m == (Margin { bottom, ..self }),
    {
        Margin { bottom, ..self }
    }

    /// Copy of `self` with the left inset replaced.
    pub fn left(self, left: u16) -> (m: Margin)
        ensures
            m == (Margin { left, ..self }),
    {
        Margin { left, ..self }
    }

    /// The canonical text form of this margin.
    pub fn to_json(&self) -> (r: String)
        ensures
            r@ == json_of_margin(*self),
    {
        let mut out = String::new();
        out.append("{\"top\":");
        push_uint(&mut out, self.top as u64);
        out.append(",\"right\":");
        push_uint(&mut out, self.right as u64);
        out.append(",\"bottom\":");
        push_uint(&mut out, self.bottom as u64);
        out.append(",\"left\":");
        push_uint(&mut out, self.left as u64);
        out.append("}");
        proof {
            assert(out@ =~= json_of_margin(*self));
        }
        out
    }

    /// Reads a margin back from its canonical text form, and from nothing
    /// else.
    pub fn from_json(s: &str) -> (r: Option<Margin>)
        ensures
            match r {
                Some(m) => s@ == json_of_margin(m),
                None => forall|m: Margin| s@ != json_of_margin(m),
            },
    {
        let mut lits: Vec<&str> = Vec::new();
        lits.push("{\"top\":");
        lits.push(",\"right\":");
        lits.push(",\"bottom\":");
        lits.push(",\"left\":");
        lits.push("}");
        proof {
            reveal_strlit("{\"top\":");
            reveal_strlit(",\"right\":");
            reveal_strlit(",\"bottom\":");
            reveal_strlit(",\"left\":");
            reveal_strlit("}");
            assert(views_of(lits@) =~= margin_lits());
            assert(lit_conds(margin_lits())) by {
                assert(margin_lits()[1][0] == ',');
                assert(margin_lits()[2][0] == ',');
                assert(margin_lits()[3][0] == ',');
                assert(margin_lits()[4][0] == '}');
            }
        }
        let len = s.unicode_len();
        match parse_fields(s, 0, &lits, 0, 0xffff) {
            None => {
                proof {
                    assert forall|m: Margin| s@ != json_of_margin(m) by {
                        if s@ == json_of_margin(m) {
                            lemma_margin_fields_form(s@, m);
                            assert(false);
                        }
                    }
                }
                None
            },
            Some((vals, end)) => {
                if end == len {
                    let m = Margin {
                        top: vals[0] as u16,
                        right: vals[1] as u16,
                        bottom: vals[2] as u16,
                        left: vals[3] as u16,
                    };
                    proof {
                        let ints = vals@.map_values(|v: i64| v as int);
                        assert(ints[0] == vals@[0] as int);
                        assert(margin_vals(m) =~= ints);
                        lemma_margin_is_fields(m);
                        assert(s@.subrange(0, len as int) =~= s@);
                    }
                    Some(m)
                } else {
                    proof {
                        let ints = vals@.map_values(|v: i64| v as int);
                        assert forall|m: Margin| s@ != json_of_margin(m) by {
                            if s@ == json_of_margin(m) {
                                lemma_margin_fields_form(s@, m);
                                lemma_fields_unique(
                                    s@,
                                    0,
                                    margin_lits(),
                                    margin_vals(m),
                                    s@.len() as int,
                                    ints,
                                    end as int,
                                );
                                assert(false);
                            }
                        }
                    }
                    None
                }
            },
        }
    }
}

/// The canonical text form of a margin: its four insets as decimal numbers
/// behind fixed keys, in top, right, bottom, left order.
pub open spec fn json_of_margin(m: Margin) -> Seq<char> {
    "{\"top\":"@ + dec_str(m.top as nat) + ",\"right\":"@ + dec_str(m.right as nat)
        + ",\"bottom\":"@ + dec_str(m.bottom as nat) + ",\"left\":"@ + dec_str(m.left as nat)
        + "}"@
}

pub open spec fn margin_lits() -> Seq<Seq<char>> {
    seq!["{\"top\":"@, ",\"right\":"@, ",\"bottom\":"@, ",\"left\":"@, "}"@]
}

pub open spec fn margin_vals(m: Margin) -> Seq<int> {
    seq![m.top as int, m.right as int, m.bottom as int, m.left as int]
}

/// The concatenated form and the record form of a margin's encoding agree.
proof fn lemma_margin_is_fields(m: Margin)
    ensures
        json_of_margin(m) == json_of_fields(margin_lits(), margin_vals(m)),
{
    lemma_json_of_fields_4(
        "{\"top\":"@,
        ",\"right\":"@,
        ",\"bottom\":"@,
        ",\"left\":"@,
        "}"@,
        m.top as int,
        m.right as int,
        m.bottom as int,
        m.left as int,
    );
}

/// A string equal to a margin's encoding is a whole-string record
/// decomposition with in-range values.
proof fn lemma_margin_fields_form(s: Seq<char>, m: Margin)
    requires
        s == json_of_margin(m),
    ensures
        fields_at(s, 0, s.len() as int, margin_lits(), margin_vals(m)),
        vals_in_bounds(margin_vals(m), 0, 0xffff),
{
    lemma_margin_is_fields(m);
    assert(s.subrange(0, s.len() as int) =~= s);
}

} // verus!
