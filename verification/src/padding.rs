use vstd::prelude::*;
use vstd::string::*;
use crate::codec::{
    dec_str, fields_at, json_of_fields, lemma_fields_unique, lemma_json_of_fields_4, lit_conds,
    parse_fields, push_uint, vals_in_bounds, views_of,
};

verus! {

/// Inner insets of a component, one per side. Immutable by value: the
/// builders set one side, or distribute a total evenly across the
/// horizontal or vertical pair (integer division, truncating).
#[derive(Debug, Default, Clone, Copy, PartialEq, Eq, Hash, Structural)]
pub struct Padding {
    pub top: u16,
    pub right: u16,
    pub bottom: u16,
    pub left: u16,
}

impl Padding {
    pub fn new(top: u16, right: u16, bottom: u16, left: u16) -> (p: Padding)
        ensures
            p == (Padding { top, right, bottom, left }),
    {
        Padding { top, right, bottom, left }
    }

    /// Copy of `self` with `horizontal` split evenly between left and right.
    pub fn horizontal(self, horizontal: u16) -> (p: Padding)
        ensures
            p == (Padding { top: self.top, right: horizontal / 2, bottom: self.bottom, left: horizontal / 2 }),
    {
        Padding { top: self.top, right: horizontal / 2, bottom: self.bottom, left: horizontal / 2 }
    }

    /// Copy of `self` with `vertical` split evenly between top and bottom.
    pub fn vertical(self, vertical: u16) -> (p: Padding)
        ensures
            p == (Padding { top: vertical / 2, right: self.right, bottom: vertical / 2, left: self.left }),
    {
        Padding { top: vertical / 2, right: self.right, bottom: vertical / 2, left: self.left }
    }

    /// Copy of `self` with the top inset replaced.
    pub fn top(self, top: u16) -> (p: Padding)
        ensures
            p == (Padding { top, ..self }),
    {
        Padding { top, ..self }
    }

    /// Copy of `self` with the right inset replaced.
    pub fn right(self, right: u16) -> (p: Padding)
        ensures
            p == (Padding { right, ..self }),
    {
        Padding { right, ..self }
    }

    /// Copy of `self` with the bottom inset replaced.
    pub fn bottom(self, bottom: u16) -> (p: Padding)
        ensures
            p == (Padding { bottom, ..self }),
    {
        Padding { bottom, ..self }
    }

    /// Copy of `self` with the left inset replaced.
    pub fn left(self, left: u16) -> (p: Padding)
        ensures
            p == (Padding { left, ..self }),
    {
        Padding { left, ..self }
    }

    /// The canonical text form of this padding.
    pub fn to_json(&self) -> (r: String)
        ensures
            r@ == json_of_padding(*self),
    {
        let mut out = String::new();
        out.append("{\"top\":");
        push_uint(&mut out, self.top as u64);
        out.append(",\"right\":");
        push_uint(&mut out, self.right as u64);
        out.append(",\"bottom\":");
        push_uint(&mut out, self.bottom as u64);
        out.append(",\"left\":");
        push_uint(&mut out, self.left as u64);
        out.append("}");
        proof {
            assert(out@ =~= json_of_padding(*self));
        }
        out
    }

    /// Reads a padding back from its canonical text form, and from nothing
    /// else.
    pub fn from_json(s: &str) -> (r: Option<Padding>)
        ensures
            match r {
                Some(p) => s@ == json_of_padding(p),
                None => forall|p: Padding| s@ != json_of_padding(p),
            },
    {
        let mut lits: Vec<&str> = Vec::new();
        lits.push("{\"top\":");
        lits.push(",\"right\":");
        lits.push(",\"bottom\":");
        lits.push(",\"left\":");
        lits.push("}");
        proof {
            reveal_strlit("{\"top\":");
            reveal_strlit(",\"right\":");
            reveal_strlit(",\"bottom\":");
            reveal_strlit(",\"left\":");
            reveal_strlit("}");
            assert(views_of(lits@) =~= padding_lits());
            assert(lit_conds(padding_lits())) by {
                assert(padding_lits()[1][0] == ',');
                assert(padding_lits()[2][0] == ',');
                assert(padding_lits()[3][0] == ',');
                assert(padding_lits()[4][0] == '}');
            }
        }
        let len = s.unicode_len();
        match parse_fields(s, 0, &lits, 0, 0xffff) {
            None => {
                proof {
                    assert forall|p: Padding| s@ != json_of_padding(p) by {
                        if s@ == json_of_padding(p) {
                            lemma_padding_fields_form(s@, p);
                            assert(false);
                        }
                    }
                }
                None
            },
            Some((vals, end)) => {
                if end == len {
                    let p = Padding {
                        top: vals[0] as u16,
                        right: vals[1] as u16,
                        bottom: vals[2] as u16,
                        left: vals[3] as u16,
                    };
                    proof {
                        let ints = vals@.map_values(|v: i64| v as int);
                        assert(ints[0] == vals@[0] as int);
                        assert(padding_vals(p) =~= ints);
                        lemma_padding_is_fields(p);
                        assert(s@.subrange(0, len as int) =~= s@);
                    }
                    Some(p)
                } else {
                    proof {
                        let ints = vals@.map_values(|v: i64| v as int);
                        assert forall|p: Padding| s@ != json_of_padding(p) by {
                            if s@ == json_of_padding(p) {
                                lemma_padding_fields_form(s@, p);
                                lemma_fields_unique(
                                    s@,
                                    0,
                                    padding_lits(),
                                    padding_vals(p),
                                    s@.len() as int,
                                    ints,
                                    end as int,
                                );
                                assert(false);
                            }
                        }
                    }
                    None
                }
            },
        }
    }
}

/// The canonical text form of a padding: its four insets as decimal numbers
/// behind fixed keys, in top, right, bottom, left order.
pub open spec fn json_of_padding(p: Padding) -> Seq<char> {
    "{\"top\":"@ + dec_str(p.top as nat) + ",\"right\":"@ + dec_str(p.right as nat)
        + ",\"bottom\":"@ + dec_str(p.bottom as nat) + ",\"left\":"@ + dec_str(p.left as nat)
        + "}"@
}

pub open spec fn padding_lits() -> Seq<Seq<char>> {
    seq!["{\"top\":"@, ",\"right\":"@, ",\"bottom\":"@, ",\"left\":"@, "}"@]
}

pub open spec fn padding_vals(p: Padding) -> Seq<int> {
    seq![p.top as int, p.right as int, p.bottom as int, p.left as int]
}

/// The concatenated form and the record form of a padding's encoding agree.
proof fn lemma_padding_is_fields(p: Padding)
    ensures
        json_of_padding(p) == json_of_fields(padding_lits(), padding_vals(p)),
{
    lemma_json_of_fields_4(
        "{\"top\":"@,
        ",\"right\":"@,
        ",\"bottom\":"@,
        ",\"left\":"@,
        "}"@,
        p.top as int,
        p.right as int,
        p.bottom as int,
        p.left as int,
    );
}

/// A string equal to a padding's encoding is a whole-string record
/// decomposition with in-range values.
proof fn lemma_padding_fields_form(s: Seq<char>, p: Padding)
    requires
        s == json_of_padding(p),
    ensures
        fields_at(s, 0, s.len() as int, padding_lits(), padding_vals(p)),
        vals_in_bounds(padding_vals(p), 0, 0xffff),
{
    lemma_padding_is_fields(p);
    assert(s.subrange(0, s.len() as int) =~= s);
}

} // verus!
