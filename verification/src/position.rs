use vstd::prelude::*;
use vstd::string::*;
use crate::codec::{
    dec_str, fields_at, json_of_fields, lemma_fields_unique, lemma_json_of_fields_2, lit_conds,
    parse_fields, push_uint, vals_in_bounds, views_of,
};

verus! {

/// A point in the component coordinate space: two non-negative bounded
/// integers. Immutable by value; the builders return a modified copy.
#[derive(Debug, Default, Clone, Copy, PartialEq, Eq, Hash, Structural)]
pub struct Position {
    pub x: u16,
    pub y: u16,
}

impl Position {
    pub fn new(x: u16, y: u16) -> (p: Position)
        ensures
            p == (Position { x, y }),
    {
        Position { x, y }
    }

    /// Copy of `self` with the x coordinate replaced.
    pub fn in_x(self, x: u16) -> (p: Position)
        ensures
            p == (Position { x, y: self.y }),
    {
        Position { x, y: self.y }
    }

    /// Copy of `self` with the y coordinate replaced.
    pub fn in_y(self, y: u16) -> (p: Position)
        ensures
            p == (Position { x: self.x, y }),
    {
        Position { x: self.x, y }
    }

    pub fn x(&self) -> (r: u16)
        ensures
            r == self.x,
    {
        self.x
    }

    pub fn y(&self) -> (r: u16)
        ensures
            r == self.y,
    {
        self.y
    }

    /// The canonical text form of this position.
    pub fn to_json(&self) -> (r: String)
        ensures
            r@ == json_of_position(*self),
    {
        let mut out = String::new();
        out.append("{\"x\":");
        push_uint(&mut out, self.x as u64);
        out.append(",\"y\":");
        push_uint(&mut out, self.y as u64);
        out.append("}");
        proof {
            assert(out@ =~= json_of_position(*self));
        }
        out
    }

    /// Reads a position back from its canonical text form, and from nothing
    /// else.
    pub fn from_json(s: &str) -> (r: Option<Position>)
        ensures
            match r {
                Some(p) => s@ == json_of_position(p),
                None => forall|p: Position| s@ != json_of_position(p),
            },
    {
        let mut lits: Vec<&str> = Vec::new();
        lits.push("{\"x\":");
        lits.push(",\"y\":");
        lits.push("}");
        proof {
            reveal_strlit("{\"x\":");
            reveal_strlit(",\"y\":");
            reveal_strlit("}");
            assert(views_of(lits@) =~= position_lits());
            assert(lit_conds(position_lits())) by {
                assert(position_lits()[1][0] == ',');
                assert(position_lits()[2][0] == '}');
            }
        }
        let len = s.unicode_len();
        match parse_fields(s, 0, &lits, 0, 0xffff) {
            None => {
                proof {
                    assert forall|p: Position| s@ != json_of_position(p) by {
                        if s@ == json_of_position(p) {
                            lemma_position_fields_form(s@, p);
                            assert(false);
                        }
                    }
                }
                None
            },
            Some((vals, end)) => {
                if end == len {
                    let p = Position { x: vals[0] as u16, y: vals[1] as u16 };
                    proof {
                        let ints = vals@.map_values(|v: i64| v as int);
                        assert(ints[0] == vals@[0] as int);
                        assert(position_vals(p) =~= ints);
                        lemma_position_is_fields(p);
                        assert(s@.subrange(0, len as int) =~= s@);
                    }
                    Some(p)
                } else {
                    proof {
                        let ints = vals@.map_values(|v: i64| v as int);
                        assert forall|p: Position| s@ != json_of_position(p) by {
                            if s@ == json_of_position(p) {
                                lemma_position_fields_form(s@, p);
                                lemma_fields_unique(
                                    s@,
                                    0,
                                    position_lits(),
                                    position_vals(p),
                                    s@.len() as int,
                                    ints,
                                    end as int,
                                );
                                assert(false);
                            }
                        }
                    }
                    None
                }
            },
        }
    }
}

/// The canonical text form of a position: its coordinates as decimal
/// numbers behind fixed keys, x first.
pub open spec fn json_of_position(p: Position) -> Seq<char> {
    "{\"x\":"@ + dec_str(p.x as nat) + ",\"y\":"@ + dec_str(p.y as nat) + "}"@
}

pub open spec fn position_lits() -> Seq<Seq<char>> {
    seq!["{\"x\":"@, ",\"y\":"@, "}"@]
}

pub open spec fn position_vals(p: Position) -> Seq<int> {
    seq![p.x as int, p.y as int]
}

/// The concatenated form and the record form of a position's encoding agree.
proof fn lemma_position_is_fields(p: Position)
    ensures
        json_of_position(p) == json_of_fields(position_lits(), position_vals(p)),
{
    lemma_json_of_fields_2("{\"x\":"@, ",\"y\":"@, "}"@, p.x as int, p.y as int);
}

/// A string equal to a position's encoding is a whole-string record
/// decomposition with in-range values.
proof fn lemma_position_fields_form(s: Seq<char>, p: Position)
    requires
        s == json_of_position(p),
    ensures
        fields_at(s, 0, s.len() as int, position_lits(), position_vals(p)),
        vals_in_bounds(position_vals(p), 0, 0xffff),
{
    lemma_position_is_fields(p);
    assert(s.subrange(0, s.len() as int) =~= s);
}

} // verus!
