use vstd::prelude::*;
use vstd::string::*;
use crate::codec::{
    dec_str, dec_str_signed, expect_lit, fields_at, json_of_fields, lemma_fields_peel,
    lemma_fields_unique, lemma_json_of_fields_1, lemma_json_of_fields_3, lemma_number_unique,
    lemma_wrapped_layout, lit_conds, number_at, parse_fields, parse_int, push_int, push_uint,
    views_of,
};
use crate::color::{color_at, color_like, color_wf, json_of_color, lemma_color_unique, parse_color, Color};

verus! {

/// The shape of a gradient: linear at an angle, radial around a center
/// point with a radius, or conic at an angle.
#[derive(Debug)]
pub enum GradientType {
    Linear(i16),
    Radial((i16, i16), i16),
    Conic(i16),
}

impl Clone for GradientType {
    fn clone(&self) -> (r: Self)
        ensures
            r == *self,
    {
        match self {
            GradientType::Linear(a) => GradientType::Linear(*a),
            GradientType::Radial(c, rad) => GradientType::Radial((c.0, c.1), *rad),
            GradientType::Conic(a) => GradientType::Conic(*a),
        }
    }
}

impl PartialEq for GradientType {
    fn eq(&self, other: &Self) -> (r: bool) {
        match (self, other) {
            (GradientType::Linear(a1), GradientType::Linear(a2)) => a1 == a2,
            (GradientType::Radial(c1, r1), GradientType::Radial(c2, r2)) => c1.0 == c2.0 && c1.1
                == c2.1 && r1 == r2,
            (GradientType::Conic(a1), GradientType::Conic(a2)) => a1 == a2,
            _ => false,
        }
    }
}

impl Eq for GradientType {

}

impl vstd::std_specs::cmp::PartialEqSpecImpl for GradientType {
    open spec fn obeys_eq_spec() -> bool {
        true
    }

    open spec fn eq_spec(&self, other: &Self) -> bool {
        *self == *other
    }
}

impl GradientType {
    pub fn is_linear(&self) -> (r: bool)
        ensures
            r == (self is Linear),
    {
        matches!(self, GradientType::Linear(_))
    }

    pub fn is_radial(&self) -> (r: bool)
        ensures
            r == (self is Radial),
    {
        matches!(self, GradientType::Radial(_, _))
    }

    pub fn is_conic(&self) -> (r: bool)
        ensures
            r == (self is Conic),
    {
        matches!(self, GradientType::Conic(_))
    }

    pub fn lienar(angle: i16) -> (t: GradientType)
        ensures
            t == GradientType::Linear(angle),
    {
        GradientType::Linear(angle)
    }

    pub fn radial(center: (i16, i16), radius: i16) -> (t: GradientType)
        ensures
            t == GradientType::Radial(center, radius),
    {
        GradientType::Radial(center, radius)
    }

    pub fn conic(angle: i16) -> (t: GradientType)
        ensures
            t == GradientType::Conic(angle),
    {
        GradientType::Conic(angle)
    }
}

/// The canonical text form of a gradient type: its variant's name wrapping
/// the angle, or the center pair and radius.
pub open spec fn json_of_gradient_type(t: GradientType) -> Seq<char> {
    match t {
        GradientType::Linear(a) => "{\"Linear\":"@ + dec_str_signed(a as int) + "}"@,
        GradientType::Radial(c, rad) => "{\"Radial\":[["@ + dec_str_signed(c.0 as int) + ","@
            + dec_str_signed(c.1 as int) + "],"@ + dec_str_signed(rad as int) + "]}"@,
        GradientType::Conic(a) => "{\"Conic\":"@ + dec_str_signed(a as int) + "}"@,
    }
}

/// The encoding of a gradient type occupies `s[pos..end]`.
pub open spec fn gradient_type_at(s: Seq<char>, pos: int, end: int, t: GradientType) -> bool {
    &&& 0 <= pos <= end <= s.len()
    &&& s.subrange(pos, end) == json_of_gradient_type(t)
}

pub open spec fn linear_lits() -> Seq<Seq<char>> {
    seq!["{\"Linear\":"@, "}"@]
}

pub open spec fn radial_lits() -> Seq<Seq<char>> {
    seq!["{\"Radial\":[["@, ","@, "],"@, "]}"@]
}

pub open spec fn conic_lits() -> Seq<Seq<char>> {
    seq!["{\"Conic\":"@, "}"@]
}

proof fn lemma_linear_is_fields(a: i16)
    ensures
        json_of_gradient_type(GradientType::Linear(a)) == json_of_fields(
            linear_lits(),
            seq![a as int],
        ),
{
    lemma_json_of_fields_1("{\"Linear\":"@, "}"@, a as int);
}

proof fn lemma_radial_is_fields(c: (i16, i16), rad: i16)
    ensures
        json_of_gradient_type(GradientType::Radial(c, rad)) == json_of_fields(
            radial_lits(),
            seq![c.0 as int, c.1 as int, rad as int],
        ),
{
    lemma_json_of_fields_3(
        "{\"Radial\":[["@,
        ","@,
        "],"@,
        "]}"@,
        c.0 as int,
        c.1 as int,
        rad as int,
    );
}

proof fn lemma_conic_is_fields(a: i16)
    ensures
        json_of_gradient_type(GradientType::Conic(a)) == json_of_fields(
            conic_lits(),
            seq![a as int],
        ),
{
    lemma_json_of_fields_1("{\"Conic\":"@, "}"@, a as int);
}

proof fn proof_linear_lit_conds()
    ensures
        lit_conds(linear_lits()),
{
    reveal_strlit("}");
    assert(linear_lits()[1][0] == '}');
}

proof fn proof_radial_lit_conds()
    ensures
        lit_conds(radial_lits()),
{
    reveal_strlit(",");
    reveal_strlit("],");
    reveal_strlit("]}");
    assert(radial_lits()[1][0] == ',');
    assert(radial_lits()[2][0] == ']');
    assert(radial_lits()[3][0] == ']');
}

proof fn proof_conic_lit_conds()
    ensures
        lit_conds(conic_lits()),
{
    reveal_strlit("}");
    assert(conic_lits()[1][0] == '}');
}

/// A gradient type's encoding starts with the literal that names its
/// variant.
proof fn lemma_gradient_type_has_prefix(s: Seq<char>, pos: int, end: int, t: GradientType)
    requires
        gradient_type_at(s, pos, end, t),
    ensures
        t is Linear ==> pos + 10 <= s.len() && s.subrange(pos, pos + 10) == "{\"Linear\":"@,
        t is Radial ==> pos + 12 <= s.len() && s.subrange(pos, pos + 12) == "{\"Radial\":[["@,
        t is Conic ==> pos + 9 <= s.len() && s.subrange(pos, pos + 9) == "{\"Conic\":"@,
{
    reveal_strlit("{\"Linear\":");
    reveal_strlit("{\"Radial\":[[");
    reveal_strlit("{\"Conic\":");
    match t {
        GradientType::Linear(a) => {
            lemma_linear_is_fields(a);
            proof_linear_lit_conds();
            let vals = seq![a as int];
            assert(fields_at(s, pos, end, linear_lits(), vals));
            lemma_fields_peel(s, pos, end, linear_lits(), vals);
            assert(linear_lits()[0].len() == 10);
        },
        GradientType::Radial(c, rad) => {
            lemma_radial_is_fields(c, rad);
            proof_radial_lit_conds();
            let vals = seq![c.0 as int, c.1 as int, rad as int];
            assert(fields_at(s, pos, end, radial_lits(), vals));
            lemma_fields_peel(s, pos, end, radial_lits(), vals);
            assert(radial_lits()[0].len() == 12);
        },
        GradientType::Conic(a) => {
            lemma_conic_is_fields(a);
            proof_conic_lit_conds();
            let vals = seq![a as int];
            assert(fields_at(s, pos, end, conic_lits(), vals));
            lemma_fields_peel(s, pos, end, conic_lits(), vals);
            assert(conic_lits()[0].len() == 9);
        },
    }
}

/// Two gradient types recognized at the same position have equal encodings
/// ending at the same place.
pub proof fn lemma_gradient_type_unique(
    s: Seq<char>,
    pos: int,
    t1: GradientType,
    e1: int,
    t2: GradientType,
    e2: int,
)
    requires
        gradient_type_at(s, pos, e1, t1),
        gradient_type_at(s, pos, e2, t2),
    ensures
        e1 == e2,
        json_of_gradient_type(t1) == json_of_gradient_type(t2),
{
    reveal_strlit("{\"Linear\":");
    reveal_strlit("{\"Radial\":[[");
    reveal_strlit("{\"Conic\":");
    lemma_gradient_type_has_prefix(s, pos, e1, t1);
    lemma_gradient_type_has_prefix(s, pos, e2, t2);
    assert(s.subrange(pos, e1)[2] == s[pos + 2]);
    assert(s.subrange(pos, e2)[2] == s[pos + 2]);
    match (t1, t2) {
        (GradientType::Linear(a1), GradientType::Linear(a2)) => {
            lemma_linear_is_fields(a1);
            lemma_linear_is_fields(a2);
            proof_linear_lit_conds();
            lemma_fields_unique(s, pos, linear_lits(), seq![a1 as int], e1, seq![a2 as int], e2);
        },
        (GradientType::Radial(c1, r1), GradientType::Radial(c2, r2)) => {
            lemma_radial_is_fields(c1, r1);
            lemma_radial_is_fields(c2, r2);
            proof_radial_lit_conds();
            lemma_fields_unique(
                s,
                pos,
                radial_lits(),
                seq![c1.0 as int, c1.1 as int, r1 as int],
                e1,
                seq![c2.0 as int, c2.1 as int, r2 as int],
                e2,
            );
        },
        (GradientType::Conic(a1), GradientType::Conic(a2)) => {
            lemma_conic_is_fields(a1);
            lemma_conic_is_fields(a2);
            proof_conic_lit_conds();
            lemma_fields_unique(s, pos, conic_lits(), seq![a1 as int], e1, seq![a2 as int], e2);
        },
        _ => {
            assert(s.subrange(pos, pos + 10)[2] == s[pos + 2]);
            assert(s.subrange(pos, pos + 12)[2] == s[pos + 2]);
            assert(s.subrange(pos, pos + 9)[2] == s[pos + 2]);
            assert(false);
        },
    }
}

/// Parses the gradient type whose encoding sits at `pos`: succeeds exactly
/// when one is recognized there.
pub(crate) fn parse_gradient_type(s: &str, pos: usize) -> (r: Option<(GradientType, usize)>)
    requires
        pos <= s@.len(),
    ensures
        match r {
            Some((t, end)) => gradient_type_at(s@, pos as int, end as int, t),
            None => forall|t: GradientType, end: int|
                !#[trigger] gradient_type_at(s@, pos as int, end, t),
        },
{
    proof {
        reveal_strlit("{\"Linear\":");
        reveal_strlit("{\"Radial\":[[");
        reveal_strlit("{\"Conic\":");
    }
    if expect_lit(s, pos, "{\"Linear\":") {
        let mut lits: Vec<&str> = Vec::new();
        lits.push("{\"Linear\":");
        lits.push("}");
        proof {
            reveal_strlit("}");
            assert(views_of(lits@) =~= linear_lits());
            proof_linear_lit_conds();
        }
        match parse_fields(s, pos, &lits, -0x8000, 0x7fff) {
            Some((vals, end)) => {
                let t = GradientType::Linear(vals[0] as i16);
                proof {
                    let ints = vals@.map_values(|v: i64| v as int);
                    assert(ints[0] == vals@[0] as int);
                    assert(seq![(vals@[0] as i16) as int] =~= ints);
                    lemma_linear_is_fields(vals@[0] as i16);
                }
                Some((t, end))
            },
            None => {
                proof {
                    assert forall|t: GradientType, end: int|
                        !#[trigger] gradient_type_at(s@, pos as int, end, t) by {
                        if gradient_type_at(s@, pos as int, end, t) {
                            lemma_gradient_type_has_prefix(s@, pos as int, end, t);
                            match t {
                                GradientType::Linear(a) => {
                                    lemma_linear_is_fields(a);
                                    assert(fields_at(
                                        s@,
                                        pos as int,
                                        end,
                                        linear_lits(),
                                        seq![a as int],
                                    ));
                                    assert(false);
                                },
                                GradientType::Radial(c, rad) => {
                                    assert(s@.subrange(pos as int, pos + 10)[2] == s@[pos + 2]);
                                    assert(s@.subrange(pos as int, pos + 12)[2] == s@[pos + 2]);
                                    assert(false);
                                },
                                GradientType::Conic(a) => {
                                    assert(s@.subrange(pos as int, pos + 10)[2] == s@[pos + 2]);
                                    assert(s@.subrange(pos as int, pos + 9)[2] == s@[pos + 2]);
                                    assert(false);
                                },
                            }
                        }
                    }
                }
                None
            },
        }
    } else if expect_lit(s, pos, "{\"Radial\":[[") {
        let mut lits: Vec<&str> = Vec::new();
        lits.push("{\"Radial\":[[");
        lits.push(",");
        lits.push("],");
        lits.push("]}");
        proof {
            reveal_strlit(",");
            reveal_strlit("],");
            reveal_strlit("]}");
            assert(views_of(lits@) =~= radial_lits());
            proof_radial_lit_conds();
        }
        match parse_fields(s, pos, &lits, -0x8000, 0x7fff) {
            Some((vals, end)) => {
                let t = GradientType::Radial((vals[0] as i16, vals[1] as i16), vals[2] as i16);
                proof {
                    let ints = vals@.map_values(|v: i64| v as int);
                    assert(ints[0] == vals@[0] as int);
                    assert(seq![(vals@[0] as i16) as int, (vals@[1] as i16) as int, (vals@[2] as i16) as int]
                        =~= ints);
                    lemma_radial_is_fields((vals@[0] as i16, vals@[1] as i16), vals@[2] as i16);
                }
                Some((t, end))
            },
            None => {
                proof {
                    assert forall|t: GradientType, end: int|
                        !#[trigger] gradient_type_at(s@, pos as int, end, t) by {
                        if gradient_type_at(s@, pos as int, end, t) {
                            lemma_gradient_type_has_prefix(s@, pos as int, end, t);
                            match t {
                                GradientType::Radial(c, rad) => {
                                    lemma_radial_is_fields(c, rad);
                                    assert(fields_at(
                                        s@,
                                        pos as int,
                                        end,
                                        radial_lits(),
                                        seq![c.0 as int, c.1 as int, rad as int],
                                    ));
                                    assert(false);
                                },
                                GradientType::Linear(a) => {
                                    assert(s@.subrange(pos as int, pos + 12)[2] == s@[pos + 2]);
                                    assert(s@.subrange(pos as int, pos + 10)[2] == s@[pos + 2]);
                                    assert(false);
                                },
                                GradientType::Conic(a) => {
                                    assert(s@.subrange(pos as int, pos + 12)[2] == s@[pos + 2]);
                                    assert(s@.subrange(pos as int, pos + 9)[2] == s@[pos + 2]);
                                    assert(false);
                                },
                            }
                        }
                    }
                }
                None
            },
        }
    } else if expect_lit(s, pos, "{\"Conic\":") {
        let mut lits: Vec<&str> = Vec::new();
        lits.push("{\"Conic\":");
        lits.push("}");
        proof {
            reveal_strlit("}");
            assert(views_of(lits@) =~= conic_lits());
            proof_conic_lit_conds();
        }
        match parse_fields(s, pos, &lits, -0x8000, 0x7fff) {
            Some((vals, end)) => {
                let t = GradientType::Conic(vals[0] as i16);
                proof {
                    let ints = vals@.map_values(|v: i64| v as int);
                    assert(ints[0] == vals@[0] as int);
                    assert(seq![(vals@[0] as i16) as int] =~= ints);
                    lemma_conic_is_fields(vals@[0] as i16);
                }
                Some((t, end))
            },
            None => {
                proof {
                    assert forall|t: GradientType, end: int|
                        !#[trigger] gradient_type_at(s@, pos as int, end, t) by {
                        if gradient_type_at(s@, pos as int, end, t) {
                            lemma_gradient_type_has_prefix(s@, pos as int, end, t);
                            match t {
                                GradientType::Conic(a) => {
                                    lemma_conic_is_fields(a);
                                    assert(fields_at(
                                        s@,
                                        pos as int,
                                        end,
                                        conic_lits(),
                                        seq![a as int],
                                    ));
                                    assert(false);
                                },
                                GradientType::Linear(a) => {
                                    assert(s@.subrange(pos as int, pos + 9)[2] == s@[pos + 2]);
                                    assert(s@.subrange(pos as int, pos + 10)[2] == s@[pos + 2]);
                                    assert(false);
                                },
                                GradientType::Radial(c, rad) => {
                                    assert(s@.subrange(pos as int, pos + 9)[2] == s@[pos + 2]);
                                    assert(s@.subrange(pos as int, pos + 12)[2] == s@[pos + 2]);
                                    assert(false);
                                },
                            }
                        }
                    }
                }
                None
            },
        }
    } else {
        proof {
            assert forall|t: GradientType, end: int|
                !#[trigger] gradient_type_at(s@, pos as int, end, t) by {
                if gradient_type_at(s@, pos as int, end, t) {
                    lemma_gradient_type_has_prefix(s@, pos as int, end, t);
                    assert(false);
                }
            }
        }
        None
    }
}

impl GradientType {
    /// The canonical text form of this gradient type.
    pub fn to_json(&self) -> (r: String)
        ensures
            r@ == json_of_gradient_type(*self),
    {
        let mut out = String::new();
        match self {
            GradientType::Linear(a) => {
                out.append("{\"Linear\":");
                push_int(&mut out, *a as i64);
                out.append("}");
            },
            GradientType::Radial(c, rad) => {
                out.append("{\"Radial\":[[");
                push_int(&mut out, c.0 as i64);
                out.append(",");
                push_int(&mut out, c.1 as i64);
                out.append("],");
                push_int(&mut out, *rad as i64);
                out.append("]}");
            },
            GradientType::Conic(a) => {
                out.append("{\"Conic\":");
                push_int(&mut out, *a as i64);
                out.append("}");
            },
        }
        proof {
            assert(out@ =~= json_of_gradient_type(*self));
        }
        out
    }

    /// Reads a gradient type back from its canonical text form, and from
    /// nothing else.
    pub fn from_json(s: &str) -> (r: Option<GradientType>)
        ensures
            match r {
                Some(t) => s@ == json_of_gradient_type(t),
                None => forall|t: GradientType| s@ != json_of_gradient_type(t),
            },
    {
        let len = s.unicode_len();
        match parse_gradient_type(s, 0) {
            None => {
                proof {
                    assert forall|t: GradientType| s@ != json_of_gradient_type(t) by {
                        if s@ == json_of_gradient_type(t) {
                            assert(s@.subrange(0, s@.len() as int) =~= s@);
                            assert(gradient_type_at(s@, 0, s@.len() as int, t));
                            assert(false);
                        }
                    }
                }
                None
            },
            Some((t, end)) => {
                if end == len {
                    proof {
                        assert(s@.subrange(0, len as int) =~= s@);
                    }
                    Some(t)
                } else {
                    proof {
                        let ghost parsed = t;
                        assert forall|t2: GradientType| s@ != json_of_gradient_type(t2) by {
                            if s@ == json_of_gradient_type(t2) {
                                assert(s@.subrange(0, s@.len() as int) =~= s@);
                                assert(gradient_type_at(s@, 0, s@.len() as int, t2));
                                lemma_gradient_type_unique(
                                    s@,
                                    0,
                                    parsed,
                                    end as int,
                                    t2,
                                    s@.len() as int,
                                );
                                assert(false);
                            }
                        }
                    }
                    None
                }
            },
        }
    }
}

/// The canonical text form of one gradient stop: a color and its position
/// along the gradient, as a two-element array.
pub open spec fn json_of_stop(st: (Color, u16)) -> Seq<char> {
    "["@ + json_of_color(st.0) + ","@ + dec_str(st.1 as nat) + "]"@
}

/// The encoding of one stop occupies `s[pos..end]`.
pub open spec fn stop_at(s: Seq<char>, pos: int, end: int, st: (Color, u16)) -> bool {
    &&& 0 <= pos <= end <= s.len()
    &&& s.subrange(pos, end) == json_of_stop(st)
}

/// The stops' encodings joined by commas.
pub open spec fn joined_stops(v: Seq<(Color, u16)>) -> Seq<char>
    decreases v.len(),
{
    if v.len() == 0 {
        Seq::empty()
    } else if v.len() == 1 {
        json_of_stop(v[0])
    } else {
        json_of_stop(v[0]) + ","@ + joined_stops(v.drop_first())
    }
}

/// The canonical text form of a stop list: the joined stops in brackets.
pub open spec fn json_of_stops(v: Seq<(Color, u16)>) -> Seq<char> {
    "["@ + joined_stops(v) + "]"@
}

/// The encoding of a stop list occupies `s[pos..end]`.
pub open spec fn stops_at(s: Seq<char>, pos: int, end: int, v: Seq<(Color, u16)>) -> bool {
    &&& 0 <= pos <= end <= s.len()
    &&& s.subrange(pos, end) == json_of_stops(v)
}

/// Every stop's color is well-formed.
pub open spec fn stops_wf(v: Seq<(Color, u16)>) -> bool {
    forall|i: int| 0 <= i < v.len() ==> color_wf((#[trigger] v[i]).0)
}

/// A nonempty tail of a stop list sits at `[p..end)` with the closing
/// bracket as the last character.
pub open spec fn rest_ok(s: Seq<char>, p: int, end: int, w: Seq<(Color, u16)>) -> bool {
    &&& w.len() >= 1
    &&& 0 <= p < end <= s.len()
    &&& s.subrange(p, end - 1) == joined_stops(w)
    &&& s[end - 1] == ']'
}

/// Appending a stop extends the joined form by a comma and the stop.
proof fn lemma_joined_snoc(v: Seq<(Color, u16)>, st: (Color, u16))
    requires
        v.len() >= 1,
    ensures
        joined_stops(v.push(st)) == joined_stops(v) + ","@ + json_of_stop(st),
    decreases v.len(),
{
    if v.len() == 1 {
        assert(v.push(st).drop_first() =~= seq![st]);
        assert(seq![st][0] == st);
        assert(joined_stops(seq![st]) == json_of_stop(st));
        assert(v.push(st)[0] == v[0]);
    } else {
        lemma_joined_snoc(v.drop_first(), st);
        assert(v.push(st).drop_first() =~= v.drop_first().push(st));
        assert(v.push(st)[0] == v[0]);
        assert(json_of_stop(v[0]) + ","@ + (joined_stops(v.drop_first()) + ","@ + json_of_stop(st))
            =~= json_of_stop(v[0]) + ","@ + joined_stops(v.drop_first()) + ","@ + json_of_stop(
            st,
        ));
    }
}

/// The pieces of one stop's encoding, at their offsets.
proof fn lemma_stop_parts(s: Seq<char>, pos: int, end: int, st: (Color, u16))
    requires
        stop_at(s, pos, end, st),
    ensures
        ({
            let jc = json_of_color(st.0);
            let nd = dec_str(st.1 as nat);
            &&& end == pos + 1 + jc.len() + 1 + nd.len() + 1
            &&& s[pos] == '['
            &&& color_at(s, pos + 1, pos + 1 + jc.len(), st.0)
            &&& s[pos + 1 + jc.len()] == ','
            &&& number_at(s, pos + 2 + jc.len(), pos + 2 + jc.len() + nd.len(), st.1 as int)
            &&& s[end - 1] == ']'
        }),
{
    reveal_strlit("[");
    reveal_strlit(",");
    reveal_strlit("]");
    let jc = json_of_color(st.0);
    let nd = dec_str(st.1 as nat);
    let post = ","@ + nd + "]"@;
    assert(json_of_stop(st) =~= "["@ + jc + post);
    lemma_wrapped_layout(s, pos, end, "["@, jc, post);
    assert(s[pos] == '[');
    assert forall|i: int| 0 <= i < jc.len() implies s.subrange(pos + 1, pos + 1 + jc.len())[i]
        == jc[i] by {
        assert(s.subrange(pos + 1, pos + 1 + jc.len())[i] == s[pos + 1 + i]);
        assert(s[pos + 1 + i] == jc[i]);
    }
    assert(s.subrange(pos + 1, pos + 1 + jc.len()) =~= jc);
    assert(s[pos + 1 + jc.len()] == post[0]);
    let nstart = pos + 2 + jc.len();
    assert forall|i: int| 0 <= i < nd.len() implies s.subrange(nstart, nstart + nd.len())[i]
        == nd[i] by {
        assert(s.subrange(nstart, nstart + nd.len())[i] == s[nstart + i]);
        assert(s[nstart + i] == post[1 + i]);
        assert(post[1 + i] == nd[i]);
    }
    assert(s.subrange(nstart, nstart + nd.len()) =~= nd);
    assert(s[nstart + nd.len()] == post[(1 + nd.len()) as int]);
    assert(post[(1 + nd.len()) as int] == ']');
    crate::codec::lemma_dec_str_props(st.1 as nat);
}

/// Two stops recognized at the same position have equal encodings ending at
/// the same place.
proof fn lemma_stop_unique(
    s: Seq<char>,
    pos: int,
    st1: (Color, u16),
    e1: int,
    st2: (Color, u16),
    e2: int,
)
    requires
        color_wf(st1.0),
        color_wf(st2.0),
        stop_at(s, pos, e1, st1),
        stop_at(s, pos, e2, st2),
    ensures
        e1 == e2,
        json_of_stop(st1) == json_of_stop(st2),
{
    lemma_stop_parts(s, pos, e1, st1);
    lemma_stop_parts(s, pos, e2, st2);
    let jc1 = json_of_color(st1.0);
    let jc2 = json_of_color(st2.0);
    lemma_color_unique(s, pos + 1, st1.0, pos + 1 + jc1.len(), st2.0, pos + 1 + jc2.len());
    let nstart = pos + 2 + jc1.len();
    lemma_number_unique(
        s,
        nstart,
        st1.1 as int,
        nstart + dec_str(st1.1 as nat).len(),
        st2.1 as int,
        nstart + dec_str(st2.1 as nat).len(),
    );
}

/// The opening pieces of a stop list's encoding.
proof fn lemma_stops_open(s: Seq<char>, pos: int, end: int, v: Seq<(Color, u16)>)
    requires
        stops_at(s, pos, end, v),
    ensures
        s[pos] == '[',
        s[end - 1] == ']',
        end - pos == 2 + joined_stops(v).len(),
        v.len() == 0 ==> end == pos + 2 && s[pos + 1] == ']',
        v.len() >= 1 ==> rest_ok(s, pos + 1, end, v),
{
    reveal_strlit("[");
    reveal_strlit("]");
    lemma_wrapped_layout(s, pos, end, "["@, joined_stops(v), "]"@);
    assert(s[pos] == '[');
    assert(s[pos + 1 + joined_stops(v).len()] == ']');
    if v.len() >= 1 {
        assert forall|i: int| 0 <= i < joined_stops(v).len() implies s.subrange(
            pos + 1,
            end - 1,
        )[i] == joined_stops(v)[i] by {
            assert(s.subrange(pos + 1, end - 1)[i] == s[pos + 1 + i]);
            assert(s[pos + 1 + i] == joined_stops(v)[i]);
        }
        assert(s.subrange(pos + 1, end - 1) =~= joined_stops(v));
    }
}

/// Peeling the first stop off a nonempty tail.
proof fn lemma_rest_peel(s: Seq<char>, p: int, end: int, w: Seq<(Color, u16)>)
    requires
        rest_ok(s, p, end, w),
    ensures
        ({
            let q = p + json_of_stop(w[0]).len();
            &&& p < q <= end - 1
            &&& stop_at(s, p, q, w[0])
            &&& (w.len() == 1 ==> end == q + 1 && s[q] == ']')
            &&& (w.len() >= 2 ==> q + 1 < end && s[q] == ',' && rest_ok(s, q + 1, end,
            w.drop_first()))
        }),
{
    reveal_strlit(",");
    let j0 = json_of_stop(w[0]);
    if w.len() == 1 {
        assert(joined_stops(w) == j0);
        assert forall|i: int| 0 <= i < j0.len() implies s.subrange(p, p + j0.len())[i]
            == j0[i] by {
            assert(s.subrange(p, end - 1)[i] == s[p + i]);
            assert(s.subrange(p, p + j0.len())[i] == s[p + i]);
        }
        assert(s.subrange(p, p + j0.len()) =~= j0);
        assert(j0.len() >= 1) by {
            reveal_strlit("[");
            assert(j0 =~= "["@ + json_of_color(w[0].0) + ","@ + dec_str(w[0].1 as nat) + "]"@);
        }
    } else {
        assert(joined_stops(w) == j0 + ","@ + joined_stops(w.drop_first()));
        lemma_wrapped_layout(s, p, end - 1, j0, ","@, joined_stops(w.drop_first()));
        let q = p + j0.len();
        assert forall|i: int| 0 <= i < j0.len() implies s.subrange(p, q)[i] == j0[i] by {
            assert(s.subrange(p, q)[i] == s[p + i]);
            assert(s[p + i] == j0[i]);
        }
        assert(s.subrange(p, q) =~= j0);
        assert(s[q] == ','
        ) by {
            assert(s[p + j0.len() + 0] == ","@[0]);
        }
        assert forall|i: int| 0 <= i < joined_stops(w.drop_first()).len() implies s.subrange(
            q + 1,
            end - 1,
        )[i] == joined_stops(w.drop_first())[i] by {
            assert(s.subrange(q + 1, end - 1)[i] == s[q + 1 + i]);
            assert(s[p + j0.len() + ","@.len() + i] == joined_stops(w.drop_first())[i]);
        }
        assert(s.subrange(q + 1, end - 1) =~= joined_stops(w.drop_first()));
    }
}

/// Two stop lists recognized at the same position end at the same place.
proof fn lemma_rest_unique(
    s: Seq<char>,
    p: int,
    end1: int,
    w1: Seq<(Color, u16)>,
    end2: int,
    w2: Seq<(Color, u16)>,
)
    requires
        stops_wf(w1),
        stops_wf(w2),
        rest_ok(s, p, end1, w1),
        rest_ok(s, p, end2, w2),
    ensures
        end1 == end2,
    decreases w1.len(),
{
    lemma_rest_peel(s, p, end1, w1);
    lemma_rest_peel(s, p, end2, w2);
    assert(color_wf(w1[0].0));
    assert(color_wf(w2[0].0));
    lemma_stop_unique(
        s,
        p,
        w1[0],
        p + json_of_stop(w1[0]).len(),
        w2[0],
        p + json_of_stop(w2[0]).len(),
    );
    let q = p + json_of_stop(w1[0]).len();
    if w1.len() == 1 && w2.len() == 1 {
    } else if w1.len() == 1 && w2.len() >= 2 {
        assert(s[q] == ']');
        assert(s[q] == ',');
        assert(false);
    } else if w1.len() >= 2 && w2.len() == 1 {
        assert(s[q] == ']');
        assert(s[q] == ',');
        assert(false);
    } else {
        assert(stops_wf(w1.drop_first())) by {
            assert(forall|i: int|
                0 <= i < w1.drop_first().len() ==> (#[trigger] w1.drop_first()[i]) == w1[i + 1]);
        }
        assert(stops_wf(w2.drop_first())) by {
            assert(forall|i: int|
                0 <= i < w2.drop_first().len() ==> (#[trigger] w2.drop_first()[i]) == w2[i + 1]);
        }
        lemma_rest_unique(s, q + 1, end1, w1.drop_first(), end2, w2.drop_first());
    }
}

/// Two stop lists recognized at the same position end at the same place.
pub proof fn lemma_stops_unique(
    s: Seq<char>,
    pos: int,
    v1: Seq<(Color, u16)>,
    e1: int,
    v2: Seq<(Color, u16)>,
    e2: int,
)
    requires
        stops_wf(v1),
        stops_wf(v2),
        stops_at(s, pos, e1, v1),
        stops_at(s, pos, e2, v2),
    ensures
        e1 == e2,
{
    lemma_stops_open(s, pos, e1, v1);
    lemma_stops_open(s, pos, e2, v2);
    if v1.len() == 0 && v2.len() == 0 {
    } else if v1.len() == 0 && v2.len() >= 1 {
        lemma_rest_peel(s, pos + 1, e2, v2);
        lemma_stop_parts(s, pos + 1, pos + 1 + json_of_stop(v2[0]).len(), v2[0]);
        assert(s[pos + 1] == '[');
        assert(s[pos + 1] == ']');
        assert(false);
    } else if v1.len() >= 1 && v2.len() == 0 {
        lemma_rest_peel(s, pos + 1, e1, v1);
        lemma_stop_parts(s, pos + 1, pos + 1 + json_of_stop(v1[0]).len(), v1[0]);
        assert(s[pos + 1] == '[');
        assert(s[pos + 1] == ']');
        assert(false);
    } else {
        lemma_rest_unique(s, pos + 1, e1, v1, e2, v2);
    }
}

/// Parses the stop whose encoding sits at `pos`: succeeds exactly when a
/// well-formed stop is recognized there.
fn parse_stop(s: &str, pos: usize) -> (r: Option<((Color, u16), usize)>)
    requires
        pos <= s@.len(),
    ensures
        match r {
            Some((st, end)) => color_wf(st.0) && stop_at(s@, pos as int, end as int, st),
            None => forall|st: (Color, u16), end: int|
                color_wf(st.0) ==> !#[trigger] stop_at(s@, pos as int, end, st),
        },
{
    let len = s.unicode_len();
    proof {
        reveal_strlit("[");
        reveal_strlit(",");
        reveal_strlit("]");
    }
    if !expect_lit(s, pos, "[") {
        proof {
            assert forall|st: (Color, u16), end: int|
                color_wf(st.0) implies !#[trigger] stop_at(s@, pos as int, end, st) by {
                if stop_at(s@, pos as int, end, st) {
                    lemma_stop_parts(s@, pos as int, end, st);
                    assert(s@.subrange(pos as int, pos + 1) =~= "["@);
                    assert(false);
                }
            }
        }
        return None;
    }
    match parse_color(s, pos + 1) {
        None => {
            proof {
                assert forall|st: (Color, u16), end: int|
                    color_wf(st.0) implies !#[trigger] stop_at(s@, pos as int, end, st) by {
                    if stop_at(s@, pos as int, end, st) {
                        lemma_stop_parts(s@, pos as int, end, st);
                        assert(false);
                    }
                }
            }
            None
        },
        Some((c, pc)) => {
            let comma_ok = expect_lit(s, pc, ",");
            if !comma_ok {
                proof {
                    assert forall|st: (Color, u16), end: int|
                        color_wf(st.0) implies !#[trigger] stop_at(s@, pos as int, end, st) by {
                        if stop_at(s@, pos as int, end, st) {
                            lemma_stop_parts(s@, pos as int, end, st);
                            lemma_color_unique(
                                s@,
                                pos + 1,
                                c,
                                pc as int,
                                st.0,
                                pos + 1 + json_of_color(st.0).len(),
                            );
                            assert(s@.subrange(pc as int, pc + 1) =~= ","@);
                            assert(false);
                        }
                    }
                }
                return None;
            }
            match parse_int(s, pc + 1, 0, 0xffff) {
                None => {
                    proof {
                        assert forall|st: (Color, u16), end: int|
                            color_wf(st.0) implies !#[trigger] stop_at(s@, pos as int, end, st) by {
                            if stop_at(s@, pos as int, end, st) {
                                lemma_stop_parts(s@, pos as int, end, st);
                                lemma_color_unique(
                                    s@,
                                    pos + 1,
                                    c,
                                    pc as int,
                                    st.0,
                                    pos + 1 + json_of_color(st.0).len(),
                                );
                                assert(number_at(
                                    s@,
                                    pc + 1,
                                    pc + 1 + dec_str(st.1 as nat).len(),
                                    st.1 as int,
                                ));
                                assert(false);
                            }
                        }
                    }
                    None
                },
                Some((num, pn)) => {
                    let close_ok = expect_lit(s, pn, "]");
                    if !close_ok {
                        proof {
                            assert forall|st: (Color, u16), end: int|
                                color_wf(st.0) implies !#[trigger] stop_at(
                                s@,
                                pos as int,
                                end,
                                st,
                            ) by {
                                if stop_at(s@, pos as int, end, st) {
                                    lemma_stop_parts(s@, pos as int, end, st);
                                    lemma_color_unique(
                                        s@,
                                        pos + 1,
                                        c,
                                        pc as int,
                                        st.0,
                                        pos + 1 + json_of_color(st.0).len(),
                                    );
                                    lemma_number_unique(
                                        s@,
                                        pc + 1,
                                        num as int,
                                        pn as int,
                                        st.1 as int,
                                        pc + 1 + dec_str(st.1 as nat).len(),
                                    );
                                    assert(s@.subrange(pn as int, pn + 1) =~= "]"@);
                                    assert(false);
                                }
                            }
                        }
                        None
                    } else {
                        let st = (c, num as u16);
                        let end = pn + 1;
                        proof {
                            let jc = json_of_color(c);
                            let nd = dec_str((num as u16) as nat);
                            assert(nd == dec_str_signed(num as int));
                            assert(s@.subrange(pos as int, pos + 1) == "["@);
                            assert(s@.subrange(pos + 1, pc as int) == jc);
                            assert(s@.subrange(pc as int, pc + 1) == ","@);
                            assert(s@.subrange(pc + 1, pn as int) == nd);
                            assert(s@.subrange(pn as int, pn + 1) == "]"@);
                            let whole = "["@ + jc + ","@ + nd + "]"@;
                            assert forall|i: int|
                                0 <= i < end - pos implies s@.subrange(pos as int, end as int)[i]
                                == whole[i] by {
                                assert(s@.subrange(pos as int, end as int)[i] == s@[pos + i]);
                                if i < 1 {
                                    assert(s@.subrange(pos as int, pos + 1)[i] == s@[pos + i]);
                                } else if pos + i < pc {
                                    assert(s@.subrange(pos + 1, pc as int)[pos + i - (pos + 1)]
                                        == s@[pos + i]);
                                } else if pos + i < pc + 1 {
                                    assert(s@.subrange(pc as int, pc + 1)[pos + i - pc] == s@[pos
                                        + i]);
                                } else if pos + i < pn {
                                    assert(s@.subrange(pc + 1, pn as int)[pos + i - (pc + 1)]
                                        == s@[pos + i]);
                                } else {
                                    assert(s@.subrange(pn as int, pn + 1)[pos + i - pn] == s@[pos
                                        + i]);
                                }
                            }
                            assert(s@.subrange(pos as int, end as int) =~= whole);
                        }
                        Some((st, end))
                    }
                },
            }
        },
    }
}

/// The state of a stop-list decode after `k` stops: either the list closes
/// right here, or a comma introduces the remaining stops.
pub open spec fn stops_progress(
    s: Seq<char>,
    v: Seq<(Color, u16)>,
    end: int,
    k: int,
    p: int,
) -> bool {
    ||| (v.len() == k && end == p + 1 && 0 <= p < s.len() && s[p] == ']')
    ||| (v.len() > k && 0 <= p < s.len() && s[p] == ',' && rest_ok(s, p + 1, end, v.skip(k)))
}

/// Parses the stop list whose encoding sits at `pos`: succeeds exactly when
/// a well-formed list is recognized there.
pub(crate) fn parse_stops(s: &str, pos: usize) -> (r: Option<(Vec<(Color, u16)>, usize)>)
    requires
        pos <= s@.len(),
    ensures
        match r {
            Some((v, end)) => stops_wf(v@) && stops_at(s@, pos as int, end as int, v@),
            None => forall|v: Seq<(Color, u16)>, end: int|
                stops_wf(v) ==> !#[trigger] stops_at(s@, pos as int, end, v),
        },
{
    let len = s.unicode_len();
    proof {
        reveal_strlit("[");
        reveal_strlit("]");
        reveal_strlit(",");
    }
    if !expect_lit(s, pos, "[") {
        proof {
            assert forall|v: Seq<(Color, u16)>, end: int|
                stops_wf(v) implies !#[trigger] stops_at(s@, pos as int, end, v) by {
                if stops_at(s@, pos as int, end, v) {
                    lemma_stops_open(s@, pos as int, end, v);
                    assert(s@.subrange(pos as int, pos + 1) =~= "["@);
                    assert(false);
                }
            }
        }
        return None;
    }
    if expect_lit(s, pos + 1, "]") {
        let v: Vec<(Color, u16)> = Vec::new();
        let end = pos + 2;
        proof {
            assert(v@ =~= Seq::<(Color, u16)>::empty());
            assert(joined_stops(v@) == Seq::<char>::empty());
            let target = "["@ + joined_stops(v@) + "]"@;
            assert(target.len() == 2);
            assert(s@.subrange(pos as int, pos + 1)[0] == s@[pos as int]);
            assert(s@.subrange(pos + 1, pos + 2)[0] == s@[pos + 1]);
            assert(target[0] == '[');
            assert(target[1] == ']');
            assert forall|i: int| 0 <= i < 2 implies s@.subrange(pos as int, pos + 2)[i]
                == target[i] by {
                assert(s@.subrange(pos as int, pos + 2)[i] == s@[pos + i]);
            }
            assert(s@.subrange(pos as int, pos + 2) =~= target);
        }
        return Some((v, end));
    }
    match parse_stop(s, pos + 1) {
        None => {
            proof {
                assert forall|v: Seq<(Color, u16)>, end: int|
                    stops_wf(v) implies !#[trigger] stops_at(s@, pos as int, end, v) by {
                    if stops_at(s@, pos as int, end, v) {
                        lemma_stops_open(s@, pos as int, end, v);
                        if v.len() == 0 {
                            assert(s@.subrange(pos + 1, pos + 2)[0] == s@[pos + 1]);
                            assert(s@.subrange(pos + 1, pos + 2) =~= "]"@);
                            assert(false);
                        } else {
                            lemma_rest_peel(s@, pos + 1, end, v);
                            assert(color_wf(v[0].0));
                            assert(false);
                        }
                    }
                }
            }
            None
        },
        Some((st0, p_first)) => {
            let mut acc: Vec<(Color, u16)> = Vec::new();
            acc.push(st0);
            let mut p = p_first;
            proof {
                assert(acc@ =~= seq![st0]);
                assert(acc@[0] == st0);
                assert(stops_wf(acc@));
                assert(joined_stops(acc@) == json_of_stop(st0));
                assert forall|v: Seq<(Color, u16)>, end: int|
                    stops_wf(v) && #[trigger] stops_at(s@, pos as int, end, v) implies stops_progress(
                    s@,
                    v,
                    end,
                    1,
                    p as int,
                ) by {
                    lemma_stops_open(s@, pos as int, end, v);
                    if v.len() == 0 {
                        assert(s@.subrange(pos + 1, pos + 2)[0] == s@[pos + 1]);
                        assert(s@.subrange(pos + 1, pos + 2) =~= "]"@);
                        assert(false);
                    } else {
                        lemma_rest_peel(s@, pos + 1, end, v);
                        assert(color_wf(v[0].0));
                        lemma_stop_unique(
                            s@,
                            pos + 1,
                            st0,
                            p as int,
                            v[0],
                            pos + 1 + json_of_stop(v[0]).len(),
                        );
                        if v.len() == 1 {
                            assert(v.len() == 1 && end == p + 1 && s@[p as int] == ']');
                        } else {
                            assert(v.skip(1) =~= v.drop_first());
                        }
                    }
                }
            }
            loop
                invariant
                    pos < p <= len,
                    len == s@.len(),
                    acc@.len() >= 1,
                    stops_wf(acc@),
                    s@.subrange(pos + 1, p as int) == joined_stops(acc@),
                    s@.subrange(pos as int, pos + 1) == "["@,
                    forall|v: Seq<(Color, u16)>, end: int|
                        stops_wf(v) && #[trigger] stops_at(s@, pos as int, end, v)
                            ==> stops_progress(s@, v, end, acc@.len() as int, p as int),
                decreases len - p,
            {
                proof {
                    reveal_strlit("[");
                    reveal_strlit("]");
                    reveal_strlit(",");
                }
                if expect_lit(s, p, "]") {
                    let end = p + 1;
                    proof {
                        let target = "["@ + joined_stops(acc@) + "]"@;
                        assert forall|i: int| 0 <= i < end - pos implies s@.subrange(
                            pos as int,
                            end as int,
                        )[i] == target[i] by {
                            assert(s@.subrange(pos as int, end as int)[i] == s@[pos + i]);
                            if i < 1 {
                                assert(s@.subrange(pos as int, pos + 1)[i] == s@[pos + i]);
                            } else if pos + i < p {
                                assert(s@.subrange(pos + 1, p as int)[pos + i - (pos + 1)]
                                    == s@[pos + i]);
                            } else {
                                assert(s@.subrange(p as int, p + 1)[0] == s@[p as int]);
                            }
                        }
                        assert(s@.subrange(pos as int, end as int) =~= target);
                    }
                    return Some((acc, end));
                }
                if !expect_lit(s, p, ",") {
                    proof {
                        assert forall|v: Seq<(Color, u16)>, end: int|
                            stops_wf(v) implies !#[trigger] stops_at(s@, pos as int, end, v) by {
                            if stops_at(s@, pos as int, end, v) {
                                assert(stops_progress(s@, v, end, acc@.len() as int, p as int));
                                if v.len() == acc@.len() {
                                    assert(s@.subrange(p as int, p + 1)[0] == s@[p as int]);
                                    assert(s@.subrange(p as int, p + 1) =~= "]"@);
                                    assert(false);
                                } else {
                                    assert(s@.subrange(p as int, p + 1)[0] == s@[p as int]);
                                    assert(s@.subrange(p as int, p + 1) =~= ","@);
                                    assert(false);
                                }
                            }
                        }
                    }
                    return None;
                }
                match parse_stop(s, p + 1) {
                    None => {
                        proof {
                            assert forall|v: Seq<(Color, u16)>, end: int|
                                stops_wf(v) implies !#[trigger] stops_at(
                                s@,
                                pos as int,
                                end,
                                v,
                            ) by {
                                if stops_at(s@, pos as int, end, v) {
                                    assert(stops_progress(
                                        s@,
                                        v,
                                        end,
                                        acc@.len() as int,
                                        p as int,
                                    ));
                                    if v.len() == acc@.len() {
                                        assert(s@.subrange(p as int, p + 1)[0] == s@[p as int]);
                                        assert(s@.subrange(p as int, p + 1) =~= "]"@);
                                        assert(false);
                                    } else {
                                        let w = v.skip(acc@.len() as int);
                                        lemma_rest_peel(s@, p + 1, end, w);
                                        assert(w[0] == v[acc@.len() as int]);
                                        assert(color_wf(w[0].0));
                                        assert(false);
                                    }
                                }
                            }
                        }
                        return None;
                    },
                    Some((st, p2)) => {
                        let ghost acc0 = acc@;
                        let ghost pprev = p as int;
                        acc.push(st);
                        p = p2;
                        proof {
                            assert(acc@ == acc0.push(st));
                            assert(stops_wf(acc@)) by {
                                assert(forall|i: int|
                                    0 <= i < acc0.len() ==> (#[trigger] acc@[i]) == acc0[i]);
                                assert(acc@[acc0.len() as int] == st);
                            }
                            lemma_joined_snoc(acc0, st);
                            assert forall|i: int|
                                0 <= i < joined_stops(acc@).len() implies s@.subrange(
                                pos + 1,
                                p as int,
                            )[i] == joined_stops(acc@)[i] by {
                                assert(s@.subrange(pos + 1, p as int)[i] == s@[pos + 1 + i]);
                                let ja = joined_stops(acc0);
                                if pos + 1 + i < pprev {
                                    assert(s@.subrange(pos + 1, pprev)[i] == s@[pos + 1 + i]);
                                    assert(joined_stops(acc@)[i] == ja[i]);
                                } else if pos + 1 + i < pprev + 1 {
                                    assert(s@.subrange(pprev, pprev + 1)[0] == s@[pprev]);
                                    assert(s@.subrange(pprev, pprev + 1) == ","@);
                                    assert(joined_stops(acc@)[i] == ',');
                                } else {
                                    assert(s@.subrange(pprev + 1, p as int)[pos + 1 + i - (pprev
                                        + 1)] == s@[pos + 1 + i]);
                                    assert(joined_stops(acc@)[i] == json_of_stop(st)[pos + 1 + i
                                        - (pprev + 1)]);
                                }
                            }
                            assert(s@.subrange(pos + 1, p as int) =~= joined_stops(acc@));
                            assert forall|v: Seq<(Color, u16)>, end: int|
                                stops_wf(v) && #[trigger] stops_at(s@, pos as int, end, v) implies
                                stops_progress(s@, v, end, acc@.len() as int, p as int) by {
                                assert(stops_progress(s@, v, end, acc0.len() as int, pprev));
                                if v.len() == acc0.len() {
                                    assert(s@[pprev] == ']');
                                    assert(s@.subrange(pprev, pprev + 1)[0] == s@[pprev]);
                                    assert(s@.subrange(pprev, pprev + 1) == ","@);
                                    assert(false);
                                }
                                let w = v.skip(acc0.len() as int);
                                lemma_rest_peel(s@, pprev + 1, end, w);
                                assert(w[0] == v[acc0.len() as int]);
                                assert(color_wf(w[0].0));
                                lemma_stop_unique(
                                    s@,
                                    pprev + 1,
                                    st,
                                    p as int,
                                    w[0],
                                    pprev + 1 + json_of_stop(w[0]).len(),
                                );
                                if w.len() == 1 {
                                    assert(v.len() == acc@.len());
                                } else {
                                    assert(w.drop_first() =~= v.skip(acc@.len() as int));
                                }
                            }
                        }
                    },
                }
            }
        },
    }
}

/// A gradient: its shape plus an ordered list of color stops, each at a
/// position along the gradient.
#[derive(Debug)]
pub struct Gradient {
    pub gradient_type: GradientType,
    pub stops: Vec<(Color, u16)>,
}

/// Well-formedness of a gradient: every stop's color is well-formed.
pub open spec fn gradient_wf(g: Gradient) -> bool {
    stops_wf(g.stops@)
}

/// The canonical text form of a gradient: its shape and its stop list
/// behind fixed keys.
pub open spec fn json_of_gradient(g: Gradient) -> Seq<char> {
    "{\"gradient_type\":"@ + json_of_gradient_type(g.gradient_type) + ",\"stops\":"@
        + json_of_stops(g.stops@) + "}"@
}

/// Equality of gradients up to observable content: same shape, same stops.
pub open spec fn gradient_like(a: Gradient, b: Gradient) -> bool {
    &&& a.gradient_type == b.gradient_type
    &&& a.stops@.len() == b.stops@.len()
    &&& forall|i: int|
        0 <= i < a.stops@.len() ==> color_like((#[trigger] a.stops@[i]).0, b.stops@[i].0)
            && a.stops@[i].1 == b.stops@[i].1
}

impl PartialEq for Gradient {
    fn eq(&self, other: &Self) -> (r: bool) {
        if !(self.gradient_type == other.gradient_type) {
            return false;
        }
        if self.stops.len() != other.stops.len() {
            return false;
        }
        let n = self.stops.len();
        let mut i: usize = 0;
        while i < n
            invariant
                i <= n,
                n == self.stops@.len(),
                n == other.stops@.len(),
                self.gradient_type == other.gradient_type,
                forall|j: int|
                    0 <= j < i ==> color_like((#[trigger] self.stops@[j]).0, other.stops@[j].0)
                        && self.stops@[j].1 == other.stops@[j].1,
            decreases n - i,
        {
            let a = &self.stops[i];
            let b = &other.stops[i];
            if !crate::color::color_eq(&a.0, &b.0) || a.1 != b.1 {
                return false;
            }
            i = i + 1;
        }
        true
    }
}

impl Eq for Gradient {

}

impl vstd::std_specs::cmp::PartialEqSpecImpl for Gradient {
    open spec fn obeys_eq_spec() -> bool {
        true
    }

    open spec fn eq_spec(&self, other: &Self) -> bool {
        gradient_like(*self, *other)
    }
}

impl Gradient {
    pub fn new(gradient_type: GradientType, stops: Vec<(Color, u16)>) -> (g: Gradient)
        ensures
            g.gradient_type == gradient_type,
            g.stops@ == stops@,
    {
        Gradient { gradient_type, stops }
    }

    /// The canonical text form of this gradient.
    pub fn to_json(&self) -> (r: String)
        ensures
            r@ == json_of_gradient(*self),
    {
        let mut out = String::new();
        out.append("{\"gradient_type\":");
        let gt = self.gradient_type.to_json();
        out.append(gt.as_str());
        out.append(",\"stops\":");
        out.append("[");
        let n = self.stops.len();
        let mut i: usize = 0;
        while i < n
            invariant
                i <= n,
                n == self.stops@.len(),
                out@ == "{\"gradient_type\":"@ + json_of_gradient_type(self.gradient_type)
                    + ",\"stops\":"@ + "["@ + joined_stops(self.stops@.take(i as int)),
            decreases n - i,
        {
            let ghost pre = out@;
            if i > 0 {
                out.append(",");
            }
            out.append("[");
            let st = &self.stops[i];
            let cj = st.0.to_json();
            out.append(cj.as_str());
            out.append(",");
            push_uint(&mut out, st.1 as u64);
            out.append("]");
            proof {
                assert(self.stops@.take(i + 1).drop_last() =~= self.stops@.take(i as int));
                assert(self.stops@.take(i + 1) =~= self.stops@.take(i as int).push(
                    self.stops@[i as int],
                ));
                if i == 0 {
                    assert(self.stops@.take(0int) =~= Seq::<(Color, u16)>::empty());
                    assert(joined_stops(self.stops@.take(0int)) == Seq::<char>::empty());
                    assert(self.stops@.take(1int).len() == 1);
                    assert(joined_stops(self.stops@.take(1int)) == json_of_stop(self.stops@[0int]));
                    assert(out@ =~= "{\"gradient_type\":"@ + json_of_gradient_type(
                        self.gradient_type,
                    ) + ",\"stops\":"@ + "["@ + joined_stops(self.stops@.take(i + 1)));
                } else {
                    lemma_joined_snoc(self.stops@.take(i as int), self.stops@[i as int]);
                    assert(out@ =~= "{\"gradient_type\":"@ + json_of_gradient_type(
                        self.gradient_type,
                    ) + ",\"stops\":"@ + "["@ + joined_stops(self.stops@.take(i + 1)));
                }
            }
            i = i + 1;
        }
        out.append("]");
        out.append("}");
        proof {
            assert(self.stops@.take(n as int) =~= self.stops@);
            assert(out@ =~= json_of_gradient(*self));
        }
        out
    }

    /// Reads a well-formed gradient back from its canonical text form, and
    /// from nothing else.
    pub fn from_json(s: &str) -> (r: Option<Gradient>)
        ensures
            match r {
                Some(g) => gradient_wf(g) && s@ == json_of_gradient(g),
                None => forall|g: Gradient| gradient_wf(g) ==> s@ != json_of_gradient(g),
            },
    {
        let len = s.unicode_len();
        proof {
            reveal_strlit("{\"gradient_type\":");
            reveal_strlit(",\"stops\":");
            reveal_strlit("}");
        }
        if !expect_lit(s, 0, "{\"gradient_type\":") {
            proof {
                assert forall|g: Gradient| gradient_wf(g) implies s@ != json_of_gradient(g) by {
                    if s@ == json_of_gradient(g) {
                        lemma_gradient_parts(s@, g);
                        assert(false);
                    }
                }
            }
            return None;
        }
        let p0: usize = 17;
        match parse_gradient_type(s, p0) {
            None => {
                proof {
                    assert forall|g: Gradient| gradient_wf(g) implies s@ != json_of_gradient(
                        g,
                    ) by {
                        if s@ == json_of_gradient(g) {
                            lemma_gradient_parts(s@, g);
                            assert(false);
                        }
                    }
                }
                None
            },
            Some((t, p1)) => {
                if !expect_lit(s, p1, ",\"stops\":") {
                    proof {
                        assert forall|g: Gradient| gradient_wf(g) implies s@ != json_of_gradient(
                            g,
                        ) by {
                            if s@ == json_of_gradient(g) {
                                lemma_gradient_parts(s@, g);
                                lemma_gradient_type_unique(
                                    s@,
                                    17,
                                    t,
                                    p1 as int,
                                    g.gradient_type,
                                    17 + json_of_gradient_type(g.gradient_type).len() as int,
                                );
                                assert(false);
                            }
                        }
                    }
                    return None;
                }
                let p2 = p1 + 9;
                match parse_stops(s, p2) {
                    None => {
                        proof {
                            assert forall|g: Gradient|
                                gradient_wf(g) implies s@ != json_of_gradient(g) by {
                                if s@ == json_of_gradient(g) {
                                    lemma_gradient_parts(s@, g);
                                    lemma_gradient_type_unique(
                                        s@,
                                        17,
                                        t,
                                        p1 as int,
                                        g.gradient_type,
                                        17 + json_of_gradient_type(g.gradient_type).len() as int,
                                    );
                                    assert(stops_at(
                                        s@,
                                        p2 as int,
                                        p2 + json_of_stops(g.stops@).len() as int,
                                        g.stops@,
                                    ));
                                    assert(false);
                                }
                            }
                        }
                        None
                    },
                    Some((stops, p3)) => {
                        let close_ok = expect_lit(s, p3, "}");
                        if close_ok && p3 + 1 == len {
                            let g = Gradient { gradient_type: t, stops };
                            proof {
                                assert(s@.subrange(0, 17int) == "{\"gradient_type\":"@);
                                assert(s@.subrange(17int, p1 as int) == json_of_gradient_type(t));
                                assert(s@.subrange(p1 as int, p2 as int) == ",\"stops\":"@);
                                assert(s@.subrange(p2 as int, p3 as int) == json_of_stops(
                                    g.stops@,
                                ));
                                assert(s@.subrange(p3 as int, p3 + 1) == "}"@);
                                let target = json_of_gradient(g);
                                assert forall|i: int| 0 <= i < len implies s@[i] == target[i] by {
                                    if i < 17 {
                                        assert(s@.subrange(0, 17int)[i] == s@[i]);
                                    } else if i < p1 {
                                        assert(s@.subrange(17int, p1 as int)[i - 17] == s@[i]);
                                    } else if i < p2 {
                                        assert(s@.subrange(p1 as int, p2 as int)[i - p1] == s@[i]);
                                    } else if i < p3 {
                                        assert(s@.subrange(p2 as int, p3 as int)[i - p2] == s@[i]);
                                    } else {
                                        assert(s@.subrange(p3 as int, p3 + 1)[i - p3] == s@[i]);
                                    }
                                }
                                assert(s@ =~= target);
                            }
                            Some(g)
                        } else {
                            proof {
                                let ghost our_stops = stops@;
                                assert forall|g: Gradient|
                                    gradient_wf(g) implies s@ != json_of_gradient(g) by {
                                    if s@ == json_of_gradient(g) {
                                        lemma_gradient_parts(s@, g);
                                        lemma_gradient_type_unique(
                                            s@,
                                            17,
                                            t,
                                            p1 as int,
                                            g.gradient_type,
                                            17 + json_of_gradient_type(g.gradient_type).len() as int,
                                        );
                                        lemma_stops_unique(
                                            s@,
                                            p2 as int,
                                            our_stops,
                                            p3 as int,
                                            g.stops@,
                                            p2 + json_of_stops(g.stops@).len() as int,
                                        );
                                        assert(s@[p3 as int] == '}');
                                        assert(s@.subrange(p3 as int, p3 + 1)[0] == s@[p3 as int]);
                                        assert(s@.subrange(p3 as int, p3 + 1) =~= "}"@);
                                        assert(close_ok);
                                        assert(p3 + 1 == len);
                                        assert(false);
                                    }
                                }
                            }
                            None
                        }
                    },
                }
            },
        }
    }
}

/// The pieces of a gradient's encoding, at their offsets.
proof fn lemma_gradient_parts(s: Seq<char>, g: Gradient)
    requires
        s == json_of_gradient(g),
    ensures
        ({
            let jt = json_of_gradient_type(g.gradient_type);
            let js = json_of_stops(g.stops@);
            &&& s.len() == 27 + jt.len() + js.len()
            &&& s.subrange(0, 17) == "{\"gradient_type\":"@
            &&& gradient_type_at(s, 17, 17 + jt.len() as int, g.gradient_type)
            &&& s.subrange(17 + jt.len() as int, 26 + jt.len() as int) == ",\"stops\":"@
            &&& stops_at(s, 26 + jt.len() as int, 26 + jt.len() as int + js.len() as int, g.stops@)
            &&& s[s.len() - 1] == '}'
        }),
{
    reveal_strlit("{\"gradient_type\":");
    reveal_strlit(",\"stops\":");
    reveal_strlit("}");
    let pre = "{\"gradient_type\":"@;
    let jt = json_of_gradient_type(g.gradient_type);
    let js = json_of_stops(g.stops@);
    let tail = ",\"stops\":"@ + js + "}"@;
    assert(s =~= pre + jt + tail);
    assert(s.subrange(0, s.len() as int) =~= s);
    lemma_wrapped_layout(s, 0, s.len() as int, pre, jt, tail);
    assert forall|i: int| 0 <= i < 17 implies s.subrange(0, 17)[i] == pre[i] by {
        assert(s.subrange(0, 17)[i] == s[i]);
    }
    assert(s.subrange(0, 17) =~= pre);
    assert forall|i: int| 0 <= i < jt.len() implies s.subrange(17, 17 + jt.len() as int)[i] == jt[i] by {
        assert(s.subrange(17, 17 + jt.len() as int)[i] == s[17 + i]);
    }
    assert(s.subrange(17, 17 + jt.len() as int) =~= jt);
    let t0 = 17 + jt.len() as int;
    assert forall|i: int| 0 <= i < tail.len() implies s[t0 + i] == tail[i] by {}
    assert forall|i: int| 0 <= i < 9 implies s.subrange(t0 as int, t0 + 9)[i] == ",\"stops\":"@[i] by {
        assert(s.subrange(t0 as int, t0 + 9)[i] == s[t0 + i]);
        assert(tail[i] == ",\"stops\":"@[i]);
    }
    assert(s.subrange(t0 as int, t0 + 9) =~= ",\"stops\":"@);
    let s0 = t0 + 9;
    assert forall|i: int| 0 <= i < js.len() implies s.subrange(s0 as int, s0 + js.len() as int)[i]
        == js[i] by {
        assert(s.subrange(s0 as int, s0 + js.len() as int)[i] == s[s0 + i]);
        assert(tail[9 + i] == js[i]);
        assert(s[t0 + (9 + i)] == tail[9 + i]);
    }
    assert(s.subrange(s0 as int, s0 + js.len() as int) =~= js);
    assert(s[t0 + (tail.len() - 1) as int] == tail[(tail.len() - 1) as int]);
    assert(tail[(tail.len() - 1) as int] == '}');
}

} // verus!
