use vstd::prelude::*;
use vstd::string::*;
use crate::codec::{
    dec_str, expect_lit, fields_at, is_dec_digit, json_of_fields, lemma_fields_peel,
    lemma_fields_unique,
    lemma_json_of_fields_3, lemma_json_of_fields_4, lemma_wrapped_layout, lit_conds, parse_fields,
    push_uint, scan_to_quote, vals_in_bounds, views_of,
};

verus! {

/// A color with an alpha channel, one byte per channel.
#[derive(Debug, Clone, Copy, PartialEq, Eq, Hash, Structural)]
pub struct RGBA {
    pub r: u8,
    pub g: u8,
    pub b: u8,
    pub a: u8,
}

impl RGBA {
    pub fn new(r: u8, g: u8, b: u8, a: u8) -> (c: RGBA)
        ensures
            c == (RGBA { r, g, b, a }),
    {
        RGBA { r, g, b, a }
    }

    pub fn from(t: (u8, u8, u8, u8)) -> (c: RGBA)
        ensures
            c == (RGBA { r: t.0, g: t.1, b: t.2, a: t.3 }),
    {
        let (r, g, b, a) = t;
        RGBA { r, g, b, a }
    }
}

/// An opaque color, one byte per channel.
#[derive(Debug, Clone, Copy, PartialEq, Eq, Hash, Structural)]
pub struct RGB {
    pub r: u8,
    pub g: u8,
    pub b: u8,
}

impl RGB {
    pub fn new(r: u8, g: u8, b: u8) -> (c: RGB)
        ensures
            c == (RGB { r, g, b }),
    {
        RGB { r, g, b }
    }

    pub fn from(t: (u8, u8, u8)) -> (c: RGB)
        ensures
            c == (RGB { r: t.0, g: t.1, b: t.2 }),
    {
        let (r, g, b) = t;
        RGB { r, g, b }
    }

    /// The same color with an alpha channel added.
    pub fn to_rgba(self, a: u8) -> (c: RGBA)
        ensures
            c == (RGBA { r: self.r, g: self.g, b: self.b, a }),
    {
        RGBA::new(self.r, self.g, self.b, a)
    }
}

/// A color as hue, saturation and value, one byte each.
#[derive(Debug, Clone, Copy, PartialEq, Eq, Hash, Structural)]
pub struct HSV {
    pub h: u8,
    pub s: u8,
    pub v: u8,
}

impl HSV {
    pub fn new(h: u8, s: u8, v: u8) -> (c: HSV)
        ensures
            c == (HSV { h, s, v }),
    {
        HSV { h, s, v }
    }

    pub fn from(t: (u8, u8, u8)) -> (c: HSV)
        ensures
            c == (HSV { h: t.0, s: t.1, v: t.2 }),
    {
        let (h, s, v) = t;
        HSV { h, s, v }
    }
}

/// One of the sixteen hexadecimal digit characters.
pub open spec fn is_hex_digit_char(c: char) -> bool {
    is_dec_digit(c) || c == 'a' || c == 'b' || c == 'c' || c == 'd' || c == 'e' || c == 'f'
        || c == 'A' || c == 'B' || c == 'C' || c == 'D' || c == 'E' || c == 'F'
}

/// The digits of a hexadecimal color string: what follows a leading `#` or
/// `0x` prefix, or the whole string when neither prefix is present. The
/// reading is unambiguous because neither `#` nor `x` is a hexadecimal
/// digit.
pub open spec fn hex_body(s: Seq<char>) -> Seq<char> {
    if s.len() >= 1 && s[0] == '#' {
        s.skip(1)
    } else if s.len() >= 2 && s[0] == '0' && s[1] == 'x' {
        s.skip(2)
    } else {
        s
    }
}

/// A well-formed hexadecimal color: an optional `#` or `0x` prefix followed
/// by exactly 3, 6 or 8 hexadecimal digits.
pub open spec fn is_hex_color_format(s: Seq<char>) -> bool {
    let b = hex_body(s);
    &&& (b.len() == 3 || b.len() == 6 || b.len() == 8)
    &&& forall|i: int| 0 <= i < b.len() ==> is_hex_digit_char(#[trigger] b[i])
}

/// A color named by a hexadecimal string such as `#FF8040` or `0xABC`.
#[derive(Debug, Clone, PartialEq, Eq, Hash)]
pub struct HEX {
    pub value: String,
}

impl HEX {
    /// Wraps a hexadecimal color string that is already known to be
    /// well-formed; `validate_format` answers that question at run time.
    pub fn new(value: &str) -> (c: HEX)
        requires
            is_hex_color_format(value@),
        ensures
            c.value@ == value@,
    {
        HEX { value: String::from_str(value) }
    }

    /// Relies on regex::Regex::new and regex::Regex::is_match: the anchored
    /// pattern `^(#|0x)?([0-9a-fA-F]{3}|[0-9a-fA-F]{6}|[0-9a-fA-F]{8})$`
    /// accepts exactly the strings with an optional `#` or `0x` prefix
    /// followed by 3, 6 or 8 hexadecimal digits, which is what
    /// `is_hex_color_format` states; the prefix reading is unambiguous
    /// because neither `#` nor `x` is a hexadecimal digit, and every
    /// accepted character is ASCII, so byte and character counts agree.
    #[verifier::external_body]
    pub fn validate_format(value: &str) -> (r: bool)
        ensures
            r == is_hex_color_format(value@),
    {
        let re = regex::Regex::new(r"^(#|0x)?([0-9a-fA-F]{3}|[0-9a-fA-F]{6}|[0-9a-fA-F]{8})$")
            .unwrap();
        re.is_match(value)
    }
}

/// A color in any of the supported notations.
#[derive(Debug, Clone, PartialEq, Eq, Hash)]
pub enum Color {
    RGBA(RGBA),
    RGB(RGB),
    HSV(HSV),
    HEX(HEX),
}

/// Well-formedness of a color: a hexadecimal color carries a well-formed
/// string; the channel notations are always well-formed.
pub open spec fn color_wf(c: Color) -> bool {
    match c {
        Color::HEX(h) => is_hex_color_format(h.value@),
        _ => true,
    }
}

impl Color {
    pub fn rgba(r: u8, g: u8, b: u8, a: u8) -> (c: Color)
        ensures
            c == Color::RGBA(RGBA { r, g, b, a }),
    {
        Color::RGBA(RGBA::new(r, g, b, a))
    }

    pub fn rgb(r: u8, g: u8, b: u8) -> (c: Color)
        ensures
            c == Color::RGB(RGB { r, g, b }),
    {
        Color::RGB(RGB::new(r, g, b))
    }

    pub fn hsv(h: u8, s: u8, v: u8) -> (c: Color)
        ensures
            c == Color::HSV(HSV { h, s, v }),
    {
        Color::HSV(HSV::new(h, s, v))
    }

    pub fn hex(value: &str) -> (c: Color)
        requires
            is_hex_color_format(value@),
        ensures
            c matches Color::HEX(h) && h.value@ == value@,
            color_wf(c),
    {
        Color::HEX(HEX::new(value))
    }
}

/// The canonical text form of an RGBA color: its channels as decimal
/// numbers behind fixed keys.
pub open spec fn json_of_rgba(c: RGBA) -> Seq<char> {
    "{\"r\":"@ + dec_str(c.r as nat) + ",\"g\":"@ + dec_str(c.g as nat) + ",\"b\":"@ + dec_str(
        c.b as nat,
    ) + ",\"a\":"@ + dec_str(c.a as nat) + "}"@
}

/// The canonical text form of an RGB color.
pub open spec fn json_of_rgb(c: RGB) -> Seq<char> {
    "{\"r\":"@ + dec_str(c.r as nat) + ",\"g\":"@ + dec_str(c.g as nat) + ",\"b\":"@ + dec_str(
        c.b as nat,
    ) + "}"@
}

/// The canonical text form of an HSV color.
pub open spec fn json_of_hsv(c: HSV) -> Seq<char> {
    "{\"h\":"@ + dec_str(c.h as nat) + ",\"s\":"@ + dec_str(c.s as nat) + ",\"v\":"@ + dec_str(
        c.v as nat,
    ) + "}"@
}

/// The canonical text form of a hexadecimal color: its string behind a
/// fixed key.
pub open spec fn json_of_hex(h: HEX) -> Seq<char> {
    "{\"value\":\""@ + h.value@ + "\"}"@
}

/// The canonical text form of a color: its notation's name wrapping the
/// notation's own form.
pub open spec fn json_of_color(c: Color) -> Seq<char> {
    match c {
        Color::RGBA(x) => "{\"RGBA\":{\"r\":"@ + dec_str(x.r as nat) + ",\"g\":"@ + dec_str(
            x.g as nat,
        ) + ",\"b\":"@ + dec_str(x.b as nat) + ",\"a\":"@ + dec_str(x.a as nat) + "}}"@,
        Color::RGB(x) => "{\"RGB\":{\"r\":"@ + dec_str(x.r as nat) + ",\"g\":"@ + dec_str(
            x.g as nat,
        ) + ",\"b\":"@ + dec_str(x.b as nat) + "}}"@,
        Color::HSV(x) => "{\"HSV\":{\"h\":"@ + dec_str(x.h as nat) + ",\"s\":"@ + dec_str(
            x.s as nat,
        ) + ",\"v\":"@ + dec_str(x.v as nat) + "}}"@,
        Color::HEX(h) => "{\"HEX\":{\"value\":\""@ + h.value@ + "\"}}"@,
    }
}

/// The encoding of a color occupies `s[pos..end]`.
pub open spec fn color_at(s: Seq<char>, pos: int, end: int, c: Color) -> bool {
    &&& 0 <= pos <= end <= s.len()
    &&& s.subrange(pos, end) == json_of_color(c)
}

pub open spec fn rgba_lits() -> Seq<Seq<char>> {
    seq!["{\"r\":"@, ",\"g\":"@, ",\"b\":"@, ",\"a\":"@, "}"@]
}

pub open spec fn rgb_lits() -> Seq<Seq<char>> {
    seq!["{\"r\":"@, ",\"g\":"@, ",\"b\":"@, "}"@]
}

pub open spec fn hsv_lits() -> Seq<Seq<char>> {
    seq!["{\"h\":"@, ",\"s\":"@, ",\"v\":"@, "}"@]
}

pub open spec fn rgba_color_lits() -> Seq<Seq<char>> {
    seq!["{\"RGBA\":{\"r\":"@, ",\"g\":"@, ",\"b\":"@, ",\"a\":"@, "}}"@]
}

pub open spec fn rgb_color_lits() -> Seq<Seq<char>> {
    seq!["{\"RGB\":{\"r\":"@, ",\"g\":"@, ",\"b\":"@, "}}"@]
}

pub open spec fn hsv_color_lits() -> Seq<Seq<char>> {
    seq!["{\"HSV\":{\"h\":"@, ",\"s\":"@, ",\"v\":"@, "}}"@]
}

proof fn lemma_rgba_is_fields(x: RGBA)
    ensures
        json_of_rgba(x) == json_of_fields(
            rgba_lits(),
            seq![x.r as int, x.g as int, x.b as int, x.a as int],
        ),
{
    lemma_json_of_fields_4(
        "{\"r\":"@,
        ",\"g\":"@,
        ",\"b\":"@,
        ",\"a\":"@,
        "}"@,
        x.r as int,
        x.g as int,
        x.b as int,
        x.a as int,
    );
}

proof fn lemma_rgb_is_fields(x: RGB)
    ensures
        json_of_rgb(x) == json_of_fields(rgb_lits(), seq![x.r as int, x.g as int, x.b as int]),
{
    lemma_json_of_fields_3(
        "{\"r\":"@,
        ",\"g\":"@,
        ",\"b\":"@,
        "}"@,
        x.r as int,
        x.g as int,
        x.b as int,
    );
}

proof fn lemma_hsv_is_fields(x: HSV)
    ensures
        json_of_hsv(x) == json_of_fields(hsv_lits(), seq![x.h as int, x.s as int, x.v as int]),
{
    lemma_json_of_fields_3(
        "{\"h\":"@,
        ",\"s\":"@,
        ",\"v\":"@,
        "}"@,
        x.h as int,
        x.s as int,
        x.v as int,
    );
}

proof fn lemma_rgba_color_is_fields(x: RGBA)
    ensures
        json_of_color(Color::RGBA(x)) == json_of_fields(
            rgba_color_lits(),
            seq![x.r as int, x.g as int, x.b as int, x.a as int],
        ),
{
    lemma_json_of_fields_4(
        "{\"RGBA\":{\"r\":"@,
        ",\"g\":"@,
        ",\"b\":"@,
        ",\"a\":"@,
        "}}"@,
        x.r as int,
        x.g as int,
        x.b as int,
        x.a as int,
    );
}

proof fn lemma_rgb_color_is_fields(x: RGB)
    ensures
        json_of_color(Color::RGB(x)) == json_of_fields(
            rgb_color_lits(),
            seq![x.r as int, x.g as int, x.b as int],
        ),
{
    lemma_json_of_fields_3(
        "{\"RGB\":{\"r\":"@,
        ",\"g\":"@,
        ",\"b\":"@,
        "}}"@,
        x.r as int,
        x.g as int,
        x.b as int,
    );
}

proof fn lemma_hsv_color_is_fields(x: HSV)
    ensures
        json_of_color(Color::HSV(x)) == json_of_fields(
            hsv_color_lits(),
            seq![x.h as int, x.s as int, x.v as int],
        ),
{
    lemma_json_of_fields_3(
        "{\"HSV\":{\"h\":"@,
        ",\"s\":"@,
        ",\"v\":"@,
        "}}"@,
        x.h as int,
        x.s as int,
        x.v as int,
    );
}

/// A well-formed hexadecimal color string contains no double quote, so the
/// first quote after it closes it.
proof fn lemma_hex_no_quote(v: Seq<char>)
    requires
        is_hex_color_format(v),
    ensures
        forall|i: int| 0 <= i < v.len() ==> v[i] != '"',
{
    let b = hex_body(v);
    assert forall|i: int| 0 <= i < v.len() implies v[i] != '"' by {
        if v.len() >= 1 && v[0] == '#' {
            if i >= 1 {
                assert(b[i - 1] == v[i]);
                assert(is_hex_digit_char(v[i]));
            }
        } else if v.len() >= 2 && v[0] == '0' && v[1] == 'x' {
            if i >= 2 {
                assert(b[i - 2] == v[i]);
                assert(is_hex_digit_char(v[i]));
            }
        } else {
            assert(b[i] == v[i]);
            assert(is_hex_digit_char(v[i]));
        }
    }
}

/// The first characters of a color's encoding identify its notation.
proof fn lemma_color_prefix_chars(c: Color)
    ensures
        json_of_color(c).len() >= 13,
        c is RGBA ==> json_of_color(c)[2] == 'R' && json_of_color(c)[5] == 'A',
        c is RGB ==> json_of_color(c)[2] == 'R' && json_of_color(c)[5] == '"',
        c is HSV ==> json_of_color(c)[2] == 'H' && json_of_color(c)[3] == 'S',
        c is HEX ==> json_of_color(c)[2] == 'H' && json_of_color(c)[3] == 'E',
{
    reveal_strlit("{\"RGBA\":{\"r\":");
    reveal_strlit("{\"RGB\":{\"r\":");
    reveal_strlit("{\"HSV\":{\"h\":");
    reveal_strlit("{\"HEX\":{\"value\":\"");
    match c {
        Color::RGBA(x) => {
            assert(json_of_color(c)[2] == "{\"RGBA\":{\"r\":"@[2]);
            assert(json_of_color(c)[5] == "{\"RGBA\":{\"r\":"@[5]);
        },
        Color::RGB(x) => {
            assert(json_of_color(c)[2] == "{\"RGB\":{\"r\":"@[2]);
            assert(json_of_color(c)[5] == "{\"RGB\":{\"r\":"@[5]);
        },
        Color::HSV(x) => {
            assert(json_of_color(c)[2] == "{\"HSV\":{\"h\":"@[2]);
            assert(json_of_color(c)[3] == "{\"HSV\":{\"h\":"@[3]);
        },
        Color::HEX(h) => {
            assert(json_of_color(c)[2] == "{\"HEX\":{\"value\":\""@[2]);
            assert(json_of_color(c)[3] == "{\"HEX\":{\"value\":\""@[3]);
        },
    }
}

/// Two colors recognized at the same position are the same color ending at
/// the same place.
pub proof fn lemma_color_unique(s: Seq<char>, pos: int, c1: Color, e1: int, c2: Color, e2: int)
    requires
        color_wf(c1),
        color_wf(c2),
        color_at(s, pos, e1, c1),
        color_at(s, pos, e2, c2),
    ensures
        e1 == e2,
        json_of_color(c1) == json_of_color(c2),
{
    lemma_color_prefix_chars(c1);
    lemma_color_prefix_chars(c2);
    assert(s.subrange(pos, e1)[2] == s[pos + 2]);
    assert(s.subrange(pos, e2)[2] == s[pos + 2]);
    assert(s.subrange(pos, e1)[3] == s[pos + 3]);
    assert(s.subrange(pos, e2)[3] == s[pos + 3]);
    assert(s.subrange(pos, e1)[5] == s[pos + 5]);
    assert(s.subrange(pos, e2)[5] == s[pos + 5]);
    assert(s[pos + 2] == json_of_color(c1)[2]);
    assert(s[pos + 2] == json_of_color(c2)[2]);
    assert(s[pos + 3] == json_of_color(c1)[3]);
    assert(s[pos + 3] == json_of_color(c2)[3]);
    assert(s[pos + 5] == json_of_color(c1)[5]);
    assert(s[pos + 5] == json_of_color(c2)[5]);
    match (c1, c2) {
        (Color::RGBA(x1), Color::RGBA(x2)) => {
            lemma_rgba_color_is_fields(x1);
            lemma_rgba_color_is_fields(x2);
            proof_rgba_color_lit_conds();
            lemma_fields_unique(
                s,
                pos,
                rgba_color_lits(),
                seq![x1.r as int, x1.g as int, x1.b as int, x1.a as int],
                e1,
                seq![x2.r as int, x2.g as int, x2.b as int, x2.a as int],
                e2,
            );
        },
        (Color::RGB(x1), Color::RGB(x2)) => {
            lemma_rgb_color_is_fields(x1);
            lemma_rgb_color_is_fields(x2);
            proof_rgb_color_lit_conds();
            lemma_fields_unique(
                s,
                pos,
                rgb_color_lits(),
                seq![x1.r as int, x1.g as int, x1.b as int],
                e1,
                seq![x2.r as int, x2.g as int, x2.b as int],
                e2,
            );
        },
        (Color::HSV(x1), Color::HSV(x2)) => {
            lemma_hsv_color_is_fields(x1);
            lemma_hsv_color_is_fields(x2);
            proof_hsv_color_lit_conds();
            lemma_fields_unique(
                s,
                pos,
                hsv_color_lits(),
                seq![x1.h as int, x1.s as int, x1.v as int],
                e1,
                seq![x2.h as int, x2.s as int, x2.v as int],
                e2,
            );
        },
        (Color::HEX(h1), Color::HEX(h2)) => {
            lemma_hex_at_unique(s, pos, h1, e1, h2, e2);
        },
        _ => {
            assert(false);
        },
    }
}

/// Two hexadecimal colors recognized at the same position agree: the value
/// runs to the first quote either way.
proof fn lemma_hex_at_unique(s: Seq<char>, pos: int, h1: HEX, e1: int, h2: HEX, e2: int)
    requires
        is_hex_color_format(h1.value@),
        is_hex_color_format(h2.value@),
        color_at(s, pos, e1, Color::HEX(h1)),
        color_at(s, pos, e2, Color::HEX(h2)),
    ensures
        h1.value@ == h2.value@,
        e1 == e2,
{
    reveal_strlit("{\"HEX\":{\"value\":\"");
    reveal_strlit("\"}}");
    lemma_hex_no_quote(h1.value@);
    lemma_hex_no_quote(h2.value@);
    let pre = "{\"HEX\":{\"value\":\""@;
    let post = "\"}}"@;
    let v1 = h1.value@;
    let v2 = h2.value@;
    assert(json_of_color(Color::HEX(h1)) == pre + v1 + post);
    assert(json_of_color(Color::HEX(h2)) == pre + v2 + post);
    assert(s.subrange(pos, e1).len() == e1 - pos);
    assert(s.subrange(pos, e2).len() == e2 - pos);
    assert(e1 - pos == pre.len() + v1.len() + post.len());
    assert(e2 - pos == pre.len() + v2.len() + post.len());
    assert forall|i: int| 0 <= i < v1.len() implies s[pos + pre.len() + i] == v1[i] by {
        assert(s.subrange(pos, e1)[pre.len() + i] == v1[i]);
    }
    assert forall|i: int| 0 <= i < v2.len() implies s[pos + pre.len() + i] == v2[i] by {
        assert(s.subrange(pos, e2)[pre.len() + i] == v2[i]);
    }
    assert(s.subrange(pos, e1)[(pre.len() + v1.len()) as int] == post[0]);
    assert(s[pos + pre.len() + v1.len()] == '"');
    assert(s.subrange(pos, e2)[(pre.len() + v2.len()) as int] == post[0]);
    assert(s[pos + pre.len() + v2.len()] == '"');
    if v1.len() < v2.len() {
        assert(s[pos + pre.len() + v1.len()] == v2[v1.len() as int]);
        assert(false);
    }
    if v2.len() < v1.len() {
        assert(s[pos + pre.len() + v2.len()] == v1[v2.len() as int]);
        assert(false);
    }
    assert(v1 =~= v2);
}

proof fn proof_rgba_color_lit_conds()
    ensures
        lit_conds(rgba_color_lits()),
{
    reveal_strlit(",\"g\":");
    reveal_strlit(",\"b\":");
    reveal_strlit(",\"a\":");
    reveal_strlit("}}");
    assert(rgba_color_lits()[1][0] == ',');
    assert(rgba_color_lits()[2][0] == ',');
    assert(rgba_color_lits()[3][0] == ',');
    assert(rgba_color_lits()[4][0] == '}');
}

proof fn proof_rgb_color_lit_conds()
    ensures
        lit_conds(rgb_color_lits()),
{
    reveal_strlit(",\"g\":");
    reveal_strlit(",\"b\":");
    reveal_strlit("}}");
    assert(rgb_color_lits()[1][0] == ',');
    assert(rgb_color_lits()[2][0] == ',');
    assert(rgb_color_lits()[3][0] == '}');
}

proof fn proof_hsv_color_lit_conds()
    ensures
        lit_conds(hsv_color_lits()),
{
    reveal_strlit(",\"s\":");
    reveal_strlit(",\"v\":");
    reveal_strlit("}}");
    assert(hsv_color_lits()[1][0] == ',');
    assert(hsv_color_lits()[2][0] == ',');
    assert(hsv_color_lits()[3][0] == '}');
}

impl RGBA {
    /// The canonical text form of this color.
    pub fn to_json(&self) -> (r: String)
        ensures
            r@ == json_of_rgba(*self),
    {
        let mut out = String::new();
        out.append("{\"r\":");
        push_uint(&mut out, self.r as u64);
        out.append(",\"g\":");
        push_uint(&mut out, self.g as u64);
        out.append(",\"b\":");
        push_uint(&mut out, self.b as u64);
        out.append(",\"a\":");
        push_uint(&mut out, self.a as u64);
        out.append("}");
        proof {
            assert(out@ =~= json_of_rgba(*self));
        }
        out
    }

    /// Reads a color back from its canonical text form, and from nothing
    /// else.
    pub fn from_json(s: &str) -> (r: Option<RGBA>)
        ensures
            match r {
                Some(c) => s@ == json_of_rgba(c),
                None => forall|c: RGBA| s@ != json_of_rgba(c),
            },
    {
        let mut lits: Vec<&str> = Vec::new();
        lits.push("{\"r\":");
        lits.push(",\"g\":");
        lits.push(",\"b\":");
        lits.push(",\"a\":");
        lits.push("}");
        proof {
            reveal_strlit("{\"r\":");
            reveal_strlit(",\"g\":");
            reveal_strlit(",\"b\":");
            reveal_strlit(",\"a\":");
            reveal_strlit("}");
            assert(views_of(lits@) =~= rgba_lits());
            assert(lit_conds(rgba_lits())) by {
                assert(rgba_lits()[1][0] == ',');
                assert(rgba_lits()[2][0] == ',');
                assert(rgba_lits()[3][0] == ',');
                assert(rgba_lits()[4][0] == '}');
            }
        }
        let len = s.unicode_len();
        match parse_fields(s, 0, &lits, 0, 0xff) {
            None => {
                proof {
                    assert forall|c: RGBA| s@ != json_of_rgba(c) by {
                        if s@ == json_of_rgba(c) {
                            lemma_rgba_is_fields(c);
                            assert(s@.subrange(0, s@.len() as int) =~= s@);
                            assert(fields_at(
                                s@,
                                0,
                                s@.len() as int,
                                rgba_lits(),
                                seq![c.r as int, c.g as int, c.b as int, c.a as int],
                            ));
                            assert(false);
                        }
                    }
                }
                None
            },
            Some((vals, end)) => {
                if end == len {
                    let c = RGBA {
                        r: vals[0] as u8,
                        g: vals[1] as u8,
                        b: vals[2] as u8,
                        a: vals[3] as u8,
                    };
                    proof {
                        let ints = vals@.map_values(|v: i64| v as int);
                        assert(ints[0] == vals@[0] as int);
                        assert(seq![c.r as int, c.g as int, c.b as int, c.a as int] =~= ints);
                        lemma_rgba_is_fields(c);
                        assert(s@.subrange(0, len as int) =~= s@);
                    }
                    Some(c)
                } else {
                    proof {
                        let ints = vals@.map_values(|v: i64| v as int);
                        assert forall|c: RGBA| s@ != json_of_rgba(c) by {
                            if s@ == json_of_rgba(c) {
                                lemma_rgba_is_fields(c);
                                assert(s@.subrange(0, s@.len() as int) =~= s@);
                                lemma_fields_unique(
                                    s@,
                                    0,
                                    rgba_lits(),
                                    seq![c.r as int, c.g as int, c.b as int, c.a as int],
                                    s@.len() as int,
                                    ints,
                                    end as int,
                                );
                                assert(false);
                            }
                        }
                    }
                    None
                }
            },
        }
    }
}

impl RGB {
    /// The canonical text form of this color.
    pub fn to_json(&self) -> (r: String)
        ensures
            r@ == json_of_rgb(*self),
    {
        let mut out = String::new();
        out.append("{\"r\":");
        push_uint(&mut out, self.r as u64);
        out.append(",\"g\":");
        push_uint(&mut out, self.g as u64);
        out.append(",\"b\":");
        push_uint(&mut out, self.b as u64);
        out.append("}");
        proof {
            assert(out@ =~= json_of_rgb(*self));
        }
        out
    }

    /// Reads a color back from its canonical text form, and from nothing
    /// else.
    pub fn from_json(s: &str) -> (r: Option<RGB>)
        ensures
            match r {
                Some(c) => s@ == json_of_rgb(c),
                None => forall|c: RGB| s@ != json_of_rgb(c),
            },
    {
        let mut lits: Vec<&str> = Vec::new();
        lits.push("{\"r\":");
        lits.push(",\"g\":");
        lits.push(",\"b\":");
        lits.push("}");
        proof {
            reveal_strlit("{\"r\":");
            reveal_strlit(",\"g\":");
            reveal_strlit(",\"b\":");
            reveal_strlit("}");
            assert(views_of(lits@) =~= rgb_lits());
            assert(lit_conds(rgb_lits())) by {
                assert(rgb_lits()[1][0] == ',');
                assert(rgb_lits()[2][0] == ',');
                assert(rgb_lits()[3][0] == '}');
            }
        }
        let len = s.unicode_len();
        match parse_fields(s, 0, &lits, 0, 0xff) {
            None => {
                proof {
                    assert forall|c: RGB| s@ != json_of_rgb(c) by {
                        if s@ == json_of_rgb(c) {
                            lemma_rgb_is_fields(c);
                            assert(s@.subrange(0, s@.len() as int) =~= s@);
                            assert(fields_at(
                                s@,
                                0,
                                s@.len() as int,
                                rgb_lits(),
                                seq![c.r as int, c.g as int, c.b as int],
                            ));
                            assert(false);
                        }
                    }
                }
                None
            },
            Some((vals, end)) => {
                if end == len {
                    let c = RGB { r: vals[0] as u8, g: vals[1] as u8, b: vals[2] as u8 };
                    proof {
                        let ints = vals@.map_values(|v: i64| v as int);
                        assert(ints[0] == vals@[0] as int);
                        assert(seq![c.r as int, c.g as int, c.b as int] =~= ints);
                        lemma_rgb_is_fields(c);
                        assert(s@.subrange(0, len as int) =~= s@);
                    }
                    Some(c)
                } else {
                    proof {
                        let ints = vals@.map_values(|v: i64| v as int);
                        assert forall|c: RGB| s@ != json_of_rgb(c) by {
                            if s@ == json_of_rgb(c) {
                                lemma_rgb_is_fields(c);
                                assert(s@.subrange(0, s@.len() as int) =~= s@);
                                lemma_fields_unique(
                                    s@,
                                    0,
                                    rgb_lits(),
                                    seq![c.r as int, c.g as int, c.b as int],
                                    s@.len() as int,
                                    ints,
                                    end as int,
                                );
                                assert(false);
                            }
                        }
                    }
                    None
                }
            },
        }
    }
}

impl HSV {
    /// The canonical text form of this color.
    pub fn to_json(&self) -> (r: String)
        ensures
            r@ == json_of_hsv(*self),
    {
        let mut out = String::new();
        out.append("{\"h\":");
        push_uint(&mut out, self.h as u64);
        out.append(",\"s\":");
        push_uint(&mut out, self.s as u64);
        out.append(",\"v\":");
        push_uint(&mut out, self.v as u64);
        out.append("}");
        proof {
            assert(out@ =~= json_of_hsv(*self));
        }
        out
    }

    /// Reads a color back from its canonical text form, and from nothing
    /// else.
    pub fn from_json(s: &str) -> (r: Option<HSV>)
        ensures
            match r {
                Some(c) => s@ == json_of_hsv(c),
                None => forall|c: HSV| s@ != json_of_hsv(c),
            },
    {
        let mut lits: Vec<&str> = Vec::new();
        lits.push("{\"h\":");
        lits.push(",\"s\":");
        lits.push(",\"v\":");
        lits.push("}");
        proof {
            reveal_strlit("{\"h\":");
            reveal_strlit(",\"s\":");
            reveal_strlit(",\"v\":");
            reveal_strlit("}");
            assert(views_of(lits@) =~= hsv_lits());
            assert(lit_conds(hsv_lits())) by {
                assert(hsv_lits()[1][0] == ',');
                assert(hsv_lits()[2][0] == ',');
                assert(hsv_lits()[3][0] == '}');
            }
        }
        let len = s.unicode_len();
        match parse_fields(s, 0, &lits, 0, 0xff) {
            None => {
                proof {
                    assert forall|c: HSV| s@ != json_of_hsv(c) by {
                        if s@ == json_of_hsv(c) {
                            lemma_hsv_is_fields(c);
                            assert(s@.subrange(0, s@.len() as int) =~= s@);
                            assert(fields_at(
                                s@,
                                0,
                                s@.len() as int,
                                hsv_lits(),
                                seq![c.h as int, c.s as int, c.v as int],
                            ));
                            assert(false);
                        }
                    }
                }
                None
            },
            Some((vals, end)) => {
                if end == len {
                    let c = HSV { h: vals[0] as u8, s: vals[1] as u8, v: vals[2] as u8 };
                    proof {
                        let ints = vals@.map_values(|v: i64| v as int);
                        assert(ints[0] == vals@[0] as int);
                        assert(seq![c.h as int, c.s as int, c.v as int] =~= ints);
                        lemma_hsv_is_fields(c);
                        assert(s@.subrange(0, len as int) =~= s@);
                    }
                    Some(c)
                } else {
                    proof {
                        let ints = vals@.map_values(|v: i64| v as int);
                        assert forall|c: HSV| s@ != json_of_hsv(c) by {
                            if s@ == json_of_hsv(c) {
                                lemma_hsv_is_fields(c);
                                assert(s@.subrange(0, s@.len() as int) =~= s@);
                                lemma_fields_unique(
                                    s@,
                                    0,
                                    hsv_lits(),
                                    seq![c.h as int, c.s as int, c.v as int],
                                    s@.len() as int,
                                    ints,
                                    end as int,
                                );
                                assert(false);
                            }
                        }
                    }
                    None
                }
            },
        }
    }
}

impl HEX {
    /// The canonical text form of this color.
    pub fn to_json(&self) -> (r: String)
        ensures
            r@ == json_of_hex(*self),
    {
        let mut out = String::new();
        out.append("{\"value\":\"");
        out.append(self.value.as_str());
        out.append("\"}");
        proof {
            assert(out@ =~= json_of_hex(*self));
        }
        out
    }

    /// Reads a well-formed hexadecimal color back from its canonical text
    /// form, and from nothing else.
    pub fn from_json(s: &str) -> (r: Option<HEX>)
        ensures
            match r {
                Some(h) => is_hex_color_format(h.value@) && s@ == json_of_hex(h),
                None => forall|h: HEX| is_hex_color_format(h.value@) ==> s@ != json_of_hex(h),
            },
    {
        let len = s.unicode_len();
        let pre = "{\"value\":\"";
        let pl = pre.unicode_len();
        proof {
            reveal_strlit("{\"value\":\"");
            reveal_strlit("\"}");
        }
        if !expect_lit(s, 0, pre) {
            proof {
                assert forall|h: HEX| is_hex_color_format(h.value@) implies s@ != json_of_hex(
                    h,
                ) by {
                    if s@ == json_of_hex(h) {
                        assert(s@.subrange(0, s@.len() as int) =~= s@);
                        lemma_wrapped_layout(s@, 0, s@.len() as int, pre@, h.value@, "\"}"@);
                        assert(s@.subrange(0, pre@.len() as int) =~= pre@);
                        assert(false);
                    }
                }
            }
            return None;
        }
        match scan_to_quote(s, pl) {
            None => {
                proof {
                    assert forall|h: HEX| is_hex_color_format(h.value@) implies s@ != json_of_hex(
                        h,
                    ) by {
                        if s@ == json_of_hex(h) {
                            assert(s@.subrange(0, s@.len() as int) =~= s@);
                            lemma_wrapped_layout(s@, 0, s@.len() as int, pre@, h.value@, "\"}"@);
                            assert(s@[pl + h.value@.len()] == '"');
                            assert(false);
                        }
                    }
                }
                None
            },
            Some((value, q)) => {
                let close_ok = expect_lit(s, q, "\"}");
                let len_ok = len - q == 2;
                let format_ok = if close_ok && len_ok {
                    HEX::validate_format(value.as_str())
                } else {
                    false
                };
                if close_ok && len_ok && format_ok {
                    let h = HEX { value };
                    proof {
                        assert(s@.subrange(0, pl as int) == pre@);
                        assert(s@.subrange(q as int, q + 2) == "\"}"@);
                        assert(h.value@ == s@.subrange(pl as int, q as int));
                        assert forall|i: int| 0 <= i < s@.len() implies s@[i] == (pre@ + h.value@
                            + "\"}"@)[i] by {
                            if i < pl {
                                assert(s@.subrange(0, pl as int)[i] == s@[i]);
                            } else if i < q {
                                assert(s@.subrange(pl as int, q as int)[i - pl] == s@[i]);
                            } else {
                                assert(s@.subrange(q as int, q + 2)[i - q] == s@[i]);
                            }
                        }
                        assert(s@ =~= pre@ + h.value@ + "\"}"@);
                    }
                    Some(h)
                } else {
                    proof {
                        assert forall|h: HEX| is_hex_color_format(h.value@) implies s@
                            != json_of_hex(h) by {
                            if s@ == json_of_hex(h) {
                                assert(s@.subrange(0, s@.len() as int) =~= s@);
                                lemma_wrapped_layout(
                                    s@,
                                    0,
                                    s@.len() as int,
                                    pre@,
                                    h.value@,
                                    "\"}"@,
                                );
                                lemma_hex_no_quote(h.value@);
                                let vend = pl + h.value@.len();
                                assert(s@[vend] == '"');
                                if q < vend {
                                    assert(s@[q as int] == h.value@[q - pl]);
                                    assert(false);
                                }
                                if q > vend {
                                    assert(false);
                                }
                                assert(q == vend);
                                assert(s@.subrange(q as int, q + 2) =~= "\"}"@) by {
                                    assert(s@[q as int] == '"');
                                    assert(s@[q + 1] == "\"}"@[1]);
                                    assert(s@.subrange(q as int, q + 2)[0] == s@[q as int]);
                                    assert(s@.subrange(q as int, q + 2)[1] == s@[q + 1]);
                                }
                                assert(close_ok);
                                assert(q + 2 == s@.len());
                                assert(len_ok);
                                assert(value@ == s@.subrange(pl as int, q as int));
                                assert(value@ =~= h.value@) by {
                                    assert(forall|i: int|
                                        0 <= i < h.value@.len() ==> s@.subrange(
                                            pl as int,
                                            q as int,
                                        )[i] == s@[pl + i]);
                                }
                                assert(format_ok);
                                assert(false);
                            }
                        }
                    }
                    None
                }
            },
        }
    }
}

/// Equality of colors up to their observable content: structural on the
/// channel notations, string content on the hexadecimal notation.
pub open spec fn color_like(a: Color, b: Color) -> bool {
    match (a, b) {
        (Color::RGBA(x), Color::RGBA(y)) => x == y,
        (Color::RGB(x), Color::RGB(y)) => x == y,
        (Color::HSV(x), Color::HSV(y)) => x == y,
        (Color::HEX(h1), Color::HEX(h2)) => h1.value@ == h2.value@,
        _ => false,
    }
}

/// Whether two colors have the same observable content.
pub(crate) fn color_eq(a: &Color, b: &Color) -> (r: bool)
    ensures
        r == color_like(*a, *b),
{
    match (a, b) {
        (Color::RGBA(x), Color::RGBA(y)) => x.r == y.r && x.g == y.g && x.b == y.b && x.a == y.a,
        (Color::RGB(x), Color::RGB(y)) => x.r == y.r && x.g == y.g && x.b == y.b,
        (Color::HSV(x), Color::HSV(y)) => x.h == y.h && x.s == y.s && x.v == y.v,
        (Color::HEX(h1), Color::HEX(h2)) => h1.value == h2.value,
        _ => false,
    }
}

/// A color's encoding starts with the literal that names its notation.
proof fn lemma_color_has_prefix(s: Seq<char>, pos: int, end: int, c: Color)
    requires
        color_at(s, pos, end, c),
    ensures
        c is RGBA ==> pos + 13 <= s.len() && s.subrange(pos, pos + 13) == "{\"RGBA\":{\"r\":"@,
        c is RGB ==> pos + 12 <= s.len() && s.subrange(pos, pos + 12) == "{\"RGB\":{\"r\":"@,
        c is HSV ==> pos + 12 <= s.len() && s.subrange(pos, pos + 12) == "{\"HSV\":{\"h\":"@,
        c is HEX ==> pos + 17 <= s.len() && s.subrange(pos, pos + 17) == "{\"HEX\":{\"value\":\""@,
{
    reveal_strlit("{\"RGBA\":{\"r\":");
    reveal_strlit("{\"RGB\":{\"r\":");
    reveal_strlit("{\"HSV\":{\"h\":");
    reveal_strlit("{\"HEX\":{\"value\":\"");
    let whole = s.subrange(pos, end);
    match c {
        Color::RGBA(x) => {
            lemma_rgba_color_is_fields(x);
            proof_rgba_color_lit_conds();
            let vals = seq![x.r as int, x.g as int, x.b as int, x.a as int];
            assert(fields_at(s, pos, end, rgba_color_lits(), vals));
            lemma_fields_peel(s, pos, end, rgba_color_lits(), vals);
            assert(rgba_color_lits()[0].len() == 13);
        },
        Color::RGB(x) => {
            lemma_rgb_color_is_fields(x);
            proof_rgb_color_lit_conds();
            let vals = seq![x.r as int, x.g as int, x.b as int];
            assert(fields_at(s, pos, end, rgb_color_lits(), vals));
            lemma_fields_peel(s, pos, end, rgb_color_lits(), vals);
            assert(rgb_color_lits()[0].len() == 12);
        },
        Color::HSV(x) => {
            lemma_hsv_color_is_fields(x);
            proof_hsv_color_lit_conds();
            let vals = seq![x.h as int, x.s as int, x.v as int];
            assert(fields_at(s, pos, end, hsv_color_lits(), vals));
            lemma_fields_peel(s, pos, end, hsv_color_lits(), vals);
            assert(hsv_color_lits()[0].len() == 12);
        },
        Color::HEX(h) => {
            let pre = "{\"HEX\":{\"value\":\""@;
            assert(whole == pre + h.value@ + "\"}}"@);
            lemma_wrapped_layout(s, pos, end, pre, h.value@, "\"}}"@);
            assert forall|i: int| 0 <= i < 17 implies s.subrange(pos, pos + 17)[i] == pre[i] by {
                assert(s.subrange(pos, pos + 17)[i] == s[pos + i]);
                assert(s[pos + i] == pre[i]);
            }
            assert(s.subrange(pos, pos + 17) =~= pre);
        },
    }
}

/// Parses the color whose encoding sits at `pos`: succeeds exactly when a
/// well-formed color is recognized there.
pub(crate) fn parse_color(s: &str, pos: usize) -> (r: Option<(Color, usize)>)
    requires
        pos <= s@.len(),
    ensures
        match r {
            Some((c, end)) => color_wf(c) && color_at(s@, pos as int, end as int, c),
            None => forall|c: Color, end: int|
                color_wf(c) ==> !#[trigger] color_at(s@, pos as int, end, c),
        },
{
    let len = s.unicode_len();
    proof {
        reveal_strlit("{\"RGBA\":{\"r\":");
        reveal_strlit("{\"RGB\":{\"r\":");
        reveal_strlit("{\"HSV\":{\"h\":");
        reveal_strlit("{\"HEX\":{\"value\":\"");
    }
    if expect_lit(s, pos, "{\"RGBA\":{\"r\":") {
        let mut lits: Vec<&str> = Vec::new();
        lits.push("{\"RGBA\":{\"r\":");
        lits.push(",\"g\":");
        lits.push(",\"b\":");
        lits.push(",\"a\":");
        lits.push("}}");
        proof {
            reveal_strlit(",\"g\":");
            reveal_strlit(",\"b\":");
            reveal_strlit(",\"a\":");
            reveal_strlit("}}");
            assert(views_of(lits@) =~= rgba_color_lits());
            proof_rgba_color_lit_conds();
        }
        match parse_fields(s, pos, &lits, 0, 0xff) {
            Some((vals, end)) => {
                let x = RGBA {
                    r: vals[0] as u8,
                    g: vals[1] as u8,
                    b: vals[2] as u8,
                    a: vals[3] as u8,
                };
                proof {
                    let ints = vals@.map_values(|v: i64| v as int);
                    assert(ints[0] == vals@[0] as int);
                    assert(seq![x.r as int, x.g as int, x.b as int, x.a as int] =~= ints);
                    lemma_rgba_color_is_fields(x);
                }
                Some((Color::RGBA(x), end))
            },
            None => {
                proof {
                    assert forall|c: Color, end: int|
                        color_wf(c) implies !#[trigger] color_at(s@, pos as int, end, c) by {
                        if color_at(s@, pos as int, end, c) {
                            lemma_color_has_prefix(s@, pos as int, end, c);
                            match c {
                                Color::RGBA(x) => {
                                    lemma_rgba_color_is_fields(x);
                                    assert(fields_at(
                                        s@,
                                        pos as int,
                                        end,
                                        rgba_color_lits(),
                                        seq![x.r as int, x.g as int, x.b as int, x.a as int],
                                    ));
                                    assert(false);
                                },
                                Color::RGB(x) => {
                                    assert(s@.subrange(pos as int, pos + 13)[5] == s@[pos + 5]);
                                    assert(s@.subrange(pos as int, pos + 12)[5] == s@[pos + 5]);
                                    assert(false);
                                },
                                Color::HSV(x) => {
                                    assert(s@.subrange(pos as int, pos + 13)[2] == s@[pos + 2]);
                                    assert(s@.subrange(pos as int, pos + 12)[2] == s@[pos + 2]);
                                    assert(false);
                                },
                                Color::HEX(h) => {
                                    assert(s@.subrange(pos as int, pos + 13)[2] == s@[pos + 2]);
                                    assert(s@.subrange(pos as int, pos + 17)[2] == s@[pos + 2]);
                                    assert(false);
                                },
                            }
                        }
                    }
                }
                None
            },
        }
    } else if expect_lit(s, pos, "{\"RGB\":{\"r\":") {
        let mut lits: Vec<&str> = Vec::new();
        lits.push("{\"RGB\":{\"r\":");
        lits.push(",\"g\":");
        lits.push(",\"b\":");
        lits.push("}}");
        proof {
            reveal_strlit(",\"g\":");
            reveal_strlit(",\"b\":");
            reveal_strlit("}}");
            assert(views_of(lits@) =~= rgb_color_lits());
            proof_rgb_color_lit_conds();
        }
        match parse_fields(s, pos, &lits, 0, 0xff) {
            Some((vals, end)) => {
                let x = RGB { r: vals[0] as u8, g: vals[1] as u8, b: vals[2] as u8 };
                proof {
                    let ints = vals@.map_values(|v: i64| v as int);
                    assert(ints[0] == vals@[0] as int);
                    assert(seq![x.r as int, x.g as int, x.b as int] =~= ints);
                    lemma_rgb_color_is_fields(x);
                }
                Some((Color::RGB(x), end))
            },
            None => {
                proof {
                    assert forall|c: Color, end: int|
                        color_wf(c) implies !#[trigger] color_at(s@, pos as int, end, c) by {
                        if color_at(s@, pos as int, end, c) {
                            lemma_color_has_prefix(s@, pos as int, end, c);
                            match c {
                                Color::RGB(x) => {
                                    lemma_rgb_color_is_fields(x);
                                    assert(fields_at(
                                        s@,
                                        pos as int,
                                        end,
                                        rgb_color_lits(),
                                        seq![x.r as int, x.g as int, x.b as int],
                                    ));
                                    assert(false);
                                },
                                Color::RGBA(x) => {
                                    assert(s@.subrange(pos as int, pos + 12)[5] == s@[pos + 5]);
                                    assert(s@.subrange(pos as int, pos + 13)[5] == s@[pos + 5]);
                                    assert(false);
                                },
                                Color::HSV(x) => {
                                    assert(s@.subrange(pos as int, pos + 12)[2] == s@[pos + 2]);
                                    assert(s@.subrange(pos as int, pos + 12)[2] == s@[pos + 2]);
                                    assert(false);
                                },
                                Color::HEX(h) => {
                                    assert(s@.subrange(pos as int, pos + 12)[2] == s@[pos + 2]);
                                    assert(s@.subrange(pos as int, pos + 17)[2] == s@[pos + 2]);
                                    assert(false);
                                },
                            }
                        }
                    }
                }
                None
            },
        }
    } else if expect_lit(s, pos, "{\"HSV\":{\"h\":") {
        let mut lits: Vec<&str> = Vec::new();
        lits.push("{\"HSV\":{\"h\":");
        lits.push(",\"s\":");
        lits.push(",\"v\":");
        lits.push("}}");
        proof {
            reveal_strlit(",\"s\":");
            reveal_strlit(",\"v\":");
            reveal_strlit("}}");
            assert(views_of(lits@) =~= hsv_color_lits());
            proof_hsv_color_lit_conds();
        }
        match parse_fields(s, pos, &lits, 0, 0xff) {
            Some((vals, end)) => {
                let x = HSV { h: vals[0] as u8, s: vals[1] as u8, v: vals[2] as u8 };
                proof {
                    let ints = vals@.map_values(|v: i64| v as int);
                    assert(ints[0] == vals@[0] as int);
                    assert(seq![x.h as int, x.s as int, x.v as int] =~= ints);
                    lemma_hsv_color_is_fields(x);
                }
                Some((Color::HSV(x), end))
            },
            None => {
                proof {
                    assert forall|c: Color, end: int|
                        color_wf(c) implies !#[trigger] color_at(s@, pos as int, end, c) by {
                        if color_at(s@, pos as int, end, c) {
                            lemma_color_has_prefix(s@, pos as int, end, c);
                            match c {
                                Color::HSV(x) => {
                                    lemma_hsv_color_is_fields(x);
                                    assert(fields_at(
                                        s@,
                                        pos as int,
                                        end,
                                        hsv_color_lits(),
                                        seq![x.h as int, x.s as int, x.v as int],
                                    ));
                                    assert(false);
                                },
                                Color::RGBA(x) => {
                                    assert(s@.subrange(pos as int, pos + 12)[2] == s@[pos + 2]);
                                    assert(s@.subrange(pos as int, pos + 13)[2] == s@[pos + 2]);
                                    assert(false);
                                },
                                Color::RGB(x) => {
                                    assert(s@.subrange(pos as int, pos + 12)[2] == s@[pos + 2]);
                                    assert(s@.subrange(pos as int, pos + 12)[2] == s@[pos + 2]);
                                    assert(false);
                                },
                                Color::HEX(h) => {
                                    assert(s@.subrange(pos as int, pos + 12)[3] == s@[pos + 3]);
                                    assert(s@.subrange(pos as int, pos + 17)[3] == s@[pos + 3]);
                                    assert(false);
                                },
                            }
                        }
                    }
                }
                None
            },
        }
    } else if expect_lit(s, pos, "{\"HEX\":{\"value\":\"") {
        let pre = "{\"HEX\":{\"value\":\"";
        let pl = pre.unicode_len();
        let start = pos + pl;
        match scan_to_quote(s, start) {
            None => {
                proof {
                    assert forall|c: Color, end: int|
                        color_wf(c) implies !#[trigger] color_at(s@, pos as int, end, c) by {
                        if color_at(s@, pos as int, end, c) {
                            lemma_color_has_prefix(s@, pos as int, end, c);
                            match c {
                                Color::HEX(h) => {
                                    assert(s@.subrange(pos as int, end) == json_of_color(c));
                                    lemma_wrapped_layout(
                                        s@,
                                        pos as int,
                                        end,
                                        "{\"HEX\":{\"value\":\""@,
                                        h.value@,
                                        "\"}}"@,
                                    );
                                    reveal_strlit("\"}}");
                                    assert(s@[start + h.value@.len()] == '"');
                                    assert(false);
                                },
                                Color::RGBA(x) => {
                                    assert(s@.subrange(pos as int, pos + 17)[2] == s@[pos + 2]);
                                    assert(s@.subrange(pos as int, pos + 13)[2] == s@[pos + 2]);
                                    assert(false);
                                },
                                Color::RGB(x) => {
                                    assert(s@.subrange(pos as int, pos + 17)[2] == s@[pos + 2]);
                                    assert(s@.subrange(pos as int, pos + 12)[2] == s@[pos + 2]);
                                    assert(false);
                                },
                                Color::HSV(x) => {
                                    assert(s@.subrange(pos as int, pos + 17)[3] == s@[pos + 3]);
                                    assert(s@.subrange(pos as int, pos + 12)[3] == s@[pos + 3]);
                                    assert(false);
                                },
                            }
                        }
                    }
                }
                None
            },
            Some((value, q)) => {
                proof {
                    reveal_strlit("\"}}");
                }
                let close_ok = expect_lit(s, q, "\"}}");
                let format_ok = if close_ok {
                    HEX::validate_format(value.as_str())
                } else {
                    false
                };
                if close_ok && format_ok {
                    let h = HEX { value };
                    let end = q + 3;
                    proof {
                        reveal_strlit("\"}}");
                        assert(s@.subrange(pos as int, start as int) == "{\"HEX\":{\"value\":\""@);
                        assert(s@.subrange(q as int, q + 3) == "\"}}"@);
                        assert(h.value@ == s@.subrange(start as int, q as int));
                        assert forall|i: int| 0 <= i < end - pos implies s@.subrange(
                            pos as int,
                            end as int,
                        )[i] == ("{\"HEX\":{\"value\":\""@ + h.value@ + "\"}}"@)[i] by {
                            assert(s@.subrange(pos as int, end as int)[i] == s@[pos + i]);
                            if i < pl {
                                assert(s@.subrange(pos as int, start as int)[i] == s@[pos + i]);
                            } else if pos + i < q {
                                assert(s@.subrange(start as int, q as int)[pos + i - start]
                                    == s@[pos + i]);
                            } else {
                                assert(s@.subrange(q as int, q + 3)[pos + i - q] == s@[pos + i]);
                            }
                        }
                        assert(s@.subrange(pos as int, end as int) =~= "{\"HEX\":{\"value\":\""@
                            + h.value@ + "\"}}"@);
                    }
                    Some((Color::HEX(h), end))
                } else {
                    proof {
                        assert forall|c: Color, end: int|
                            color_wf(c) implies !#[trigger] color_at(s@, pos as int, end, c) by {
                            if color_at(s@, pos as int, end, c) {
                                lemma_color_has_prefix(s@, pos as int, end, c);
                                match c {
                                    Color::HEX(h) => {
                                        lemma_wrapped_layout(
                                            s@,
                                            pos as int,
                                            end,
                                            "{\"HEX\":{\"value\":\""@,
                                            h.value@,
                                            "\"}}"@,
                                        );
                                        reveal_strlit("\"}}");
                                        lemma_hex_no_quote(h.value@);
                                        let vend = start + h.value@.len();
                                        assert(s@[vend as int] == '"');
                                        if q < vend {
                                            assert(s@[q as int] == h.value@[q - start]);
                                            assert(false);
                                        }
                                        if q > vend {
                                            assert(false);
                                        }
                                        assert(q == vend);
                                        assert(s@.subrange(q as int, q + 3) =~= "\"}}"@) by {
                                            assert(s@[q as int] == '"');
                                            assert(s@[q + 1] == "\"}}"@[1]);
                                            assert(s@[q + 2] == "\"}}"@[2]);
                                            assert(s@.subrange(q as int, q + 3)[0]
                                                == s@[q as int]);
                                            assert(s@.subrange(q as int, q + 3)[1] == s@[q + 1]);
                                            assert(s@.subrange(q as int, q + 3)[2] == s@[q + 2]);
                                        }
                                        assert(close_ok);
                                        assert(value@ == s@.subrange(start as int, q as int));
                                        assert(value@ =~= h.value@) by {
                                            assert(forall|i: int|
                                                0 <= i < h.value@.len() ==> s@.subrange(
                                                    start as int,
                                                    q as int,
                                                )[i] == s@[start + i]);
                                        }
                                        assert(format_ok);
                                        assert(false);
                                    },
                                    Color::RGBA(x) => {
                                        assert(s@.subrange(pos as int, pos + 17)[2] == s@[pos + 2]);
                                        assert(s@.subrange(pos as int, pos + 13)[2] == s@[pos + 2]);
                                        assert(false);
                                    },
                                    Color::RGB(x) => {
                                        assert(s@.subrange(pos as int, pos + 17)[2] == s@[pos + 2]);
                                        assert(s@.subrange(pos as int, pos + 12)[2] == s@[pos + 2]);
                                        assert(false);
                                    },
                                    Color::HSV(x) => {
                                        assert(s@.subrange(pos as int, pos + 17)[3] == s@[pos + 3]);
                                        assert(s@.subrange(pos as int, pos + 12)[3] == s@[pos + 3]);
                                        assert(false);
                                    },
                                }
                            }
                        }
                    }
                    None
                }
            },
        }
    } else {
        proof {
            assert forall|c: Color, end: int|
                color_wf(c) implies !#[trigger] color_at(s@, pos as int, end, c) by {
                if color_at(s@, pos as int, end, c) {
                    lemma_color_has_prefix(s@, pos as int, end, c);
                    assert(false);
                }
            }
        }
        None
    }
}

impl Color {
    /// The canonical text form of this color.
    pub fn to_json(&self) -> (r: String)
        ensures
            r@ == json_of_color(*self),
    {
        let mut out = String::new();
        match self {
            Color::RGBA(x) => {
                out.append("{\"RGBA\":{\"r\":");
                push_uint(&mut out, x.r as u64);
                out.append(",\"g\":");
                push_uint(&mut out, x.g as u64);
                out.append(",\"b\":");
                push_uint(&mut out, x.b as u64);
                out.append(",\"a\":");
                push_uint(&mut out, x.a as u64);
                out.append("}}");
            },
            Color::RGB(x) => {
                out.append("{\"RGB\":{\"r\":");
                push_uint(&mut out, x.r as u64);
                out.append(",\"g\":");
                push_uint(&mut out, x.g as u64);
                out.append(",\"b\":");
                push_uint(&mut out, x.b as u64);
                out.append("}}");
            },
            Color::HSV(x) => {
                out.append("{\"HSV\":{\"h\":");
                push_uint(&mut out, x.h as u64);
                out.append(",\"s\":");
                push_uint(&mut out, x.s as u64);
                out.append(",\"v\":");
                push_uint(&mut out, x.v as u64);
                out.append("}}");
            },
            Color::HEX(h) => {
                out.append("{\"HEX\":{\"value\":\"");
                out.append(h.value.as_str());
                out.append("\"}}");
            },
        }
        proof {
            assert(out@ =~= json_of_color(*self));
        }
        out
    }

    /// Reads a well-formed color back from its canonical text form, and
    /// from nothing else.
    pub fn from_json(s: &str) -> (r: Option<Color>)
        ensures
            match r {
                Some(c) => color_wf(c) && s@ == json_of_color(c),
                None => forall|c: Color| color_wf(c) ==> s@ != json_of_color(c),
            },
    {
        let len = s.unicode_len();
        match parse_color(s, 0) {
            None => {
                proof {
                    assert forall|c: Color| color_wf(c) implies s@ != json_of_color(c) by {
                        if s@ == json_of_color(c) {
                            assert(s@.subrange(0, s@.len() as int) =~= s@);
                            assert(color_at(s@, 0, s@.len() as int, c));
                            assert(false);
                        }
                    }
                }
                None
            },
            Some((c, end)) => {
                if end == len {
                    proof {
                        assert(s@.subrange(0, len as int) =~= s@);
                    }
                    Some(c)
                } else {
                    proof {
                        let ghost parsed = c;
                        assert forall|c2: Color| color_wf(c2) implies s@ != json_of_color(c2) by {
                            if s@ == json_of_color(c2) {
                                assert(s@.subrange(0, s@.len() as int) =~= s@);
                                assert(color_at(s@, 0, s@.len() as int, c2));
                                lemma_color_unique(
                                    s@,
                                    0,
                                    parsed,
                                    end as int,
                                    c2,
                                    s@.len() as int,
                                );
                                assert(false);
                            }
                        }
                    }
                    None
                }
            },
        }
    }
}

} // verus!
