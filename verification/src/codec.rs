//! The canonical text form the geometric value types round-trip through:
//! shared decimal-number and literal machinery for the per-type encoders
//! and decoders.
//!
//! The encoding of a value is a fixed interleaving of literal pieces and
//! decimal numbers (plus, for colors, one quoted string). A decoder accepts
//! exactly the canonical encodings and nothing else, so decoding is stated
//! as an if-and-only-if against the encoding function.

use vstd::prelude::*;

verus! {

/// The ten decimal digit characters.
pub open spec fn is_dec_digit(c: char) -> bool {
    c == '0' || c == '1' || c == '2' || c == '3' || c == '4' || c == '5' || c == '6' || c == '7'
        || c == '8' || c == '9'
}

/// The digit character for a value below ten.
pub open spec fn digit_char(d: nat) -> char {
    if d == 0 {
        '0'
    } else if d == 1 {
        '1'
    } else if d == 2 {
        '2'
    } else if d == 3 {
        '3'
    } else if d == 4 {
        '4'
    } else if d == 5 {
        '5'
    } else if d == 6 {
        '6'
    } else if d == 7 {
        '7'
    } else if d == 8 {
        '8'
    } else {
        '9'
    }
}

/// The value of a digit character; ten for anything else.
pub open spec fn digit_val(c: char) -> nat {
    if c == '0' {
        0
    } else if c == '1' {
        1
    } else if c == '2' {
        2
    } else if c == '3' {
        3
    } else if c == '4' {
        4
    } else if c == '5' {
        5
    } else if c == '6' {
        6
    } else if c == '7' {
        7
    } else if c == '8' {
        8
    } else if c == '9' {
        9
    } else {
        10
    }
}

/// The canonical decimal digits of `n`: no sign, no leading zero except for
/// the single digit of zero itself.
pub open spec fn dec_str(n: nat) -> Seq<char>
    decreases n,
{
    if n < 10 {
        seq![digit_char(n)]
    } else {
        dec_str(n / 10).push(digit_char(n % 10))
    }
}

/// The canonical decimal form of an integer: a minus sign before the digits
/// of the magnitude when negative, the bare digits otherwise.
pub open spec fn dec_str_signed(v: int) -> Seq<char> {
    if v < 0 {
        seq!['-'] + dec_str((-v) as nat)
    } else {
        dec_str(v as nat)
    }
}

/// The number a digit string denotes.
pub open spec fn val_of(s: Seq<char>) -> nat
    decreases s.len(),
{
    if s.len() == 0 {
        0
    } else {
        val_of(s.drop_last()) * 10 + digit_val(s.last())
    }
}

/// `v`'s canonical form occupies `s[pos..end]` and the run of digits cannot
/// extend past `end`: how a decoder recognizes a number.
pub open spec fn number_at(s: Seq<char>, pos: int, end: int, v: int) -> bool {
    &&& 0 <= pos < end <= s.len()
    &&& s.subrange(pos, end) == dec_str_signed(v)
    &&& (end == s.len() || !is_dec_digit(s[end]))
}

pub proof fn lemma_digit_roundtrip(d: nat)
    requires
        d < 10,
    ensures
        is_dec_digit(digit_char(d)),
        digit_val(digit_char(d)) == d,
        (digit_char(d) == '0') == (d == 0),
{
}

pub proof fn lemma_dec_str_props(n: nat)
    ensures
        dec_str(n).len() >= 1,
        forall|i: int| 0 <= i < dec_str(n).len() ==> is_dec_digit(#[trigger] dec_str(n)[i]),
        val_of(dec_str(n)) == n,
        (dec_str(n)[0] == '0') == (n == 0),
    decreases n,
{
    if n < 10 {
        lemma_digit_roundtrip(n);
        let s = dec_str(n);
        assert(s == seq![digit_char(n)]);
        assert(s.drop_last() =~= Seq::<char>::empty());
        assert(val_of(s.drop_last()) == 0);
        assert(s.last() == digit_char(n));
        assert(val_of(s) == 0 * 10 + digit_val(digit_char(n)));
    } else {
        lemma_dec_str_props(n / 10);
        lemma_digit_roundtrip(n % 10);
        let prefix = dec_str(n / 10);
        let whole = prefix.push(digit_char(n % 10));
        assert(whole.drop_last() =~= prefix);
        assert(val_of(whole) == val_of(prefix) * 10 + digit_val(digit_char(n % 10)));
        assert(n / 10 * 10 + n % 10 == n) by (nonlinear_arith);
        assert(whole[0] == prefix[0]);
    }
}

/// A nonempty digit string without a leading zero denotes a number whose
/// canonical form is the string itself.
pub proof fn lemma_val_of_canonical(s: Seq<char>)
    requires
        s.len() >= 1,
        forall|i: int| 0 <= i < s.len() ==> is_dec_digit(#[trigger] s[i]),
        s[0] == '0' ==> s.len() == 1,
    ensures
        dec_str(val_of(s)) == s,
        s[0] != '0' && s.len() >= 2 ==> val_of(s) >= 10,
    decreases s.len(),
{
    if s.len() == 1 {
        assert(s.drop_last() =~= Seq::<char>::empty());
        assert(val_of(s.drop_last()) == 0);
        assert(s.last() == s[0]);
        assert(val_of(s) == 0 * 10 + digit_val(s.last()));
        assert(val_of(s) == digit_val(s[0]));
        assert(val_of(s) < 10);
        assert(dec_str(val_of(s)) == seq![digit_char(val_of(s))]);
        assert(digit_char(digit_val(s[0])) == s[0]);
        assert(dec_str(val_of(s)) =~= s);
    } else {
        let head = s.drop_last();
        assert(head[0] == s[0]);
        assert(forall|i: int| 0 <= i < head.len() ==> is_dec_digit(#[trigger] head[i]));
        lemma_val_of_canonical(head);
        lemma_lower_bound_no_leading_zero(head);
        let v_head = val_of(head);
        let d = digit_val(s.last());
        assert(d < 10);
        let v = val_of(s);
        assert(v == v_head * 10 + d);
        assert(v_head >= 1);
        assert(v >= 10) by (nonlinear_arith)
            requires
                v == v_head * 10 + d,
                v_head >= 1,
        ;
        assert(v / 10 == v_head && v % 10 == d) by (nonlinear_arith)
            requires
                v == v_head * 10 + d,
                d < 10,
        ;
        assert(dec_str(v) == dec_str(v_head).push(digit_char(d)));
        assert(digit_char(digit_val(s.last())) == s.last());
        assert(dec_str(v) =~= s);
    }
}

/// A nonempty digit string whose first digit is not zero denotes at least 1.
pub proof fn lemma_lower_bound_no_leading_zero(s: Seq<char>)
    requires
        s.len() >= 1,
        forall|i: int| 0 <= i < s.len() ==> is_dec_digit(#[trigger] s[i]),
        s[0] != '0',
    ensures
        val_of(s) >= 1,
    decreases s.len(),
{
    if s.len() == 1 {
        assert(digit_val(s[0]) >= 1);
    } else {
        lemma_lower_bound_no_leading_zero(s.drop_last());
        assert(s.drop_last()[0] == s[0]);
    }
}

/// Extending a digit string never shrinks its value.
pub proof fn lemma_val_of_prefix(s: Seq<char>, i: int)
    requires
        0 <= i <= s.len(),
    ensures
        val_of(s) >= val_of(s.subrange(0, i)),
    decreases s.len() - i,
{
    if i == s.len() {
        assert(s.subrange(0, i) =~= s);
    } else {
        lemma_val_of_prefix(s, i + 1);
        let longer = s.subrange(0, i + 1);
        assert(longer.drop_last() =~= s.subrange(0, i));
        assert(val_of(longer) == val_of(s.subrange(0, i)) * 10 + digit_val(longer.last()));
    }
}

/// A subrange of a subrange, rebased.
pub proof fn lemma_subrange_of_subrange(s: Seq<char>, a: int, b: int, c: int, d: int)
    requires
        0 <= a <= b <= s.len(),
        0 <= c <= d <= b - a,
    ensures
        s.subrange(a, b).subrange(c, d) == s.subrange(a + c, a + d),
{
    assert(s.subrange(a, b).subrange(c, d) =~= s.subrange(a + c, a + d));
}

/// Two recognized numbers starting at the same place are the same number
/// ending at the same place.
pub proof fn lemma_number_unique(s: Seq<char>, pos: int, v1: int, e1: int, v2: int, e2: int)
    requires
        number_at(s, pos, e1, v1),
        number_at(s, pos, e2, v2),
    ensures
        v1 == v2,
        e1 == e2,
{
    lemma_number_unique_sign(s, pos, v1, e1, v2, e2);
    if v1 < 0 && v2 < 0 {
        let m1 = (-v1) as nat;
        let m2 = (-v2) as nat;
        lemma_dec_str_props(m1);
        lemma_dec_str_props(m2);
        lemma_dec_str_signed_props(v1);
        lemma_dec_str_signed_props(v2);
        assert(dec_str_signed(v1).subrange(1, e1 - pos) =~= dec_str(m1));
        assert(dec_str_signed(v2).subrange(1, e2 - pos) =~= dec_str(m2));
        lemma_subrange_of_subrange(s, pos, e1, 1, e1 - pos);
        lemma_subrange_of_subrange(s, pos, e2, 1, e2 - pos);
        assert(s.subrange(pos + 1, e1) == dec_str(m1));
        assert(s.subrange(pos + 1, e2) == dec_str(m2));
        lemma_digit_run_unique(s, pos + 1, m1, e1, m2, e2);
    } else if v1 >= 0 && v2 >= 0 {
        lemma_digit_run_unique(s, pos, v1 as nat, e1, v2 as nat, e2);
    }
}

proof fn lemma_number_unique_sign(s: Seq<char>, pos: int, v1: int, e1: int, v2: int, e2: int)
    requires
        number_at(s, pos, e1, v1),
        number_at(s, pos, e2, v2),
    ensures
        (v1 < 0) == (v2 < 0),
{
    lemma_dec_str_signed_props(v1);
    lemma_dec_str_signed_props(v2);
    assert(s.subrange(pos, e1)[0] == s[pos]);
    assert(s.subrange(pos, e2)[0] == s[pos]);
}

/// The canonical signed form is nonempty; it starts with a minus sign
/// exactly when the number is negative, with a digit otherwise, and after
/// any leading sign every character is a digit.
pub proof fn lemma_dec_str_signed_props(v: int)
    ensures
        dec_str_signed(v).len() >= 1,
        v < 0 ==> dec_str_signed(v)[0] == '-' && dec_str_signed(v).len() >= 2,
        v >= 0 ==> is_dec_digit(dec_str_signed(v)[0]),
        v < 0 ==> dec_str_signed(v) == seq!['-'] + dec_str((-v) as nat),
        v >= 0 ==> dec_str_signed(v) == dec_str(v as nat),
{
    if v < 0 {
        lemma_dec_str_props((-v) as nat);
        assert((seq!['-'] + dec_str((-v) as nat))[0] == '-');
    } else {
        lemma_dec_str_props(v as nat);
    }
}

/// A maximal digit run sits at `s[start..end]` and denotes `val`.
pub open spec fn digit_run_at(s: Seq<char>, start: int, end: int, val: nat) -> bool {
    &&& 0 <= start < end <= s.len()
    &&& s.subrange(start, end) == dec_str(val)
    &&& (end == s.len() || !is_dec_digit(s[end]))
}

/// Once the digits seen so far denote more than `bound`, no run at the same
/// start can denote a number within `bound`.
proof fn lemma_run_exceeds_bound(s: Seq<char>, start: int, e: int, bound: nat)
    requires
        0 <= start < e <= s.len(),
        forall|i: int| start <= i < e ==> is_dec_digit(#[trigger] s[i]),
        val_of(s.subrange(start, e)) > bound,
    ensures
        forall|val: nat, end: int| !(val <= bound && #[trigger] digit_run_at(s, start, end, val)),
{
    assert forall|val: nat, end: int| !(val <= bound && #[trigger] digit_run_at(s, start, end, val)) by {
        if val <= bound && digit_run_at(s, start, end, val) {
            lemma_dec_str_props(val);
            if end < e {
                assert(is_dec_digit(s[end]));
                assert(false);
            }
            assert(val_of(s.subrange(start, end)) == val);
            lemma_subrange_of_subrange(s, start, end, 0, e - start);
            lemma_val_of_prefix(s.subrange(start, end), e - start);
            assert(false);
        }
    }
}

/// Two maximal digit runs recognized at the same position denote the same
/// number and end at the same place.
proof fn lemma_digit_run_unique(s: Seq<char>, pos: int, n1: nat, e1: int, n2: nat, e2: int)
    requires
        0 <= pos < e1 <= s.len(),
        0 <= pos < e2 <= s.len(),
        s.subrange(pos, e1) == dec_str(n1),
        s.subrange(pos, e2) == dec_str(n2),
        e1 == s.len() || !is_dec_digit(s[e1]),
        e2 == s.len() || !is_dec_digit(s[e2]),
    ensures
        n1 == n2,
        e1 == e2,
{
    lemma_dec_str_props(n1);
    lemma_dec_str_props(n2);
    if e1 < e2 {
        assert(is_dec_digit(dec_str(n2)[e1 - pos]));
        assert(s[e1] == dec_str(n2)[e1 - pos]);
        assert(false);
    }
    if e2 < e1 {
        assert(is_dec_digit(dec_str(n1)[e2 - pos]));
        assert(s[e2] == dec_str(n1)[e2 - pos]);
        assert(false);
    }
    assert(dec_str(n1) == dec_str(n2));
    assert(val_of(dec_str(n1)) == val_of(dec_str(n2)));
}

/// The digit value of a character, or `None` for anything else.
pub(crate) fn digit_of(c: char) -> (r: Option<u32>)
    ensures
        match r {
            Some(d) => is_dec_digit(c) && d == digit_val(c) && d < 10,
            None => !is_dec_digit(c),
        },
{
    if c == '0' {
        Some(0)
    } else if c == '1' {
        Some(1)
    } else if c == '2' {
        Some(2)
    } else if c == '3' {
        Some(3)
    } else if c == '4' {
        Some(4)
    } else if c == '5' {
        Some(5)
    } else if c == '6' {
        Some(6)
    } else if c == '7' {
        Some(7)
    } else if c == '8' {
        Some(8)
    } else if c == '9' {
        Some(9)
    } else {
        None
    }
}

/// The one-character string for a digit value.
fn digit_str(d: u32) -> (s: &'static str)
    requires
        d < 10,
    ensures
        s@ == seq![digit_char(d as nat)],
{
    if d == 0 {
        let s = "0";
        proof {
            reveal_strlit("0");
            assert(s@ =~= seq![digit_char(d as nat)]);
        }
        s
    } else if d == 1 {
        let s = "1";
        proof {
            reveal_strlit("1");
            assert(s@ =~= seq![digit_char(d as nat)]);
        }
        s
    } else if d == 2 {
        let s = "2";
        proof {
            reveal_strlit("2");
            assert(s@ =~= seq![digit_char(d as nat)]);
        }
        s
    } else if d == 3 {
        let s = "3";
        proof {
            reveal_strlit("3");
            assert(s@ =~= seq![digit_char(d as nat)]);
        }
        s
    } else if d == 4 {
        let s = "4";
        proof {
            reveal_strlit("4");
            assert(s@ =~= seq![digit_char(d as nat)]);
        }
        s
    } else if d == 5 {
        let s = "5";
        proof {
            reveal_strlit("5");
            assert(s@ =~= seq![digit_char(d as nat)]);
        }
        s
    } else if d == 6 {
        let s = "6";
        proof {
            reveal_strlit("6");
            assert(s@ =~= seq![digit_char(d as nat)]);
        }
        s
    } else if d == 7 {
        let s = "7";
        proof {
            reveal_strlit("7");
            assert(s@ =~= seq![digit_char(d as nat)]);
        }
        s
    } else if d == 8 {
        let s = "8";
        proof {
            reveal_strlit("8");
            assert(s@ =~= seq![digit_char(d as nat)]);
        }
        s
    } else {
        let s = "9";
        proof {
            reveal_strlit("9");
            assert(s@ =~= seq![digit_char(d as nat)]);
        }
        s
    }
}

/// Appends the canonical decimal digits of `n`.
pub(crate) fn push_uint(out: &mut String, n: u64)
    ensures
        final(out)@ == old(out)@ + dec_str(n as nat),
    decreases n,
{
    if n < 10 {
        out.append(digit_str(n as u32));
    } else {
        push_uint(out, n / 10);
        out.append(digit_str((n % 10) as u32));
        proof {
            assert(out@ =~= old(out)@ + dec_str(n as nat));
        }
    }
}

/// Appends the canonical decimal form of `v`, minus sign included.
pub(crate) fn push_int(out: &mut String, v: i64)
    requires
        -0x8000_0000 <= v <= 0x7fff_ffff,
    ensures
        final(out)@ == old(out)@ + dec_str_signed(v as int),
{
    if v < 0 {
        let minus = "-";
        proof {
            reveal_strlit("-");
            assert(minus@ =~= seq!['-']);
        }
        out.append(minus);
        let mag = (0 - v) as u64;
        push_uint(out, mag);
        proof {
            assert(out@ =~= old(out)@ + dec_str_signed(v as int));
        }
    } else {
        push_uint(out, v as u64);
    }
}

/// Whether `lit` occupies `s[pos..pos + lit.len()]`.
pub(crate) fn expect_lit(s: &str, pos: usize, lit: &str) -> (r: bool)
    ensures
        r == (pos + lit@.len() <= s@.len() && s@.subrange(
            pos as int,
            pos as int + lit@.len() as int,
        ) == lit@),
{
    let sl = s.unicode_len();
    let ll = lit.unicode_len();
    if ll > sl || pos > sl - ll {
        return false;
    }
    let mut i: usize = 0;
    while i < ll
        invariant
            pos + ll <= sl,
            sl == s@.len(),
            ll == lit@.len(),
            i <= ll,
            forall|j: int| 0 <= j < i ==> s@[pos + j] == lit@[j],
        decreases ll - i,
    {
        let cs = s.get_char(pos + i);
        let cl = lit.get_char(i);
        if cs != cl {
            proof {
                assert(s@.subrange(pos as int, pos as int + ll as int)[i as int] == s@[pos + i]);
            }
            return false;
        }
        i = i + 1;
    }
    proof {
        assert(s@.subrange(pos as int, pos as int + ll as int) =~= lit@);
    }
    true
}

/// Scans the maximal digit run starting at `start`, accepting only the
/// canonical form (no leading zero) of a number within `bound`.
fn scan_digits(s: &str, start: usize, bound: u64) -> (r: Option<(u64, usize)>)
    requires
        start <= s@.len(),
        bound <= 0x8000_0000,
    ensures
        match r {
            Some((val, end)) => val <= bound && digit_run_at(s@, start as int, end as int, val as nat),
            None => forall|val: nat, end: int|
                !(val <= bound && #[trigger] digit_run_at(s@, start as int, end, val)),
        },
{
    let len = s.unicode_len();
    if start >= len {
        return None;
    }
    let c0 = s.get_char(start);
    let d0 = match digit_of(c0) {
        None => {
            proof {
                assert forall|val: nat, end: int|
                    !(val <= bound && #[trigger] digit_run_at(s@, start as int, end, val)) by {
                    if val <= bound && digit_run_at(s@, start as int, end, val) {
                        lemma_dec_str_props(val);
                        assert(s@.subrange(start as int, end)[0] == s@[start as int]);
                        assert(false);
                    }
                }
            }
            return None;
        },
        Some(d) => d,
    };
    if d0 == 0 {
        if start + 1 < len {
            let c1 = s.get_char(start + 1);
            if digit_of(c1).is_some() {
                proof {
                    assert forall|val: nat, end: int|
                        !(val <= bound && #[trigger] digit_run_at(s@, start as int, end, val)) by {
                        if val <= bound && digit_run_at(s@, start as int, end, val) {
                            lemma_dec_str_props(val);
                            assert(s@.subrange(start as int, end)[0] == s@[start as int]);
                            assert(val == 0);
                            assert(dec_str(val).len() == 1);
                            assert(end == start + 1);
                            assert(false);
                        }
                    }
                }
                return None;
            }
        }
        proof {
            assert(s@.subrange(start as int, start + 1) =~= seq!['0']);
            assert(dec_str(0) == seq![digit_char(0)]);
        }
        return Some((0, start + 1));
    }
    let mut end = start + 1;
    let mut acc: u64 = d0 as u64;
    proof {
        let first = s@.subrange(start as int, start + 1);
        assert(first =~= seq![c0]);
        assert(first.drop_last() =~= Seq::<char>::empty());
        assert(val_of(first.drop_last()) == 0);
        assert(first.last() == c0);
        assert(val_of(first) == 0 * 10 + digit_val(c0));
    }
    if acc > bound {
        proof {
            lemma_run_exceeds_bound(s@, start as int, start + 1, bound as nat);
        }
        return None;
    }
    loop
        invariant
            start < end <= len,
            len == s@.len(),
            acc <= bound,
            bound <= 0x8000_0000,
            forall|i: int| start <= i < end ==> is_dec_digit(#[trigger] s@[i]),
            acc as nat == val_of(s@.subrange(start as int, end as int)),
            s@[start as int] != '0',
        ensures
            start < end <= len,
            acc <= bound,
            forall|i: int| start <= i < end ==> is_dec_digit(#[trigger] s@[i]),
            acc as nat == val_of(s@.subrange(start as int, end as int)),
            s@[start as int] != '0',
            end == len || !is_dec_digit(s@[end as int]),
        decreases len - end,
    {
        if end >= len {
            break;
        }
        let c = s.get_char(end);
        match digit_of(c) {
            None => {
                break;
            },
            Some(d) => {
                let ghost pre = s@.subrange(start as int, end as int);
                acc = acc * 10 + d as u64;
                end = end + 1;
                proof {
                    assert(s@.subrange(start as int, end as int).drop_last() =~= pre);
                    assert(s@.subrange(start as int, end as int).last() == s@[end - 1]);
                }
                if acc > bound {
                    proof {
                        lemma_run_exceeds_bound(s@, start as int, end as int, bound as nat);
                    }
                    return None;
                }
            },
        }
    }
    proof {
        let run = s@.subrange(start as int, end as int);
        assert(run[0] == s@[start as int]);
        lemma_val_of_canonical(run);
    }
    Some((acc, end))
}

/// Parses the canonical decimal form of an integer in `[lo, hi]` at `pos`:
/// succeeds exactly when such a number is recognized there.
pub(crate) fn parse_int(s: &str, pos: usize, lo: i64, hi: i64) -> (r: Option<(i64, usize)>)
    requires
        pos <= s@.len(),
        -0x8000_0000 <= lo <= 0,
        0 <= hi <= 0x7fff_ffff,
    ensures
        match r {
            Some((v, end)) => lo <= v <= hi && number_at(s@, pos as int, end as int, v as int),
            None => forall|v: int, end: int|
                !(lo <= v <= hi && #[trigger] number_at(s@, pos as int, end, v)),
        },
{
    let len = s.unicode_len();
    if pos >= len {
        return None;
    }
    let c0 = s.get_char(pos);
    if c0 == '-' {
        let mag_bound = (0 - lo) as u64;
        let scanned = scan_digits(s, pos + 1, mag_bound);
        match scanned {
            None => {
                proof {
                    assert forall|v: int, end: int|
                        !(lo <= v <= hi && #[trigger] number_at(s@, pos as int, end, v)) by {
                        if lo <= v <= hi && number_at(s@, pos as int, end, v) {
                            lemma_dec_str_signed_props(v);
                            assert(s@.subrange(pos as int, end)[0] == s@[pos as int]);
                            assert(v < 0);
                            let m = (-v) as nat;
                            lemma_dec_str_props(m);
                            assert(dec_str_signed(v).subrange(1, end - pos) =~= dec_str(m));
                            lemma_subrange_of_subrange(s@, pos as int, end, 1, end - pos);
                            assert(digit_run_at(s@, pos + 1, end, m));
                            assert(false);
                        }
                    }
                }
                None
            },
            Some((mag, e)) => {
                if mag == 0 {
                    proof {
                        assert forall|v: int, end: int|
                            !(lo <= v <= hi && #[trigger] number_at(s@, pos as int, end, v)) by {
                            if lo <= v <= hi && number_at(s@, pos as int, end, v) {
                                lemma_dec_str_signed_props(v);
                                assert(s@.subrange(pos as int, end)[0] == s@[pos as int]);
                                assert(v < 0);
                                let m = (-v) as nat;
                                lemma_dec_str_props(m);
                                assert(dec_str_signed(v).subrange(1, end - pos) =~= dec_str(m));
                                lemma_subrange_of_subrange(s@, pos as int, end, 1, end - pos);
                                assert(digit_run_at(s@, pos + 1, end, m));
                                lemma_digit_run_unique(s@, pos + 1, m, end, 0, e as int);
                                assert(false);
                            }
                        }
                    }
                    None
                } else {
                    let v = 0i64 - (mag as i64);
                    proof {
                        let m = mag as nat;
                        lemma_dec_str_props(m);
                        assert(dec_str_signed(v as int) == seq!['-'] + dec_str(m));
                        assert(s@.subrange(pos as int, e as int) =~= seq!['-'] + dec_str(m)) by {
                            assert(s@.subrange(pos + 1, e as int) == dec_str(m));
                            assert(forall|i: int|
                                0 <= i < e - pos - 1 ==> #[trigger] dec_str(m)[i] == s@[pos + 1
                                    + i]);
                        }
                    }
                    Some((v, e))
                }
            },
        }
    } else {
        let scanned = scan_digits(s, pos, hi as u64);
        match scanned {
            None => {
                proof {
                    assert forall|v: int, end: int|
                        !(lo <= v <= hi && #[trigger] number_at(s@, pos as int, end, v)) by {
                        if lo <= v <= hi && number_at(s@, pos as int, end, v) {
                            lemma_dec_str_signed_props(v);
                            assert(s@.subrange(pos as int, end)[0] == s@[pos as int]);
                            assert(v >= 0);
                            assert(digit_run_at(s@, pos as int, end, v as nat));
                            assert(false);
                        }
                    }
                }
                None
            },
            Some((val, e)) => {
                let v = val as i64;
                Some((v, e))
            },
        }
    }
}

/// The views of a list of literal pieces.
pub open spec fn views_of(lits: Seq<&str>) -> Seq<Seq<char>> {
    lits.map_values(|l: &str| l@)
}

/// A record encoding: literal pieces interleaved with canonical numbers,
/// `lits[0] v[0] lits[1] v[1] … lits[n-1] v[n-1] lits[n]`.
pub open spec fn json_of_fields(lits: Seq<Seq<char>>, vals: Seq<int>) -> Seq<char>
    decreases vals.len(),
{
    if vals.len() == 0 {
        if lits.len() == 0 {
            Seq::empty()
        } else {
            lits[0]
        }
    } else {
        lits[0] + dec_str_signed(vals[0]) + json_of_fields(lits.drop_first(), vals.drop_first())
    }
}

/// The shape every record's literals obey: each literal that follows a
/// number is nonempty and does not begin with a digit, so a number's digit
/// run ends exactly where the next literal starts.
pub open spec fn lit_conds(lits: Seq<Seq<char>>) -> bool {
    forall|k: int|
        1 <= k < lits.len() ==> (#[trigger] lits[k]).len() >= 1 && !is_dec_digit(lits[k][0])
}

/// The record encoding of `vals` under `lits` occupies `s[pos..end]`.
pub open spec fn fields_at(
    s: Seq<char>,
    pos: int,
    end: int,
    lits: Seq<Seq<char>>,
    vals: Seq<int>,
) -> bool {
    &&& 0 <= pos <= end <= s.len()
    &&& vals.len() + 1 == lits.len()
    &&& s.subrange(pos, end) == json_of_fields(lits, vals)
}

pub open spec fn vals_in_bounds(vals: Seq<int>, lo: int, hi: int) -> bool {
    forall|k: int| 0 <= k < vals.len() ==> lo <= #[trigger] vals[k] <= hi
}

/// A record encoding begins with its first literal.
proof fn lemma_fields_first_char(lits: Seq<Seq<char>>, vals: Seq<int>)
    requires
        vals.len() + 1 == lits.len(),
        lits[0].len() >= 1,
    ensures
        json_of_fields(lits, vals).len() >= lits[0].len(),
        json_of_fields(lits, vals)[0] == lits[0][0],
{
    if vals.len() == 0 {
    } else {
        lemma_dec_str_signed_props(vals[0]);
        assert(json_of_fields(lits, vals)[0] == (lits[0] + dec_str_signed(vals[0])
            + json_of_fields(lits.drop_first(), vals.drop_first()))[0]);
    }
}

/// Splits the first literal and number off a record decomposition.
pub proof fn lemma_fields_peel(
    s: Seq<char>,
    pos: int,
    end: int,
    lits: Seq<Seq<char>>,
    vals: Seq<int>,
)
    requires
        fields_at(s, pos, end, lits, vals),
        vals.len() >= 1,
        lit_conds(lits),
    ensures
        ({
            let p1 = pos + lits[0].len();
            let p2 = p1 + dec_str_signed(vals[0]).len();
            &&& pos <= p1 < p2 <= end
            &&& s.subrange(pos, p1) == lits[0]
            &&& number_at(s, p1, p2, vals[0])
            &&& fields_at(s, p2, end, lits.drop_first(), vals.drop_first())
        }),
{
    let l0 = lits[0];
    let num = dec_str_signed(vals[0]);
    let ltail = lits.drop_first();
    let vtail = vals.drop_first();
    let rest = json_of_fields(ltail, vtail);
    let whole = s.subrange(pos, end);
    assert(whole == l0 + num + rest);
    lemma_dec_str_signed_props(vals[0]);
    assert(ltail[0] == lits[1]);
    lemma_fields_first_char(ltail, vtail);
    let p1 = pos + l0.len();
    let p2 = p1 + num.len();
    assert(whole.len() == l0.len() + num.len() + rest.len());
    assert(p2 + rest.len() == end);
    assert forall|i: int| 0 <= i < l0.len() implies s.subrange(pos, p1)[i] == l0[i] by {
        assert(s.subrange(pos, p1)[i] == s[pos + i]);
        assert(whole[i] == s[pos + i]);
        assert(whole[i] == l0[i]);
    }
    assert(s.subrange(pos, p1) =~= l0);
    assert forall|i: int| 0 <= i < num.len() implies s.subrange(p1, p2)[i] == num[i] by {
        assert(s.subrange(p1, p2)[i] == s[p1 + i]);
        assert(whole[l0.len() + i] == s[pos + l0.len() + i]);
        assert(whole[l0.len() + i] == num[i]);
    }
    assert(s.subrange(p1, p2) =~= num);
    assert forall|i: int| 0 <= i < rest.len() implies s.subrange(p2, end)[i] == rest[i] by {
        assert(s.subrange(p2, end)[i] == s[p2 + i]);
        assert(whole[l0.len() + num.len() + i] == s[pos + l0.len() + num.len() + i]);
        assert(whole[l0.len() + num.len() + i] == rest[i]);
    }
    assert(s.subrange(p2, end) =~= rest);
    assert(s[p2] == rest[0]);
    assert(!is_dec_digit(s[p2]));
}

/// A record decomposition at a position is unique: the same literals
/// recognize the same numbers and the same extent.
pub proof fn lemma_fields_unique(
    s: Seq<char>,
    pos: int,
    lits: Seq<Seq<char>>,
    vals1: Seq<int>,
    end1: int,
    vals2: Seq<int>,
    end2: int,
)
    requires
        lit_conds(lits),
        fields_at(s, pos, end1, lits, vals1),
        fields_at(s, pos, end2, lits, vals2),
    ensures
        vals1 == vals2,
        end1 == end2,
    decreases vals1.len(),
{
    if vals1.len() == 0 {
        assert(vals1 =~= vals2);
        assert(s.subrange(pos, end1).len() == end1 - pos);
        assert(s.subrange(pos, end2).len() == end2 - pos);
    } else {
        lemma_fields_peel(s, pos, end1, lits, vals1);
        lemma_fields_peel(s, pos, end2, lits, vals2);
        let p1 = pos + lits[0].len();
        lemma_number_unique(
            s,
            p1,
            vals1[0],
            p1 + dec_str_signed(vals1[0]).len(),
            vals2[0],
            p1 + dec_str_signed(vals2[0]).len(),
        );
        let p2 = p1 + dec_str_signed(vals1[0]).len();
        lemma_fields_unique(
            s,
            p2,
            lits.drop_first(),
            vals1.drop_first(),
            end1,
            vals2.drop_first(),
            end2,
        );
        assert forall|i: int| 0 <= i < vals1.len() implies vals1[i] == vals2[i] by {
            if i > 0 {
                assert(vals1.drop_first()[i - 1] == vals1[i]);
                assert(vals2.drop_first()[i - 1] == vals2[i]);
            }
        }
        assert(vals1 =~= vals2);
    }
}

/// Parses the record `lits[k] v lits[k+1] v … lits[last]` at `pos`, every
/// number within `[lo, hi]`: succeeds exactly when such a record is there.
fn parse_fields_from(s: &str, pos: usize, lits: &Vec<&str>, k: usize, lo: i64, hi: i64) -> (r:
    Option<(Vec<i64>, usize)>)
    requires
        pos <= s@.len(),
        k < lits@.len(),
        lit_conds(views_of(lits@).skip(k as int)),
        -0x8000_0000 <= lo <= 0,
        0 <= hi <= 0x7fff_ffff,
    ensures
        match r {
            Some((vals, end)) => {
                &&& vals@.len() + k + 1 == lits@.len()
                &&& vals_in_bounds(vals@.map_values(|v: i64| v as int), lo as int, hi as int)
                &&& fields_at(
                    s@,
                    pos as int,
                    end as int,
                    views_of(lits@).skip(k as int),
                    vals@.map_values(|v: i64| v as int),
                )
            },
            None => forall|vals: Seq<int>, end: int|
                !(vals_in_bounds(vals, lo as int, hi as int) && #[trigger] fields_at(
                    s@,
                    pos as int,
                    end,
                    views_of(lits@).skip(k as int),
                    vals,
                )),
        },
    decreases lits@.len() - k,
{
    let ghost lviews = views_of(lits@).skip(k as int);
    let len = s.unicode_len();
    let lit_k: &str = lits[k];
    let ll = lit_k.unicode_len();
    proof {
        assert(lviews[0] == lit_k@);
    }
    let nlits = lits.len();
    if k == nlits - 1 {
        if expect_lit(s, pos, lit_k) {
            let end = pos + ll;
            let vals: Vec<i64> = Vec::new();
            proof {
                let ints = vals@.map_values(|v: i64| v as int);
                assert(ints =~= Seq::<int>::empty());
                assert(json_of_fields(lviews, ints) == lviews[0]);
            }
            Some((vals, end))
        } else {
            proof {
                assert forall|vals: Seq<int>, end: int|
                    !(vals_in_bounds(vals, lo as int, hi as int) && #[trigger] fields_at(
                        s@,
                        pos as int,
                        end,
                        lviews,
                        vals,
                    )) by {
                    if vals_in_bounds(vals, lo as int, hi as int) && fields_at(
                        s@,
                        pos as int,
                        end,
                        lviews,
                        vals,
                    ) {
                        assert(vals.len() == 0);
                        assert(s@.subrange(pos as int, end) == lviews[0]);
                        assert(end - pos == lit_k@.len());
                        assert(false);
                    }
                }
            }
            None
        }
    } else {
        if !expect_lit(s, pos, lit_k) {
            proof {
                assert forall|vals: Seq<int>, end: int|
                    !(vals_in_bounds(vals, lo as int, hi as int) && #[trigger] fields_at(
                        s@,
                        pos as int,
                        end,
                        lviews,
                        vals,
                    )) by {
                    if vals_in_bounds(vals, lo as int, hi as int) && fields_at(
                        s@,
                        pos as int,
                        end,
                        lviews,
                        vals,
                    ) {
                        assert(vals.len() >= 1);
                        lemma_fields_peel(s@, pos as int, end, lviews, vals);
                        assert(false);
                    }
                }
            }
            return None;
        }
        let p1 = pos + ll;
        let parsed = parse_int(s, p1, lo, hi);
        match parsed {
            None => {
                proof {
                    assert forall|vals: Seq<int>, end: int|
                        !(vals_in_bounds(vals, lo as int, hi as int) && #[trigger] fields_at(
                            s@,
                            pos as int,
                            end,
                            lviews,
                            vals,
                        )) by {
                        if vals_in_bounds(vals, lo as int, hi as int) && fields_at(
                            s@,
                            pos as int,
                            end,
                            lviews,
                            vals,
                        ) {
                            assert(vals.len() >= 1);
                            lemma_fields_peel(s@, pos as int, end, lviews, vals);
                            assert(number_at(
                                s@,
                                p1 as int,
                                p1 + dec_str_signed(vals[0]).len(),
                                vals[0],
                            ));
                            assert(false);
                        }
                    }
                }
                None
            },
            Some((v, p2)) => {
                proof {
                    assert(lviews.drop_first() =~= views_of(lits@).skip(k + 1 as int));
                    assert(lit_conds(lviews.drop_first()));
                }
                let rest = parse_fields_from(s, p2, lits, k + 1, lo, hi);
                match rest {
                    None => {
                        proof {
                            assert forall|vals: Seq<int>, end: int|
                                !(vals_in_bounds(vals, lo as int, hi as int)
                                    && #[trigger] fields_at(s@, pos as int, end, lviews, vals)) by {
                                if vals_in_bounds(vals, lo as int, hi as int) && fields_at(
                                    s@,
                                    pos as int,
                                    end,
                                    lviews,
                                    vals,
                                ) {
                                    assert(vals.len() >= 1);
                                    lemma_fields_peel(s@, pos as int, end, lviews, vals);
                                    lemma_number_unique(
                                        s@,
                                        p1 as int,
                                        vals[0],
                                        p1 + dec_str_signed(vals[0]).len(),
                                        v as int,
                                        p2 as int,
                                    );
                                    assert(fields_at(
                                        s@,
                                        p2 as int,
                                        end,
                                        lviews.drop_first(),
                                        vals.drop_first(),
                                    ));
                                    assert(vals_in_bounds(
                                        vals.drop_first(),
                                        lo as int,
                                        hi as int,
                                    )) by {
                                        assert(forall|j: int|
                                            0 <= j < vals.drop_first().len()
                                                ==> #[trigger] vals.drop_first()[j] == vals[j
                                                + 1]);
                                    }
                                    assert(false);
                                }
                            }
                        }
                        None
                    },
                    Some((tail_vals, end)) => {
                        let mut vals = tail_vals;
                        let ghost tail_view = vals@;
                        vals.insert(0, v);
                        proof {
                            assert(vals@ == tail_view.insert(0, v));
                            assert(vals@[0] == v);
                            assert(vals@.drop_first() =~= tail_view);
                            let ints = vals@.map_values(|x: i64| x as int);
                            let tail_ints = tail_view.map_values(|x: i64| x as int);
                            assert(ints.drop_first() =~= tail_ints);
                            assert(ints[0] == v as int);
                            assert(vals_in_bounds(ints, lo as int, hi as int)) by {
                                assert(forall|j: int|
                                    1 <= j < ints.len() ==> #[trigger] ints[j] == tail_ints[j
                                    - 1]);
                            }
                            let rest_str = json_of_fields(lviews.drop_first(), tail_ints);
                            let whole = lviews[0] + dec_str_signed(v as int) + rest_str;
                            assert(json_of_fields(lviews, ints) == whole);
                            assert(s@.subrange(pos as int, p1 as int) == lit_k@);
                            assert(s@.subrange(p1 as int, p2 as int) == dec_str_signed(v as int));
                            assert(s@.subrange(p2 as int, end as int) == rest_str);
                            assert forall|i: int|
                                0 <= i < end - pos implies s@.subrange(
                                pos as int,
                                end as int,
                            )[i] == whole[i] by {
                                if i < p1 - pos {
                                    assert(s@.subrange(pos as int, p1 as int)[i] == s@[pos + i]);
                                } else if i < p2 - pos {
                                    assert(s@.subrange(p1 as int, p2 as int)[i - (p1 - pos)]
                                        == s@[pos + i]);
                                } else {
                                    assert(s@.subrange(p2 as int, end as int)[i - (p2 - pos)]
                                        == s@[pos + i]);
                                }
                                assert(s@.subrange(pos as int, end as int)[i] == s@[pos + i]);
                            }
                            assert(s@.subrange(pos as int, end as int) =~= whole);
                        }
                        Some((vals, end))
                    },
                }
            },
        }
    }
}

/// Parses a whole record at `pos`: literals interleaved with numbers in
/// `[lo, hi]`. Succeeds exactly when the record's encoding sits at `pos`.
pub(crate) fn parse_fields(s: &str, pos: usize, lits: &Vec<&str>, lo: i64, hi: i64) -> (r: Option<
    (Vec<i64>, usize),
>)
    requires
        pos <= s@.len(),
        lits@.len() >= 1,
        lit_conds(views_of(lits@)),
        -0x8000_0000 <= lo <= 0,
        0 <= hi <= 0x7fff_ffff,
    ensures
        match r {
            Some((vals, end)) => {
                &&& vals@.len() + 1 == lits@.len()
                &&& vals_in_bounds(vals@.map_values(|v: i64| v as int), lo as int, hi as int)
                &&& fields_at(
                    s@,
                    pos as int,
                    end as int,
                    views_of(lits@),
                    vals@.map_values(|v: i64| v as int),
                )
            },
            None => forall|vals: Seq<int>, end: int|
                !(vals_in_bounds(vals, lo as int, hi as int) && #[trigger] fields_at(
                    s@,
                    pos as int,
                    end,
                    views_of(lits@),
                    vals,
                )),
        },
{
    proof {
        assert(views_of(lits@).skip(0) =~= views_of(lits@));
    }
    parse_fields_from(s, pos, lits, 0, lo, hi)
}

/// Whether the whole of `s` equals `lit`.
pub(crate) fn str_eq_lit(s: &str, lit: &str) -> (r: bool)
    ensures
        r == (s@ == lit@),
{
    let sl = s.unicode_len();
    let ll = lit.unicode_len();
    if sl != ll {
        return false;
    }
    let r = expect_lit(s, 0, lit);
    proof {
        assert(s@.subrange(0, ll as int) =~= s@);
    }
    r
}

/// Scans the characters before the next double quote.
pub(crate) fn scan_to_quote(s: &str, pos: usize) -> (r: Option<(String, usize)>)
    requires
        pos <= s@.len(),
    ensures
        match r {
            Some((content, e)) => {
                &&& pos <= e < s@.len()
                &&& s@[e as int] == '"'
                &&& content@ == s@.subrange(pos as int, e as int)
                &&& forall|i: int| pos <= i < e ==> s@[i] != '"'
            },
            None => forall|i: int| pos <= i < s@.len() ==> s@[i] != '"',
        },
{
    let len = s.unicode_len();
    let mut e = pos;
    while e < len
        invariant
            pos <= e <= len,
            len == s@.len(),
            forall|i: int| pos <= i < e ==> s@[i] != '"',
        decreases len - e,
    {
        let c = s.get_char(e);
        if c == '"' {
            let content = s.substring_char(pos, e);
            return Some((String::from_str(content), e));
        }
        e = e + 1;
    }
    None
}

/// Where `pre + v + post` sits in a string, each piece's characters sit at
/// their offsets.
pub proof fn lemma_wrapped_layout(
    s: Seq<char>,
    pos: int,
    end: int,
    pre: Seq<char>,
    v: Seq<char>,
    post: Seq<char>,
)
    requires
        0 <= pos <= end <= s.len(),
        s.subrange(pos, end) == pre + v + post,
    ensures
        end - pos == pre.len() + v.len() + post.len(),
        forall|j: int| pos <= j < pos + pre.len() ==> #[trigger] s[j] == pre[j - pos],
        forall|j: int|
            pos + pre.len() <= j < pos + pre.len() + v.len() ==> #[trigger] s[j] == v[
                j - pos - pre.len()
            ],
        forall|j: int|
            pos + pre.len() + v.len() <= j < end ==> #[trigger] s[j] == post[
                j - pos - pre.len() - v.len()
            ],
{
    let whole = s.subrange(pos, end);
    assert(whole.len() == pre.len() + v.len() + post.len());
    assert forall|j: int| pos <= j < pos + pre.len() implies #[trigger] s[j] == pre[j - pos] by {
        assert(whole[j - pos] == s[j]);
        assert(whole[j - pos] == pre[j - pos]);
    }
    assert forall|j: int|
        pos + pre.len() <= j < pos + pre.len() + v.len() implies #[trigger] s[j] == v[
        j - pos - pre.len()
    ] by {
        assert(whole[j - pos] == s[j]);
        assert(whole[j - pos] == v[j - pos - pre.len()]);
    }
    assert forall|j: int|
        pos + pre.len() + v.len() <= j < end implies #[trigger] s[j] == post[
        j - pos - pre.len() - v.len()
    ] by {
        assert(whole[j - pos] == s[j]);
        assert(whole[j - pos] == post[j - pos - pre.len() - v.len()]);
    }
}

/// A one-field record written out.
pub proof fn lemma_json_of_fields_1(l0: Seq<char>, l1: Seq<char>, v0: int)
    ensures
        json_of_fields(seq![l0, l1], seq![v0]) == l0 + dec_str_signed(v0) + l1,
{
    let lits = seq![l0, l1];
    let vals = seq![v0];
    assert(lits.drop_first() =~= seq![l1]);
    assert(vals.drop_first() =~= Seq::<int>::empty());
    assert(json_of_fields(seq![l1], Seq::<int>::empty()) == l1);
}

/// A two-field record written out.
pub proof fn lemma_json_of_fields_2(l0: Seq<char>, l1: Seq<char>, l2: Seq<char>, v0: int, v1: int)
    ensures
        json_of_fields(seq![l0, l1, l2], seq![v0, v1]) == l0 + dec_str_signed(v0) + l1
            + dec_str_signed(v1) + l2,
{
    let lits = seq![l0, l1, l2];
    let vals = seq![v0, v1];
    assert(lits.drop_first() =~= seq![l1, l2]);
    assert(vals.drop_first() =~= seq![v1]);
    lemma_json_of_fields_1(l1, l2, v1);
    assert(l0 + dec_str_signed(v0) + (l1 + dec_str_signed(v1) + l2) =~= l0 + dec_str_signed(v0)
        + l1 + dec_str_signed(v1) + l2);
}

/// A three-field record written out.
pub proof fn lemma_json_of_fields_3(
    l0: Seq<char>,
    l1: Seq<char>,
    l2: Seq<char>,
    l3: Seq<char>,
    v0: int,
    v1: int,
    v2: int,
)
    ensures
        json_of_fields(seq![l0, l1, l2, l3], seq![v0, v1, v2]) == l0 + dec_str_signed(v0) + l1
            + dec_str_signed(v1) + l2 + dec_str_signed(v2) + l3,
{
    let lits = seq![l0, l1, l2, l3];
    let vals = seq![v0, v1, v2];
    assert(lits.drop_first() =~= seq![l1, l2, l3]);
    assert(vals.drop_first() =~= seq![v1, v2]);
    lemma_json_of_fields_2(l1, l2, l3, v1, v2);
    assert(l0 + dec_str_signed(v0) + (l1 + dec_str_signed(v1) + l2 + dec_str_signed(v2) + l3) =~= l0
        + dec_str_signed(v0) + l1 + dec_str_signed(v1) + l2 + dec_str_signed(v2) + l3);
}

/// A four-field record written out.
pub proof fn lemma_json_of_fields_4(
    l0: Seq<char>,
    l1: Seq<char>,
    l2: Seq<char>,
    l3: Seq<char>,
    l4: Seq<char>,
    v0: int,
    v1: int,
    v2: int,
    v3: int,
)
    ensures
        json_of_fields(seq![l0, l1, l2, l3, l4], seq![v0, v1, v2, v3]) == l0 + dec_str_signed(v0)
            + l1 + dec_str_signed(v1) + l2 + dec_str_signed(v2) + l3 + dec_str_signed(v3) + l4,
{
    let lits = seq![l0, l1, l2, l3, l4];
    let vals = seq![v0, v1, v2, v3];
    assert(lits.drop_first() =~= seq![l1, l2, l3, l4]);
    assert(vals.drop_first() =~= seq![v1, v2, v3]);
    lemma_json_of_fields_3(l1, l2, l3, l4, v1, v2, v3);
    assert(l0 + dec_str_signed(v0) + (l1 + dec_str_signed(v1) + l2 + dec_str_signed(v2) + l3
        + dec_str_signed(v3) + l4) =~= l0 + dec_str_signed(v0) + l1 + dec_str_signed(v1) + l2
        + dec_str_signed(v2) + l3 + dec_str_signed(v3) + l4);
}

} // verus!
