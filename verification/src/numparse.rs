//! The numeric token grammar.
//!
//! A token is numeric when it spells an optional sign followed by either
//! one of the words `inf`, `infinity`, `nan` (any case) or a decimal
//! mantissa (digits with at most one point, at least one digit) and an
//! optional exponent (`e`/`E`, optional sign, digits).  This is the
//! float-literal syntax the protocol's data rows use.  The denoted value
//! is exact; only exponent literals beyond [`EXP_CAP`], or final exponents
//! under [`EXP_FLOOR`] (reachable only through astronomically long
//! fractions), saturate.
use crate::num::{wf_digits, Num, NumV};
use crate::strutil::{all_digits, digit_of_char, digit_val, is_digit};
use vstd::prelude::*;

verus! {

/// Exponent literals larger than this all behave alike; the fold that
/// reads them tops out here.
pub const EXP_CAP: i64 = 10_000_000_000_000_000;

/// Final exponents below this all behave alike; the shift by the fraction
/// length bottoms out here.
pub const EXP_FLOOR: i64 = -20_000_000_000_000_000;

/// ASCII case-insensitive match of `c` against a lowercase letter.
pub open spec fn eq_ci(c: char, l: char) -> bool {
    c == l || c as u32 == l as u32 - 32
}

pub open spec fn word_ci(s: Seq<char>, w: Seq<char>) -> bool {
    s.len() == w.len() && (forall|i: int| 0 <= i < s.len() ==> eq_ci(s[i], #[trigger] w[i]))
}

pub open spec fn inf_word() -> Seq<char> {
    seq!['i', 'n', 'f']
}

pub open spec fn infinity_word() -> Seq<char> {
    seq!['i', 'n', 'f', 'i', 'n', 'i', 't', 'y']
}

pub open spec fn nan_word() -> Seq<char> {
    seq!['n', 'a', 'n']
}

/// Whether a leading `-` makes the token negative.
pub open spec fn sign_of(s: Seq<char>) -> bool {
    s.len() > 0 && s[0] == '-'
}

pub open spec fn sign_len(s: Seq<char>) -> int {
    if s.len() > 0 && (s[0] == '-' || s[0] == '+') {
        1
    } else {
        0
    }
}

pub open spec fn after_sign(s: Seq<char>) -> Seq<char> {
    s.skip(sign_len(s))
}

pub open spec fn is_marker(c: char) -> bool {
    c == 'e' || c == 'E'
}

/// Index of the first exponent marker, or the length when there is none.
pub open spec fn find_marker(s: Seq<char>) -> int
    decreases s.len(),
{
    if s.len() == 0 {
        0
    } else if is_marker(s[0]) {
        0
    } else {
        1 + find_marker(s.skip(1))
    }
}

/// Index of the first decimal point, or the length when there is none.
pub open spec fn find_dot(s: Seq<char>) -> int
    decreases s.len(),
{
    if s.len() == 0 {
        0
    } else if s[0] == '.' {
        0
    } else {
        1 + find_dot(s.skip(1))
    }
}

pub open spec fn int_part(m: Seq<char>) -> Seq<char> {
    m.take(find_dot(m))
}

pub open spec fn frac_part(m: Seq<char>) -> Seq<char> {
    if find_dot(m) < m.len() {
        m.skip(find_dot(m) + 1)
    } else {
        Seq::empty()
    }
}

/// Digits with at most one point and at least one digit.
pub open spec fn mantissa_ok(m: Seq<char>) -> bool {
    all_digits(int_part(m)) && all_digits(frac_part(m)) && int_part(m).len() + frac_part(m).len()
        > 0
}

/// A well-formed exponent part: the marker, an optional sign, digits.
pub open spec fn exp_ok(e: Seq<char>) -> bool {
    e.len() >= 1 && is_marker(e[0]) && after_sign(e.skip(1)).len() > 0 && all_digits(
        after_sign(e.skip(1)),
    )
}

/// The value of an exponent digit string, topping out at [`EXP_CAP`].
pub open spec fn exp_digits_capped(s: Seq<char>) -> int
    decreases s.len(),
{
    if s.len() == 0 {
        0
    } else {
        let v = exp_digits_capped(s.drop_last()) * 10 + digit_val(s.last());
        if v > EXP_CAP as int {
            EXP_CAP as int
        } else {
            v
        }
    }
}

/// The signed exponent literal; zero when the token has no exponent part.
pub open spec fn exp_lit(e: Seq<char>) -> int {
    if e.len() == 0 {
        0
    } else if sign_of(e.skip(1)) {
        -exp_digits_capped(after_sign(e.skip(1)))
    } else {
        exp_digits_capped(after_sign(e.skip(1)))
    }
}

/// The power of ten the digit string is scaled by: the exponent literal
/// shifted by the fraction length, bottoming out at [`EXP_FLOOR`].
pub open spec fn final_exp(elit: int, fraclen: int) -> int {
    let raw = elit - fraclen;
    if raw < EXP_FLOOR as int {
        EXP_FLOOR as int
    } else {
        raw
    }
}

pub open spec fn digits_of(s: Seq<char>) -> Seq<u8> {
    Seq::new(s.len(), |i: int| digit_val(s[i]))
}

pub open spec fn strip_lead_zeros(d: Seq<u8>) -> Seq<u8>
    decreases d.len(),
{
    if d.len() > 0 && d[0] == 0 {
        strip_lead_zeros(d.skip(1))
    } else {
        d
    }
}

/// What a numeric token denotes: `None` where the grammar rejects it,
/// otherwise the exact value.  Zero mantissas collapse to the canonical
/// zero (empty digits, exponent zero, sign kept).
pub open spec fn spec_parse_num(s: Seq<char>) -> Option<NumV> {
    let neg = sign_of(s);
    let r = after_sign(s);
    if word_ci(r, inf_word()) || word_ci(r, infinity_word()) {
        Some(
            if neg {
                NumV::NegInf
            } else {
                NumV::PosInf
            },
        )
    } else if word_ci(r, nan_word()) {
        Some(NumV::Nan)
    } else {
        let m = r.take(find_marker(r));
        let e = r.skip(find_marker(r));
        if !mantissa_ok(m) || (e.len() > 0 && !exp_ok(e)) {
            None
        } else {
            let digits = strip_lead_zeros(digits_of(int_part(m) + frac_part(m)));
            if digits.len() == 0 {
                Some(NumV::Dec { neg, digits, exp: 0 })
            } else {
                Some(
                    NumV::Dec {
                        neg,
                        digits,
                        exp: final_exp(exp_lit(e), frac_part(m).len() as int),
                    },
                )
            }
        }
    }
}

/// A token is a numeric one exactly when the grammar accepts it.
pub open spec fn is_numeric(s: Seq<char>) -> bool {
    spec_parse_num(s) is Some
}

proof fn lemma_find_marker_at(t: Seq<char>, k: int)
    requires
        0 <= k <= t.len(),
        forall|j: int| 0 <= j < k ==> !is_marker(#[trigger] t[j]),
        k < t.len() ==> is_marker(t[k as int]),
    ensures
        find_marker(t) == k,
    decreases k,
{
    if t.len() == 0 {
    } else if is_marker(t[0]) {
        assert(k == 0);
    } else {
        assert(k >= 1);
        lemma_find_marker_at(t.skip(1), k - 1);
    }
}

proof fn lemma_find_dot_at(t: Seq<char>, k: int)
    requires
        0 <= k <= t.len(),
        forall|j: int| 0 <= j < k ==> #[trigger] t[j] != '.',
        k < t.len() ==> t[k as int] == '.',
    ensures
        find_dot(t) == k,
    decreases k,
{
    if t.len() == 0 {
    } else if t[0] == '.' {
        assert(k == 0);
    } else {
        assert(k >= 1);
        lemma_find_dot_at(t.skip(1), k - 1);
    }
}

proof fn lemma_strip_at(d: Seq<u8>, k: int)
    requires
        0 <= k <= d.len(),
        forall|j: int| 0 <= j < k ==> #[trigger] d[j] == 0,
        k < d.len() ==> d[k as int] != 0,
    ensures
        strip_lead_zeros(d) =~= d.skip(k),
    decreases k,
{
    if k == 0 {
        assert(d.skip(0) =~= d);
    } else {
        lemma_strip_at(d.skip(1), k - 1);
        assert(d.skip(1).skip(k - 1) =~= d.skip(k));
    }
}

proof fn lemma_find_dot_lb(t: Seq<char>, k: int)
    requires
        0 <= k <= t.len(),
        forall|j: int| 0 <= j < k ==> #[trigger] t[j] != '.',
    ensures
        find_dot(t) >= k,
    decreases k,
{
    if k > 0 {
        assert(t[0] != '.');
        assert forall|j: int| 0 <= j < k - 1 implies #[trigger] t.skip(1)[j] != '.' by {
            assert(t.skip(1)[j] == t[j + 1]);
        }
        lemma_find_dot_lb(t.skip(1), k - 1);
    } else {
        lemma_find_dot_le(t);
    }
}

proof fn lemma_find_dot_le(t: Seq<char>)
    ensures
        0 <= find_dot(t) <= t.len(),
    decreases t.len(),
{
    if t.len() > 0 && t[0] != '.' {
        lemma_find_dot_le(t.skip(1));
    }
}

proof fn lemma_find_marker_le(t: Seq<char>)
    ensures
        0 <= find_marker(t) <= t.len(),
    decreases t.len(),
{
    if t.len() > 0 && !is_marker(t[0]) {
        lemma_find_marker_le(t.skip(1));
    }
}

fn eq_ci_exec(c: char, l: char) -> (r: bool)
    ensures
        r == eq_ci(c, l),
{
    let lu = l as u32;
    c == l || (lu >= 32 && c as u32 == lu - 32)
}

/// Scans for the first exponent marker at or after `start`.
#[verifier::loop_isolation(false)]
fn scan_marker(cs: &Vec<char>, start: usize) -> (me: usize)
    requires
        start <= cs@.len(),
    ensures
        start <= me <= cs@.len(),
        me - start == find_marker(cs@.skip(start as int)),
        me < cs@.len() ==> is_marker(cs@[me as int]),
{
    let n = cs.len();
    let mut i = start;
    while i < n
        invariant
            start <= i <= n,
            n == cs@.len(),
            forall|j: int| start <= j < i ==> !is_marker(#[trigger] cs@[j]),
        decreases n - i,
    {
        let c = cs[i];
        if c == 'e' || c == 'E' {
            proof {
                let t = cs@.skip(start as int);
                assert forall|j: int| 0 <= j < i - start implies !is_marker(#[trigger] t[j]) by {
                    assert(t[j] == cs@[start + j]);
                }
                lemma_find_marker_at(t, i - start);
            }
            return i;
        }
        i += 1;
    }
    proof {
        let t = cs@.skip(start as int);
        assert forall|j: int| 0 <= j < n - start implies !is_marker(#[trigger] t[j]) by {
            assert(t[j] == cs@[start + j]);
        }
        lemma_find_marker_at(t, n - start);
    }
    n
}

/// Reads the mantissa `cs[start..end]`: the digit values (integer part
/// then fraction, in order) and the fraction length.
#[verifier::loop_isolation(false)]
fn parse_mantissa(cs: &Vec<char>, start: usize, end: usize) -> (r: Option<(Vec<u8>, usize)>)
    requires
        start <= end <= cs@.len(),
    ensures
        ({
            let m = cs@.subrange(start as int, end as int);
            &&& (r is Some <==> mantissa_ok(m))
            &&& (r matches Some(p) ==> p.0@ == digits_of(int_part(m) + frac_part(m)) && p.1
                == frac_part(m).len())
        }),
{
    let ghost m = cs@.subrange(start as int, end as int);
    let mut dv: Vec<u8> = Vec::new();
    let mut dot: Option<usize> = None;
    let mut j = start;
    while j < end
        invariant
            start <= j <= end <= cs@.len(),
            m == cs@.subrange(start as int, end as int),
            dot matches None ==> all_digits(m.take(j - start)) && dv@ == digits_of(
                m.take(j - start),
            ),
            dot matches Some(d) ==> 0 <= d < j - start && m[d as int] == '.' && all_digits(
                m.take(d as int),
            ) && all_digits(m.subrange(d + 1, j - start)) && dv@ == digits_of(
                m.take(d as int) + m.subrange(d + 1, j - start),
            ),
        decreases end - j,
    {
        let c = cs[j];
        proof {
            assert(m[j - start] == cs@[j as int]);
        }
        match digit_of_char(c) {
            Some(v) => {
                dv.push(v);
                proof {
                    match dot {
                        None => {
                            assert(m.take(j + 1 - start) =~= m.take(j - start).push(c));
                            assert(digits_of(m.take(j + 1 - start)) =~= digits_of(
                                m.take(j - start),
                            ).push(digit_val(c)));
                        },
                        Some(d) => {
                            assert(m.take(d as int) + m.subrange(d + 1, j + 1 - start) =~= (m.take(
                                d as int,
                            ) + m.subrange(d + 1, j - start)).push(c));
                            assert(digits_of(
                                (m.take(d as int) + m.subrange(d + 1, j - start)).push(c),
                            ) =~= digits_of(m.take(d as int) + m.subrange(d + 1, j - start)).push(
                                digit_val(c),
                            ));
                        },
                    }
                }
            },
            None => {
                if c == '.' {
                    match dot {
                        None => {
                            dot = Some(j - start);
                            proof {
                                assert(m.subrange(j - start + 1, j + 1 - start) =~= Seq::empty());
                                assert(digits_of(m.take(j - start) + Seq::<char>::empty()) =~= dv@)
                                    by {
                                    assert(m.take(j - start) + Seq::<char>::empty() =~= m.take(
                                        j - start,
                                    ));
                                }
                            }
                        },
                        Some(d) => {
                            // a second point: it lands in the fraction, which
                            // must be all digits
                            proof {
                                assert forall|t: int| 0 <= t < d implies #[trigger] m[t]
                                    != '.' by {
                                    assert(is_digit(m.take(d as int)[t]));
                                }
                                lemma_find_dot_at(m, d as int);
                                assert(frac_part(m)[j - start - (d + 1)] == '.');
                                assert(!is_digit(frac_part(m)[j - start - (d + 1)]));
                            }
                            return None;
                        },
                    }
                } else {
                    // neither digit nor point: the part it falls in fails
                    proof {
                        match dot {
                            None => {
                                assert forall|t: int| 0 <= t < j + 1 - start implies #[trigger] m[t]
                                    != '.' by {
                                    if t < j - start {
                                        assert(is_digit(m.take(j - start)[t]));
                                    }
                                }
                                lemma_find_dot_lb(m, j + 1 - start);
                                lemma_find_dot_le(m);
                                assert(int_part(m)[j - start] == m[j - start]);
                                assert(!is_digit(int_part(m)[j - start]));
                            },
                            Some(d) => {
                                assert forall|t: int| 0 <= t < d implies #[trigger] m[t]
                                    != '.' by {
                                    assert(is_digit(m.take(d as int)[t]));
                                }
                                lemma_find_dot_at(m, d as int);
                                assert(frac_part(m)[j - start - (d + 1)] == m[j - start]);
                                assert(!is_digit(frac_part(m)[j - start - (d + 1)]));
                            },
                        }
                    }
                    return None;
                }
            },
        }
        j += 1;
    }
    let fl: usize = match dot {
        None => 0,
        Some(d) => end - start - d - 1,
    };
    proof {
        match dot {
            None => {
                assert forall|t: int| 0 <= t < m.len() implies #[trigger] m[t] != '.' by {
                    assert(is_digit(m.take(j - start)[t]));
                }
                lemma_find_dot_lb(m, m.len() as int);
                lemma_find_dot_le(m);
                assert(int_part(m) =~= m);
                assert(int_part(m) + frac_part(m) =~= m);
                assert(m.take(j - start) =~= m);
            },
            Some(d) => {
                assert forall|t: int| 0 <= t < d implies #[trigger] m[t] != '.' by {
                    assert(is_digit(m.take(d as int)[t]));
                }
                lemma_find_dot_at(m, d as int);
                assert(int_part(m) =~= m.take(d as int));
                assert(frac_part(m) =~= m.subrange(d + 1, j - start));
            },
        }
    }
    if dv.len() == 0 {
        proof {
            assert(digits_of(int_part(m) + frac_part(m)).len() == 0);
        }
        return None;
    }
    Some((dv, fl))
}

/// Reads the exponent part starting at the marker.
#[verifier::loop_isolation(false)]
fn parse_exp(cs: &Vec<char>, me: usize) -> (r: Option<i64>)
    requires
        me < cs@.len(),
        is_marker(cs@[me as int]),
    ensures
        ({
            let e = cs@.skip(me as int);
            &&& (r is Some <==> exp_ok(e))
            &&& (r matches Some(v) ==> v as int == exp_lit(e) && -(EXP_CAP as int) <= v as int
                <= EXP_CAP as int)
        }),
{
    let ghost e = cs@.skip(me as int);
    let n = cs.len();
    let mut j = me + 1;
    let eneg = j < n && cs[j] == '-';
    if j < n && (cs[j] == '-' || cs[j] == '+') {
        j += 1;
    }
    let ghost ed = after_sign(e.skip(1));
    proof {
        assert(e.skip(1) =~= cs@.skip(me + 1));
        assert(ed =~= cs@.skip(j as int));
        assert(eneg == sign_of(e.skip(1)));
    }
    if j == n {
        return None;
    }
    let mut acc: i64 = 0;
    let mut t = j;
    while t < n
        invariant
            j <= t <= n,
            n == cs@.len(),
            ed =~= cs@.skip(j as int),
            acc as int == exp_digits_capped(ed.take(t - j)),
            0 <= acc <= EXP_CAP,
            all_digits(ed.take(t - j)),
        decreases n - t,
    {
        match digit_of_char(cs[t]) {
            Some(d) => {
                proof {
                    assert(ed.take(t + 1 - j).drop_last() =~= ed.take(t - j));
                    assert(ed.take(t + 1 - j).last() == cs@[t as int]);
                }
                acc = acc * 10 + d as i64;
                if acc > EXP_CAP {
                    acc = EXP_CAP;
                }
                t += 1;
            },
            None => {
                proof {
                    assert(!is_digit(ed[t - j]));
                }
                return None;
            },
        }
    }
    proof {
        assert(ed.take(n - j) =~= ed);
    }
    Some(
        if eneg {
            -acc
        } else {
            acc
        },
    )
}

#[verifier::loop_isolation(false)]
fn strip_zeros_vec(dv: Vec<u8>) -> (r: Vec<u8>)
    ensures
        r@ == strip_lead_zeros(dv@),
{
    let n = dv.len();
    let mut k: usize = 0;
    while k < n && dv[k] == 0
        invariant
            k <= n,
            n == dv@.len(),
            forall|j: int| 0 <= j < k ==> #[trigger] dv@[j] == 0,
        decreases n - k,
    {
        k += 1;
    }
    proof {
        lemma_strip_at(dv@, k as int);
    }
    let mut out: Vec<u8> = Vec::new();
    let mut i = k;
    while i < n
        invariant
            k <= i <= n,
            n == dv@.len(),
            out@ == dv@.subrange(k as int, i as int),
        decreases n - i,
    {
        out.push(dv[i]);
        proof {
            assert(dv@.subrange(k as int, i + 1) =~= dv@.subrange(k as int, i as int).push(
                dv@[i as int],
            ));
        }
        i += 1;
    }
    proof {
        assert(out@ =~= dv@.skip(k as int));
    }
    out
}

/// Parses a numeric token; `None` exactly where the grammar rejects it.
#[verifier::rlimit(50)]
pub fn parse_num(s: &str) -> (r: Option<Num>)
    ensures
        r is Some <==> is_numeric(s@),
        r matches Some(v) ==> v@ == spec_parse_num(s@)->0 && crate::num::wf_num(v@),
{
    let cs = crate::strutil::chars_of(s);
    let n = cs.len();
    let neg = n > 0 && cs[0] == '-';
    let start: usize = if n > 0 && (cs[0] == '-' || cs[0] == '+') {
        1
    } else {
        0
    };
    let ghost r0 = after_sign(s@);
    proof {
        assert(neg == sign_of(s@));
        assert(r0 =~= cs@.skip(start as int));
    }
    let rem = n - start;
    if rem == 3 {
        let i0 = eq_ci_exec(cs[start], 'i');
        let i1 = eq_ci_exec(cs[start + 1], 'n');
        let i2 = eq_ci_exec(cs[start + 2], 'f');
        if i0 && i1 && i2 {
            proof {
                assert(word_ci(r0, inf_word()));
            }
            return Some(
                if neg {
                    Num::NegInf
                } else {
                    Num::PosInf
                },
            );
        }
        let n0 = eq_ci_exec(cs[start], 'n');
        let n1 = eq_ci_exec(cs[start + 1], 'a');
        let n2 = eq_ci_exec(cs[start + 2], 'n');
        if n0 && n1 && n2 {
            proof {
                assert(word_ci(r0, nan_word()));
            }
            return Some(Num::Nan);
        }
        proof {
            assert(!word_ci(r0, inf_word())) by {
                if word_ci(r0, inf_word()) {
                    assert(eq_ci(r0[0], inf_word()[0]));
                    assert(eq_ci(r0[1], inf_word()[1]));
                    assert(eq_ci(r0[2], inf_word()[2]));
                }
            }
            assert(!word_ci(r0, nan_word())) by {
                if word_ci(r0, nan_word()) {
                    assert(eq_ci(r0[0], nan_word()[0]));
                    assert(eq_ci(r0[1], nan_word()[1]));
                    assert(eq_ci(r0[2], nan_word()[2]));
                }
            }
        }
    }
    if rem == 8 {
        let w0 = eq_ci_exec(cs[start], 'i');
        let w1 = eq_ci_exec(cs[start + 1], 'n');
        let w2 = eq_ci_exec(cs[start + 2], 'f');
        let w3 = eq_ci_exec(cs[start + 3], 'i');
        let w4 = eq_ci_exec(cs[start + 4], 'n');
        let w5 = eq_ci_exec(cs[start + 5], 'i');
        let w6 = eq_ci_exec(cs[start + 6], 't');
        let w7 = eq_ci_exec(cs[start + 7], 'y');
        if w0 && w1 && w2 && w3 && w4 && w5 && w6 && w7 {
            proof {
                assert(word_ci(r0, infinity_word()));
            }
            return Some(
                if neg {
                    Num::NegInf
                } else {
                    Num::PosInf
                },
            );
        }
        proof {
            assert(!word_ci(r0, infinity_word())) by {
                if word_ci(r0, infinity_word()) {
                    assert(eq_ci(r0[0], infinity_word()[0]));
                    assert(eq_ci(r0[1], infinity_word()[1]));
                    assert(eq_ci(r0[2], infinity_word()[2]));
                    assert(eq_ci(r0[3], infinity_word()[3]));
                    assert(eq_ci(r0[4], infinity_word()[4]));
                    assert(eq_ci(r0[5], infinity_word()[5]));
                    assert(eq_ci(r0[6], infinity_word()[6]));
                    assert(eq_ci(r0[7], infinity_word()[7]));
                }
            }
        }
    }
    let me = scan_marker(&cs, start);
    let ghost mm = r0.take(find_marker(r0));
    let ghost ee = r0.skip(find_marker(r0));
    proof {
        lemma_find_marker_le(r0);
        assert(mm =~= cs@.subrange(start as int, me as int));
        assert(ee =~= cs@.skip(me as int));
    }
    let mant = parse_mantissa(&cs, start, me);
    match mant {
        None => None,
        Some((dv, fl)) => {
            let elit: i64 = if me < n {
                proof {
                    assert(is_marker(cs@[me as int]));
                }
                match parse_exp(&cs, me) {
                    Some(v) => v,
                    None => {
                        return None;
                    },
                }
            } else {
                proof {
                    assert(ee =~= Seq::<char>::empty());
                }
                0
            };
            let digits = strip_zeros_vec(dv);
            proof {
                let dall = digits_of(int_part(mm) + frac_part(mm));
                assert(forall|i: int| 0 <= i < dall.len() ==> #[trigger] dall[i] <= 9);
                lemma_strip_wf(dall);
            }
            if digits.len() == 0 {
                Some(Num::Dec { neg, digits, exp: 0 })
            } else {
                let raw: i128 = elit as i128 - fl as i128;
                let exp: i64 = if raw < EXP_FLOOR as i128 {
                    EXP_FLOOR
                } else {
                    raw as i64
                };
                Some(Num::Dec { neg, digits, exp })
            }
        },
    }
}

proof fn lemma_strip_wf(d: Seq<u8>)
    requires
        forall|i: int| 0 <= i < d.len() ==> #[trigger] d[i] <= 9,
    ensures
        wf_digits(strip_lead_zeros(d)),
        strip_lead_zeros(d).len() > 0 ==> strip_lead_zeros(d)[0] >= 1,
    decreases d.len(),
{
    if d.len() > 0 && d[0] == 0 {
        lemma_strip_wf(d.skip(1));
    }
}

} // verus!
