//! Character classification and small string helpers used by the tokenizer
//! and the grammar decoders.
use vstd::arithmetic::mul::{
    lemma_mul_inequality, lemma_mul_is_associative, lemma_mul_is_distributive_add_other_way,
};
use vstd::arithmetic::power::{lemma_pow0, lemma_pow1, lemma_pow_adds, lemma_pow_positive, pow};
use vstd::prelude::*;

verus! {

/// The Unicode `White_Space` characters, the set `str::split_whitespace`
/// splits on.
pub open spec fn is_space(c: char) -> bool {
    let u = c as u32;
    (0x09 <= u && u <= 0x0D) || u == 0x20 || u == 0x85 || u == 0xA0 || u == 0x1680 || (0x2000
        <= u && u <= 0x200A) || u == 0x2028 || u == 0x2029 || u == 0x202F || u == 0x205F || u
        == 0x3000
}

pub fn is_space_char(c: char) -> (r: bool)
    ensures
        r == is_space(c),
{
    let u = c as u32;
    (0x09 <= u && u <= 0x0D) || u == 0x20 || u == 0x85 || u == 0xA0 || u == 0x1680 || (0x2000 <= u
        && u <= 0x200A) || u == 0x2028 || u == 0x2029 || u == 0x202F || u == 0x205F || u == 0x3000
}

pub open spec fn is_digit(c: char) -> bool {
    0x30 <= c as u32 && c as u32 <= 0x39
}

/// The numeric value of a decimal digit character.
pub open spec fn digit_val(c: char) -> u8 {
    (c as u32 - 0x30) as u8
}

pub fn digit_of_char(c: char) -> (r: Option<u8>)
    ensures
        r is Some <==> is_digit(c),
        r is Some ==> r->0 == digit_val(c),
{
    let u = c as u32;
    if 0x30 <= u && u <= 0x39 {
        Some((u - 0x30) as u8)
    } else {
        None
    }
}

/// The characters of a string slice, for random access.
pub fn chars_of(s: &str) -> (v: Vec<char>)
    ensures
        v@ == s@,
{
    let n = s.unicode_len();
    let mut v: Vec<char> = Vec::new();
    let mut i: usize = 0;
    while i < n
        invariant
            i <= n,
            n == s@.len(),
            v@ == s@.take(i as int),
        decreases n - i,
    {
        v.push(s.get_char(i));
        proof {
            assert(v@ =~= s@.take(i + 1));
        }
        i += 1;
    }
    proof {
        assert(v@ =~= s@);
    }
    v
}

pub open spec fn all_digits(s: Seq<char>) -> bool {
    forall|i: int| 0 <= i < s.len() ==> is_digit(#[trigger] s[i])
}

/// The value of a decimal digit string read most significant first.
pub open spec fn chars_val(s: Seq<char>) -> int
    decreases s.len(),
{
    if s.len() == 0 {
        0
    } else {
        chars_val(s.drop_last()) * 10 + digit_val(s.last())
    }
}

proof fn lemma_chars_val_nonneg(s: Seq<char>)
    ensures
        chars_val(s) >= 0,
    decreases s.len(),
{
    if s.len() > 0 {
        lemma_chars_val_nonneg(s.drop_last());
    }
}

proof fn lemma_chars_val_concat(u: Seq<char>, w: Seq<char>)
    ensures
        chars_val(u + w) == chars_val(u) * pow(10, w.len()) + chars_val(w),
    decreases w.len(),
{
    if w.len() == 0 {
        assert(u + w =~= u);
        lemma_pow0(10);
    } else {
        lemma_chars_val_concat(u, w.drop_last());
        assert((u + w).drop_last() =~= u + w.drop_last());
        assert(chars_val(u + w) == (chars_val(u) * pow(10, (w.len() - 1) as nat) + chars_val(
            w.drop_last(),
        )) * 10 + digit_val(w.last()));
        lemma_pow_adds(10, (w.len() - 1) as nat, 1);
        lemma_pow1(10);
        assert((chars_val(u) * pow(10, (w.len() - 1) as nat)) * 10 == chars_val(u) * (pow(
            10,
            (w.len() - 1) as nat,
        ) * 10)) by {
            lemma_mul_is_associative(chars_val(u), pow(10, (w.len() - 1) as nat), 10);
        }
        assert(chars_val(u) * pow(10, (w.len() - 1) as nat) * 10 + chars_val(w.drop_last()) * 10
            + digit_val(w.last()) == chars_val(u) * pow(10, w.len()) + chars_val(w)) by {
            lemma_mul_is_distributive_add_other_way(
                10,
                chars_val(u),
                0,
            );
        }
    }
}

/// A prefix never exceeds the whole digit string's value.
proof fn lemma_chars_val_prefix(d: Seq<char>, k: int)
    requires
        0 <= k <= d.len(),
    ensures
        chars_val(d) >= chars_val(d.take(k)),
{
    assert(d =~= d.take(k) + d.skip(k));
    lemma_chars_val_concat(d.take(k), d.skip(k));
    lemma_chars_val_nonneg(d.take(k));
    lemma_chars_val_nonneg(d.skip(k));
    lemma_pow_positive(10, d.skip(k).len());
    lemma_mul_inequality(1, pow(10, d.skip(k).len()), chars_val(d.take(k)));
    assert(chars_val(d.take(k)) * 1 == chars_val(d.take(k))) by (nonlinear_arith);
    assert(pow(10, d.skip(k).len()) * chars_val(d.take(k)) == chars_val(d.take(k)) * pow(
        10,
        d.skip(k).len(),
    )) by (nonlinear_arith);
}

/// The digits of an unsigned decimal token, past an optional leading `+`.
pub open spec fn usize_digits(s: Seq<char>) -> Seq<char> {
    if s.len() > 0 && s[0] == '+' {
        s.skip(1)
    } else {
        s
    }
}

/// What parsing an unsigned decimal token yields: the digit value when
/// the token is an optional `+` followed by digits and the value fits,
/// nothing otherwise.
pub open spec fn spec_parse_usize(s: Seq<char>) -> Option<int> {
    let d = usize_digits(s);
    if d.len() > 0 && all_digits(d) && chars_val(d) <= usize::MAX as int {
        Some(chars_val(d))
    } else {
        None
    }
}

/// Parses an unsigned decimal token, exactly as [`spec_parse_usize`] says.
#[verifier::loop_isolation(false)]
pub fn parse_usize(s: &str) -> (r: Option<usize>)
    ensures
        r is Some <==> spec_parse_usize(s@) is Some,
        r matches Some(v) ==> v as int == spec_parse_usize(s@)->0,
{
    let cs = chars_of(s);
    let n = cs.len();
    let start: usize = if n > 0 && cs[0] == '+' {
        1
    } else {
        0
    };
    let ghost d = usize_digits(s@);
    proof {
        assert(d =~= cs@.skip(start as int));
    }
    if start == n {
        return None;
    }
    let mut acc: u128 = 0;
    let mut i = start;
    while i < n
        invariant
            start <= i <= n,
            acc as int == chars_val(d.take(i - start)),
            acc <= usize::MAX as u128,
            all_digits(d.take(i - start)),
        decreases n - i,
    {
        match digit_of_char(cs[i]) {
            None => {
                proof {
                    assert(!is_digit(d[i - start]));
                }
                return None;
            },
            Some(v) => {
                proof {
                    assert(d.take(i + 1 - start).drop_last() =~= d.take(i - start));
                    assert(d.take(i + 1 - start).last() == cs@[i as int]);
                }
                acc = acc * 10 + v as u128;
                if acc > usize::MAX as u128 {
                    proof {
                        lemma_chars_val_prefix(d, i + 1 - start);
                    }
                    return None;
                }
                i += 1;
            },
        }
    }
    proof {
        assert(d.take(n - start) =~= d);
    }
    Some(acc as usize)
}

pub open spec fn find_quote(s: Seq<char>) -> int
    decreases s.len(),
{
    if s.len() == 0 {
        0
    } else if s[0] == '\'' {
        0
    } else {
        1 + find_quote(s.skip(1))
    }
}

proof fn lemma_find_quote_le(t: Seq<char>)
    ensures
        0 <= find_quote(t) <= t.len(),
    decreases t.len(),
{
    if t.len() > 0 && t[0] != '\'' {
        lemma_find_quote_le(t.skip(1));
    }
}

proof fn lemma_find_quote_at(t: Seq<char>, k: int)
    requires
        0 <= k <= t.len(),
        forall|j: int| 0 <= j < k ==> #[trigger] t[j] != '\'',
        k < t.len() ==> t[k as int] == '\'',
    ensures
        find_quote(t) == k,
    decreases k,
{
    if t.len() == 0 {
    } else if t[0] == '\'' {
        assert(k == 0);
    } else {
        assert(k >= 1);
        lemma_find_quote_at(t.skip(1), k - 1);
    }
}

/// The pieces between the single quotes of `s`, in order; one piece and
/// no quote when there is none.
pub open spec fn split_quote(s: Seq<char>) -> Seq<Seq<char>>
    decreases s.len(),
    via split_quote_decreases
{
    let k = find_quote(s);
    if k >= s.len() {
        seq![s]
    } else {
        seq![s.take(k)] + split_quote(s.skip(k + 1))
    }
}

#[via_fn]
proof fn split_quote_decreases(s: Seq<char>) {
    lemma_find_quote_le(s);
}

proof fn lemma_split_quote_len(s: Seq<char>)
    ensures
        split_quote(s).len() >= 1,
    decreases s.len(),
{
    lemma_find_quote_le(s);
    if find_quote(s) < s.len() {
        lemma_split_quote_len(s.skip(find_quote(s) + 1));
    }
}

/// The positional quote-stripping convention: split on single quotes and
/// keep the middle piece.  `'name'` gives `name`; a token without quotes
/// passes through; malformed quoting degenerates to whatever piece sits
/// in the middle.
pub open spec fn spec_strip_quotes(s: Seq<char>) -> Seq<char> {
    let v = split_quote(s);
    v[v.len() as int / 2]
}

#[verifier::loop_isolation(false)]
fn split_quote_exec(s: &str) -> (parts: Vec<String>)
    ensures
        parts@.map_values(|t: String| t@) == split_quote(s@),
        parts@.len() >= 1,
{
    let cs = chars_of(s);
    let n = cs.len();
    let mut parts: Vec<String> = Vec::new();
    let mut seg_start: usize = 0;
    let mut i: usize = 0;
    proof {
        assert(s@.skip(0) =~= s@);
        assert(parts@.map_values(|t: String| t@) =~= Seq::<Seq<char>>::empty());
    }
    while i < n
        invariant
            seg_start <= i <= n,
            n == s@.len(),
            cs@ == s@,
            forall|j: int| seg_start <= j < i ==> #[trigger] s@[j] != '\'',
            split_quote(s@) =~= parts@.map_values(|t: String| t@) + split_quote(
                s@.skip(seg_start as int),
            ),
        decreases n - i,
    {
        if cs[i] == '\'' {
            let piece = s.substring_char(seg_start, i).to_owned();
            proof {
                let rest = s@.skip(seg_start as int);
                assert forall|j: int| 0 <= j < i - seg_start implies #[trigger] rest[j] != '\'' by {
                    assert(rest[j] == s@[seg_start + j]);
                }
                lemma_find_quote_at(rest, i - seg_start);
                assert(rest.take(i - seg_start) =~= s@.subrange(seg_start as int, i as int));
                assert(rest.skip(i - seg_start + 1) =~= s@.skip(i + 1));
                assert((parts@.push(piece)).map_values(|t: String| t@) =~= parts@.map_values(
                    |t: String| t@,
                ).push(piece@));
            }
            parts.push(piece);
            seg_start = i + 1;
        }
        i += 1;
    }
    let last = s.substring_char(seg_start, n).to_owned();
    proof {
        let rest = s@.skip(seg_start as int);
        assert forall|j: int| 0 <= j < rest.len() implies #[trigger] rest[j] != '\'' by {
            assert(rest[j] == s@[seg_start + j]);
        }
        lemma_find_quote_at(rest, rest.len() as int);
        assert(split_quote(rest) =~= seq![rest]);
        assert(rest =~= s@.subrange(seg_start as int, n as int));
        assert((parts@.push(last)).map_values(|t: String| t@) =~= parts@.map_values(
            |t: String| t@,
        ).push(last@));
    }
    parts.push(last);
    parts
}

/// Strips a matching pair of single quotes from a name token by the
/// positional split-count convention (see [`spec_strip_quotes`]).
pub fn strip_single_quotes(input: &str) -> (r: String)
    ensures
        r@ == spec_strip_quotes(input@),
{
    let mut parts = split_quote_exec(input);
    let ghost pv = parts@.map_values(|t: String| t@);
    let idx = parts.len() / 2;
    let r = parts.remove(idx);
    proof {
        assert(r@ == pv[idx as int]);
    }
    r
}

/// Index of the first whitespace character, or the length.
pub open spec fn find_space(s: Seq<char>) -> int
    decreases s.len(),
{
    if s.len() == 0 {
        0
    } else if is_space(s[0]) {
        0
    } else {
        1 + find_space(s.skip(1))
    }
}

proof fn lemma_find_space_le(t: Seq<char>)
    ensures
        0 <= find_space(t) <= t.len(),
    decreases t.len(),
{
    if t.len() > 0 && !is_space(t[0]) {
        lemma_find_space_le(t.skip(1));
    }
}

proof fn lemma_find_space_at(t: Seq<char>, k: int)
    requires
        0 <= k <= t.len(),
        forall|j: int| 0 <= j < k ==> !is_space(#[trigger] t[j]),
        k < t.len() ==> is_space(t[k as int]),
    ensures
        find_space(t) == k,
    decreases k,
{
    if t.len() == 0 {
    } else if is_space(t[0]) {
        assert(k == 0);
    } else {
        assert(k >= 1);
        lemma_find_space_at(t.skip(1), k - 1);
    }
}

/// The whitespace-separated tokens of a line, in order, empties dropped.
pub open spec fn tokenize(s: Seq<char>) -> Seq<Seq<char>>
    decreases s.len(),
    via tokenize_decreases
{
    if s.len() == 0 {
        Seq::empty()
    } else if is_space(s[0]) {
        tokenize(s.skip(1))
    } else {
        seq![s.take(find_space(s))] + tokenize(s.skip(find_space(s)))
    }
}

#[via_fn]
proof fn tokenize_decreases(s: Seq<char>) {
    lemma_find_space_le(s);
    if s.len() > 0 && !is_space(s[0]) {
        lemma_find_space_le(s.skip(1));
    }
}

/// Splits on whitespace runs, exactly as [`tokenize`] says.
#[verifier::loop_isolation(false)]
pub fn tokenize_exec(s: &str) -> (tokens: Vec<String>)
    ensures
        tokens@.map_values(|t: String| t@) == tokenize(s@),
{
    let cs = chars_of(s);
    let n = cs.len();
    let mut tokens: Vec<String> = Vec::new();
    let mut i: usize = 0;
    proof {
        assert(s@.skip(0) =~= s@);
        assert(tokens@.map_values(|t: String| t@) =~= Seq::<Seq<char>>::empty());
    }
    while i < n
        invariant
            i <= n,
            n == s@.len(),
            cs@ == s@,
            tokenize(s@) =~= tokens@.map_values(|t: String| t@) + tokenize(s@.skip(i as int)),
        decreases n - i,
    {
        if is_space_char(cs[i]) {
            proof {
                assert(s@.skip(i as int).skip(1) =~= s@.skip(i + 1));
            }
            i += 1;
        } else {
            let mut j = i + 1;
            while j < n && !is_space_char(cs[j])
                invariant
                    i < j <= n,
                    forall|t: int| i < t < j ==> !is_space(#[trigger] s@[t]),
                decreases n - j,
            {
                j += 1;
            }
            let tok = s.substring_char(i, j).to_owned();
            proof {
                let rest = s@.skip(i as int);
                assert forall|t: int| 0 <= t < j - i implies !is_space(#[trigger] rest[t]) by {
                    assert(rest[t] == s@[i + t]);
                }
                if j < n {
                    assert(is_space(rest[j - i]));
                }
                lemma_find_space_at(rest, j - i);
                assert(rest.take(j - i) =~= s@.subrange(i as int, j as int));
                assert(rest.skip(j - i) =~= s@.skip(j as int));
                assert((tokens@.push(tok)).map_values(|t: String| t@) =~= tokens@.map_values(
                    |t: String| t@,
                ).push(tok@));
            }
            tokens.push(tok);
            i = j;
        }
    }
    proof {
        assert(tokenize(s@.skip(n as int)) =~= Seq::<Seq<char>>::empty());
        assert(tokens@.map_values(|t: String| t@) + Seq::<Seq<char>>::empty() =~= tokens@.map_values(
            |t: String| t@,
        ));
    }
    tokens
}

/// Relies on `core::str::from_utf8`: it accepts exactly the byte
/// sequences that vstd's UTF-8 model calls valid, and decodes them to
/// the characters that model gives.
#[verifier::external_body]
pub(crate) fn utf8_to_string(bytes: &Vec<u8>) -> (r: Option<String>)
    ensures
        r is Some <==> vstd::utf8::valid_utf8(bytes@),
        r matches Some(s) ==> s@ == vstd::utf8::decode_utf8(bytes@),
{
    match core::str::from_utf8(bytes.as_slice()) {
        Ok(s) => Some(s.to_owned()),
        Err(_) => None,
    }
}

/// Character equality of two string slices.
pub fn str_eq(a: &str, b: &str) -> (r: bool)
    ensures
        r == (a@ == b@),
{
    let alen = a.unicode_len();
    let blen = b.unicode_len();
    if alen != blen {
        proof {
            assert(a@.len() != b@.len());
        }
        return false;
    }
    let mut i: usize = 0;
    while i < alen
        invariant
            i <= alen,
            alen == a@.len(),
            alen == b@.len(),
            forall|j: int| 0 <= j < i ==> a@[j] == b@[j],
        decreases alen - i,
    {
        if a.get_char(i) != b.get_char(i) {
            return false;
        }
        i += 1;
    }
    proof {
        assert(a@ =~= b@);
    }
    true
}

} // verus!
