//! Exact-decimal sample values.
//!
//! A sample travels through the protocol as a numeric token.  The library
//! keeps it as an exact decimal: a sign, a digit string with no leading
//! zero, and a power-of-ten exponent, so `digits * 10^exp` with the sign
//! applied.  The special spellings `inf`, `infinity` and `nan` (any case,
//! optional sign) that the numeric grammar also accepts become the three
//! non-finite variants.  Ordering and clamping compare exact values; `Nan`
//! is ordered with nothing, the infinities bound everything.
use vstd::arithmetic::mul::{
    lemma_mul_by_zero_is_zero, lemma_mul_inequality, lemma_mul_is_distributive_add_other_way,
    lemma_mul_strict_inequality, lemma_mul_strictly_positive,
};
use vstd::arithmetic::power::{
    lemma_pow0, lemma_pow1, lemma_pow_adds, lemma_pow_positive, lemma_pow_strictly_increases, pow,
};
use vstd::prelude::*;

verus! {

/// The mathematical content of a [`Num`]: exponents as unbounded integers,
/// digits as a sequence.
pub enum NumV {
    Nan,
    NegInf,
    PosInf,
    Dec { neg: bool, digits: Seq<u8>, exp: int },
}

/// A sample value: not-a-number, an infinity of either sign, or an exact
/// decimal `(-1)^neg * digits * 10^exp` with the digits most significant
/// first.  Zero is the empty digit string (the sign may still be set, as a
/// parsed `-0` keeps its sign; it compares equal to zero).
#[derive(Debug, Clone, PartialEq, Eq)]
pub enum Num {
    Nan,
    NegInf,
    PosInf,
    Dec { neg: bool, digits: Vec<u8>, exp: i64 },
}

impl View for Num {
    type V = NumV;

    open spec fn view(&self) -> NumV {
        match self {
            Num::Nan => NumV::Nan,
            Num::NegInf => NumV::NegInf,
            Num::PosInf => NumV::PosInf,
            Num::Dec { neg, digits, exp } => NumV::Dec {
                neg: *neg,
                digits: digits@,
                exp: *exp as int,
            },
        }
    }
}

/// Digit strings carry base-10 digits and never start with zero; a zero
/// value is the empty string.
pub open spec fn wf_digits(d: Seq<u8>) -> bool {
    (forall|i: int| 0 <= i < d.len() ==> d[i] <= 9) && (d.len() > 0 ==> d[0] >= 1)
}

pub open spec fn wf_num(n: NumV) -> bool {
    match n {
        NumV::Dec { digits, .. } => wf_digits(digits),
        _ => true,
    }
}

/// The value of a digit string read most significant digit first.
pub open spec fn digits_val(d: Seq<u8>) -> int
    decreases d.len(),
{
    if d.len() == 0 {
        0
    } else {
        digits_val(d.drop_last()) * 10 + d.last()
    }
}

pub open spec fn pow10(e: nat) -> int {
    pow(10, e)
}

/// The signed value of a finite decimal, scaled so that it is an integer:
/// `dec_scaled(neg, d, exp, base) * 10^base` is the exact value, for any
/// `base <= exp`.
pub open spec fn dec_scaled(neg: bool, d: Seq<u8>, exp: int, base: int) -> int {
    let mag = digits_val(d) * pow10((exp - base) as nat);
    if neg {
        -mag
    } else {
        mag
    }
}

/// The strict order on sample values: exact comparison of decimals, the
/// infinities below and above every decimal, `Nan` ordered with nothing.
pub open spec fn num_lt(a: NumV, b: NumV) -> bool {
    match (a, b) {
        (NumV::Nan, _) => false,
        (_, NumV::Nan) => false,
        (NumV::NegInf, NumV::NegInf) => false,
        (NumV::NegInf, _) => true,
        (_, NumV::NegInf) => false,
        (NumV::PosInf, _) => false,
        (_, NumV::PosInf) => true,
        (
            NumV::Dec { neg: an, digits: ad, exp: ae },
            NumV::Dec { neg: bn, digits: bd, exp: be },
        ) => {
            let base = if ae <= be {
                ae
            } else {
                be
            };
            dec_scaled(an, ad, ae, base) < dec_scaled(bn, bd, be, base)
        },
    }
}

proof fn lemma_digits_val_bounds(d: Seq<u8>)
    requires
        forall|i: int| 0 <= i < d.len() ==> d[i] <= 9,
    ensures
        0 <= digits_val(d) < pow10(d.len()),
    decreases d.len(),
{
    if d.len() == 0 {
        lemma_pow0(10);
    } else {
        lemma_digits_val_bounds(d.drop_last());
        lemma_pow_adds(10, (d.len() - 1) as nat, 1);
        lemma_pow1(10);
        assert(digits_val(d.drop_last()) * 10 + d.last() < pow10((d.len() - 1) as nat) * 10) by {
            lemma_mul_strict_inequality(
                digits_val(d.drop_last()),
                pow10((d.len() - 1) as nat),
                10,
            );
            assert(digits_val(d.drop_last()) * 10 + d.last() < digits_val(d.drop_last()) * 10
                + 10);
        }
    }
}

proof fn lemma_digits_val_lower(d: Seq<u8>)
    requires
        wf_digits(d),
        d.len() > 0,
    ensures
        digits_val(d) >= pow10((d.len() - 1) as nat),
        digits_val(d) > 0,
    decreases d.len(),
{
    lemma_pow_positive(10, (d.len() - 1) as nat);
    if d.len() == 1 {
        lemma_pow0(10);
        assert(digits_val(d) == digits_val(d.drop_last()) * 10 + d.last());
        assert(digits_val(d.drop_last()) == 0);
    } else {
        assert(d.drop_last()[0] == d[0]);
        lemma_digits_val_lower(d.drop_last());
        lemma_pow_adds(10, (d.len() - 2) as nat, 1);
        lemma_pow1(10);
        assert(digits_val(d.drop_last()) * 10 >= pow10((d.len() - 2) as nat) * 10) by {
            lemma_mul_inequality(pow10((d.len() - 2) as nat), digits_val(d.drop_last()), 10);
        }
    }
}

/// Reading a concatenation: the left part is shifted by the length of the
/// right part.
proof fn lemma_digits_val_concat(u: Seq<u8>, w: Seq<u8>)
    ensures
        digits_val(u + w) == digits_val(u) * pow10(w.len()) + digits_val(w),
    decreases w.len(),
{
    if w.len() == 0 {
        assert(u + w =~= u);
        lemma_pow0(10);
    } else {
        lemma_digits_val_concat(u, w.drop_last());
        assert((u + w).drop_last() =~= u + w.drop_last());
        assert(digits_val(u + w) == (digits_val(u) * pow10((w.len() - 1) as nat) + digits_val(
            w.drop_last(),
        )) * 10 + w.last());
        lemma_pow_adds(10, (w.len() - 1) as nat, 1);
        lemma_pow1(10);
        assert((digits_val(u) * pow10((w.len() - 1) as nat)) * 10 == digits_val(u) * (pow10(
            (w.len() - 1) as nat,
        ) * 10)) by {
            lemma_mul_is_distributive_add_other_way(
                10,
                digits_val(u) * pow10((w.len() - 1) as nat),
                0,
            );
            vstd::arithmetic::mul::lemma_mul_is_associative(
                digits_val(u),
                pow10((w.len() - 1) as nat),
                10,
            );
        }
        assert(digits_val(u) * pow10((w.len() - 1) as nat) * 10 + digits_val(w.drop_last()) * 10
            + w.last() == digits_val(u) * pow10(w.len()) + digits_val(w)) by {
            lemma_mul_is_distributive_add_other_way(
                10,
                digits_val(u),
                0,
            );
        }
    }
}

/// Magnitude order of two nonzero finite decimals, over the common scale.
pub open spec fn mag_lt_spec(ad: Seq<u8>, ae: int, bd: Seq<u8>, be: int) -> bool {
    let base = if ae <= be {
        ae
    } else {
        be
    };
    digits_val(ad) * pow10((ae - base) as nat) < digits_val(bd) * pow10((be - base) as nat)
}

pub open spec fn zero_digits(k: nat) -> Seq<u8> {
    Seq::new(k, |i: int| 0u8)
}

proof fn lemma_zero_digits_val(k: nat)
    ensures
        digits_val(zero_digits(k)) == 0,
    decreases k,
{
    if k > 0 {
        lemma_zero_digits_val((k - 1) as nat);
        assert(zero_digits(k).drop_last() =~= zero_digits((k - 1) as nat));
    }
}

/// Appending zeros multiplies the value by the matching power of ten.
proof fn lemma_digits_val_pad(d: Seq<u8>, k: nat)
    ensures
        digits_val(d + zero_digits(k)) == digits_val(d) * pow10(k),
{
    lemma_digits_val_concat(d, zero_digits(k));
    lemma_zero_digits_val(k);
}

/// A decimal whose most significant digit sits at a strictly lower power
/// of ten is strictly smaller in magnitude.
proof fn lemma_mag_hi(ad: Seq<u8>, ae: int, bd: Seq<u8>, be: int, base: int)
    requires
        wf_digits(ad),
        wf_digits(bd),
        bd.len() > 0,
        base <= ae,
        base <= be,
        ae + ad.len() <= be + bd.len() - 1,
    ensures
        digits_val(ad) * pow10((ae - base) as nat) < digits_val(bd) * pow10((be - base) as nat),
{
    let pa = pow10((ae - base) as nat);
    let pb = pow10((be - base) as nat);
    lemma_pow_positive(10, (ae - base) as nat);
    lemma_pow_positive(10, (be - base) as nat);
    lemma_digits_val_bounds(ad);
    lemma_digits_val_lower(bd);
    // digits_val(ad) * pa < pow10(ad.len()) * pa == pow10(ad.len() + ae - base)
    lemma_mul_strict_inequality(digits_val(ad), pow10(ad.len()), pa);
    lemma_pow_adds(10, ad.len(), (ae - base) as nat);
    // pow10(bd.len() - 1) * pb == pow10(bd.len() - 1 + be - base) <= digits_val(bd) * pb
    lemma_mul_inequality(pow10((bd.len() - 1) as nat), digits_val(bd), pb);
    lemma_pow_adds(10, (bd.len() - 1) as nat, (be - base) as nat);
    // pow10 is monotone between the two positions
    if ad.len() + ae - base < bd.len() - 1 + be - base {
        lemma_pow_strictly_increases(
            10,
            (ad.len() + ae - base) as nat,
            (bd.len() - 1 + be - base) as nat,
        );
    }
}

/// Lexicographic comparison decides the value order of equal-length digit
/// strings: with a common prefix, the first differing digit decides.
proof fn lemma_lex_lt(a: Seq<u8>, b: Seq<u8>, i: int)
    requires
        a.len() == b.len(),
        forall|j: int| 0 <= j < a.len() ==> a[j] <= 9,
        forall|j: int| 0 <= j < b.len() ==> b[j] <= 9,
        0 <= i < a.len(),
        forall|j: int| 0 <= j < i ==> a[j] == b[j],
        a[i] < b[i],
    ensures
        digits_val(a) < digits_val(b),
{
    let l = a.len() as int;
    let p = pow10((l - i - 1) as nat);
    lemma_pow_positive(10, (l - i - 1) as nat);
    assert(a =~= a.take(i + 1) + a.skip(i + 1));
    assert(b =~= b.take(i + 1) + b.skip(i + 1));
    lemma_digits_val_concat(a.take(i + 1), a.skip(i + 1));
    lemma_digits_val_concat(b.take(i + 1), b.skip(i + 1));
    assert(a.take(i + 1).drop_last() =~= a.take(i));
    assert(b.take(i + 1).drop_last() =~= b.take(i));
    assert(a.take(i) =~= b.take(i));
    let ca = digits_val(a.take(i + 1));
    let cb = digits_val(b.take(i + 1));
    assert(ca == digits_val(a.take(i)) * 10 + a[i]);
    assert(cb == digits_val(a.take(i)) * 10 + b[i]);
    assert(forall|j: int| 0 <= j < a.skip(i + 1).len() ==> #[trigger] a.skip(i + 1)[j] <= 9);
    assert(forall|j: int| 0 <= j < b.skip(i + 1).len() ==> #[trigger] b.skip(i + 1)[j] <= 9);
    lemma_digits_val_bounds(a.skip(i + 1));
    lemma_digits_val_bounds(b.skip(i + 1));
    assert(a.skip(i + 1).len() == l - i - 1);
    // cb >= ca + 1, so the tails (both below p) cannot make up the gap
    assert(ca * p + p <= cb * p) by {
        lemma_mul_is_distributive_add_other_way(p, ca, 1);
        lemma_mul_inequality(ca + 1, cb, p);
    }
}

/// Compares the magnitudes of two nonzero finite decimals exactly, without
/// arithmetic on the values: by the position of the most significant digit
/// first, then digit by digit with implicit trailing zeros.
fn mag_lt(ad: &Vec<u8>, ae: i64, bd: &Vec<u8>, be: i64) -> (r: bool)
    requires
        wf_digits(ad@),
        wf_digits(bd@),
        ad@.len() > 0,
        bd@.len() > 0,
    ensures
        r == mag_lt_spec(ad@, ae as int, bd@, be as int),
{
    let ghost base: int = if ae as int <= be as int {
        ae as int
    } else {
        be as int
    };
    let ha: i128 = ae as i128 + ad.len() as i128;
    let hb: i128 = be as i128 + bd.len() as i128;
    if ha < hb {
        proof {
            lemma_mag_hi(ad@, ae as int, bd@, be as int, base);
        }
        return true;
    }
    if hb < ha {
        proof {
            lemma_mag_hi(bd@, be as int, ad@, ae as int, base);
        }
        return false;
    }
    let la = ad.len();
    let lb = bd.len();
    let l = if la < lb {
        lb
    } else {
        la
    };
    let ghost pa = ad@ + zero_digits((l - la) as nat);
    let ghost pb = bd@ + zero_digits((l - lb) as nat);
    proof {
        lemma_digits_val_pad(ad@, (l - la) as nat);
        lemma_digits_val_pad(bd@, (l - lb) as nat);
        // with equal most-significant positions the pads land on a common scale
        assert(ae - base == l - la);
        assert(be - base == l - lb);
        assert forall|j: int| 0 <= j < pa.len() implies pa[j] <= 9 by {
            if j < la {
                assert(pa[j] == ad@[j]);
            } else {
                assert(pa[j] == zero_digits((l - la) as nat)[j - la]);
            }
        }
        assert forall|j: int| 0 <= j < pb.len() implies pb[j] <= 9 by {
            if j < lb {
                assert(pb[j] == bd@[j]);
            } else {
                assert(pb[j] == zero_digits((l - lb) as nat)[j - lb]);
            }
        }
    }
    let mut i: usize = 0;
    while i < l
        invariant
            i <= l,
            la == ad@.len(),
            lb == bd@.len(),
            l == if la < lb {
                lb
            } else {
                la
            },
            pa == ad@ + zero_digits((l - la) as nat),
            pb == bd@ + zero_digits((l - lb) as nat),
            base == if ae as int <= be as int { ae as int } else { be as int },
            digits_val(pa) == digits_val(ad@) * pow10((ae - base) as nat),
            digits_val(pb) == digits_val(bd@) * pow10((be - base) as nat),
            forall|j: int| 0 <= j < pa.len() ==> pa[j] <= 9,
            forall|j: int| 0 <= j < pb.len() ==> pb[j] <= 9,
            forall|j: int| 0 <= j < i ==> pa[j] == pb[j],
        decreases l - i,
    {
        let da: u8 = if i < la {
            ad[i]
        } else {
            0
        };
        let db: u8 = if i < lb {
            bd[i]
        } else {
            0
        };
        if da != db {
            proof {
                assert(da == pa[i as int]);
                assert(db == pb[i as int]);
                if da < db {
                    lemma_lex_lt(pa, pb, i as int);
                } else {
                    lemma_lex_lt(pb, pa, i as int);
                }
            }
            return da < db;
        }
        i += 1;
    }
    proof {
        assert(pa =~= pb);
    }
    false
}

/// The executable strict order; agrees exactly with [`num_lt`].
pub fn num_lt_exec(a: &Num, b: &Num) -> (r: bool)
    requires
        wf_num(a@),
        wf_num(b@),
    ensures
        r == num_lt(a@, b@),
{
    match (a, b) {
        (Num::Nan, _) => false,
        (_, Num::Nan) => false,
        (Num::NegInf, Num::NegInf) => false,
        (Num::NegInf, _) => true,
        (_, Num::NegInf) => false,
        (Num::PosInf, _) => false,
        (_, Num::PosInf) => true,
        (
            Num::Dec { neg: an, digits: ad, exp: ae },
            Num::Dec { neg: bn, digits: bd, exp: be },
        ) => {
            proof {
                if ad@.len() > 0 {
                    lemma_digits_val_lower(ad@);
                }
                if bd@.len() > 0 {
                    lemma_digits_val_lower(bd@);
                }
                let base: int = if *ae as int <= *be as int {
                    *ae as int
                } else {
                    *be as int
                };
                lemma_pow_positive(10, (*ae - base) as nat);
                lemma_pow_positive(10, (*be - base) as nat);
                lemma_mul_strictly_positive(digits_val(ad@), pow10((*ae - base) as nat));
                lemma_mul_strictly_positive(digits_val(bd@), pow10((*be - base) as nat));
                lemma_mul_by_zero_is_zero(pow10((*ae - base) as nat));
                lemma_mul_by_zero_is_zero(pow10((*be - base) as nat));
            }
            if ad.len() == 0 && bd.len() == 0 {
                false
            } else if ad.len() == 0 {
                // zero is below exactly the positive values
                !*bn
            } else if bd.len() == 0 {
                *an
            } else if *an != *bn {
                *an
            } else if *an {
                mag_lt(bd, *be, ad, *ae)
            } else {
                mag_lt(ad, *ae, bd, *be)
            }
        },
    }
}

/// Clamping into `[lo, hi]`: values below `lo` become `lo`, values above
/// `hi` become `hi`, everything else (including `Nan`, which is ordered
/// with nothing) passes through.
pub open spec fn spec_clamp(v: NumV, lo: NumV, hi: NumV) -> NumV {
    if num_lt(v, lo) {
        lo
    } else if num_lt(hi, v) {
        hi
    } else {
        v
    }
}

/// `v` lies in `[lo, hi]`: it is a bound itself or at neither side's far
/// side of the order.
pub open spec fn in_range(v: NumV, lo: NumV, hi: NumV) -> bool {
    (v == lo || !num_lt(v, lo)) && (v == hi || !num_lt(hi, v))
}

/// Whatever value is fed, clamping yields a value in `[lo, hi]`, provided
/// the bounds are ordered (`hi` not below `lo`).
pub proof fn lemma_clamp_in_range(v: NumV, lo: NumV, hi: NumV)
    requires
        !num_lt(hi, lo),
    ensures
        in_range(spec_clamp(v, lo, hi), lo, hi),
{
}

impl Num {
    /// An identical copy, with its identity in the contract (a derived
    /// `Clone` carries none under verification).
    pub fn duplicate(&self) -> (r: Num)
        ensures
            r@ == self@,
    {
        match self {
            Num::Nan => Num::Nan,
            Num::NegInf => Num::NegInf,
            Num::PosInf => Num::PosInf,
            Num::Dec { neg, digits, exp } => {
                let mut d: Vec<u8> = Vec::new();
                let mut i: usize = 0;
                while i < digits.len()
                    invariant
                        i <= digits@.len(),
                        d@ == digits@.take(i as int),
                    decreases digits@.len() - i,
                {
                    d.push(digits[i]);
                    proof {
                        assert(d@ =~= digits@.take(i + 1));
                    }
                    i += 1;
                }
                proof {
                    assert(d@ =~= digits@);
                }
                Num::Dec { neg: *neg, digits: d, exp: *exp }
            },
        }
    }
}

/// The executable clamp; exact against [`spec_clamp`].
pub fn clamp(v: Num, lo: &Num, hi: &Num) -> (r: Num)
    requires
        wf_num(v@),
        wf_num(lo@),
        wf_num(hi@),
    ensures
        r@ == spec_clamp(v@, lo@, hi@),
        wf_num(r@),
{
    if num_lt_exec(&v, lo) {
        lo.duplicate()
    } else if num_lt_exec(hi, &v) {
        hi.duplicate()
    } else {
        v
    }
}

} // verus!
