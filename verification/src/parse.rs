use vstd::prelude::*;

use crate::decimal::NativeDecimal;
use crate::digits::strip_digit_zeros;
use crate::model::{digits_value, lemma_strip_zeros_wf, normalized, DecimalModel};

verus! {

/// Whether `c` is an ASCII decimal digit.
pub open spec fn is_digit_byte(c: u8) -> bool {
    48 <= c <= 57
}

/// The number of consecutive ASCII digits of `s` starting at `i`.
pub open spec fn count_digits(s: Seq<u8>, i: int) -> int
    decreases s.len() - i,
{
    if 0 <= i < s.len() && is_digit_byte(s[i]) {
        1 + count_digits(s, i + 1)
    } else {
        0
    }
}

/// The digit values of a run of ASCII digits.
pub open spec fn to_vals(t: Seq<u8>) -> Seq<u8> {
    t.map_values(|c: u8| (c - 48) as u8)
}

/// The position after an optional sign byte at `i`.
pub open spec fn sign_end(s: Seq<u8>, i: int) -> int {
    if 0 <= i < s.len() && (s[i] == 43 || s[i] == 45) {
        i + 1
    } else {
        i
    }
}

/// Decimal text has the shape `[sign] digits [. digits] [(e|E) [sign] digits]`.
/// These positions carve a byte string along that shape.
pub open spec fn int_start(s: Seq<u8>) -> int {
    sign_end(s, 0)
}

pub open spec fn int_end(s: Seq<u8>) -> int {
    int_start(s) + count_digits(s, int_start(s))
}

pub open spec fn has_point(s: Seq<u8>) -> bool {
    int_end(s) < s.len() && s[int_end(s)] == 46
}

pub open spec fn frac_start(s: Seq<u8>) -> int {
    if has_point(s) {
        int_end(s) + 1
    } else {
        int_end(s)
    }
}

pub open spec fn frac_end(s: Seq<u8>) -> int {
    frac_start(s) + count_digits(s, frac_start(s))
}

pub open spec fn has_exp(s: Seq<u8>) -> bool {
    frac_end(s) < s.len() && (s[frac_end(s)] == 69 || s[frac_end(s)] == 101)
}

pub open spec fn exp_sign_start(s: Seq<u8>) -> int {
    frac_end(s) + 1
}

pub open spec fn exp_digits_start(s: Seq<u8>) -> int {
    sign_end(s, exp_sign_start(s))
}

pub open spec fn exp_end(s: Seq<u8>) -> int {
    exp_digits_start(s) + count_digits(s, exp_digits_start(s))
}

/// Whether a byte string is syntactically valid decimal text: a non-empty
/// run of integer digits, a fractional part only behind a point and then
/// non-empty, an exponent part only behind `e` or `E` and then non-empty,
/// and nothing else.
pub open spec fn text_valid(s: Seq<u8>) -> bool {
    &&& int_end(s) > int_start(s)
    &&& (has_point(s) ==> frac_end(s) > frac_start(s))
    &&& (if has_exp(s) {
        exp_end(s) > exp_digits_start(s) && exp_end(s) == s.len()
    } else {
        frac_end(s) == s.len()
    })
}

/// Whether the text opens with a minus sign.
pub open spec fn text_negative(s: Seq<u8>) -> bool {
    s.len() > 0 && s[0] == 45
}

/// The digit values of the written unscaled magnitude: integer digits
/// followed by fractional digits, leading zeros not yet dropped.
pub open spec fn raw_digits(s: Seq<u8>) -> Seq<u8> {
    to_vals(s.subrange(int_start(s), int_end(s)) + s.subrange(frac_start(s), frac_end(s)))
}

/// Whether the exponent part carries a minus sign.
pub open spec fn exp_negative(s: Seq<u8>) -> bool {
    has_exp(s) && exp_sign_start(s) < s.len() && s[exp_sign_start(s)] == 45
}

/// The signed value of the exponent part, zero when there is none.
pub open spec fn exp_value(s: Seq<u8>) -> int {
    if !has_exp(s) {
        0
    } else if exp_negative(s) {
        -(digits_value(to_vals(s.subrange(exp_digits_start(s), exp_end(s)))) as int)
    } else {
        digits_value(to_vals(s.subrange(exp_digits_start(s), exp_end(s)))) as int
    }
}

/// The scale written by the text: one fractional digit raises it by one,
/// the exponent lowers it by its value.
pub open spec fn text_scale(s: Seq<u8>) -> int {
    (frac_end(s) - frac_start(s)) - exp_value(s)
}

/// Whether the written scale fits the native scale type.
pub open spec fn scale_in_range(s: Seq<u8>) -> bool {
    i64::MIN <= text_scale(s) <= i64::MAX
}

/// The decimal value written by valid text: sign, normalized digits, scale.
pub open spec fn text_model(s: Seq<u8>) -> DecimalModel {
    normalized(text_negative(s), raw_digits(s), text_scale(s))
}

/// Why a byte string was rejected by the parser.
#[derive(Clone, Copy, Debug, PartialEq, Eq, Structural)]
pub enum ParseError {
    /// The text is not syntactically valid decimal text. The canonical
    /// strings of non-finite foreign values (NaN and the infinities) land
    /// here, and nothing else does for canonically rendered values.
    InvalidSyntax,
    /// The text is valid but its scale does not fit the native scale type.
    ScaleOutOfRange,
}

/// Everything `count_digits` says about the run it counts: it stays inside
/// the string, covers digits only, and stops at the first non-digit.
pub proof fn lemma_count_digits_bounds(s: Seq<u8>, i: int)
    requires
        0 <= i <= s.len(),
    ensures
        0 <= count_digits(s, i),
        i + count_digits(s, i) <= s.len(),
        forall|k: int| i <= k < i + count_digits(s, i) ==> is_digit_byte(s[k]),
        i + count_digits(s, i) == s.len() || !is_digit_byte(s[i + count_digits(s, i)]),
    decreases s.len() - i,
{
    if i < s.len() && is_digit_byte(s[i]) {
        lemma_count_digits_bounds(s, i + 1);
    }
}

/// A run of digits closed by a non-digit (or the end) is counted exactly.
pub proof fn lemma_count_digits_region(s: Seq<u8>, i: int, j: int)
    requires
        0 <= i <= j <= s.len(),
        forall|k: int| i <= k < j ==> is_digit_byte(s[k]),
        j == s.len() || !is_digit_byte(s[j]),
    ensures
        count_digits(s, i) == j - i,
    decreases j - i,
{
    if i < j {
        lemma_count_digits_region(s, i + 1, j);
    }
}

/// Digit values distribute over concatenation of digit runs.
pub proof fn lemma_to_vals_concat(a: Seq<u8>, b: Seq<u8>)
    ensures
        to_vals(a + b) == to_vals(a) + to_vals(b),
{
    assert forall|i: int| 0 <= i < a.len() + b.len() implies to_vals(a + b)[i] == (to_vals(a)
        + to_vals(b))[i] by {
        if i < a.len() {
            assert((a + b)[i] == a[i]);
        } else {
            assert((a + b)[i] == b[i - a.len()]);
        }
    }
    assert(to_vals(a + b) =~= to_vals(a) + to_vals(b));
}

/// The first position at or behind `start` that holds no ASCII digit.
fn scan_digits(s: &Vec<u8>, start: usize) -> (end: usize)
    requires
        start <= s@.len(),
    ensures
        end as int == start as int + count_digits(s@, start as int),
        start <= end <= s@.len(),
{
    let mut i: usize = start;
    while i < s.len() && 48 <= s[i] && s[i] <= 57
        invariant
            start <= i <= s@.len(),
            count_digits(s@, start as int) == (i - start) + count_digits(s@, i as int),
        decreases s@.len() - i,
    {
        i += 1;
    }
    i
}

/// Any exponent magnitude above this cap puts the scale out of the native
/// range, whatever the length of the fractional part.
const EXP_MAGNITUDE_CAP: u128 = 1_000_000_000_000_000_000_000;

/// Parses decimal text into a native decimal value, losslessly.
///
/// The accepted grammar is `[+|-] digits [. digits] [(e|E) [+|-] digits]`.
/// Every syntactically valid text whose scale fits the native scale type
/// parses successfully; `InvalidSyntax` comes exactly for text outside the
/// grammar, and `ScaleOutOfRange` exactly for valid text whose scale does
/// not fit.
#[verifier::rlimit(100)]
pub fn parse_decimal_text(s: &Vec<u8>) -> (r: Result<NativeDecimal, ParseError>)
    ensures
        r is Ok <==> text_valid(s@) && scale_in_range(s@),
        r matches Ok(n) ==> n@ == text_model(s@) && n.wf(),
        r == Err::<NativeDecimal, ParseError>(ParseError::InvalidSyntax) <==> !text_valid(s@),
        r == Err::<NativeDecimal, ParseError>(ParseError::ScaleOutOfRange) <==> text_valid(s@)
            && !scale_in_range(s@),
{
    let len = s.len();
    // Optional mantissa sign.
    let mut negative = false;
    let mut int_s: usize = 0;
    if len > 0 && (s[0] == 43 || s[0] == 45) {
        negative = s[0] == 45;
        int_s = 1;
    }
    proof {
        assert(int_s as int == int_start(s@));
        assert(negative == text_negative(s@));
    }
    // Integer digits.
    let int_e = scan_digits(s, int_s);
    proof {
        assert(int_e as int == int_end(s@));
        lemma_count_digits_bounds(s@, int_s as int);
    }
    if int_e == int_s {
        return Err(ParseError::InvalidSyntax);
    }
    // Optional point and fractional digits.
    let mut frac_s: usize = int_e;
    let mut frac_e: usize = int_e;
    if int_e < len && s[int_e] == 46 {
        frac_s = int_e + 1;
        frac_e = scan_digits(s, frac_s);
        if frac_e == frac_s {
            return Err(ParseError::InvalidSyntax);
        }
    }
    proof {
        assert(frac_s as int == frac_start(s@));
        assert(frac_e as int == frac_end(s@));
        lemma_count_digits_bounds(s@, frac_s as int);
    }
    // Optional exponent.
    let mut exp_neg = false;
    let mut exp_mag: u128 = 0;
    let mut exp_over = false;
    let mut end: usize = frac_e;
    let has_e = frac_e < len && (s[frac_e] == 69 || s[frac_e] == 101);
    if has_e {
        let mut xs: usize = frac_e + 1;
        if xs < len && (s[xs] == 43 || s[xs] == 45) {
            exp_neg = s[xs] == 45;
            xs = xs + 1;
        }
        proof {
            assert(xs as int == exp_digits_start(s@));
            assert(exp_neg == exp_negative(s@));
        }
        let mut i: usize = xs;
        proof {
            assert(to_vals(s@.subrange(xs as int, xs as int)) =~= Seq::<u8>::empty());
        }
        while i < s.len() && 48 <= s[i] && s[i] <= 57
            invariant
                xs <= i <= s@.len(),
                count_digits(s@, xs as int) == (i - xs) + count_digits(s@, i as int),
                !exp_over ==> exp_mag <= EXP_MAGNITUDE_CAP && exp_mag as nat == digits_value(
                    to_vals(s@.subrange(xs as int, i as int)),
                ),
                exp_over ==> digits_value(to_vals(s@.subrange(xs as int, i as int)))
                    > EXP_MAGNITUDE_CAP,
            decreases s@.len() - i,
        {
            let d = s[i] - 48;
            proof {
                let q = to_vals(s@.subrange(xs as int, i as int));
                let q2 = to_vals(s@.subrange(xs as int, i + 1));
                assert(q2.drop_last() =~= q);
                assert(q2.last() == d);
                assert(digits_value(q2) == digits_value(q) * 10 + d);
            }
            if !exp_over {
                exp_mag = exp_mag * 10 + d as u128;
                if exp_mag > EXP_MAGNITUDE_CAP {
                    exp_over = true;
                }
            }
            i += 1;
        }
        if i == xs {
            return Err(ParseError::InvalidSyntax);
        }
        end = i;
        proof {
            assert(end as int == exp_end(s@));
        }
    }
    if end != len {
        return Err(ParseError::InvalidSyntax);
    }
    proof {
        assert(text_valid(s@));
    }
    // The scale: fractional length minus the signed exponent.
    let frac_len: u64 = (frac_e - frac_s) as u64;
    if exp_over {
        proof {
            let mag = digits_value(
                to_vals(s@.subrange(exp_digits_start(s@), exp_end(s@))),
            ) as int;
            assert(mag > EXP_MAGNITUDE_CAP);
            if exp_negative(s@) {
                assert(text_scale(s@) == frac_len + mag);
            } else {
                assert(text_scale(s@) == frac_len - mag);
            }
            assert(!scale_in_range(s@));
        }
        return Err(ParseError::ScaleOutOfRange);
    }
    let exp_i: i128 = if exp_neg {
        -(exp_mag as i128)
    } else {
        exp_mag as i128
    };
    let scale_i: i128 = frac_len as i128 - exp_i;
    proof {
        assert(scale_i as int == text_scale(s@));
    }
    if scale_i < i64::MIN as i128 || scale_i > i64::MAX as i128 {
        return Err(ParseError::ScaleOutOfRange);
    }
    let scale: i64 = scale_i as i64;
    // The unscaled digits: integer digits, then fractional digits.
    let mut raw: Vec<u8> = Vec::new();
    let mut k: usize = int_s;
    proof {
        assert(raw@ =~= to_vals(s@.subrange(int_s as int, int_s as int)));
    }
    while k < int_e
        invariant
            int_s <= k <= int_e <= s@.len(),
            forall|j: int| int_s <= j < int_e ==> is_digit_byte(s@[j]),
            raw@ == to_vals(s@.subrange(int_s as int, k as int)),
        decreases int_e - k,
    {
        let d = s[k] - 48;
        raw.push(d);
        proof {
            assert(raw@ =~= to_vals(s@.subrange(int_s as int, k + 1)));
        }
        k += 1;
    }
    let mut k2: usize = frac_s;
    while k2 < frac_e
        invariant
            frac_s <= k2 <= frac_e <= s@.len(),
            forall|j: int| frac_s <= j < frac_e ==> is_digit_byte(s@[j]),
            raw@ == to_vals(s@.subrange(int_s as int, int_e as int)) + to_vals(
                s@.subrange(frac_s as int, k2 as int),
            ),
        decreases frac_e - k2,
    {
        let d = s[k2] - 48;
        raw.push(d);
        proof {
            assert(raw@ =~= to_vals(s@.subrange(int_s as int, int_e as int)) + to_vals(
                s@.subrange(frac_s as int, k2 + 1),
            ));
        }
        k2 += 1;
    }
    proof {
        lemma_to_vals_concat(
            s@.subrange(int_start(s@), int_end(s@)),
            s@.subrange(frac_start(s@), frac_end(s@)),
        );
        assert(raw@ == raw_digits(s@));
        assert(raw@.len() >= 1);
        assert(forall|j: int| 0 <= j < raw@.len() ==> raw@[j] < 10);
        lemma_strip_zeros_wf(raw@);
    }
    let mant = strip_digit_zeros(&raw);
    let is_zero = mant.len() == 1 && mant[0] == 0;
    proof {
        if is_zero {
            assert(mant@ =~= seq![0u8]);
        }
    }
    let n = NativeDecimal { negative: negative && !is_zero, digits: mant, scale };
    proof {
        assert(n@ =~= text_model(s@));
    }
    Ok(n)
}

} // verus!
