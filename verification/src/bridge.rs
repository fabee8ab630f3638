use vstd::prelude::*;

use crate::decimal::NativeDecimal;
use crate::digits::digit_vecs_equal;
use crate::handle::ConstructorHandle;
use crate::model::{
    decimal_int, decimal_wf, digits_value, lemma_digits_of_value_id, lemma_digits_value_lower,
    lemma_nonzero_digits_value, lemma_pow10_19, lemma_pow10_mono, normalized, pow10, DecimalModel,
};
use crate::parse::{
    count_digits, int_start, parse_decimal_text, scale_in_range, text_model, text_valid,
};
use crate::render::{canonical_text, render_parts};
use crate::roundtrip::lemma_canonical_round_trip;

verus! {

/// Model of a foreign decimal value: finite (a decimal like the native
/// ones), NaN, or a signed infinity. The two non-finite categories have no
/// native counterpart.
#[verifier::ext_equal]
pub enum ForeignModel {
    Finite(DecimalModel),
    Nan,
    Infinity { negative: bool },
}

/// An arbitrary-precision decimal value of the foreign interpreter's
/// numeric family. Unlike the native family it also has NaN and signed
/// infinities; a finite foreign value carries the same sign, digits, and
/// scale a native decimal would.
#[derive(Clone, Debug)]
pub enum ForeignDecimal {
    Finite { negative: bool, digits: Vec<u8>, scale: i64 },
    Nan,
    Infinity { negative: bool },
}

impl View for ForeignDecimal {
    type V = ForeignModel;

    open spec fn view(&self) -> ForeignModel {
        match self {
            ForeignDecimal::Finite { negative, digits, scale } => ForeignModel::Finite(
                DecimalModel { negative: *negative, digits: digits@, scale: *scale as int },
            ),
            ForeignDecimal::Nan => ForeignModel::Nan,
            ForeignDecimal::Infinity { negative } => ForeignModel::Infinity {
                negative: *negative,
            },
        }
    }
}

impl ForeignDecimal {
    /// Internal invariant: a finite foreign value holds well-formed digits
    /// and never a negative zero; the non-finite values carry no data.
    pub open spec fn wf(&self) -> bool {
        match self@ {
            ForeignModel::Finite(m) => decimal_wf(m),
            _ => true,
        }
    }

    /// Builds a finite foreign decimal from a sign, the digit values of the
    /// unscaled magnitude, and a scale, normalizing exactly as the native
    /// constructor does; rejects any entry that is not a digit value.
    pub fn finite(negative: bool, digits: Vec<u8>, scale: i64) -> (r: Option<ForeignDecimal>)
        ensures
            r is Some <==> (forall|i: int| 0 <= i < digits@.len() ==> digits@[i] < 10),
            r matches Some(f) ==> f@ == ForeignModel::Finite(
                normalized(negative, digits@, scale as int),
            ) && f.wf(),
    {
        match NativeDecimal::new(negative, digits, scale) {
            Some(n) => Some(
                ForeignDecimal::Finite { negative: n.negative, digits: n.digits, scale: n.scale },
            ),
            None => None,
        }
    }
}

impl PartialEq for ForeignDecimal {
    /// Two foreign decimals are equal when they are the same category and,
    /// for finite values, sign, digits, and scale all agree.
    fn eq(&self, other: &Self) -> (r: bool) {
        match (self, other) {
            (
                ForeignDecimal::Finite { negative: n1, digits: d1, scale: s1 },
                ForeignDecimal::Finite { negative: n2, digits: d2, scale: s2 },
            ) => {
                let r = *n1 == *n2 && *s1 == *s2 && digit_vecs_equal(d1, d2);
                proof {
                    if r {
                        assert(self@ =~= other@);
                    }
                }
                r
            },
            (ForeignDecimal::Nan, ForeignDecimal::Nan) => true,
            (
                ForeignDecimal::Infinity { negative: n1 },
                ForeignDecimal::Infinity { negative: n2 },
            ) => *n1 == *n2,
            _ => false,
        }
    }
}

impl vstd::std_specs::cmp::PartialEqSpecImpl for ForeignDecimal {
    open spec fn obeys_eq_spec() -> bool {
        true
    }

    open spec fn eq_spec(&self, other: &Self) -> bool {
        self@ == other@
    }
}

/// The canonical text of the foreign NaN value.
pub open spec fn nan_text() -> Seq<u8> {
    seq![78u8, 97u8, 78u8]
}

/// The canonical text of the unsigned foreign infinity.
pub open spec fn infinity_text() -> Seq<u8> {
    seq![73u8, 110u8, 102u8, 105u8, 110u8, 105u8, 116u8, 121u8]
}

/// The canonical text of any foreign value: the decimal text of a finite
/// value, and the non-finite markers otherwise.
pub open spec fn foreign_text(f: ForeignModel) -> Seq<u8> {
    match f {
        ForeignModel::Finite(m) => canonical_text(m),
        ForeignModel::Nan => nan_text(),
        ForeignModel::Infinity { negative } => if negative {
            seq![45u8] + infinity_text()
        } else {
            infinity_text()
        },
    }
}

/// The non-finite markers are not valid decimal text: they are exactly
/// what the lossless parser rejects on canonical input.
pub proof fn lemma_nonfinite_text_invalid()
    ensures
        !text_valid(nan_text()),
        !text_valid(infinity_text()),
        !text_valid(seq![45u8] + infinity_text()),
{
    let n = nan_text();
    assert(int_start(n) == 0 && count_digits(n, 0) == 0);
    let u = infinity_text();
    assert(int_start(u) == 0 && count_digits(u, 0) == 0);
    let v = seq![45u8] + infinity_text();
    assert(v[0] == 45 && v[1] == 73);
    assert(int_start(v) == 1 && count_digits(v, 1) == 0);
}

/// Renders the exact canonical text of a foreign value, including the
/// markers of the non-finite categories.
pub fn render_canonical_string(value: &ForeignDecimal) -> (r: Vec<u8>)
    requires
        value.wf(),
    ensures
        r@ == foreign_text(value@),
{
    match value {
        ForeignDecimal::Finite { negative, digits, scale } => render_parts(
            *negative,
            digits,
            *scale,
        ),
        ForeignDecimal::Nan => {
            let mut r: Vec<u8> = Vec::new();
            r.push(78u8);
            r.push(97u8);
            r.push(78u8);
            proof {
                assert(r@ =~= nan_text());
            }
            r
        },
        ForeignDecimal::Infinity { negative } => {
            let mut r: Vec<u8> = Vec::new();
            if *negative {
                r.push(45u8);
            }
            r.push(73u8);
            r.push(110u8);
            r.push(102u8);
            r.push(105u8);
            r.push(110u8);
            r.push(105u8);
            r.push(116u8);
            r.push(121u8);
            proof {
                if *negative {
                    assert(r@ =~= seq![45u8] + infinity_text());
                } else {
                    assert(r@ =~= infinity_text());
                }
            }
            r
        },
    }
}

/// What the integer fast-path probe answers: the machine integer a foreign
/// value is exactly, which a finite value is precisely when its scale is
/// zero and its signed unscaled value lies in the machine range.
pub open spec fn machine_int_spec(f: ForeignModel) -> Option<i64> {
    match f {
        ForeignModel::Finite(m) => if m.scale == 0 && i64::MIN <= decimal_int(m) <= i64::MAX {
            Some(decimal_int(m) as i64)
        } else {
            None
        },
        _ => None,
    }
}

/// The fast-path probe: answers the machine integer a foreign decimal is
/// exactly equal to, if there is one.
pub fn is_exact_machine_integer(value: &ForeignDecimal) -> (r: Option<i64>)
    requires
        value.wf(),
    ensures
        r == machine_int_spec(value@),
{
    match value {
        ForeignDecimal::Finite { negative, digits, scale } => {
            let ghost m = DecimalModel {
                negative: *negative,
                digits: digits@,
                scale: *scale as int,
            };
            if *scale != 0 {
                return None;
            }
            let nd = digits.len();
            if nd > 19 {
                proof {
                    lemma_digits_value_lower(digits@);
                    lemma_pow10_mono(19, (nd - 1) as nat);
                    lemma_pow10_19();
                }
                return None;
            }
            let mut val: u64 = 0;
            let mut k: usize = 0;
            proof {
                assert(digits@.subrange(0, 0) =~= Seq::<u8>::empty());
                lemma_pow10_19();
            }
            while k < nd
                invariant
                    k <= nd == digits@.len() <= 19,
                    forall|i: int| 0 <= i < digits@.len() ==> digits@[i] < 10,
                    val as nat == digits_value(digits@.subrange(0, k as int)),
                    val < pow10(k as nat),
                    pow10(19) == 10_000_000_000_000_000_000,
                decreases nd - k,
            {
                proof {
                    lemma_pow10_mono((k + 1) as nat, 19);
                    let q = digits@.subrange(0, k as int);
                    let q2 = digits@.subrange(0, k + 1);
                    assert(q2.drop_last() =~= q);
                    assert(digits_value(q2) == digits_value(q) * 10 + digits@[k as int]);
                }
                val = val * 10 + digits[k] as u64;
                k += 1;
            }
            proof {
                assert(digits@.subrange(0, nd as int) =~= digits@);
            }
            if *negative {
                if val <= 9_223_372_036_854_775_808u64 {
                    let r: i64 = if val == 9_223_372_036_854_775_808u64 {
                        i64::MIN
                    } else {
                        -(val as i64)
                    };
                    Some(r)
                } else {
                    None
                }
            } else {
                if val <= 9_223_372_036_854_775_807u64 {
                    Some(val as i64)
                } else {
                    None
                }
            }
        },
        ForeignDecimal::Nan => None,
        ForeignDecimal::Infinity { negative: _ } => None,
    }
}

/// The typed data-level error of foreign-to-native conversion.
#[derive(Clone, Debug)]
pub enum ConversionError {
    /// The foreign value's canonical text is not a syntactically valid
    /// finite decimal number; the text is carried as the diagnostic. This
    /// happens exactly for NaN and the signed or unsigned infinity.
    InvalidDecimal { message: Vec<u8> },
}

/// What `to_foreign` yields: the same finite decimal, as a foreign value.
pub open spec fn to_foreign_spec(m: DecimalModel) -> ForeignModel {
    ForeignModel::Finite(m)
}

/// What `from_foreign` yields, with the textual slow path as the single
/// source of truth: the foreign value's canonical text parsed as decimal
/// text, and nothing when that text is no valid decimal — which is the
/// case exactly for the non-finite markers.
pub open spec fn from_foreign_spec(f: ForeignModel) -> Option<DecimalModel> {
    if text_valid(foreign_text(f)) && scale_in_range(foreign_text(f)) {
        Some(text_model(foreign_text(f)))
    } else {
        None
    }
}

/// Invokes the foreign decimal constructor on valid decimal text. The
/// foreign constructor parses any syntactically valid decimal string
/// losslessly, so the foreign value holds exactly the written sign, digits,
/// and scale.
pub fn construct_foreign(_handle: &ConstructorHandle, text: &Vec<u8>) -> (r: ForeignDecimal)
    requires
        text_valid(text@),
        scale_in_range(text@),
    ensures
        r@ == ForeignModel::Finite(text_model(text@)),
        r.wf(),
{
    match parse_decimal_text(text) {
        Ok(n) => ForeignDecimal::Finite { negative: n.negative, digits: n.digits, scale: n.scale },
        Err(_) => {
            // The precondition rules this arm out: valid in-range text parses.
            proof {
                assert(false);
            }
            ForeignDecimal::Nan
        },
    }
}

/// Converts a native decimal into a semantically identical foreign decimal.
///
/// The value is rendered to its canonical decimal text and the foreign
/// constructor is invoked on that text; since every native decimal is
/// finite, this is total and lossless: the foreign value carries exactly
/// the native sign, digits, and scale.
pub fn to_foreign(handle: &ConstructorHandle, value: &NativeDecimal) -> (r: ForeignDecimal)
    requires
        value.wf(),
    ensures
        r@ == to_foreign_spec(value@),
        r.wf(),
{
    let text = value.to_canonical_text();
    proof {
        lemma_canonical_round_trip(value@);
    }
    construct_foreign(handle, &text)
}

/// Converts a foreign decimal into a semantically identical native decimal.
///
/// A foreign value that is exactly an in-range machine integer takes the
/// integer fast path, which is proved to yield the same native value as
/// the textual path. Every other value is rendered to its canonical text
/// and parsed losslessly. Every finite foreign value converts; NaN and the
/// infinities — whose canonical texts are not valid decimal text — are
/// rejected with `InvalidDecimal` carrying that text, and nothing else is.
pub fn from_foreign(value: &ForeignDecimal) -> (r: Result<NativeDecimal, ConversionError>)
    requires
        value.wf(),
    ensures
        r is Ok <==> value@ is Finite,
        r matches Ok(n) ==> (value@ matches ForeignModel::Finite(m) && n@ == m) && Some(n@)
            == from_foreign_spec(value@) && n.wf(),
        r matches Err(e) ==> (e matches ConversionError::InvalidDecimal { message } && message@
            == foreign_text(value@)),
{
    let fast = is_exact_machine_integer(value);
    if let Some(i) = fast {
        let n = NativeDecimal::from_i64(i);
        proof {
            let m = value@->Finite_0;
            assert(decimal_int(m) == i as int);
            if m.negative {
                lemma_nonzero_digits_value(m.digits);
            }
            lemma_digits_of_value_id(m.digits);
            assert(n@ =~= m);
            lemma_canonical_round_trip(m);
        }
        return Ok(n);
    }
    let text = render_canonical_string(value);
    match parse_decimal_text(&text) {
        Ok(n) => {
            proof {
                if value@ is Finite {
                    lemma_canonical_round_trip(value@->Finite_0);
                } else {
                    lemma_nonfinite_text_invalid();
                }
            }
            Ok(n)
        },
        Err(_) => {
            proof {
                if value@ is Finite {
                    lemma_canonical_round_trip(value@->Finite_0);
                } else {
                    lemma_nonfinite_text_invalid();
                }
            }
            Err(ConversionError::InvalidDecimal { message: text })
        },
    }
}

} // verus!
