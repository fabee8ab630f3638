use vstd::prelude::*;

use crate::digits::{all_digit_values, digit_vecs_equal, digits_of_u64, strip_digit_zeros};
use crate::model::{
    decimal_wf, int_model, lemma_digits_of_nat_wf, lemma_strip_zeros_wf, normalized, DecimalModel,
};
use crate::render::{canonical_text, render_parts};

verus! {

/// An arbitrary-precision signed decimal number native to this process:
/// the value `unscaled * 10^(-scale)`, where `unscaled` is a signed integer
/// held as its base-10 digit string. The family has no NaN and no infinity:
/// every native decimal is finite.
#[derive(Clone, Debug)]
pub struct NativeDecimal {
    pub negative: bool,
    pub digits: Vec<u8>,
    pub scale: i64,
}

impl View for NativeDecimal {
    type V = DecimalModel;

    open spec fn view(&self) -> DecimalModel {
        DecimalModel {
            negative: self.negative,
            digits: self.digits@,
            scale: self.scale as int,
        }
    }
}

impl NativeDecimal {
    /// Internal invariant: well-formed digits, and zero is never negative.
    pub open spec fn wf(&self) -> bool {
        decimal_wf(self@)
    }

    /// Builds the decimal `unscaled * 10^(-scale)` from a sign, the base-10
    /// digit values of the unscaled magnitude (most significant first), and a
    /// scale. Returns the value with leading zeros dropped and zero made
    /// non-negative; rejects any entry that is not a digit value.
    pub fn new(negative: bool, digits: Vec<u8>, scale: i64) -> (r: Option<NativeDecimal>)
        ensures
            r is Some <==> (forall|i: int| 0 <= i < digits@.len() ==> digits@[i] < 10),
            r matches Some(n) ==> n@ == normalized(negative, digits@, scale as int) && n.wf(),
    {
        if !all_digit_values(&digits) {
            return None;
        }
        let base: Vec<u8> = if digits.len() == 0 {
            let mut b: Vec<u8> = Vec::new();
            b.push(0u8);
            proof {
                assert(b@ =~= seq![0u8]);
            }
            b
        } else {
            proof {
                lemma_strip_zeros_wf(digits@);
            }
            strip_digit_zeros(&digits)
        };
        let is_zero = base.len() == 1 && base[0] == 0;
        proof {
            if is_zero {
                assert(base@ =~= seq![0u8]);
            }
        }
        Some(NativeDecimal { negative: negative && !is_zero, digits: base, scale })
    }

    /// The native zero value.
    pub fn zero() -> (r: NativeDecimal)
        ensures
            r@ == (DecimalModel { negative: false, digits: seq![0u8], scale: 0 }),
            r.wf(),
    {
        let mut d: Vec<u8> = Vec::new();
        d.push(0u8);
        proof {
            assert(d@ =~= seq![0u8]);
        }
        NativeDecimal { negative: false, digits: d, scale: 0 }
    }

    /// The decimal value of a machine integer: its digit string with scale
    /// zero. This is the target of the integer fast path.
    pub fn from_i64(i: i64) -> (r: NativeDecimal)
        ensures
            r@ == int_model(i as int),
            r.wf(),
    {
        let mag: u64 = if i < 0 {
            (-(i as i128)) as u64
        } else {
            i as u64
        };
        proof {
            if i < 0 {
                assert(0 <= -(i as i128) <= 0x8000_0000_0000_0000i128);
                assert(mag as int == -(i as int));
            }
        }
        let digits = digits_of_u64(mag);
        proof {
            lemma_digits_of_nat_wf(mag as nat);
        }
        let negative = i < 0;
        let r = NativeDecimal { negative, digits, scale: 0 };
        proof {
            assert(r@ =~= int_model(i as int));
        }
        r
    }

    /// The canonical decimal text of this value: exact digits, exact scale,
    /// no rounding and no renormalization.
    pub fn to_canonical_text(&self) -> (r: Vec<u8>)
        requires
            self.wf(),
        ensures
            r@ == canonical_text(self@),
    {
        render_parts(self.negative, &self.digits, self.scale)
    }

    /// Whether the value is negative.
    pub fn is_negative(&self) -> (r: bool)
        ensures
            r == self@.negative,
    {
        self.negative
    }

    /// The scale: the value is the unscaled integer times `10^(-scale)`.
    pub fn scale(&self) -> (r: i64)
        ensures
            r as int == self@.scale,
    {
        self.scale
    }

    /// The base-10 digit values of the unscaled magnitude, most significant
    /// first.
    pub fn digit_values(&self) -> (r: &Vec<u8>)
        ensures
            r@ == self@.digits,
    {
        &self.digits
    }
}

impl PartialEq for NativeDecimal {
    /// Two native decimals are equal when sign, digits, and scale all agree.
    fn eq(&self, other: &Self) -> (r: bool) {
        if self.negative != other.negative || self.scale != other.scale {
            return false;
        }
        if !digit_vecs_equal(&self.digits, &other.digits) {
            return false;
        }
        proof {
            assert(self@ =~= other@);
        }
        true
    }
}

impl vstd::std_specs::cmp::PartialEqSpecImpl for NativeDecimal {
    open spec fn obeys_eq_spec() -> bool {
        true
    }

    open spec fn eq_spec(&self, other: &Self) -> bool {
        self@ == other@
    }
}

} // verus!
