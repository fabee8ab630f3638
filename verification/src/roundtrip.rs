use vstd::prelude::*;

use crate::model::{
    decimal_wf, lemma_digits_of_nat_wf, lemma_strip_zeros_wf_id, DecimalModel,
};
use crate::parse::{
    count_digits, exp_digits_start, exp_end, exp_negative, exp_value, frac_end, frac_start,
    has_exp, has_point, int_end, int_start, is_digit_byte, lemma_count_digits_region,
    lemma_to_vals_concat, raw_digits, scale_in_range, sign_end, text_model, text_negative,
    text_scale, text_valid, to_vals,
};
use crate::render::{ascii_digits, canonical_text};

verus! {

/// The ASCII text of a digit-value sequence is a run of digit bytes that
/// reads back to exactly those digit values.
pub proof fn lemma_ascii_digits_facts(q: Seq<u8>)
    requires
        forall|i: int| 0 <= i < q.len() ==> q[i] < 10,
    ensures
        ascii_digits(q).len() == q.len(),
        forall|i: int| 0 <= i < q.len() ==> is_digit_byte(ascii_digits(q)[i]),
        to_vals(ascii_digits(q)) == q,
{
    assert(to_vals(ascii_digits(q)) =~= q);
}

/// How the textual positions carve a byte string that was assembled from
/// its components: an optional minus sign, a run of integer digits, an
/// optional point with a run of fractional digits, and an optional
/// exponent marker with sign and a run of exponent digits. Each component
/// is found exactly where it was put.
#[verifier::rlimit(60)]
pub proof fn lemma_parse_components(
    s: Seq<u8>,
    neg: bool,
    ipart: Seq<u8>,
    pt: bool,
    fpart: Seq<u8>,
    ex: bool,
    exneg: bool,
    xpart: Seq<u8>,
)
    requires
        s == (if neg { seq![45u8] } else { Seq::<u8>::empty() }) + ipart + (if pt {
            seq![46u8] + fpart
        } else {
            Seq::<u8>::empty()
        }) + (if ex {
            seq![69u8, if exneg { 45u8 } else { 43u8 }] + xpart
        } else {
            Seq::<u8>::empty()
        }),
        ipart.len() >= 1,
        forall|i: int| 0 <= i < ipart.len() ==> is_digit_byte(ipart[i]),
        pt ==> fpart.len() >= 1,
        forall|i: int| 0 <= i < fpart.len() ==> is_digit_byte(fpart[i]),
        !pt ==> fpart.len() == 0,
        ex ==> xpart.len() >= 1,
        forall|i: int| 0 <= i < xpart.len() ==> is_digit_byte(xpart[i]),
        !ex ==> xpart.len() == 0,
    ensures
        text_valid(s),
        text_negative(s) == neg,
        s.subrange(int_start(s), int_end(s)) == ipart,
        has_point(s) == pt,
        s.subrange(frac_start(s), frac_end(s)) == fpart,
        frac_end(s) - frac_start(s) == fpart.len(),
        has_exp(s) == ex,
        exp_negative(s) == (ex && exneg),
        ex ==> s.subrange(exp_digits_start(s), exp_end(s)) == xpart,
{
    let a = if neg { seq![45u8] } else { Seq::<u8>::empty() };
    let p = if pt { seq![46u8] + fpart } else { Seq::<u8>::empty() };
    let x = if ex {
        seq![69u8, if exneg { 45u8 } else { 43u8 }] + xpart
    } else {
        Seq::<u8>::empty()
    };
    let m = a + ipart;
    let mp = m + p;
    assert(s == mp + x);
    let b: int = if neg { 1 } else { 0 };
    let i2 = b + ipart.len();
    let f1: int = if pt { i2 + 1 } else { i2 };
    let f2 = f1 + fpart.len();
    let x1: int = if ex { f2 + 2 } else { f2 };
    let x2 = x1 + xpart.len();
    assert(s.len() == x2);
    // Where each byte of `s` comes from.
    assert forall|j: int| 0 <= j < ipart.len() implies s[b + j] == ipart[j] by {
        assert(m[b + j] == ipart[j]);
        assert(mp[b + j] == m[b + j]);
        assert(s[b + j] == mp[b + j]);
    }
    assert forall|j: int| 0 <= j < fpart.len() implies s[f1 + j] == fpart[j] by {
        assert(p[1 + j] == fpart[j]);
        assert(mp[f1 + j] == p[1 + j]);
        assert(s[f1 + j] == mp[f1 + j]);
    }
    assert forall|j: int| 0 <= j < xpart.len() implies s[x1 + j] == xpart[j] by {
        assert(x[2 + j] == xpart[j]);
        assert(s[x1 + j] == x[2 + j]);
    }
    if neg {
        assert(s[0] == mp[0] && mp[0] == m[0] && m[0] == 45u8);
    }
    if pt {
        assert(s[i2] == mp[i2] && mp[i2] == p[0] && p[0] == 46u8);
    }
    if ex {
        assert(s[f2] == x[0] && x[0] == 69u8);
        assert(s[f2 + 1] == x[1]);
    }
    // The sign and the three digit runs are carved out exactly.
    assert(int_start(s) == b) by {
        if neg {
        } else {
            assert(s[0] == ipart[0]);
        }
    }
    assert(count_digits(s, b) == ipart.len()) by {
        lemma_count_digits_region(s, b, i2);
    }
    assert(int_end(s) == i2);
    assert(s.subrange(b, i2) =~= ipart);
    assert(has_point(s) == pt);
    assert(frac_start(s) == f1);
    assert(count_digits(s, f1) == fpart.len()) by {
        lemma_count_digits_region(s, f1, f2);
    }
    assert(frac_end(s) == f2);
    assert(s.subrange(f1, f2) =~= fpart);
    assert(has_exp(s) == ex);
    if ex {
        assert(sign_end(s, f2 + 1) == x1);
        assert(exp_digits_start(s) == x1);
        assert(count_digits(s, x1) == xpart.len()) by {
            lemma_count_digits_region(s, x1, x2);
        }
        assert(exp_end(s) == x2);
        assert(s.subrange(x1, x2) =~= xpart);
        assert(exp_negative(s) == exneg);
    }
    assert(text_valid(s));
}

/// The round-trip theorem of the textual channel: the canonical decimal
/// text of any well-formed decimal whose scale fits the native scale type
/// is valid decimal text and parses back to exactly that decimal — same
/// sign, same digits, same scale.
pub proof fn lemma_canonical_round_trip(m: DecimalModel)
    requires
        decimal_wf(m),
        i64::MIN <= m.scale <= i64::MAX,
    ensures
        text_valid(canonical_text(m)),
        scale_in_range(canonical_text(m)),
        text_model(canonical_text(m)) == m,
{
    let s = canonical_text(m);
    let d = m.digits;
    let dl = d.len() as int;
    let a = if m.negative { seq![45u8] } else { Seq::<u8>::empty() };
    lemma_ascii_digits_facts(d);
    if m.negative {
        assert(d != seq![0u8]);
    }
    if m.scale == 0 {
        let ipart = ascii_digits(d);
        assert(s =~= a + ipart + Seq::<u8>::empty() + Seq::<u8>::empty());
        lemma_parse_components(s, m.negative, ipart, false, Seq::empty(), false, false, Seq::empty());
        assert(s.subrange(int_start(s), int_end(s)) + s.subrange(frac_start(s), frac_end(s))
            =~= ipart);
        assert(raw_digits(s) == d);
        lemma_strip_zeros_wf_id(d);
        assert(text_scale(s) == m.scale);
        assert(text_model(s) =~= m);
    } else if m.scale < 0 {
        let mag = (-m.scale) as nat;
        lemma_digits_of_nat_wf(mag);
        lemma_ascii_digits_facts(crate::model::digits_of_nat(mag));
        let ipart = ascii_digits(d);
        let xpart = ascii_digits(crate::model::digits_of_nat(mag));
        assert(s =~= a + ipart + Seq::<u8>::empty() + (seq![69u8, 43u8] + xpart));
        lemma_parse_components(s, m.negative, ipart, false, Seq::empty(), true, false, xpart);
        assert(s.subrange(int_start(s), int_end(s)) + s.subrange(frac_start(s), frac_end(s))
            =~= ipart);
        assert(raw_digits(s) == d);
        lemma_strip_zeros_wf_id(d);
        assert(to_vals(s.subrange(exp_digits_start(s), exp_end(s))) == crate::model::digits_of_nat(
            mag,
        ));
        assert(exp_value(s) == mag);
        assert(text_scale(s) == m.scale);
        assert(text_model(s) =~= m);
    } else if m.scale < dl {
        let cut = dl - m.scale;
        let ipart = ascii_digits(d.subrange(0, cut));
        let fpart = ascii_digits(d.subrange(cut, dl));
        lemma_ascii_digits_facts(d.subrange(0, cut));
        lemma_ascii_digits_facts(d.subrange(cut, dl));
        assert(ipart + fpart =~= ascii_digits(d)) by {
            assert(d.subrange(0, cut) + d.subrange(cut, dl) =~= d);
            lemma_to_vals_concat(ipart, fpart);
            assert(to_vals(ipart + fpart) =~= d);
            lemma_ascii_digits_facts(d);
            assert(forall|i: int| 0 <= i < (ipart + fpart).len() ==> is_digit_byte(
                (ipart + fpart)[i],
            ));
            assert forall|i: int| 0 <= i < dl implies (ipart + fpart)[i] == ascii_digits(d)[i] by {
                assert(to_vals(ipart + fpart)[i] == d[i]);
            }
        }
        assert(s =~= a + ipart + (seq![46u8] + fpart) + Seq::<u8>::empty());
        lemma_parse_components(s, m.negative, ipart, true, fpart, false, false, Seq::empty());
        lemma_to_vals_concat(
            s.subrange(int_start(s), int_end(s)),
            s.subrange(frac_start(s), frac_end(s)),
        );
        assert(raw_digits(s) =~= d);
        lemma_strip_zeros_wf_id(d);
        assert(text_scale(s) == m.scale);
        assert(text_model(s) =~= m);
    } else {
        let mag = m.scale as nat;
        lemma_digits_of_nat_wf(mag);
        lemma_ascii_digits_facts(crate::model::digits_of_nat(mag));
        let ipart = ascii_digits(d);
        let xpart = ascii_digits(crate::model::digits_of_nat(mag));
        assert(s =~= a + ipart + Seq::<u8>::empty() + (seq![69u8, 45u8] + xpart));
        lemma_parse_components(s, m.negative, ipart, false, Seq::empty(), true, true, xpart);
        assert(s.subrange(int_start(s), int_end(s)) + s.subrange(frac_start(s), frac_end(s))
            =~= ipart);
        assert(raw_digits(s) == d);
        lemma_strip_zeros_wf_id(d);
        assert(to_vals(s.subrange(exp_digits_start(s), exp_end(s))) == crate::model::digits_of_nat(
            mag,
        ));
        assert(exp_value(s) == -(mag as int));
        assert(text_scale(s) == m.scale);
        assert(text_model(s) =~= m);
    }
}

} // verus!
