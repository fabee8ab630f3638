use vstd::prelude::*;

use crate::digits::digits_of_u64;
use crate::model::{digits_of_nat, digits_wf, lemma_digits_of_nat_wf, DecimalModel};

verus! {

/// The ASCII text of a digit-value sequence.
pub open spec fn ascii_digits(d: Seq<u8>) -> Seq<u8> {
    d.map_values(|x: u8| (x + 48) as u8)
}

/// The canonical decimal text of the digits and scale of a value, without
/// its sign:
/// - a negative scale appends a positive exponent (`5E+2` for 500 held as
///   five with scale -2);
/// - scale zero is the plain digit string;
/// - a scale below the digit count places the decimal point inside the
///   digits (`1.00`);
/// - any larger scale appends a negative exponent (`5E-9`).
///
/// Every digit and the exact scale survive: nothing is rounded and no
/// trailing zero is dropped.
pub open spec fn canonical_body(d: Seq<u8>, scale: int) -> Seq<u8> {
    if scale < 0 {
        ascii_digits(d) + seq![69u8, 43u8] + ascii_digits(digits_of_nat((-scale) as nat))
    } else if scale == 0 {
        ascii_digits(d)
    } else if scale < d.len() {
        ascii_digits(d.subrange(0, d.len() - scale)) + seq![46u8]
            + ascii_digits(d.subrange(d.len() - scale, d.len() as int))
    } else {
        ascii_digits(d) + seq![69u8, 45u8] + ascii_digits(digits_of_nat(scale as nat))
    }
}

/// The canonical decimal text of a whole value: a leading `-` for negative
/// values, then the text of digits and scale.
pub open spec fn canonical_text(m: DecimalModel) -> Seq<u8> {
    if m.negative {
        seq![45u8] + canonical_body(m.digits, m.scale)
    } else {
        canonical_body(m.digits, m.scale)
    }
}

/// Appends the ASCII text of `d[from..to]` to `out`.
fn push_ascii_range(out: &mut Vec<u8>, d: &Vec<u8>, from: usize, to: usize)
    requires
        from <= to <= d@.len(),
        forall|i: int| 0 <= i < d@.len() ==> d@[i] < 10,
    ensures
        final(out)@ == old(out)@ + ascii_digits(d@.subrange(from as int, to as int)),
{
    let mut k: usize = from;
    proof {
        assert(out@ =~= old(out)@ + ascii_digits(d@.subrange(from as int, from as int)));
    }
    while k < to
        invariant
            from <= k <= to <= d@.len(),
            forall|i: int| 0 <= i < d@.len() ==> d@[i] < 10,
            out@ == old(out)@ + ascii_digits(d@.subrange(from as int, k as int)),
        decreases to - k,
    {
        let c = d[k] + 48;
        out.push(c);
        proof {
            assert(out@ =~= old(out)@ + ascii_digits(d@.subrange(from as int, k + 1)));
        }
        k += 1;
    }
}

/// Renders the canonical decimal text of the value written by a sign, a
/// well-formed digit sequence, and a scale.
pub(crate) fn render_parts(negative: bool, digits: &Vec<u8>, scale: i64) -> (r: Vec<u8>)
    requires
        digits_wf(digits@),
    ensures
        r@ == canonical_text(
            DecimalModel { negative, digits: digits@, scale: scale as int },
        ),
{
    let ghost m = DecimalModel { negative, digits: digits@, scale: scale as int };
    let mut out: Vec<u8> = Vec::new();
    if negative {
        out.push(45u8);
    }
    let ghost head = out@;
    let n = digits.len();
    proof {
        assert(digits@.subrange(0, n as int) =~= digits@);
    }
    if scale == 0 {
        push_ascii_range(&mut out, digits, 0, n);
        proof {
            assert(out@ =~= canonical_text(m));
        }
    } else if scale < 0 {
        push_ascii_range(&mut out, digits, 0, n);
        out.push(69u8);
        out.push(43u8);
        let mag: u64 = (-(scale as i128)) as u64;
        proof {
            assert(mag as nat == (-(scale as int)) as nat);
        }
        let e = digits_of_u64(mag);
        proof {
            lemma_digits_of_nat_wf(mag as nat);
            assert(e@.subrange(0, e@.len() as int) =~= e@);
        }
        let elen = e.len();
        push_ascii_range(&mut out, &e, 0, elen);
        proof {
            assert(out@ =~= canonical_text(m));
        }
    } else if (scale as u64) < (n as u64) {
        let split = n - (scale as usize);
        push_ascii_range(&mut out, digits, 0, split);
        out.push(46u8);
        push_ascii_range(&mut out, digits, split, n);
        proof {
            assert(out@ =~= canonical_text(m));
        }
    } else {
        push_ascii_range(&mut out, digits, 0, n);
        out.push(69u8);
        out.push(45u8);
        let mag: u64 = scale as u64;
        let e = digits_of_u64(mag);
        proof {
            lemma_digits_of_nat_wf(mag as nat);
            assert(e@.subrange(0, e@.len() as int) =~= e@);
        }
        let elen = e.len();
        push_ascii_range(&mut out, &e, 0, elen);
        proof {
            assert(out@ =~= canonical_text(m));
        }
    }
    out
}

} // verus!
