use vstd::prelude::*;

verus! {

/// Mathematical model of an arbitrary-precision signed decimal value.
///
/// The value written is `unscaled * 10^(-scale)`, where `unscaled` is the
/// signed integer whose magnitude has the base-10 digits `digits` (most
/// significant first) and whose sign is given by `negative`.
#[verifier::ext_equal]
pub struct DecimalModel {
    pub negative: bool,
    pub digits: Seq<u8>,
    pub scale: int,
}

/// Well-formed digit sequences: non-empty, every entry a base-10 digit value,
/// and no leading zero (a lone `0` writes the value zero).
pub open spec fn digits_wf(d: Seq<u8>) -> bool {
    &&& d.len() >= 1
    &&& (forall|i: int| 0 <= i < d.len() ==> d[i] < 10)
    &&& (d.len() > 1 ==> d[0] != 0)
}

/// A well-formed decimal: well-formed digits, and zero is never negative.
pub open spec fn decimal_wf(m: DecimalModel) -> bool {
    &&& digits_wf(m.digits)
    &&& (m.digits == seq![0u8] ==> !m.negative)
}

/// Numeric value of a digit sequence (most significant digit first).
pub open spec fn digits_value(d: Seq<u8>) -> nat
    decreases d.len(),
{
    if d.len() == 0 {
        0
    } else {
        (digits_value(d.drop_last()) * 10 + d.last()) as nat
    }
}

/// The signed integer value of a decimal model's unscaled part.
pub open spec fn decimal_int(m: DecimalModel) -> int {
    if m.negative {
        -(digits_value(m.digits) as int)
    } else {
        digits_value(m.digits) as int
    }
}

/// 10 raised to `k`.
pub open spec fn pow10(k: nat) -> nat
    decreases k,
{
    if k == 0 {
        1
    } else {
        10 * pow10((k - 1) as nat)
    }
}

/// The base-10 digit string of `n`, most significant digit first, without
/// leading zeros.
pub open spec fn digits_of_nat(n: nat) -> Seq<u8>
    decreases n,
{
    if n < 10 {
        seq![n as u8]
    } else {
        digits_of_nat(n / 10).push((n % 10) as u8)
    }
}

/// The decimal model of a machine integer: its digit string with scale zero.
pub open spec fn int_model(v: int) -> DecimalModel {
    DecimalModel {
        negative: v < 0,
        digits: digits_of_nat(if v < 0 { (-v) as nat } else { v as nat }),
        scale: 0,
    }
}

/// Drops leading zeros from a digit sequence, keeping at least one digit.
pub open spec fn strip_zeros(d: Seq<u8>) -> Seq<u8>
    decreases d.len(),
{
    if d.len() >= 2 && d[0] == 0 {
        strip_zeros(d.drop_first())
    } else {
        d
    }
}

/// The canonical digit string of a raw digit sequence: leading zeros removed,
/// and the empty sequence taken as zero.
pub open spec fn norm_base(raw: Seq<u8>) -> Seq<u8> {
    if raw.len() == 0 {
        seq![0u8]
    } else {
        strip_zeros(raw)
    }
}

/// The decimal model written by a sign, a raw digit sequence, and a scale,
/// after normalization: leading zeros dropped and zero made non-negative.
pub open spec fn normalized(negative: bool, raw: Seq<u8>, scale: int) -> DecimalModel {
    let base = norm_base(raw);
    DecimalModel { negative: negative && base != seq![0u8], digits: base, scale }
}

pub proof fn lemma_pow10_pos(k: nat)
    ensures
        pow10(k) >= 1,
    decreases k,
{
    if k > 0 {
        lemma_pow10_pos((k - 1) as nat);
    }
}

pub proof fn lemma_pow10_mono(a: nat, b: nat)
    requires
        a <= b,
    ensures
        pow10(a) <= pow10(b),
    decreases b,
{
    if a < b {
        lemma_pow10_mono(a, (b - 1) as nat);
        lemma_pow10_pos((b - 1) as nat);
    }
}

/// The concrete power of ten just above the machine-integer range.
pub proof fn lemma_pow10_19()
    ensures
        pow10(19) == 10_000_000_000_000_000_000,
{
    reveal_with_fuel(pow10, 21);
}

/// A digit sequence with a non-zero leading digit writes a value of at least
/// `10^(n-1)`.
pub proof fn lemma_digits_value_lower(d: Seq<u8>)
    requires
        d.len() >= 1,
        d[0] != 0,
    ensures
        digits_value(d) >= pow10((d.len() - 1) as nat),
    decreases d.len(),
{
    if d.len() >= 2 {
        lemma_digits_value_lower(d.drop_last());
    }
}

/// A well-formed digit sequence other than `0` writes a non-zero value.
pub proof fn lemma_nonzero_digits_value(d: Seq<u8>)
    requires
        digits_wf(d),
        d != seq![0u8],
    ensures
        digits_value(d) >= 1,
{
    if d.len() == 1 {
        assert(d.drop_last() =~= Seq::<u8>::empty());
        assert(digits_value(Seq::<u8>::empty()) == 0);
        if d[0] == 0 {
            assert(d =~= seq![0u8]);
        }
        assert(digits_value(d) == d[0]);
    } else {
        lemma_digits_value_lower(d);
        lemma_pow10_pos((d.len() - 1) as nat);
    }
}

/// `digits_of_nat` writes well-formed digits whose value is the number itself,
/// and writes `0` exactly for zero.
pub proof fn lemma_digits_of_nat_wf(n: nat)
    ensures
        digits_wf(digits_of_nat(n)),
        digits_value(digits_of_nat(n)) == n,
        digits_of_nat(n) == seq![0u8] <==> n == 0,
    decreases n,
{
    if n < 10 {
        let d = digits_of_nat(n);
        assert(d =~= seq![n as u8]);
        assert(d.drop_last() =~= Seq::<u8>::empty());
        assert(digits_value(Seq::<u8>::empty()) == 0);
        assert(digits_value(d) == n);
        if n != 0 {
            assert(d[0] != 0);
            assert(d != seq![0u8]);
        }
    } else {
        assert(n / 10 >= 1 && n / 10 < n);
        lemma_digits_of_nat_wf(n / 10);
        let r = digits_of_nat(n / 10);
        let d = digits_of_nat(n);
        assert(d == r.push((n % 10) as u8));
        assert(d.drop_last() =~= r);
        assert(digits_value(d) == digits_value(r) * 10 + n % 10);
        assert(n == (n / 10) * 10 + n % 10);
        if r.len() == 1 {
            assert(r.drop_last() =~= Seq::<u8>::empty());
            assert(digits_value(Seq::<u8>::empty()) == 0);
            assert(digits_value(r) == r[0]);
            assert(r[0] != 0);
        }
        assert(d[0] == r[0]);
        assert(d.len() != 1);
    }
}

/// A well-formed digit sequence is the digit string of its own value:
/// decimal digit strings without leading zeros are unique.
pub proof fn lemma_digits_of_value_id(d: Seq<u8>)
    requires
        digits_wf(d),
    ensures
        digits_of_nat(digits_value(d)) == d,
    decreases d.len(),
{
    let v = digits_value(d);
    if d.len() == 1 {
        assert(d.drop_last() =~= Seq::<u8>::empty());
        assert(digits_value(Seq::<u8>::empty()) == 0);
        assert(v == d[0]);
        assert(digits_of_nat(v) =~= seq![d[0]]);
        assert(digits_of_nat(v) =~= d);
    } else {
        let dl = d.drop_last();
        assert(digits_wf(dl));
        lemma_digits_value_lower(dl);
        lemma_pow10_pos((dl.len() - 1) as nat);
        let w = digits_value(dl);
        assert(w >= 1);
        assert(v == w * 10 + d.last());
        assert(v >= 10);
        assert(v / 10 == w && v % 10 == d.last()) by (nonlinear_arith)
            requires
                v == w * 10 + d.last(),
                d.last() < 10,
        ;
        lemma_digits_of_value_id(dl);
        assert(digits_of_nat(v) == digits_of_nat(w).push((v % 10) as u8));
        assert(digits_of_nat(v) =~= d);
    }
}

/// `strip_zeros` keeps exactly the suffix that starts at the first digit one
/// may keep: all entries before `j` are zero and `j` is either the last
/// position or holds a non-zero digit.
pub proof fn lemma_strip_zeros_skip(d: Seq<u8>, j: int)
    requires
        0 <= j < d.len(),
        forall|k: int| 0 <= k < j ==> d[k] == 0,
        j == d.len() - 1 || d[j] != 0,
    ensures
        strip_zeros(d) == d.subrange(j, d.len() as int),
    decreases d.len(),
{
    if j == 0 {
        assert(d.subrange(0, d.len() as int) =~= d);
        if d.len() >= 2 {
            assert(d[0] != 0);
        }
    } else {
        assert(d.len() >= 2 && d[0] == 0);
        let t = d.drop_first();
        assert(forall|k: int| 0 <= k < j - 1 ==> t[k] == 0);
        lemma_strip_zeros_skip(t, j - 1);
        assert(t.subrange(j - 1, t.len() as int) =~= d.subrange(j, d.len() as int));
    }
}

/// Stripping leading zeros from a non-empty digit-value sequence leaves
/// well-formed digits.
pub proof fn lemma_strip_zeros_wf(d: Seq<u8>)
    requires
        d.len() >= 1,
        forall|i: int| 0 <= i < d.len() ==> d[i] < 10,
    ensures
        digits_wf(strip_zeros(d)),
    decreases d.len(),
{
    if d.len() >= 2 && d[0] == 0 {
        let t = d.drop_first();
        assert(forall|i: int| 0 <= i < t.len() ==> t[i] < 10);
        lemma_strip_zeros_wf(t);
    }
}

/// Stripping a well-formed digit sequence changes nothing.
pub proof fn lemma_strip_zeros_wf_id(d: Seq<u8>)
    requires
        digits_wf(d),
    ensures
        strip_zeros(d) == d,
{
}

} // verus!
