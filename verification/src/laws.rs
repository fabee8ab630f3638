use vstd::prelude::*;

use crate::bridge::{
    foreign_text, from_foreign_spec, lemma_nonfinite_text_invalid, to_foreign_spec, ForeignModel,
};
use crate::model::{decimal_wf, int_model, lemma_digits_of_nat_wf, DecimalModel};
use crate::parse::{scale_in_range, text_model, text_valid};
use crate::render::canonical_text;
use crate::roundtrip::lemma_canonical_round_trip;

verus! {

/// Round trip foreign → native → foreign: every finite foreign decimal
/// converts — through its canonical text, the slow path being the source
/// of truth — to a native decimal holding exactly its sign, digits, and
/// scale, and that native decimal converts back to the very same foreign
/// value.
pub proof fn lemma_round_trip_foreign(m: DecimalModel)
    requires
        decimal_wf(m),
        i64::MIN <= m.scale <= i64::MAX,
    ensures
        from_foreign_spec(ForeignModel::Finite(m)) == Some(m),
        to_foreign_spec(m) == ForeignModel::Finite(m),
{
    lemma_canonical_round_trip(m);
}

/// Round trip native → foreign → native: every native decimal converts to
/// a foreign decimal that converts back — again through the canonical
/// text — to exactly the same native value. Nothing is rounded,
/// renormalized, or lost on the way out and back.
pub proof fn lemma_round_trip_native(m: DecimalModel)
    requires
        decimal_wf(m),
        i64::MIN <= m.scale <= i64::MAX,
    ensures
        from_foreign_spec(to_foreign_spec(m)) == Some(m),
{
    lemma_canonical_round_trip(m);
}

/// Non-finite rejection: NaN and the signed and unsigned infinities have
/// no native counterpart. Their canonical texts are not valid decimal
/// text, so foreign-to-native conversion yields no finite value for them —
/// never a silently wrong finite approximation.
pub proof fn lemma_nonfinite_rejected(f: ForeignModel)
    requires
        !(f is Finite),
    ensures
        from_foreign_spec(f) is None,
{
    lemma_nonfinite_text_invalid();
    assert(!text_valid(foreign_text(f)));
}

/// Integer fast-path equivalence: for every machine integer, the decimal
/// the fast path builds directly (`int_model`, the result of `from_i64`)
/// is exactly what the slow path yields by rendering that integer's
/// canonical text and parsing it back. The fast path is an optimization,
/// never a change of meaning.
pub proof fn lemma_integer_paths_agree(i: i64)
    ensures
        decimal_wf(int_model(i as int)),
        text_valid(canonical_text(int_model(i as int))),
        scale_in_range(canonical_text(int_model(i as int))),
        text_model(canonical_text(int_model(i as int))) == int_model(i as int),
{
    let v = i as int;
    let mag: nat = if v < 0 { (-v) as nat } else { v as nat };
    lemma_digits_of_nat_wf(mag);
    let m = int_model(v);
    assert(m.digits == crate::model::digits_of_nat(mag));
    if m.digits == seq![0u8] {
        assert(mag == 0);
    }
    assert(decimal_wf(m));
    lemma_canonical_round_trip(m);
}

} // verus!
