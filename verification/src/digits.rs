use vstd::prelude::*;

use crate::model::{digits_of_nat, strip_zeros};

verus! {

/// The base-10 digit string of a machine integer, most significant first.
pub fn digits_of_u64(u: u64) -> (r: Vec<u8>)
    ensures
        r@ == digits_of_nat(u as nat),
    decreases u,
{
    if u < 10 {
        let mut r: Vec<u8> = Vec::new();
        r.push(u as u8);
        proof {
            assert(r@ =~= digits_of_nat(u as nat));
        }
        r
    } else {
        let mut r = digits_of_u64(u / 10);
        r.push((u % 10) as u8);
        proof {
            assert(r@ =~= digits_of_nat(u as nat));
        }
        r
    }
}

/// Whether every entry of `raw` is a base-10 digit value.
pub fn all_digit_values(raw: &Vec<u8>) -> (r: bool)
    ensures
        r == forall|i: int| 0 <= i < raw@.len() ==> raw@[i] < 10,
{
    let mut k: usize = 0;
    while k < raw.len()
        invariant
            k <= raw@.len(),
            forall|i: int| 0 <= i < k ==> raw@[i] < 10,
        decreases raw@.len() - k,
    {
        if raw[k] >= 10 {
            return false;
        }
        k += 1;
    }
    true
}

/// Whether two digit vectors hold the same digits.
pub fn digit_vecs_equal(a: &Vec<u8>, b: &Vec<u8>) -> (r: bool)
    ensures
        r == (a@ == b@),
{
    if a.len() != b.len() {
        return false;
    }
    let mut k: usize = 0;
    while k < a.len()
        invariant
            k <= a@.len(),
            a@.len() == b@.len(),
            forall|i: int| 0 <= i < k ==> a@[i] == b@[i],
        decreases a@.len() - k,
    {
        if a[k] != b[k] {
            return false;
        }
        k += 1;
    }
    proof {
        assert(a@ =~= b@);
    }
    true
}

/// Copies `raw` without its leading zeros, keeping at least one digit.
pub fn strip_digit_zeros(raw: &Vec<u8>) -> (r: Vec<u8>)
    requires
        raw@.len() >= 1,
    ensures
        r@ == strip_zeros(raw@),
{
    let mut z: usize = 0;
    while z < raw.len() - 1 && raw[z] == 0
        invariant
            raw@.len() >= 1,
            z < raw@.len(),
            forall|k: int| 0 <= k < z ==> raw@[k] == 0,
        decreases raw@.len() - z,
    {
        z += 1;
    }
    proof {
        crate::model::lemma_strip_zeros_skip(raw@, z as int);
    }
    let mut r: Vec<u8> = Vec::new();
    let mut k: usize = z;
    while k < raw.len()
        invariant
            z <= k <= raw@.len(),
            r@ == raw@.subrange(z as int, k as int),
        decreases raw@.len() - k,
    {
        let d = raw[k];
        r.push(d);
        proof {
            assert(r@ =~= raw@.subrange(z as int, k + 1));
        }
        k += 1;
    }
    proof {
        assert(r@ =~= raw@.subrange(z as int, raw@.len() as int));
    }
    r
}

} // verus!
