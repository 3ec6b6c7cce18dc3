//! The affine transform on symbol codes: `y = a * (x + b) mod 29`. The
//! modulus is prime, so every nonzero multiplier is invertible.

use vstd::prelude::*;
use vstd::arithmetic::div_mod::{lemma_mul_mod_noop_left, lemma_mul_mod_noop_right};

verus! {

/// The transform of one code `x` under the key `(a, b)`.
pub open spec fn shift(x: int, a: int, b: int) -> int {
    (a * (x + b)) % 29
}

/// A key is valid when its multiplier is in `[1, 28]` and its offset in `[0, 28]`.
pub open spec fn valid_key(a: int, b: int) -> bool {
    1 <= a <= 28 && 0 <= b <= 28
}

/// The transform of a whole sequence, symbol by symbol.
pub open spec fn transformed(s: Seq<u8>, a: int, b: int) -> Seq<u8> {
    s.map(|i: int, x: u8| shift(x as int, a, b) as u8)
}

/// Maps one code through the key `(a, b)`.
pub fn do_math(x: u8, a: u8, b: u8) -> (y: u8)
    ensures
        y as int == shift(x as int, a as int, b as int),
        y < 29,
{
    assert(a as u64 * (x as u64 + b as u64) <= 255 * 510) by (nonlinear_arith)
        requires
            a <= 255,
            x as u64 + b as u64 <= 510,
    ;
    ((a as u64 * (x as u64 + b as u64)) % 29u64) as u8
}

/// Applies the key `(key_a, key_b)` to every code of `ct`.
pub fn affine(ct: &[u8], key_a: u8, key_b: u8) -> (pt: Vec<u8>)
    requires
        valid_key(key_a as int, key_b as int),
    ensures
        pt@ == transformed(ct@, key_a as int, key_b as int),
        pt@.len() == ct@.len(),
        forall|i: int| 0 <= i < pt@.len() ==> pt@[i] < 29,
{
    let mut pt: Vec<u8> = Vec::with_capacity(ct.len());
    let mut i: usize = 0;
    while i < ct.len()
        invariant
            i <= ct@.len(),
            pt@ == transformed(ct@.subrange(0, i as int), key_a as int, key_b as int),
        decreases ct@.len() - i,
    {
        let y = do_math(ct[i], key_a, key_b);
        pt.push(y);
        i += 1;
        assert(ct@.subrange(0, i as int) == ct@.subrange(0, i - 1).push(ct@[i - 1]));
    }
    assert(ct@.subrange(0, ct@.len() as int) == ct@);
    pt
}

/// The multiplicative inverse of a nonzero code modulo 29.
pub open spec fn inverse(a: int) -> int {
    if a == 1 { 1 } else if a == 2 { 15 } else if a == 3 { 10 } else if a == 4 { 22 }
    else if a == 5 { 6 } else if a == 6 { 5 } else if a == 7 { 25 } else if a == 8 { 11 }
    else if a == 9 { 13 } else if a == 10 { 3 } else if a == 11 { 8 } else if a == 12 { 17 }
    else if a == 13 { 9 } else if a == 14 { 27 } else if a == 15 { 2 } else if a == 16 { 20 }
    else if a == 17 { 12 } else if a == 18 { 21 } else if a == 19 { 26 } else if a == 20 { 16 }
    else if a == 21 { 18 } else if a == 22 { 4 } else if a == 23 { 24 } else if a == 24 { 23 }
    else if a == 25 { 7 } else if a == 26 { 19 } else if a == 27 { 14 } else { 28 }
}

proof fn lemma_inverse(a: int)
    requires
        1 <= a <= 28,
    ensures
        (inverse(a) * a) % 29 == 1,
{
}

/// Under a fixed valid key, distinct symbols are sent to distinct symbols:
/// the transform is a bijection on `[0, 28]`.
pub proof fn lemma_transform_injective(a: int, b: int, x: int, y: int)
    requires
        valid_key(a, b),
        0 <= x < 29,
        0 <= y < 29,
        shift(x, a, b) == shift(y, a, b),
    ensures
        x == y,
{
    let inv = inverse(a);
    lemma_inverse(a);
    assert forall|z: int| 0 <= z < 29 implies (inv * shift(z, a, b)) % 29 == (z + b) % 29 by {
        lemma_mul_mod_noop_right(inv, a * (z + b), 29);
        assert(inv * (a * (z + b)) == (inv * a) * (z + b)) by (nonlinear_arith);
        lemma_mul_mod_noop_left(inv * a, z + b, 29);
    }
}

} // verus!
