//! The key-space search: every affine key applied to the ciphertext, and the
//! scored keys ranked best first.

use vstd::prelude::*;
use vstd::slice::{slice_subrange, slice_to_vec};
use crate::affine::{affine, transformed, valid_key};

verus! {

/// Number of keys: 28 multipliers times 29 offsets.
pub const KEY_COUNT: usize = 812;

/// Number of symbols in one scoring window.
pub const WINDOW: usize = 4;

/// The multiplier of the key at position `k` of the enumeration.
pub open spec fn key_a(k: int) -> int {
    k / 29 + 1
}

/// The offset of the key at position `k` of the enumeration.
pub open spec fn key_b(k: int) -> int {
    k % 29
}

/// The position of the key `(a, b)` in the enumeration: multipliers in
/// increasing order, and offsets in increasing order for each.
pub open spec fn key_index(a: int, b: int) -> int {
    (a - 1) * 29 + b
}

/// The windows of four consecutive symbols of `s`, in order.
pub open spec fn windows(s: Seq<u8>) -> Seq<Seq<u8>> {
    Seq::new(
        if s.len() >= 4 { (s.len() - 3) as nat } else { 0 },
        |i: int| s.subrange(i, i + 4),
    )
}

/// The windows of four consecutive symbols of `s`, in order: `len - 3` of
/// them, and none when `s` is shorter than four symbols.
pub fn quadgrams(s: &[u8]) -> (r: Vec<Vec<u8>>)
    ensures
        r@.map_values(|w: Vec<u8>| w@) == windows(s@),
        s@.len() < 4 ==> r@.len() == 0,
{
    let mut r: Vec<Vec<u8>> = Vec::new();
    if s.len() < WINDOW {
        assert(r@.map_values(|w: Vec<u8>| w@) =~= windows(s@));
        return r;
    }
    let n = s.len() - WINDOW + 1;
    let mut i: usize = 0;
    while i < n
        invariant
            s@.len() >= 4,
            s@.len() == s.len(),
            n == s@.len() - 3,
            i <= n,
            r@.len() == i,
            forall|j: int| 0 <= j < i ==> (#[trigger] r@[j])@ == s@.subrange(j, j + 4),
        decreases n - i,
    {
        assert(i + WINDOW <= s@.len());
        let w = slice_to_vec(slice_subrange(s, i, i + WINDOW));
        r.push(w);
        i += 1;
    }
    assert(r@.map_values(|w: Vec<u8>| w@) =~= windows(s@));
    r
}

/// One key of the search with the plaintext it gives.
#[derive(Debug)]
pub struct Candidate {
    pub a: u8,
    pub b: u8,
    pub plaintext: Vec<u8>,
}

/// The decryption of `ct` under every key, in enumeration order:
/// multipliers `1..=28`, and for each the offsets `0..=28`.
pub fn candidates(ct: &[u8]) -> (r: Vec<Candidate>)
    ensures
        r@.len() == KEY_COUNT,
        forall|k: int|
            0 <= k < KEY_COUNT ==> (#[trigger] r@[k]).a == key_a(k) && r@[k].b == key_b(k)
                && r@[k].plaintext@ == transformed(ct@, key_a(k), key_b(k)),
{
    let mut r: Vec<Candidate> = Vec::with_capacity(KEY_COUNT);
    let mut a: u8 = 1;
    while a < 29
        invariant
            1 <= a <= 29,
            r@.len() == (a - 1) * 29,
            forall|k: int|
                0 <= k < r@.len() ==> (#[trigger] r@[k]).a == key_a(k) && r@[k].b == key_b(k)
                    && r@[k].plaintext@ == transformed(ct@, key_a(k), key_b(k)),
        decreases 29 - a,
    {
        let mut b: u8 = 0;
        while b < 29
            invariant
                1 <= a < 29,
                b <= 29,
                r@.len() == (a - 1) * 29 + b,
                forall|k: int|
                    0 <= k < r@.len() ==> (#[trigger] r@[k]).a == key_a(k) && r@[k].b == key_b(k)
                        && r@[k].plaintext@ == transformed(ct@, key_a(k), key_b(k)),
            decreases 29 - b,
        {
            let plaintext = affine(ct, a, b);
            proof {
                let k = (a - 1) * 29 + b;
                assert(key_a(k) == a && key_b(k) == b);
            }
            r.push(Candidate { a, b, plaintext });
            b += 1;
        }
        a += 1;
    }
    r
}

/// A key with the score of the plaintext it gives. The score is an integer
/// that orders candidates as their plausibility does: higher is better.
#[derive(Clone, Copy, PartialEq, Eq, Debug)]
pub struct ScoredKey {
    pub a: u8,
    pub b: u8,
    pub score: u64,
}

/// `x` comes before `y` in the ranking: a higher score first, and among
/// equal scores the key that comes first in the enumeration.
pub open spec fn ranks_before(x: ScoredKey, y: ScoredKey) -> bool {
    x.score > y.score || (x.score == y.score && key_index(x.a as int, x.b as int) < key_index(
        y.a as int,
        y.b as int,
    ))
}

/// Some entry of `r` holds the key at position `m` of the enumeration.
spec fn holds_index(r: Seq<ScoredKey>, m: int) -> bool {
    exists|i: int| 0 <= i < r.len() && key_index((#[trigger] r[i]).a as int, r[i].b as int) == m
}

proof fn lemma_key_index(a: int, b: int, c: int, d: int)
    requires
        valid_key(a, b),
        valid_key(c, d),
        key_index(a, b) == key_index(c, d),
    ensures
        a == c && b == d,
{
    assert(a == c) by (nonlinear_arith)
        requires
            (a - 1) * 29 + b == (c - 1) * 29 + d,
            0 <= b < 29,
            0 <= d < 29,
    ;
}

/// Ranks every key by the score of the plaintext it gives. `scores[k]` is
/// the score of the key at position `k` of the enumeration (see
/// `candidates`). The result holds every key once, best first; equal scores
/// keep the enumeration order.
pub fn rank(scores: &[u64]) -> (r: Vec<ScoredKey>)
    requires
        scores@.len() == KEY_COUNT,
    ensures
        r@.len() == KEY_COUNT,
        forall|i: int|
            0 <= i < r@.len() ==> valid_key((#[trigger] r@[i]).a as int, r@[i].b as int)
                && r@[i].score == scores@[key_index(r@[i].a as int, r@[i].b as int)],
        forall|a: int, b: int|
            valid_key(a, b) ==> exists|i: int|
                0 <= i < r@.len() && (#[trigger] r@[i]).a == a && r@[i].b == b,
        forall|i: int, j: int| 0 <= i < j < r@.len() ==> ranks_before(r@[i], r@[j]),
        forall|i: int, j: int| 0 <= i < j < r@.len() ==> r@[i].score >= r@[j].score,
{
    let mut r: Vec<ScoredKey> = Vec::with_capacity(KEY_COUNT);
    let mut k: usize = 0;
    while k < KEY_COUNT
        invariant
            k <= KEY_COUNT,
            scores@.len() == KEY_COUNT,
            r@.len() == k,
            forall|i: int|
                0 <= i < r@.len() ==> valid_key((#[trigger] r@[i]).a as int, r@[i].b as int)
                    && key_index(r@[i].a as int, r@[i].b as int) < k
                    && r@[i].score == scores@[key_index(r@[i].a as int, r@[i].b as int)],
            forall|m: int| 0 <= m < k ==> #[trigger] holds_index(r@, m),
            forall|i: int, j: int| 0 <= i < j < r@.len() ==> ranks_before(r@[i], r@[j]),
        decreases KEY_COUNT - k,
    {
        let entry = ScoredKey { a: (k / 29 + 1) as u8, b: (k % 29) as u8, score: scores[k] };
        assert(key_index(entry.a as int, entry.b as int) == k);
        let mut pos: usize = 0;
        while pos < r.len() && r[pos].score >= entry.score
            invariant
                pos <= r@.len(),
                forall|i: int| 0 <= i < pos ==> (#[trigger] r@[i]).score >= entry.score,
            decreases r@.len() - pos,
        {
            pos += 1;
        }
        let ghost old_r = r@;
        r.insert(pos, entry);
        proof {
            assert(r@ == old_r.insert(pos as int, entry));
            assert forall|i: int, j: int| 0 <= i < j < r@.len() implies ranks_before(
                r@[i],
                r@[j],
            ) by {
                if j < pos {
                    assert(r@[i] == old_r[i] && r@[j] == old_r[j]);
                } else if j == pos {
                    assert(r@[i] == old_r[i]);
                } else if i < pos {
                    assert(r@[i] == old_r[i] && r@[j] == old_r[j - 1]);
                } else if i == pos {
                    assert(r@[j] == old_r[j - 1]);
                    assert(ranks_before(old_r[pos as int], old_r[j - 1]) || j - 1 == pos);
                } else {
                    assert(r@[i] == old_r[i - 1] && r@[j] == old_r[j - 1]);
                }
            }
            assert forall|m: int| 0 <= m < k + 1 implies #[trigger] holds_index(r@, m) by {
                if m == k {
                    assert(r@[pos as int] == entry);
                } else {
                    assert(holds_index(old_r, m));
                    let i0 = choose|i: int|
                        0 <= i < old_r.len() && key_index(
                            (#[trigger] old_r[i]).a as int,
                            old_r[i].b as int,
                        ) == m;
                    if i0 < pos {
                        assert(r@[i0] == old_r[i0]);
                    } else {
                        assert(r@[i0 + 1] == old_r[i0]);
                    }
                }
            }
        }
        k += 1;
    }
    proof {
        assert forall|i: int, j: int| 0 <= i < j < r@.len() implies r@[i].score >= r@[j].score by {
            assert(ranks_before(r@[i], r@[j]));
        }
        assert forall|a: int, b: int| valid_key(a, b) implies exists|i: int|
            0 <= i < r@.len() && (#[trigger] r@[i]).a == a && r@[i].b == b by {
            let m = key_index(a, b);
            assert(holds_index(r@, m));
            let i = choose|i: int|
                0 <= i < r@.len() && key_index((#[trigger] r@[i]).a as int, r@[i].b as int) == m;
            lemma_key_index(r@[i].a as int, r@[i].b as int, a, b);
        }
    }
    r
}

} // verus!
