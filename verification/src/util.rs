//! Powers of two within machine limits.

use vstd::arithmetic::power2::{lemma_pow2_strictly_increases, lemma_pow2_unfold, pow2};
use vstd::prelude::*;

verus! {

/// Whether `x` is less than two to the power `k`.
pub fn below_pow2(x: usize, k: usize) -> (r: bool)
    ensures
        r == (x < pow2(k as nat)),
{
    let mut p: usize = 1;
    let mut i: usize = 0;
    proof {
        vstd::arithmetic::power2::lemma2_to64();
    }
    while i < k
        invariant
            i <= k,
            p == pow2(i as nat),
        decreases k - i,
    {
        if p > x {
            proof {
                if i < k {
                    lemma_pow2_strictly_increases(i as nat, k as nat);
                }
            }
            return true;
        }
        if p > usize::MAX / 2 {
            proof {
                lemma_pow2_unfold((i + 1) as nat);
                if i + 1 < k {
                    lemma_pow2_strictly_increases((i + 1) as nat, k as nat);
                }
            }
            return true;
        }
        proof {
            lemma_pow2_unfold((i + 1) as nat);
        }
        p = p * 2;
        i += 1;
    }
    x < p
}

/// Two to the power `k`, when that fits.
pub fn checked_pow2(k: usize) -> (r: Option<usize>)
    ensures
        match r {
            Some(p) => p == pow2(k as nat),
            None => pow2(k as nat) > usize::MAX,
        },
{
    let mut p: usize = 1;
    let mut i: usize = 0;
    proof {
        vstd::arithmetic::power2::lemma2_to64();
    }
    while i < k
        invariant
            i <= k,
            p == pow2(i as nat),
        decreases k - i,
    {
        if p > usize::MAX / 2 {
            proof {
                lemma_pow2_unfold((i + 1) as nat);
                if i + 1 < k {
                    lemma_pow2_strictly_increases((i + 1) as nat, k as nat);
                }
            }
            return None;
        }
        proof {
            lemma_pow2_unfold((i + 1) as nat);
        }
        p = p * 2;
        i += 1;
    }
    Some(p)
}

} // verus!
