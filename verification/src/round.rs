//! Round arithmetic: which round a submission of `n` checkpoints belongs to.

use vstd::arithmetic::power2::{lemma2_to64, lemma_pow2_strictly_increases, lemma_pow2_unfold, pow2};
use vstd::prelude::*;

verus! {

/// The largest `k` with `2^k <= n`, and 0 for `n == 0`.
pub open spec fn floor_log2(n: nat) -> nat
    decreases n,
{
    if n <= 1 {
        0
    } else {
        1 + floor_log2(n / 2)
    }
}

/// The round of a submission that carries `n` checkpoints: round 1 for a
/// single checkpoint, and `floor(log2(n - 1)) + 2` for more.
pub open spec fn round_of(n: nat) -> nat {
    if n <= 1 {
        1
    } else {
        floor_log2((n - 1) as nat) + 2
    }
}

/// `floor_log2(n)` is the exponent of the largest power of two that is not above `n`.
pub proof fn lemma_floor_log2_bounds(n: nat)
    requires
        n >= 1,
    ensures
        pow2(floor_log2(n)) <= n < pow2(floor_log2(n) + 1),
    decreases n,
{
    lemma2_to64();
    if n > 1 {
        lemma_floor_log2_bounds(n / 2);
        lemma_pow2_unfold(floor_log2(n));
        lemma_pow2_unfold(floor_log2(n) + 1);
    }
}

/// A number between `2^k` and `2^(k+1)` has `floor_log2` equal to `k`.
pub proof fn lemma_floor_log2_unique(n: nat, k: nat)
    requires
        pow2(k) <= n < pow2(k + 1),
    ensures
        floor_log2(n) == k,
{
    vstd::arithmetic::power2::lemma_pow2_pos(k);
    lemma_floor_log2_bounds(n);
    let f = floor_log2(n);
    if f < k {
        if f + 1 < k {
            lemma_pow2_strictly_increases(f + 1, k);
        }
    } else if k < f {
        if k + 1 < f {
            lemma_pow2_strictly_increases(k + 1, f);
        }
    }
}

/// Computes `floor_log2` of a machine integer.
pub fn floor_log2_of(n: usize) -> (k: u32)
    ensures
        k == floor_log2(n as nat),
        k < 64,
{
    let mut rest: usize = n;
    let mut k: u32 = 0;
    proof {
        lemma2_to64();
        if n >= 1 {
            lemma_floor_log2_bounds(n as nat);
            if floor_log2(n as nat) > 64 {
                lemma_pow2_strictly_increases(64, floor_log2(n as nat));
            }
        }
    }
    while rest > 1
        invariant
            k + floor_log2(rest as nat) == floor_log2(n as nat),
            floor_log2(n as nat) < 64,
        decreases rest,
    {
        rest = rest / 2;
        k = k + 1;
    }
    k
}

/// The number of samples that the full round `round` asks for: 1, 2, 4, 8, ...
pub open spec fn round_span(round: nat) -> nat {
    pow2((round - 1) as nat)
}

/// Of the `n` checkpoints of a submission beyond the first round, how many
/// belong to the rounds before: all but the last `2^(round - 2)`.
pub open spec fn previous_count(n: nat) -> int {
    n - pow2(floor_log2((n - 1) as nat))
}

/// A submission of `2^(r - 1)` checkpoints is of round `r`: the doubling schedule.
pub proof fn lemma_round_of_span(round: nat)
    requires
        round >= 1,
    ensures
        round_of(round_span(round)) == round,
{
    lemma2_to64();
    if round >= 2 {
        let k = (round - 2) as nat;
        lemma_pow2_unfold(k + 1);
        vstd::arithmetic::power2::lemma_pow2_pos(k);
        lemma_floor_log2_unique((pow2(k + 1) - 1) as nat, k);
    }
}

/// A submission is of round `r >= 2` exactly when its length lies in `(2^(r-2), 2^(r-1)]`.
pub proof fn lemma_round_of_bounds(n: nat)
    requires
        n >= 2,
    ensures
        round_of(n) >= 2,
        round_span((round_of(n) - 1) as nat) < n <= round_span(round_of(n)),
        1 <= previous_count(n) < n,
{
    lemma_floor_log2_bounds((n - 1) as nat);
    vstd::arithmetic::power2::lemma_pow2_pos(floor_log2((n - 1) as nat));
}

/// The round of a submission whose length fits a machine word is at most 65.
pub proof fn lemma_round_of_fits(n: nat)
    requires
        1 <= n <= usize::MAX,
    ensures
        1 <= round_of(n) <= 65,
{
    if n >= 2 {
        lemma2_to64();
        lemma_floor_log2_bounds((n - 1) as nat);
        if floor_log2((n - 1) as nat) > 64 {
            lemma_pow2_strictly_increases(64, floor_log2((n - 1) as nat));
        }
    }
}

/// The largest power of two that is not above `m`.
pub fn largest_power_of_two_within(m: usize) -> (p: usize)
    requires
        m >= 1,
    ensures
        p == pow2(floor_log2(m as nat)),
        1 <= p <= m,
{
    let mut p: usize = 1;
    let ghost mut k: nat = 0;
    proof {
        lemma2_to64();
    }
    while p <= m / 2
        invariant
            p == pow2(k),
            1 <= p <= m,
        decreases m - p,
    {
        proof {
            lemma_pow2_unfold(k + 1);
            k = k + 1;
        }
        p = p * 2;
    }
    proof {
        lemma_pow2_unfold(k + 1);
        lemma_floor_log2_unique(m as nat, k);
    }
    p
}

/// Computes `round_of`.
pub fn round_of_length(length: usize) -> (round: u32)
    requires
        length >= 1,
    ensures
        round == round_of(length as nat),
        1 <= round <= 65,
{
    if length == 1 {
        1
    } else {
        floor_log2_of(length - 1) + 2
    }
}

/// Computes `previous_count`.
pub fn previous_count_of(length: usize) -> (count: usize)
    requires
        length >= 2,
    ensures
        count == previous_count(length as nat),
        1 <= count < length,
{
    length - largest_power_of_two_within(length - 1)
}

} // verus!
