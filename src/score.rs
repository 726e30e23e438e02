//! Trust score from the number of attestation paths at each depth.
//!
//! `counts[i]` is the number of distinct paths of depth `i + 1` that reach an
//! identity. A direct contact (`counts[0] == 1`) scores one; otherwise each
//! depth `i` with `c` paths adds `2^-i * (1 - 2^-c)`.
//!
//! Scores are fixed-point numbers with `SCORE_BITS` fractional bits:
//! `SCORE_ONE` stands for 1.0, and each depth's share is rounded down.
use vstd::arithmetic::div_mod::{lemma_basic_div, lemma_div_multiples_vanish, lemma_fundamental_div_mod_converse};
use vstd::arithmetic::power2::{lemma_pow2_adds, lemma_pow2_pos, lemma_pow2_strictly_increases, lemma_pow2_unfold, pow2};
use vstd::bits::{lemma_u64_pow2_no_overflow, lemma_u64_shl_is_mul};
use vstd::prelude::*;

verus! {

/// Number of fractional bits in a score.
pub const SCORE_BITS: u64 = 62;

/// The score 1.0.
pub const SCORE_ONE: u64 = 0x4000_0000_0000_0000;

/// Share of depth index `i` reached by `c` paths: `2^-i * (1 - 2^-c)`, in
/// units of `2^-62`, rounded down.
pub open spec fn depth_term(i: nat, c: nat) -> nat {
    (((pow2(c) - 1) * pow2(62)) as nat / pow2(i + c)) as nat
}

/// Sum of the shares of the first `n` depths.
pub open spec fn depth_sum(counts: Seq<usize>, n: nat) -> nat
    decreases n,
{
    if n == 0 {
        0
    } else {
        depth_sum(counts, (n - 1) as nat) + depth_term((n - 1) as nat, counts[n - 1] as nat)
    }
}

/// The trust score of a sequence of path counts.
pub open spec fn score_of(counts: Seq<usize>) -> nat {
    if counts.len() > 0 && counts[0] == 1 {
        pow2(62)
    } else {
        depth_sum(counts, counts.len())
    }
}

/// The share of a depth, case by case.
proof fn lemma_depth_term_cases(i: nat, c: nat)
    ensures
        c == 0 ==> depth_term(i, c) == 0,
        c > 0 && i > 62 ==> depth_term(i, c) == 0,
        c > 0 && i + c <= 62 ==> depth_term(i, c) == pow2((62 - i) as nat) - pow2(
            (62 - i - c) as nat,
        ),
        c > 0 && i <= 62 && i + c > 62 ==> depth_term(i, c) == pow2((62 - i) as nat) - 1,
{
    lemma_pow2_pos(c);
    lemma_pow2_pos(i + c);
    lemma_pow2_pos(62);
    let n: int = (pow2(c) - 1) * pow2(62);
    let d: int = pow2(i + c) as int;
    if c == 0 {
        vstd::arithmetic::power2::lemma2_to64();
        assert(n == 0) by (nonlinear_arith)
            requires
                n == (pow2(c) - 1) * pow2(62),
                pow2(c) == 1,
        ;
        lemma_basic_div(0, d);
    } else if i > 62 {
        lemma_pow2_adds(c, 62);
        lemma_pow2_strictly_increases(c + 62, i + c);
        assert(n < pow2(c) * pow2(62)) by (nonlinear_arith)
            requires
                n == (pow2(c) - 1) * pow2(62),
                pow2(62) > 0,
        ;
        lemma_basic_div(n, d);
    } else if i + c <= 62 {
        let k: nat = (62 - i - c) as nat;
        lemma_pow2_adds(i + c, k);
        lemma_pow2_adds(c, k);
        assert(i + c + k == 62);
        assert(c + k == 62 - i);
        let q: int = (pow2(c) - 1) * pow2(k);
        assert(n == d * q) by (nonlinear_arith)
            requires
                n == (pow2(c) - 1) * pow2(62),
                pow2(62) == d * pow2(k),
                q == (pow2(c) - 1) * pow2(k),
        ;
        lemma_div_multiples_vanish(q, d);
        assert(q == pow2(c) * pow2(k) - pow2(k)) by (nonlinear_arith)
            requires
                q == (pow2(c) - 1) * pow2(k),
        ;
    } else {
        let k: nat = (62 - i) as nat;
        lemma_pow2_adds(k, i + c);
        lemma_pow2_adds(c, 62);
        assert(k + (i + c) == c + 62);
        lemma_pow2_strictly_increases(62, i + c);
        lemma_pow2_pos(k);
        let q: int = pow2(k) - 1;
        let r: int = d - pow2(62);
        assert(n == q * d + r) by (nonlinear_arith)
            requires
                n == (pow2(c) - 1) * pow2(62),
                q == pow2(k) - 1,
                r == d - pow2(62),
                pow2(k) * d == pow2(c) * pow2(62),
        ;
        lemma_fundamental_div_mod_converse(n, d, q, r);
    }
}

/// A share never exceeds its depth's weight.
proof fn lemma_depth_term_cap(i: nat, c: nat)
    ensures
        i <= 62 ==> depth_term(i, c) < pow2((62 - i) as nat),
        i > 62 ==> depth_term(i, c) == 0,
{
    lemma_depth_term_cases(i, c);
    lemma_pow2_pos((62 - i) as nat);
    if c > 0 && i + c <= 62 {
        lemma_pow2_pos((62 - i - c) as nat);
    }
}

/// Beyond the first depth, the shares add up to less than one.
proof fn lemma_depth_sum_bound(counts: Seq<usize>, n: nat)
    requires
        1 <= n <= counts.len(),
    ensures
        depth_sum(counts, n) + pow2((62 - (if n - 1 <= 62 { n - 1 } else { 62 })) as nat)
            <= depth_term(0, counts[0] as nat) + pow2(62),
    decreases n,
{
    if n == 1 {
        assert(depth_sum(counts, 0) == 0);
    } else {
        lemma_depth_sum_bound(counts, (n - 1) as nat);
        let j: nat = (n - 1) as nat;
        lemma_depth_term_cap(j, counts[j as int] as nat);
        if j <= 62 {
            lemma_pow2_unfold((63 - j) as nat);
            assert((63 - j) as nat - 1 == 62 - j);
        }
    }
}

/// Running bound of the sum of the first `n` shares.
proof fn lemma_depth_sum_fits(counts: Seq<usize>, n: nat)
    requires
        n <= counts.len(),
    ensures
        depth_sum(counts, n) < pow2(63),
{
    if n > 0 {
        lemma_depth_sum_bound(counts, n);
        lemma_depth_term_cap(0, counts[0] as nat);
        lemma_pow2_unfold(63);
        lemma_pow2_pos((62 - (if n - 1 <= 62 { n - 1 } else { 62 })) as nat);
    } else {
        lemma_pow2_pos(63);
    }
}

/// The share of depth `i` reached by `c` paths.
fn depth_share(i: usize, c: usize) -> (r: u64)
    ensures
        r == depth_term(i as nat, c as nat),
{
    proof {
        lemma_depth_term_cases(i as nat, c as nat);
    }
    if c == 0 || i > 62 {
        0
    } else {
        let k = (62 - i) as u64;
        proof {
            lemma_u64_pow2_no_overflow(k as nat);
            lemma_u64_shl_is_mul(1, k);
        }
        let w: u64 = 1u64 << k;
        if c <= 62 - i {
            let m = (62 - i - c) as u64;
            proof {
                lemma_u64_pow2_no_overflow(m as nat);
                lemma_u64_shl_is_mul(1, m);
            }
            w - (1u64 << m)
        } else {
            w - 1
        }
    }
}

/// Trust score of `counts`, where `counts[i]` is the number of distinct
/// attestation paths of depth `i + 1`. A direct contact cannot be counted
/// twice, so `counts[0]` is at most one.
pub fn trust_score(counts: &[usize]) -> (r: u64)
    requires
        counts@.len() > 0 ==> counts@[0] <= 1,
    ensures
        r == score_of(counts@),
{
    if counts.len() > 0 && counts[0] == 1 {
        proof {
            lemma_pow2_adds(31, 31);
            vstd::arithmetic::power2::lemma2_to64();
        }
        return SCORE_ONE;
    }
    let mut total: u64 = 0;
    let mut i: usize = 0;
    while i < counts.len()
        invariant
            i <= counts@.len(),
            total == depth_sum(counts@, i as nat),
        decreases counts@.len() - i,
    {
        let share = depth_share(i, counts[i]);
        proof {
            lemma_depth_sum_fits(counts@, (i + 1) as nat);
            lemma_u64_pow2_no_overflow(63);
        }
        total = total + share;
        i = i + 1;
    }
    total
}

proof fn lemma_depth_term_monotone(i: nat, c1: nat, c2: nat)
    requires
        c1 <= c2,
    ensures
        depth_term(i, c1) <= depth_term(i, c2),
{
    lemma_depth_term_cases(i, c1);
    lemma_depth_term_cases(i, c2);
    if c1 > 0 && i <= 62 {
        if i + c1 <= 62 {
            lemma_pow2_pos((62 - i - c1) as nat);
            if i + c2 <= 62 && c1 < c2 {
                lemma_pow2_strictly_increases((62 - i - c2) as nat, (62 - i - c1) as nat);
            }
        }
    }
}

proof fn lemma_depth_sum_monotone(a: Seq<usize>, b: Seq<usize>, j: int, n: nat)
    requires
        a.len() == b.len(),
        n <= a.len(),
        0 <= j < a.len(),
        a[j] <= b[j],
        forall|i: int| 0 <= i < a.len() && i != j ==> a[i] == b[i],
    ensures
        depth_sum(a, n) <= depth_sum(b, n),
    decreases n,
{
    if n > 0 {
        lemma_depth_sum_monotone(a, b, j, (n - 1) as nat);
        lemma_depth_term_monotone((n - 1) as nat, a[n - 1] as nat, b[n - 1] as nat);
    }
}

/// More attestation paths at one depth never lower the score.
pub proof fn lemma_score_monotone(a: Seq<usize>, b: Seq<usize>, j: int)
    requires
        a.len() == b.len(),
        0 <= j < a.len(),
        a[j] <= b[j],
        forall|i: int| 0 <= i < a.len() && i != j ==> a[i] == b[i],
        a[0] <= 1,
        b[0] <= 1,
    ensures
        score_of(a) <= score_of(b),
{
    lemma_depth_sum_monotone(a, b, j, a.len());
    if a[0] == 0 && b[0] == 1 {
        lemma_depth_sum_bound(a, a.len());
        lemma_depth_term_cases(0, 0);
        lemma_pow2_pos((62 - (if a.len() - 1 <= 62 { a.len() - 1 } else { 62 })) as nat);
    }
}

/// For the same number of paths, a deeper depth weighs strictly less (as
/// long as its share is not rounded away).
pub proof fn lemma_deeper_weighs_less(i: nat, c: nat)
    requires
        c > 0,
        i < 62,
    ensures
        depth_term(i + 1, c) < depth_term(i, c),
{
    lemma_depth_term_cases(i, c);
    lemma_depth_term_cases(i + 1, c);
    let e: nat = (62 - i) as nat;
    lemma_pow2_unfold(e);
    assert((e - 1) as nat == 62 - (i + 1));
    let hi: nat = (62 - (i + 1)) as nat;
    assert(pow2(e) == 2 * pow2(hi));
    if c + 1 <= e {
        let lo: nat = (62 - (i + 1) - c) as nat;
        lemma_pow2_unfold((e - c) as nat);
        assert(pow2((62 - i - c) as nat) == 2 * pow2(lo));
        lemma_pow2_strictly_increases(lo, hi);
        assert(depth_term(i, c) == pow2(e) - pow2((62 - i - c) as nat));
        assert(depth_term(i + 1, c) == pow2(hi) - pow2(lo));
    } else {
        lemma_pow2_pos(hi);
        vstd::arithmetic::power2::lemma2_to64();
    }
}

} // verus!
