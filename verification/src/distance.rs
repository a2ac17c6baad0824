//! Normalized edit-distance similarity between strings.
//!
//! The similarity of two strings is `(L - d) / L` where `d` is the
//! Levenshtein distance between them and `L` the greater of their lengths
//! (in Unicode scalar values).  It ranges from 0 (nothing alike) to 1
//! (identical).  To keep the arithmetic exact, a score is kept as the
//! fraction's integer numerator and denominator rather than as a float.
use vstd::prelude::*;

verus! {

/// Least of three naturals.
pub open spec fn min3(a: nat, b: nat, c: nat) -> nat {
    if a <= b && a <= c {
        a
    } else if b <= c {
        b
    } else {
        c
    }
}

/// Greater of two naturals.
pub open spec fn max2(a: nat, b: nat) -> nat {
    if a >= b {
        a
    } else {
        b
    }
}

/// The classic Levenshtein distance: the least number of single-character
/// insertions, deletions and substitutions (unit cost each) that turn `a`
/// into `b`.
pub open spec fn spec_levenshtein(a: Seq<char>, b: Seq<char>) -> nat
    decreases a.len() + b.len(),
{
    if a.len() == 0 {
        b.len()
    } else if b.len() == 0 {
        a.len()
    } else {
        let cost: nat = if a[0] == b[0] {
            0
        } else {
            1
        };
        min3(
            spec_levenshtein(a.drop_first(), b) + 1,
            spec_levenshtein(a, b.drop_first()) + 1,
            spec_levenshtein(a.drop_first(), b.drop_first()) + cost,
        )
    }
}

/// The number of positions at which two strings hold different characters,
/// counted over their common prefix length.  For strings of equal length
/// this is the Hamming distance.
pub open spec fn spec_hamming(a: Seq<char>, b: Seq<char>) -> nat
    decreases a.len(),
{
    if a.len() == 0 || b.len() == 0 {
        0
    } else {
        (if a[0] == b[0] {
            0nat
        } else {
            1nat
        }) + spec_hamming(a.drop_first(), b.drop_first())
    }
}

/// Denominator of the similarity score: the greater length, or 1 when both
/// strings are empty (two empty strings are identical, similarity 1/1).
pub open spec fn sim_den(a: Seq<char>, b: Seq<char>) -> nat {
    if max2(a.len(), b.len()) == 0 {
        1
    } else {
        max2(a.len(), b.len())
    }
}

/// Numerator of the similarity score: greater length minus the Levenshtein
/// distance (the distance never exceeds the greater length).
pub open spec fn sim_num(a: Seq<char>, b: Seq<char>) -> nat {
    let l = max2(a.len(), b.len());
    if l == 0 {
        1
    } else if spec_levenshtein(a, b) <= l {
        (l - spec_levenshtein(a, b)) as nat
    } else {
        0
    }
}

/// The fixed inclusive threshold above which a candidate counts as a
/// probable typo: similarity at least 7/10.
pub open spec fn meets_threshold(a: Seq<char>, b: Seq<char>) -> bool {
    10 * sim_num(a, b) >= 7 * sim_den(a, b)
}

/// `sim(a1, b1) <= sim(a2, b2)`, compared exactly by cross-multiplication.
pub open spec fn sim_le(a1: Seq<char>, b1: Seq<char>, a2: Seq<char>, b2: Seq<char>) -> bool {
    sim_num(a1, b1) * sim_den(a2, b2) <= sim_num(a2, b2) * sim_den(a1, b1)
}

/// `sim(a1, b1) < sim(a2, b2)`, compared exactly by cross-multiplication.
pub open spec fn sim_lt(a1: Seq<char>, b1: Seq<char>, a2: Seq<char>, b2: Seq<char>) -> bool {
    sim_num(a1, b1) * sim_den(a2, b2) < sim_num(a2, b2) * sim_den(a1, b1)
}

pub proof fn lemma_levenshtein_self(a: Seq<char>)
    ensures
        spec_levenshtein(a, a) == 0,
    decreases a.len(),
{
    if a.len() != 0 {
        lemma_levenshtein_self(a.drop_first());
    }
}

pub proof fn lemma_levenshtein_zero(a: Seq<char>, b: Seq<char>)
    ensures
        spec_levenshtein(a, b) == 0 <==> a == b,
    decreases a.len() + b.len(),
{
    if a == b {
        lemma_levenshtein_self(a);
    } else if a.len() != 0 && b.len() != 0 {
        lemma_levenshtein_zero(a.drop_first(), b.drop_first());
        if spec_levenshtein(a, b) == 0 {
            assert(a[0] == b[0] && spec_levenshtein(a.drop_first(), b.drop_first()) == 0);
            assert(a.drop_first() == b.drop_first());
            assert(a.len() == b.len());
            assert forall|i: int| 0 <= i < a.len() implies a[i] == b[i] by {
                if i > 0 {
                    assert(a[i] == a.drop_first()[i - 1]);
                    assert(b[i] == b.drop_first()[i - 1]);
                }
            }
            assert(a =~= b);
        }
    } else {
        if a.len() == 0 && b.len() == 0 {
            assert(a =~= b);
        }
    }
}

pub proof fn lemma_levenshtein_le_max(a: Seq<char>, b: Seq<char>)
    ensures
        spec_levenshtein(a, b) <= max2(a.len(), b.len()),
    decreases a.len() + b.len(),
{
    if a.len() != 0 && b.len() != 0 {
        lemma_levenshtein_le_max(a.drop_first(), b.drop_first());
    }
}

pub proof fn lemma_levenshtein_le_hamming(a: Seq<char>, b: Seq<char>)
    requires
        a.len() == b.len(),
    ensures
        spec_levenshtein(a, b) <= spec_hamming(a, b),
    decreases a.len(),
{
    if a.len() != 0 {
        lemma_levenshtein_le_hamming(a.drop_first(), b.drop_first());
    }
}

pub proof fn lemma_hamming_self(a: Seq<char>)
    ensures
        spec_hamming(a, a) == 0,
    decreases a.len(),
{
    if a.len() != 0 {
        lemma_hamming_self(a.drop_first());
    }
}

/// An exact similarity score: numerator over denominator, both exact
/// integers so that the 7/10 threshold and score comparisons need no
/// floating point.
#[derive(PartialEq, Eq, Debug, Clone, Copy)]
pub struct Similarity {
    pub num: usize,
    pub den: usize,
}

impl Similarity {
    /// A score is a fraction in [0, 1] with a positive denominator.
    pub open spec fn wf(self) -> bool {
        0 < self.den && self.num <= self.den
    }

    /// Whether this is the score of identical strings (similarity 1.0).
    pub fn is_exact(&self) -> (r: bool)
        ensures
            r == (self.num == self.den),
    {
        self.num == self.den
    }

    /// Whether the score is at least the typo threshold of 7/10
    /// (inclusive).
    pub fn meets_threshold(&self) -> (r: bool)
        ensures
            r == (10 * self.num >= 7 * self.den),
    {
        10 * (self.num as u128) >= 7 * (self.den as u128)
    }

    /// Whether this score is strictly greater than `other`, compared
    /// exactly by cross-multiplication.
    pub fn exceeds(&self, other: &Similarity) -> (r: bool)
        ensures
            r == (self.num * other.den > other.num * self.den),
    {
        let a = self.num as u128;
        let b = other.den as u128;
        let c = other.num as u128;
        let d = self.den as u128;
        proof {
            lemma_u64_mul_fits(a, b);
            lemma_u64_mul_fits(c, d);
        }
        a * b > c * d
    }
}

/// Transitivity of exact fraction comparison: if `n1/d1 <= n2/d2` and
/// `n2/d2 < n3/d3` then `n1/d1 < n3/d3`.
pub proof fn lemma_frac_le_lt(n1: nat, d1: nat, n2: nat, d2: nat, n3: nat, d3: nat)
    requires
        0 < d1,
        0 < d2,
        0 < d3,
        n1 * d2 <= n2 * d1,
        n2 * d3 < n3 * d2,
    ensures
        n1 * d3 < n3 * d1,
{
    assert(n1 * d3 < n3 * d1) by (nonlinear_arith)
        requires
            0 < d1,
            0 < d2,
            0 < d3,
            n1 * d2 <= n2 * d1,
            n2 * d3 < n3 * d2,
    ;
}

/// A fraction below the 7/10 threshold is strictly smaller than one at
/// or above it.
pub proof fn lemma_threshold_gap(n1: nat, d1: nat, n2: nat, d2: nat)
    requires
        0 < d1,
        0 < d2,
        10 * n1 < 7 * d1,
        10 * n2 >= 7 * d2,
    ensures
        n1 * d2 < n2 * d1,
{
    assert(n1 * d2 < n2 * d1) by (nonlinear_arith)
        requires
            0 < d1,
            0 < d2,
            10 * n1 < 7 * d1,
            10 * n2 >= 7 * d2,
    ;
}

/// A similarity score's numerator equals its denominator exactly for
/// identical strings.
pub proof fn lemma_similarity_exact(a: Seq<char>, b: Seq<char>)
    ensures
        (sim_num(a, b) == sim_den(a, b)) <==> a == b,
{
    lemma_levenshtein_le_max(a, b);
    lemma_levenshtein_zero(a, b);
    if max2(a.len(), b.len()) == 0 {
        assert(a =~= b);
    }
}

/// The product of two values that fit in 64 bits fits in 128 bits.
proof fn lemma_u64_mul_fits(a: u128, b: u128)
    requires
        a <= 0xFFFF_FFFF_FFFF_FFFF,
        b <= 0xFFFF_FFFF_FFFF_FFFF,
    ensures
        a * b <= 0xFFFF_FFFF_FFFF_FFFF * 0xFFFF_FFFF_FFFF_FFFF,
{
    assert(a * b <= 0xFFFF_FFFF_FFFF_FFFF * 0xFFFF_FFFF_FFFF_FFFF) by (nonlinear_arith)
        requires
            a <= 0xFFFF_FFFF_FFFF_FFFF,
            b <= 0xFFFF_FFFF_FFFF_FFFF,
    ;
}

/// Relies on levenshtein::levenshtein: the Levenshtein distance between
/// the character sequences of `a` and `b`, with unit-cost insertions,
/// deletions and substitutions.
#[verifier::external_body]
fn levenshtein_distance(a: &str, b: &str) -> (r: usize)
    ensures
        r == spec_levenshtein(a@, b@),
{
    levenshtein::levenshtein(a, b)
}

/// How similar two strings are, as an exact fraction between 0 and 1:
///
/// * 0 means the two strings are nothing alike
/// * 1 means the two strings are identical
pub fn edit_distance_similarity(a: &str, b: &str) -> (r: Similarity)
    ensures
        r.num == sim_num(a@, b@),
        r.den == sim_den(a@, b@),
        r.wf(),
{
    let d = levenshtein_distance(a, b);
    let la = a.unicode_len();
    let lb = b.unicode_len();
    let l = if la >= lb {
        la
    } else {
        lb
    };
    if l == 0 {
        Similarity { num: 1, den: 1 }
    } else {
        proof {
            lemma_levenshtein_le_max(a@, b@);
        }
        Similarity { num: l - d, den: l }
    }
}

/// Law: every string has similarity 1.0 with itself — the score's
/// numerator equals its denominator.
pub proof fn lemma_similarity_self(a: Seq<char>)
    ensures
        sim_num(a, a) == sim_den(a, a),
{
    lemma_levenshtein_self(a);
}

/// Strings that differ at exactly the one position `i` have Hamming
/// distance 1.
proof fn lemma_hamming_single(a: Seq<char>, b: Seq<char>, i: int)
    requires
        a.len() == b.len(),
        0 <= i < a.len(),
        a[i] != b[i],
        forall|j: int| 0 <= j < a.len() && j != i ==> a[j] == b[j],
    ensures
        spec_hamming(a, b) == 1,
    decreases a.len(),
{
    if i == 0 {
        assert(a.drop_first() =~= b.drop_first());
        lemma_hamming_self(a.drop_first());
    } else {
        assert(a[0] == b[0]);
        assert forall|j: int|
            0 <= j < a.drop_first().len() && j != i - 1 implies a.drop_first()[j]
            == b.drop_first()[j] by {
            assert(a.drop_first()[j] == a[j + 1]);
            assert(b.drop_first()[j] == b[j + 1]);
        }
        assert(a.drop_first()[i - 1] != b.drop_first()[i - 1]);
        lemma_hamming_single(a.drop_first(), b.drop_first(), i - 1);
    }
}

/// Law: two strings of equal length that differ in exactly one character
/// position (`i`) have similarity (len - 1) / len.
pub proof fn lemma_similarity_one_substitution(a: Seq<char>, b: Seq<char>, i: int)
    requires
        a.len() == b.len(),
        0 <= i < a.len(),
        a[i] != b[i],
        forall|j: int| 0 <= j < a.len() && j != i ==> a[j] == b[j],
    ensures
        sim_den(a, b) == a.len(),
        sim_num(a, b) == a.len() - 1,
{
    lemma_hamming_single(a, b, i);
    lemma_levenshtein_le_hamming(a, b);
    lemma_levenshtein_le_max(a, b);
    if spec_levenshtein(a, b) == 0 {
        lemma_levenshtein_zero(a, b);
        lemma_hamming_self(a);
    }
}

} // verus!
