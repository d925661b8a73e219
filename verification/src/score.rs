use vstd::prelude::*;
use crate::text::max_chars;

verus! {

/// Length of a longest common subsequence of `a` and `b`.
pub open spec fn lcs(a: Seq<char>, b: Seq<char>) -> nat
    decreases a.len() + b.len(),
{
    if a.len() == 0 || b.len() == 0 {
        0
    } else if a.last() == b.last() {
        lcs(a.drop_last(), b.drop_last()) + 1
    } else {
        let x = lcs(a.drop_last(), b);
        let y = lcs(a, b.drop_last());
        if x >= y { x } else { y }
    }
}

/// The Indel distance: the fewest insertions and deletions that turn `a` into `b`.
pub open spec fn indel(a: Seq<char>, b: Seq<char>) -> int {
    a.len() + b.len() - 2 * lcs(a, b)
}

pub proof fn lemma_lcs_bounds(a: Seq<char>, b: Seq<char>)
    ensures
        lcs(a, b) <= a.len(),
        lcs(a, b) <= b.len(),
    decreases a.len() + b.len(),
{
    if a.len() > 0 && b.len() > 0 {
        lemma_lcs_bounds(a.drop_last(), b.drop_last());
        lemma_lcs_bounds(a.drop_last(), b);
        lemma_lcs_bounds(a, b.drop_last());
    }
}

pub proof fn lemma_lcs_symmetric(a: Seq<char>, b: Seq<char>)
    ensures
        lcs(a, b) == lcs(b, a),
    decreases a.len() + b.len(),
{
    if a.len() > 0 && b.len() > 0 {
        lemma_lcs_symmetric(a.drop_last(), b.drop_last());
        lemma_lcs_symmetric(a.drop_last(), b);
        lemma_lcs_symmetric(a, b.drop_last());
    }
}

pub proof fn lemma_lcs_self(a: Seq<char>)
    ensures
        lcs(a, a) == a.len(),
    decreases a.len(),
{
    if a.len() > 0 {
        lemma_lcs_self(a.drop_last());
    }
}

/// Trusted: calls `rapidfuzz::distance::indel::distance` on the characters of `a`
/// and `b`. The contract claims what the crate documents: the result is the Indel
/// distance, the fewest insertions and deletions that turn one sequence into the
/// other, which equals `|a| + |b| - 2 * LCS(a, b)`. The sum of the lengths must fit
/// in a `usize`, as the crate adds them.
#[verifier::external_body]
fn indel_distance(a: &Vec<char>, b: &Vec<char>) -> (d: usize)
    requires
        a@.len() + b@.len() <= usize::MAX,
    ensures
        d == indel(a@, b@),
{
    rapidfuzz::distance::indel::distance(a.iter().copied(), b.iter().copied())
}

/// A similarity score in `[0, 1]`, kept as the exact fraction `num / den`.
#[derive(Clone, Copy, Debug)]
pub struct Score {
    pub num: u128,
    pub den: u128,
}

impl Score {
    pub open spec fn wf(self) -> bool {
        0 < self.den && self.num <= self.den
    }

    /// `self < other` as fractions.
    pub open spec fn lt(self, other: Score) -> bool {
        self.num * other.den < other.num * self.den
    }

    /// `self == other` as fractions.
    pub open spec fn same(self, other: Score) -> bool {
        self.num * other.den == other.num * self.den
    }
}

/// The numerator and denominator of `rapidfuzz::fuzz::ratio(a, b)`:
/// `1 - indel(a, b) / (|a| + |b|)`, which is `1` when both are empty.
pub open spec fn ratio_spec(a: Seq<char>, b: Seq<char>) -> (int, int) {
    let total: int = a.len() as int + b.len() as int;
    if total == 0 {
        (1, 1)
    } else {
        (total - indel(a, b), total)
    }
}

pub open spec fn score_of(p: (int, int)) -> Score {
    Score { num: p.0 as u128, den: p.1 as u128 }
}

/// The normalized Indel similarity of `a` and `b`, as `rapidfuzz::fuzz::ratio` defines it.
pub fn ratio(a: &Vec<char>, b: &Vec<char>) -> (res: Score)
    requires
        a@.len() <= max_chars(),
        b@.len() <= max_chars(),
    ensures
        res.num == ratio_spec(a@, b@).0,
        res.den == ratio_spec(a@, b@).1,
        res.wf(),
        res.den <= 2 * max_chars(),
{
    assert(isize::MAX >= 0x7fff_ffff);
    proof {
        lemma_lcs_bounds(a@, b@);
    }
    let total = a.len() + b.len();
    if total == 0 {
        return Score { num: 1, den: 1 };
    }
    let d = indel_distance(a, b);
    Score { num: (total - d) as u128, den: total as u128 }
}

proof fn lemma_div_order(p: int, q: int, r: int, s: int)
    requires
        q > 0,
        s > 0,
        p >= 0,
        r >= 0,
    ensures
        p / q < r / s ==> p * s < r * q,
        p / q == r / s ==> (p * s < r * q <==> (p % q) * s < (r % s) * q),
{
    let a = p / q;
    let c = r / s;
    let p2 = p % q;
    let r2 = r % s;
    assert(p == q * a + p2 && 0 <= p2 < q) by (nonlinear_arith)
        requires q > 0, a == p / q, p2 == p % q;
    assert(r == s * c + r2 && 0 <= r2 < s) by (nonlinear_arith)
        requires s > 0, c == r / s, r2 == r % s;
    if a < c {
        assert(p * s < r * q) by (nonlinear_arith)
            requires p == q * a + p2, 0 <= p2 < q, r == s * c + r2, 0 <= r2, a < c, q > 0, s > 0;
    }
    if a == c {
        assert(p * s - r * q == p2 * s - r2 * q) by (nonlinear_arith)
            requires p == q * a + p2, r == s * c + r2, a == c;
    }
}

/// Decides `p / q < r / s` without forming the products `p * s` and `r * q`.
pub fn frac_lt(p: u128, q: u128, r: u128, s: u128) -> (res: bool)
    requires
        q > 0,
        s > 0,
    ensures
        res == (p * s < r * q),
    decreases q + s,
{
    let a = p / q;
    let c = r / s;
    proof {
        lemma_div_order(p as int, q as int, r as int, s as int);
        lemma_div_order(r as int, s as int, p as int, q as int);
    }
    if a != c {
        return a < c;
    }
    let p2 = p % q;
    let r2 = r % s;
    assert(p2 as int == (p as int) % (q as int));
    assert(r2 as int == (r as int) % (s as int));
    if r2 == 0 {
        assert((p2 as int) * (s as int) >= 0 && (r2 as int) * (q as int) == 0) by (nonlinear_arith)
            requires p2 >= 0, s > 0, r2 == 0;
        return false;
    }
    if p2 == 0 {
        assert((r2 as int) * (q as int) > 0 && (p2 as int) * (s as int) == 0) by (nonlinear_arith)
            requires r2 > 0, q > 0, p2 == 0;
        return true;
    }
    assert(p2 * s == s * p2 && r2 * q == q * r2) by (nonlinear_arith);
    frac_lt(s, r2, q, p2)
}

/// Whether `x < y` as fractions.
pub fn score_lt(x: Score, y: Score) -> (res: bool)
    requires
        x.den > 0,
        y.den > 0,
    ensures
        res == x.lt(y),
{
    frac_lt(x.num, x.den, y.num, y.den)
}

/// The larger of two scores; `x` when they are equal, as `f64::max` gives either.
pub open spec fn max_spec(x: Score, y: Score) -> Score {
    if x.lt(y) { y } else { x }
}

pub fn score_max(x: Score, y: Score) -> (res: Score)
    requires
        x.den > 0,
        y.den > 0,
    ensures
        res == max_spec(x, y),
{
    if score_lt(x, y) { y } else { x }
}

/// `0.7 * a + 0.3 * b`, exactly.
pub open spec fn weighted_spec(a: Score, b: Score) -> Score {
    Score {
        num: (7 * (a.num * b.den) + 3 * (b.num * a.den)) as u128,
        den: (10 * (a.den * b.den)) as u128,
    }
}

pub fn weighted(a: Score, b: Score) -> (res: Score)
    requires
        a.wf(),
        b.wf(),
        a.den <= 2 * max_chars(),
        b.den <= 2 * max_chars(),
    ensures
        res == weighted_spec(a, b),
        res.wf(),
{
    assert(isize::MAX <= 0x7fff_ffff_ffff_ffff);
    let bound: u128 = 0x8000_0000_0000_0000;
    assert(a.den <= bound / 2 && b.den <= bound / 2);
    assert(a.den * b.den <= 0x1000_0000_0000_0000_0000_0000_0000_0000) by (nonlinear_arith)
        requires a.den <= 0x4000_0000_0000_0000, b.den <= 0x4000_0000_0000_0000;
    assert(a.num * b.den <= a.den * b.den) by (nonlinear_arith)
        requires a.num <= a.den;
    assert(b.num * a.den <= a.den * b.den) by (nonlinear_arith)
        requires b.num <= b.den;
    assert(a.den * b.den > 0) by (nonlinear_arith)
        requires a.den > 0, b.den > 0;
    let x = a.num * b.den;
    let y = b.num * a.den;
    let z = a.den * b.den;
    Score { num: 7 * x + 3 * y, den: 10 * z }
}

/// Whether `x >= threshold` as fractions.
pub fn reaches(x: Score, threshold: Score) -> (res: bool)
    requires
        x.den > 0,
        threshold.den > 0,
    ensures
        res == !x.lt(threshold),
{
    !score_lt(x, threshold)
}


// ---------------------------------------------------------------------------
// Order of scores.

/// `a <= b < c` gives `a < c`.
pub proof fn lemma_le_lt(a: Score, b: Score, c: Score)
    requires
        a.den > 0,
        b.den > 0,
        c.den > 0,
        !b.lt(a),
        b.lt(c),
    ensures
        a.lt(c),
{
    let (an, ad, bn, bd, cn, cd) = (a.num as int, a.den as int, b.num as int, b.den as int, c.num as int, c.den as int);
    assert(an * cd < cn * ad) by (nonlinear_arith)
        requires an * bd <= bn * ad, bn * cd < cn * bd, ad > 0, bd > 0, cd > 0, an >= 0, bn >= 0, cn >= 0;
}

/// `a < b <= c` gives `a < c`.
pub proof fn lemma_lt_le(a: Score, b: Score, c: Score)
    requires
        a.den > 0,
        b.den > 0,
        c.den > 0,
        a.lt(b),
        !c.lt(b),
    ensures
        a.lt(c),
{
    let (an, ad, bn, bd, cn, cd) = (a.num as int, a.den as int, b.num as int, b.den as int, c.num as int, c.den as int);
    assert(an * cd < cn * ad) by (nonlinear_arith)
        requires an * bd < bn * ad, cn * bd >= bn * cd, ad > 0, bd > 0, cd > 0, an >= 0, bn >= 0, cn >= 0;
}

} // verus!
