use vstd::prelude::*;

verus! {

// ---------------------------------------------------------------------------
// Lexicographic order on character sequences.
//
// The aggregate ordering breaks score ties by song name ascending, comparing
// the raw characters (code points), with no locale awareness.
// ---------------------------------------------------------------------------

/// `a` is lexicographically at most `b`, by code point.
pub open spec fn lex_le(a: Seq<char>, b: Seq<char>) -> bool
    decreases a.len(),
{
    if a.len() == 0 {
        true
    } else if b.len() == 0 {
        false
    } else if (a[0] as u32) < (b[0] as u32) {
        true
    } else if (a[0] as u32) > (b[0] as u32) {
        false
    } else {
        lex_le(a.drop_first(), b.drop_first())
    }
}

pub proof fn lemma_lex_le_total(a: Seq<char>, b: Seq<char>)
    ensures
        lex_le(a, b) || lex_le(b, a),
    decreases a.len(),
{
    if a.len() == 0 || b.len() == 0 {
    } else if (a[0] as u32) == (b[0] as u32) {
        lemma_lex_le_total(a.drop_first(), b.drop_first());
    }
}

pub proof fn lemma_lex_le_trans(a: Seq<char>, b: Seq<char>, c: Seq<char>)
    requires
        lex_le(a, b),
        lex_le(b, c),
    ensures
        lex_le(a, c),
    decreases a.len(),
{
    if a.len() == 0 || b.len() == 0 || c.len() == 0 {
    } else if (a[0] as u32) == (b[0] as u32) && (b[0] as u32) == (c[0] as u32) {
        lemma_lex_le_trans(a.drop_first(), b.drop_first(), c.drop_first());
    }
}

/// Compares two strings lexicographically by code point.
pub fn str_lex_le(a: &str, b: &str) -> (r: bool)
    ensures
        r == lex_le(a@, b@),
{
    let a_len = a.unicode_len();
    let b_len = b.unicode_len();
    let mut i: usize = 0;
    assert(a@.skip(0) =~= a@);
    assert(b@.skip(0) =~= b@);
    loop
        invariant
            i <= a_len,
            i <= b_len,
            a_len == a@.len(),
            b_len == b@.len(),
            lex_le(a@, b@) == lex_le(a@.skip(i as int), b@.skip(i as int)),
        decreases a_len - i,
    {
        if i == a_len {
            assert(a@.skip(i as int).len() == 0);
            return true;
        }
        if i == b_len {
            assert(b@.skip(i as int).len() == 0);
            assert(a@.skip(i as int).len() > 0);
            return false;
        }
        let ca = a.get_char(i);
        let cb = b.get_char(i);
        assert(a@.skip(i as int)[0] == a@[i as int]);
        assert(b@.skip(i as int)[0] == b@[i as int]);
        if (ca as u32) < (cb as u32) {
            return true;
        }
        if (ca as u32) > (cb as u32) {
            return false;
        }
        assert(a@.skip(i as int).drop_first() =~= a@.skip(i + 1));
        assert(b@.skip(i as int).drop_first() =~= b@.skip(i + 1));
        i = i + 1;
    }
}

// ---------------------------------------------------------------------------
// The aggregate score.
//
// A song ranked by `c` users with rank sum `s` scores
//     c + (3/20) * (11 - s/c),
// popularity first, nudged by average placement.  The score equals the exact
// rational (20*c*c + 33*c - 3*s) / (20*c), so two scores compare by
// cross-multiplying the numerators with the opposite counts.
// ---------------------------------------------------------------------------

/// Numerator of the score of a song with `c` rankings summing to `s`,
/// over the common denominator `20 * c`.
pub open spec fn score_num(c: int, s: int) -> int {
    20 * c * c + 33 * c - 3 * s
}

/// The score of `(c1, s1)` is strictly below the score of `(c2, s2)`.
/// Meaningful when both counts are positive.
pub open spec fn score_lt(c1: int, s1: int, c2: int, s2: int) -> bool {
    score_num(c1, s1) * c2 < score_num(c2, s2) * c1
}

/// The two scores are equal.
pub open spec fn score_eq(c1: int, s1: int, c2: int, s2: int) -> bool {
    score_num(c1, s1) * c2 == score_num(c2, s2) * c1
}

/// Largest ranking-row count the store accepts.  Keeps the score
/// cross-products within 128-bit arithmetic.
pub open spec fn spec_ranking_capacity() -> int {
    0x4000_0000
}

/// A `(count, sum)` pair that can come out of the store: at least one
/// ranking, each rank between 1 and 10.
pub open spec fn score_input(c: int, s: int) -> bool {
    1 <= c <= spec_ranking_capacity() && c <= s <= 10 * c
}

proof fn lemma_mul_le_bound(a: int, b: int, bound_a: int, bound_b: int)
    by (nonlinear_arith)
    requires
        0 <= a <= bound_a,
        0 <= b <= bound_b,
    ensures
        a * b <= bound_a * bound_b,
{
}

proof fn lemma_score_num_bounds(c: int, s: int)
    by (nonlinear_arith)
    requires
        score_input(c, s),
    ensures
        0 < score_num(c, s),
        score_num(c, s) <= 21 * spec_ranking_capacity() * spec_ranking_capacity(),
{
}

/// The two cross-products that compare the scores of `(c1, s1)` and
/// `(c2, s2)`: the first belongs to the first score.
pub fn score_cross(c1: u64, s1: u64, c2: u64, s2: u64) -> (r: (u128, u128))
    requires
        score_input(c1 as int, s1 as int),
        score_input(c2 as int, s2 as int),
    ensures
        r.0 == score_num(c1 as int, s1 as int) * (c2 as int),
        r.1 == score_num(c2 as int, s2 as int) * (c1 as int),
{
    proof {
        lemma_score_num_bounds(c1 as int, s1 as int);
        lemma_score_num_bounds(c2 as int, s2 as int);
        lemma_mul_le_bound(c1 as int, c1 as int, 0x4000_0000, 0x4000_0000);
        lemma_mul_le_bound(c2 as int, c2 as int, 0x4000_0000, 0x4000_0000);
        lemma_mul_le_bound(
            score_num(c1 as int, s1 as int),
            c2 as int,
            (21 * 0x4000_0000 * 0x4000_0000) as int,
            0x4000_0000,
        );
        lemma_mul_le_bound(
            score_num(c2 as int, s2 as int),
            c1 as int,
            (21 * 0x4000_0000 * 0x4000_0000) as int,
            0x4000_0000,
        );
    }
    let n1: u128 = 20 * (c1 as u128) * (c1 as u128) + 33 * (c1 as u128) - 3 * (s1 as u128);
    let n2: u128 = 20 * (c2 as u128) * (c2 as u128) + 33 * (c2 as u128) - 3 * (s2 as u128);
    (n1 * (c2 as u128), n2 * (c1 as u128))
}

// ---------------------------------------------------------------------------
// Transitivity of the score comparison.  Comparing rationals n/c by
// cross-multiplication is transitive because the counts are positive.
// ---------------------------------------------------------------------------

proof fn lemma_frac_le_trans(na: int, ca: int, nb: int, cb: int, nc: int, cc: int)
    by (nonlinear_arith)
    requires
        ca > 0,
        cb > 0,
        cc > 0,
        na * cb <= nb * ca,
        nb * cc <= nc * cb,
    ensures
        na * cc <= nc * ca,
{
}

proof fn lemma_frac_lt_trans(na: int, ca: int, nb: int, cb: int, nc: int, cc: int)
    by (nonlinear_arith)
    requires
        ca > 0,
        cb > 0,
        cc > 0,
        na * cb < nb * ca,
        nb * cc <= nc * cb,
    ensures
        na * cc < nc * ca,
{
}

proof fn lemma_frac_lt_trans_right(na: int, ca: int, nb: int, cb: int, nc: int, cc: int)
    by (nonlinear_arith)
    requires
        ca > 0,
        cb > 0,
        cc > 0,
        na * cb <= nb * ca,
        nb * cc < nc * cb,
    ensures
        na * cc < nc * ca,
{
}

pub proof fn lemma_score_lt_trans(c1: int, s1: int, c2: int, s2: int, c3: int, s3: int)
    requires
        c1 > 0,
        c2 > 0,
        c3 > 0,
        score_lt(c1, s1, c2, s2),
        !score_lt(c3, s3, c2, s2),
    ensures
        score_lt(c1, s1, c3, s3),
{
    // score(c1,s1) < score(c2,s2) <= score(c3,s3)
    lemma_frac_lt_trans(
        score_num(c1, s1),
        c1,
        score_num(c2, s2),
        c2,
        score_num(c3, s3),
        c3,
    );
}

pub proof fn lemma_score_lt_trans_left(c1: int, s1: int, c2: int, s2: int, c3: int, s3: int)
    requires
        c1 > 0,
        c2 > 0,
        c3 > 0,
        !score_lt(c2, s2, c1, s1),
        score_lt(c2, s2, c3, s3),
    ensures
        score_lt(c1, s1, c3, s3),
{
    // score(c1,s1) <= score(c2,s2) < score(c3,s3)
    lemma_frac_lt_trans_right(
        score_num(c1, s1),
        c1,
        score_num(c2, s2),
        c2,
        score_num(c3, s3),
        c3,
    );
}

pub proof fn lemma_score_eq_trans(c1: int, s1: int, c2: int, s2: int, c3: int, s3: int)
    requires
        c1 > 0,
        c2 > 0,
        c3 > 0,
        score_eq(c1, s1, c2, s2),
        score_eq(c2, s2, c3, s3),
    ensures
        score_eq(c1, s1, c3, s3),
{
    lemma_frac_le_trans(
        score_num(c1, s1),
        c1,
        score_num(c2, s2),
        c2,
        score_num(c3, s3),
        c3,
    );
    lemma_frac_le_trans(
        score_num(c3, s3),
        c3,
        score_num(c2, s2),
        c2,
        score_num(c1, s1),
        c1,
    );
}

} // verus!
