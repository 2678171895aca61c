//! Scoring of a synthesized compound: a deterministic desirability score,
//! lower is better.  The score of a token list (fragments and glue) is
//! `1000*L - 500*A + 100*H - 10*R - V`, where `L` is the total letter
//! count, `A` the apostrophe count, `H` the glue-token count, `R` the sum
//! of the per-fragment form scores, and `V` the vowel count.

use crate::shape::{
    is_vowel, shape_ccv, shape_ccvc, shape_ccvcv, shape_cvc, shape_cvcc, shape_cvccv, shape_cvhv,
    shape_cvv,
};
use vstd::prelude::*;

verus! {

/// The views of a list of words, as a sequence of character sequences.
pub open spec fn word_views(ws: Seq<String>) -> Seq<Seq<char>> {
    ws.map_values(|w: String| w@)
}

/// The form score of a single token: the eight fragment shapes are ranked,
/// a full root scoring best and a plain vowel fragment scoring worst; any
/// other token scores zero.
pub open spec fn rafsi_form_score(s: Seq<char>) -> int {
    if shape_cvccv(s) {
        1
    } else if shape_cvcc(s) {
        2
    } else if shape_ccvcv(s) {
        3
    } else if shape_ccvc(s) {
        4
    } else if shape_cvc(s) {
        5
    } else if shape_cvhv(s) {
        6
    } else if shape_ccv(s) {
        7
    } else if shape_cvv(s) {
        8
    } else {
        0
    }
}

pub open spec fn count_vowels(s: Seq<char>) -> int
    decreases s.len(),
{
    if s.len() == 0 {
        0
    } else {
        count_vowels(s.drop_last()) + if is_vowel(s.last()) {
            1int
        } else {
            0int
        }
    }
}

pub open spec fn count_apostrophes(s: Seq<char>) -> int
    decreases s.len(),
{
    if s.len() == 0 {
        0
    } else {
        count_apostrophes(s.drop_last()) + if s.last() == '\'' {
            1int
        } else {
            0int
        }
    }
}

pub open spec fn total_len(ts: Seq<Seq<char>>) -> int
    decreases ts.len(),
{
    if ts.len() == 0 {
        0
    } else {
        total_len(ts.drop_last()) + ts.last().len()
    }
}

pub open spec fn total_vowels(ts: Seq<Seq<char>>) -> int
    decreases ts.len(),
{
    if ts.len() == 0 {
        0
    } else {
        total_vowels(ts.drop_last()) + count_vowels(ts.last())
    }
}

pub open spec fn total_apostrophes(ts: Seq<Seq<char>>) -> int
    decreases ts.len(),
{
    if ts.len() == 0 {
        0
    } else {
        total_apostrophes(ts.drop_last()) + count_apostrophes(ts.last())
    }
}

/// Glue tokens are exactly the tokens of length one.
pub open spec fn hyphen_count(ts: Seq<Seq<char>>) -> int
    decreases ts.len(),
{
    if ts.len() == 0 {
        0
    } else {
        hyphen_count(ts.drop_last()) + if ts.last().len() == 1 {
            1int
        } else {
            0int
        }
    }
}

pub open spec fn total_form_score(ts: Seq<Seq<char>>) -> int
    decreases ts.len(),
{
    if ts.len() == 0 {
        0
    } else {
        total_form_score(ts.drop_last()) + rafsi_form_score(ts.last())
    }
}

/// The raw, unbounded score.
pub open spec fn raw_lujvo_score(ts: Seq<Seq<char>>) -> int {
    1000 * total_len(ts) - 500 * total_apostrophes(ts) + 100 * hyphen_count(ts) - 10
        * total_form_score(ts) - total_vowels(ts)
}

pub open spec fn clamp_i32(x: int) -> int {
    if x > i32::MAX {
        i32::MAX as int
    } else if x < i32::MIN {
        i32::MIN as int
    } else {
        x
    }
}

/// The letter-count bound under which the score is computed exactly.
pub open spec fn spec_score_cap() -> int {
    100_000_000
}

/// The score actually returned: the raw score clamped to the result type;
/// a token list beyond the letter-count bound pins to the maximum (it can
/// never be preferred).
pub open spec fn lujvo_score_value(ts: Seq<Seq<char>>) -> int {
    if total_len(ts) <= spec_score_cap() {
        clamp_i32(raw_lujvo_score(ts))
    } else {
        i32::MAX as int
    }
}

proof fn lemma_total_len_parts(ts: Seq<Seq<char>>, i: int)
    requires
        0 <= i <= ts.len(),
    ensures
        total_len(ts) == total_len(ts.take(i)) + total_len(ts.skip(i)),
    decreases ts.len() - i,
{
    if i == ts.len() {
        assert(ts.take(i) =~= ts);
        assert(total_len(ts.skip(i)) == 0);
    } else {
        lemma_total_len_parts(ts.drop_last(), i);
        assert(ts.drop_last().take(i) =~= ts.take(i));
        assert(ts.skip(i).drop_last() =~= ts.drop_last().skip(i));
        assert(total_len(ts.skip(i)) == total_len(ts.skip(i).drop_last()) + ts.last().len());
    }
}

proof fn lemma_total_len_nonneg(ts: Seq<Seq<char>>)
    ensures
        total_len(ts) >= 0,
    decreases ts.len(),
{
    if ts.len() > 0 {
        lemma_total_len_nonneg(ts.drop_last());
    }
}

/// Each count is bounded by the total letter count (the form-score sum by
/// eight letters in three, since only tokens of three or more letters
/// score a form).
proof fn lemma_counts_bounded(ts: Seq<Seq<char>>)
    ensures
        0 <= total_vowels(ts) <= total_len(ts),
        0 <= total_apostrophes(ts) <= total_len(ts),
        0 <= hyphen_count(ts) <= total_len(ts),
        0 <= 3 * total_form_score(ts) <= 8 * total_len(ts),
    decreases ts.len(),
{
    if ts.len() > 0 {
        lemma_counts_bounded(ts.drop_last());
        lemma_char_counts_bounded(ts.last());
        assert(rafsi_form_score(ts.last()) != 0 ==> ts.last().len() >= 3);
    }
}

proof fn lemma_char_counts_bounded(s: Seq<char>)
    ensures
        0 <= count_vowels(s) <= s.len(),
        0 <= count_apostrophes(s) <= s.len(),
    decreases s.len(),
{
    if s.len() > 0 {
        lemma_char_counts_bounded(s.drop_last());
    }
}

fn form_score(s: &str) -> (r: i32)
    ensures
        r as int == rafsi_form_score(s@),
        0 <= r <= 8,
{
    let n = s.unicode_len();
    if n == 3 {
        let c0 = s.get_char(0);
        let c1 = s.get_char(1);
        let c2 = s.get_char(2);
        if crate::shape::consonant(c0) && crate::shape::vowel(c1) && crate::shape::consonant(c2) {
            5
        } else if crate::shape::consonant(c0) && crate::shape::consonant(c1)
            && crate::shape::vowel(c2) {
            7
        } else if crate::shape::consonant(c0) && crate::shape::vowel(c1) && crate::shape::vowel(
            c2,
        ) {
            8
        } else {
            0
        }
    } else if n == 4 {
        let c0 = s.get_char(0);
        let c1 = s.get_char(1);
        let c2 = s.get_char(2);
        let c3 = s.get_char(3);
        if crate::shape::consonant(c0) && crate::shape::vowel(c1) && crate::shape::consonant(c2)
            && crate::shape::consonant(c3) {
            2
        } else if crate::shape::consonant(c0) && crate::shape::consonant(c1)
            && crate::shape::vowel(c2) && crate::shape::consonant(c3) {
            4
        } else if crate::shape::consonant(c0) && crate::shape::vowel(c1) && c2 == '\''
            && crate::shape::vowel(c3) {
            6
        } else {
            0
        }
    } else if n == 5 {
        let c0 = s.get_char(0);
        let c1 = s.get_char(1);
        let c2 = s.get_char(2);
        let c3 = s.get_char(3);
        let c4 = s.get_char(4);
        if crate::shape::consonant(c0) && crate::shape::vowel(c1) && crate::shape::consonant(c2)
            && crate::shape::consonant(c3) && crate::shape::vowel(c4) {
            1
        } else if crate::shape::consonant(c0) && crate::shape::consonant(c1)
            && crate::shape::vowel(c2) && crate::shape::consonant(c3) && crate::shape::vowel(c4) {
            3
        } else {
            0
        }
    } else {
        0
    }
}

/// Counts the vowels and the apostrophes of one token.
fn char_counts(s: &str) -> (r: (usize, usize))
    ensures
        r.0 as int == count_vowels(s@),
        r.1 as int == count_apostrophes(s@),
{
    let n = s.unicode_len();
    let mut v: usize = 0;
    let mut a: usize = 0;
    let mut j: usize = 0;
    while j < n
        invariant
            j <= n,
            n == s@.len(),
            v as int == count_vowels(s@.take(j as int)),
            a as int == count_apostrophes(s@.take(j as int)),
            v <= j,
            a <= j,
        decreases n - j,
    {
        let c = s.get_char(j);
        proof {
            assert(s@.take(j + 1).drop_last() =~= s@.take(j as int));
            assert(s@.take(j + 1).last() == s@[j as int]);
        }
        if crate::shape::vowel(c) {
            v = v + 1;
        }
        if c == '\'' {
            a = a + 1;
        }
        j = j + 1;
    }
    proof {
        assert(s@.take(n as int) =~= s@);
    }
    (v, a)
}

/// Computes the score of a token list.
pub fn get_lujvo_score(rafsi_list: &Vec<String>) -> (r: i32)
    ensures
        r as int == lujvo_score_value(word_views(rafsi_list@)),
{
    let ghost ts = word_views(rafsi_list@);
    let n = rafsi_list.len();
    proof {
        assert(ts.len() == n);
    }
    // First pass: the total letter count, stopping early once it is clear
    // that the score overflows the result type.
    let mut l: usize = 0;
    let mut i: usize = 0;
    while i < n
        invariant
            i <= n,
            n == rafsi_list@.len(),
            ts == word_views(rafsi_list@),
            l as int == total_len(ts.take(i as int)),
            l <= 100_000_000,
        decreases n - i,
    {
        let tl = rafsi_list[i].as_str().unicode_len();
        proof {
            assert(ts[i as int] == rafsi_list@[i as int]@);
            assert(ts.take(i + 1).drop_last() =~= ts.take(i as int));
            assert(ts.take(i + 1).last() == ts[i as int]);
            lemma_total_len_parts(ts, i + 1);
            lemma_total_len_nonneg(ts.skip(i + 1));
        }
        if tl > 100_000_000 - l {
            proof {
                assert(total_len(ts.take(i + 1)) > spec_score_cap());
                assert(total_len(ts) > spec_score_cap());
            }
            return i32::MAX;
        }
        l = l + tl;
        i = i + 1;
    }
    proof {
        assert(ts.take(n as int) =~= ts);
        lemma_counts_bounded(ts);
    }
    // Second pass: the remaining counts, each bounded by the letter count.
    let mut v: usize = 0;
    let mut a: usize = 0;
    let mut h: usize = 0;
    let mut f: usize = 0;
    i = 0;
    while i < n
        invariant
            i <= n,
            n == rafsi_list@.len(),
            ts == word_views(rafsi_list@),
            l as int == total_len(ts),
            l <= 100_000_000,
            v as int == total_vowels(ts.take(i as int)),
            a as int == total_apostrophes(ts.take(i as int)),
            h as int == hyphen_count(ts.take(i as int)),
            f as int == total_form_score(ts.take(i as int)),
        decreases n - i,
    {
        let s = &rafsi_list[i];
        proof {
            assert(ts[i as int] == rafsi_list@[i as int]@);
            assert(ts.take(i + 1).drop_last() =~= ts.take(i as int));
            assert(ts.take(i + 1).last() == ts[i as int]);
            lemma_counts_bounded(ts.take(i + 1));
            lemma_counts_bounded(ts.take(i as int));
            lemma_char_counts_bounded(ts[i as int]);
            lemma_total_len_parts(ts, i + 1);
            lemma_total_len_nonneg(ts.skip(i + 1));
            lemma_total_len_nonneg(ts.take(i + 1));
        }
        let (cv, ca) = char_counts(s.as_str());
        let fs = form_score(s.as_str());
        let tl = s.as_str().unicode_len();
        v = v + cv;
        a = a + ca;
        if tl == 1 {
            h = h + 1;
        }
        f = f + (fs as usize);
        i = i + 1;
    }
    proof {
        assert(ts.take(n as int) =~= ts);
        lemma_counts_bounded(ts);
    }
    let score: i64 = 1000 * (l as i64) - 500 * (a as i64) + 100 * (h as i64) - 10 * (f as i64) - (
    v as i64);
    if score > i32::MAX as i64 {
        i32::MAX
    } else if score < i32::MIN as i64 {
        i32::MIN
    } else {
        score as i32
    }
}

} // verus!
