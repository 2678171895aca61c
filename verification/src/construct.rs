//! The construction engine: assembles an ordered fragment list into the
//! canonical surface form, inserting the glue letters `y`, `r`, `n` that
//! the phonotactic rules require, and the ambiguity check that guards a
//! leading short fragment.

use crate::clusters::pair_rating;
use crate::errors::LujvoError;
use crate::scoring::word_views;
use crate::shape::{
    is_consonant, shape_ccv, shape_ccvc, shape_cvc, shape_cvcc, shape_cvccv, shape_cvhv,
    shape_cvv, spec_cmevla,
};
use vstd::prelude::*;

verus! {

/// A vowel fragment: three letters with a diphthong-free tail, or four
/// letters with an internal apostrophe.
pub open spec fn vowel_frag(t: Seq<char>) -> bool {
    shape_cvv(t) || shape_cvhv(t)
}

/// A four-letter long fragment.
pub open spec fn long_frag(t: Seq<char>) -> bool {
    shape_cvcc(t) || shape_ccvc(t)
}

/// Decides whether a token is a vowel fragment.
pub fn is_cvv(rafsi: &str) -> (r: bool)
    ensures
        r == vowel_frag(rafsi@),
{
    let n = rafsi.unicode_len();
    if n == 3 {
        crate::shape::consonant(rafsi.get_char(0)) && crate::shape::vowel(rafsi.get_char(1))
            && crate::shape::vowel(rafsi.get_char(2))
    } else if n == 4 {
        crate::shape::consonant(rafsi.get_char(0)) && crate::shape::vowel(rafsi.get_char(1))
            && rafsi.get_char(2) == '\'' && crate::shape::vowel(rafsi.get_char(3))
    } else {
        false
    }
}

/// Decides whether a token has shape CCV.
pub fn is_ccv(rafsi: &str) -> (r: bool)
    ensures
        r == shape_ccv(rafsi@),
{
    let n = rafsi.unicode_len();
    n == 3 && crate::shape::consonant(rafsi.get_char(0)) && crate::shape::consonant(
        rafsi.get_char(1),
    ) && crate::shape::vowel(rafsi.get_char(2))
}

/// Decides whether a token has shape CVC.
pub fn is_cvc(rafsi: &str) -> (r: bool)
    ensures
        r == shape_cvc(rafsi@),
{
    let n = rafsi.unicode_len();
    n == 3 && crate::shape::consonant(rafsi.get_char(0)) && crate::shape::vowel(
        rafsi.get_char(1),
    ) && crate::shape::consonant(rafsi.get_char(2))
}

/// Decides whether a token is a four-letter long fragment.
pub fn is_4letter(rafsi: &str) -> (r: bool)
    ensures
        r == long_frag(rafsi@),
{
    let n = rafsi.unicode_len();
    if n == 4 {
        let c0 = rafsi.get_char(0);
        let c1 = rafsi.get_char(1);
        let c2 = rafsi.get_char(2);
        let c3 = rafsi.get_char(3);
        (crate::shape::consonant(c0) && crate::shape::vowel(c1) && crate::shape::consonant(c2)
            && crate::shape::consonant(c3)) || (crate::shape::consonant(c0)
            && crate::shape::consonant(c1) && crate::shape::vowel(c2) && crate::shape::consonant(
            c3,
        ))
    } else {
        false
    }
}

/// The built suffix starts with one of the fused clusters `ts`, `tc`,
/// `dz`, `dj`, before which a final `n` may not stand.
pub open spec fn fused_n_cluster(t: Seq<char>) -> bool {
    t.len() >= 2 && ((t[0] == 't' && (t[1] == 's' || t[1] == 'c')) || (t[0] == 'd' && (t[1] == 'z'
        || t[1] == 'j')))
}

fn starts_fused(head: &str) -> (r: bool)
    ensures
        r == fused_n_cluster(head@),
{
    let n = head.unicode_len();
    if n >= 2 {
        let c0 = head.get_char(0);
        let c1 = head.get_char(1);
        (c0 == 't' && (c1 == 's' || c1 == 'c')) || (c0 == 'd' && (c1 == 'z' || c1 == 'j'))
    } else {
        false
    }
}

/// A glue `y` must separate the prepended fragment from the built suffix:
/// the fragment is a long form, or the letters that would touch form an
/// illegal cluster, or a final `n` would fuse with a following affricate.
pub open spec fn needs_y_glue(rafsi: Seq<char>, head: Seq<char>) -> bool {
    ||| long_frag(rafsi)
    ||| (is_consonant(rafsi.last()) && head.len() > 0 && is_consonant(head[0]) && pair_rating(
        rafsi.last(),
        head[0],
    ) == 0)
    ||| (rafsi.last() == 'n' && fused_n_cluster(head))
}

/// The smallest index at or after `k` whose token is not a short CVC
/// fragment.
pub open spec fn first_non_cvc(rest: Seq<Seq<char>>, k: int) -> Option<int>
    decreases rest.len() - k,
    when 0 <= k <= rest.len()
{
    if k >= rest.len() {
        None
    } else if !shape_cvc(rest[k]) {
        Some(k)
    } else {
        first_non_cvc(rest, k + 1)
    }
}

/// The pairwise walk of the ambiguity check: tokens up to and including
/// `upto` must each join the previous one with an initial-grade cluster;
/// a glue `y` on the way decides the hazard at once.
pub open spec fn tosmabru_walk(prev: Seq<char>, rest: Seq<Seq<char>>, k: int, upto: int) -> bool
    decreases upto + 1 - k,
    when k <= upto + 1
{
    if k > upto {
        true
    } else if rest[k] == seq!['y'] {
        true
    } else if pair_rating(prev.last(), rest[k][0]) != 2 {
        false
    } else {
        tosmabru_walk(rest[k], rest, k + 1, upto)
    }
}

/// The ambiguity hazard of a leading short fragment: placing `rafsi`
/// before the built list `rest` could let the compound misparse as a
/// shorter independent construction.
pub open spec fn spec_tosmabru(rafsi: Seq<char>, rest: Seq<Seq<char>>) -> bool {
    if spec_cmevla(rest.last()) {
        false
    } else {
        match first_non_cvc(rest, 0) {
            None => false,
            Some(ix) => {
                let s = rest[ix];
                if s != seq!['y'] && !(shape_cvccv(s) && pair_rating(s[2], s[3]) == 2) {
                    false
                } else {
                    tosmabru_walk(rafsi, rest, 0, ix)
                }
            },
        }
    }
}

proof fn lemma_first_non_cvc_skip(rest: Seq<Seq<char>>, ix: int)
    requires
        0 <= ix <= rest.len(),
        forall|k: int| 0 <= k < ix ==> shape_cvc(#[trigger] rest[k]),
    ensures
        first_non_cvc(rest, 0) == first_non_cvc(rest, ix),
    decreases ix,
{
    if ix > 0 {
        lemma_first_non_cvc_step(rest, ix - 1);
        lemma_first_non_cvc_skip(rest, ix - 1);
    }
}

proof fn lemma_first_non_cvc_step(rest: Seq<Seq<char>>, k: int)
    requires
        0 <= k < rest.len(),
        shape_cvc(rest[k]),
    ensures
        first_non_cvc(rest, k) == first_non_cvc(rest, k + 1),
{
}

/// Decides the ambiguity hazard for a candidate leading fragment and the
/// already-built remainder list.
pub fn is_tosmabru(rafsi: &str, rest: &Vec<String>) -> (r: bool)
    requires
        rafsi@.len() > 0,
        rest@.len() > 0,
        forall|i: int| 0 <= i < rest@.len() ==> (#[trigger] rest@[i])@.len() > 0,
    ensures
        r == spec_tosmabru(rafsi@, word_views(rest@)),
{
    let ghost rv = word_views(rest@);
    let n = rest.len();
    if crate::shape::is_cmevla(rest[n - 1].as_str()) {
        proof {
            assert(rv.last() == rest@[n - 1]@);
        }
        return false;
    }
    let mut ix: usize = 0;
    while ix < n && is_cvc(rest[ix].as_str())
        invariant
            ix <= n,
            n == rest@.len(),
            rv == word_views(rest@),
            forall|k: int| 0 <= k < ix ==> shape_cvc(#[trigger] rv[k]),
        decreases n - ix,
    {
        proof {
            assert(rv[ix as int] == rest@[ix as int]@);
        }
        ix = ix + 1;
    }
    proof {
        lemma_first_non_cvc_skip(rv, ix as int);
    }
    if ix == n {
        proof {
            assert(first_non_cvc(rv, 0) is None);
        }
        return false;
    }
    proof {
        assert(rv[ix as int] == rest@[ix as int]@);
        assert(!shape_cvc(rv[ix as int]));
        assert(first_non_cvc(rv, 0) == Some(ix as int));
    }
    let s = &rest[ix];
    let sn = s.as_str().unicode_len();
    let s_is_y = sn == 1 && s.as_str().get_char(0) == 'y';
    proof {
        if s_is_y {
            assert(s@ =~= seq!['y']);
        } else {
            assert(s@ != seq!['y']) by {
                if s@ == seq!['y'] {
                    assert(s@.len() == 1 && s@[0] == 'y');
                }
            }
        }
    }
    if !s_is_y {
        let s_cvccv = sn == 5 && crate::shape::consonant(s.as_str().get_char(0))
            && crate::shape::vowel(s.as_str().get_char(1)) && crate::shape::consonant(
            s.as_str().get_char(2),
        ) && crate::shape::consonant(s.as_str().get_char(3)) && crate::shape::vowel(
            s.as_str().get_char(4),
        );
        if !s_cvccv {
            return false;
        }
        if crate::clusters::is_permissible(s.as_str().get_char(2), s.as_str().get_char(3)) != 2 {
            return false;
        }
    }
    proof {
        assert(rv[ix as int] == s@);
        assert(rv[ix as int] == seq!['y'] || (shape_cvccv(rv[ix as int]) && pair_rating(
            rv[ix as int][2],
            rv[ix as int][3],
        ) == 2));
    }
    // the pairwise walk up to and including the found element
    let mut prev: &str = rafsi;
    let mut k: usize = 0;
    while k <= ix
        invariant
            k <= ix + 1,
            ix < n,
            n == rest@.len(),
            rv == word_views(rest@),
            prev@.len() > 0,
            forall|i: int| 0 <= i < rest@.len() ==> (#[trigger] rest@[i])@.len() > 0,
            !spec_cmevla(rv.last()),
            first_non_cvc(rv, 0) == Some(ix as int),
            rv[ix as int] == seq!['y'] || (shape_cvccv(rv[ix as int]) && pair_rating(
                rv[ix as int][2],
                rv[ix as int][3],
            ) == 2),
            tosmabru_walk(rafsi@, rv, 0, ix as int) == tosmabru_walk(prev@, rv, k as int, ix as int),
        decreases ix + 1 - k,
    {
        let t = &rest[k];
        proof {
            assert(rv[k as int] == rest@[k as int]@);
        }
        let tn = t.as_str().unicode_len();
        if tn == 1 && t.as_str().get_char(0) == 'y' {
            proof {
                assert(t@ =~= seq!['y']);
            }
            return true;
        }
        proof {
            assert(t@ != seq!['y']) by {
                if t@ == seq!['y'] {
                    assert(t@.len() == 1 && t@[0] == 'y');
                }
            }
        }
        let pn = prev.unicode_len();
        let a = prev.get_char(pn - 1);
        let b = t.as_str().get_char(0);
        if crate::clusters::is_permissible(a, b) != 2 {
            return false;
        }
        prev = t.as_str();
        k = k + 1;
    }
    true
}

/// One step of construction: the tokens produced when `rafsi` is
/// prepended before the built list `acc`.  `is_first` marks the fragment
/// that will open the word, `two` a fragment list of exactly two.
pub open spec fn norm_step(rafsi: Seq<char>, acc: Seq<Seq<char>>, is_first: bool, two: bool)
    -> Seq<Seq<char>> {
    let acc1 = if needs_y_glue(rafsi, acc[0]) {
        seq![seq!['y']] + acc
    } else {
        acc
    };
    let acc2 = if is_first && vowel_frag(rafsi) {
        if two && shape_ccv(acc1[0]) {
            acc1
        } else {
            let h: char = if acc1[0].len() > 0 && acc1[0][0] == 'r' {
                'n'
            } else {
                'r'
            };
            seq![seq![h]] + acc1
        }
    } else if is_first && shape_cvc(rafsi) && spec_tosmabru(rafsi, acc1) {
        seq![seq!['y']] + acc1
    } else {
        acc1
    };
    seq![rafsi] + acc2
}

/// The tokens built from the fragments of `list` from index `i` on.
pub open spec fn norm_build(list: Seq<Seq<char>>, i: int) -> Seq<Seq<char>>
    decreases list.len() - i,
    when 0 <= i < list.len()
{
    if i == list.len() - 1 {
        seq![list[i]]
    } else {
        norm_step(list[i], norm_build(list, i + 1), i == 0, list.len() == 2)
    }
}

/// What construction returns: the full interleaved token list, or nothing
/// when fewer than two fragments were given.
pub open spec fn normalize_spec(list: Seq<Seq<char>>) -> Option<Seq<Seq<char>>> {
    if list.len() < 2 {
        None
    } else {
        Some(norm_build(list, 0))
    }
}

fn glue_string(which: char) -> (r: String)
    requires
        which == 'y' || which == 'r' || which == 'n',
    ensures
        r@ =~= seq![which],
{
    if which == 'y' {
        let r = String::from_str("y");
        proof {
            reveal_strlit("y");
        }
        r
    } else if which == 'r' {
        let r = String::from_str("r");
        proof {
            reveal_strlit("r");
        }
        r
    } else {
        let r = String::from_str("n");
        proof {
            reveal_strlit("n");
        }
        r
    }
}

/// Builds the canonical token list for an ordered fragment list: the
/// fragments in order, interleaved with the glue letters that the
/// phonotactic rules require.  Fails exactly when fewer than two
/// fragments are given.
pub fn normalize(rafsi_list: &Vec<String>) -> (r: Result<Vec<String>, LujvoError>)
    requires
        rafsi_list@.len() >= 2 ==> forall|i: int|
            0 <= i < rafsi_list@.len() ==> (#[trigger] rafsi_list@[i])@.len() > 0,
    ensures
        r is Ok <==> normalize_spec(word_views(rafsi_list@)) is Some,
        r matches Ok(v) ==> word_views(v@) == normalize_spec(word_views(rafsi_list@))->Some_0,
        r matches Err(e) ==> e is InsufficientComponents && rafsi_list@.len() < 2,
{
    let ghost lv = word_views(rafsi_list@);
    let n = rafsi_list.len();
    if n < 2 {
        return Err(LujvoError::InsufficientComponents);
    }
    let mut result: Vec<String> = Vec::new();
    result.push(rafsi_list[n - 1].clone());
    proof {
        assert(word_views(result@) =~= norm_build(lv, n - 1));
    }
    let mut j: usize = n - 1;
    while j > 0
        invariant
            j <= n - 1,
            2 <= n == rafsi_list@.len(),
            lv == word_views(rafsi_list@),
            forall|i: int| 0 <= i < rafsi_list@.len() ==> (#[trigger] rafsi_list@[i])@.len() > 0,
            word_views(result@) == norm_build(lv, j as int),
            result@.len() > 0,
            forall|i: int| 0 <= i < result@.len() ==> (#[trigger] result@[i])@.len() > 0,
        decreases j,
    {
        j = j - 1;
        let ghost acc = word_views(result@);
        proof {
            assert(acc == norm_build(lv, j + 1));
            assert(acc[0] == result@[0]@);
        }
        let rafsi: &String = &rafsi_list[j];
        proof {
            assert(rafsi@ == lv[j as int]);
            assert(rafsi@.len() > 0);
        }
        let rl = rafsi.as_str().unicode_len();
        let end = rafsi.as_str().get_char(rl - 1);
        let init = result[0].as_str().get_char(0);
        let insert_y = is_4letter(rafsi.as_str()) || (crate::shape::consonant(end)
            && crate::shape::consonant(init) && crate::clusters::is_permissible(end, init) == 0)
            || (end == 'n' && starts_fused(result[0].as_str()));
        proof {
            assert(end == rafsi@.last());
            assert(init == acc[0][0]);
            assert(insert_y == needs_y_glue(lv[j as int], acc[0]));
        }
        if insert_y {
            let g = glue_string('y');
            result.insert(0, g);
        }
        let ghost acc1 = word_views(result@);
        proof {
            if insert_y {
                assert(acc1 =~= seq![seq!['y']] + acc);
            }
            assert(acc1 == if needs_y_glue(lv[j as int], acc[0]) {
                seq![seq!['y']] + acc
            } else {
                acc
            });
            assert(acc1[0] == result@[0]@);
            assert(acc1[0].len() > 0);
        }
        if j == 0 {
            if is_cvv(rafsi.as_str()) {
                let skip_hyphen = n == 2 && is_ccv(result[0].as_str());
                if !skip_hyphen {
                    let h: char = if result[0].as_str().get_char(0) == 'r' {
                        'n'
                    } else {
                        'r'
                    };
                    let g = glue_string(h);
                    result.insert(0, g);
                    proof {
                        assert(word_views(result@) =~= seq![seq![h]] + acc1);
                    }
                }
            } else if is_cvc(rafsi.as_str()) {
                if is_tosmabru(rafsi.as_str(), &result) {
                    let g = glue_string('y');
                    result.insert(0, g);
                    proof {
                        assert(word_views(result@) =~= seq![seq!['y']] + acc1);
                    }
                }
            }
        }
        let ghost acc2 = word_views(result@);
        result.insert(0, rafsi.clone());
        proof {
            assert(word_views(result@) =~= seq![lv[j as int]] + acc2);
            assert(word_views(result@) == norm_step(lv[j as int], acc, j == 0, n == 2));
            assert(word_views(result@) == norm_build(lv, j as int));
        }
    }
    proof {
        assert(word_views(result@) == norm_build(lv, 0));
    }
    Ok(result)
}

} // verus!
