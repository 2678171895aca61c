//! The decomposition engine: a left-to-right, no-backtracking state
//! machine that splits a surface compound back into fragments and glue
//! tokens, and the outer validator that requires the input to be the
//! canonical surface form of its own fragments.

use crate::construct::{normalize, normalize_spec};
use crate::errors::LujvoError;
use crate::scoring::word_views;
use crate::shape::{
    is_consonant, is_diphthong, shape_ccv, shape_ccvcv, shape_ccvcy, shape_cvc, shape_cvccv,
    shape_cvccy, shape_cvhv, shape_cvv,
};
use crate::text::{join_all, seq_join, str_eq, substr_owned};
use vstd::prelude::*;

verus! {

pub open spec fn cons_tok(t: Seq<char>, rest: Option<Seq<Seq<char>>>) -> Option<Seq<Seq<char>>> {
    match rest {
        Some(r) => Some(seq![t] + r),
        None => None,
    }
}

pub open spec fn cons_tok2(t1: Seq<char>, t2: Seq<char>, rest: Option<Seq<Seq<char>>>) -> Option<
    Seq<Seq<char>>,
> {
    match rest {
        Some(r) => Some(seq![t1, t2] + r),
        None => None,
    }
}

/// One pass of the decomposition machine over the remaining suffix `s`.
/// `after_frag` records whether the token list so far ends in a fragment
/// (only then may a glue letter be recognised).  The rules are tried in
/// fixed priority order; the first match consumes a prefix.
pub open spec fn kaha_steps(s: Seq<char>, after_frag: bool) -> Option<Seq<Seq<char>>>
    decreases s.len(),
{
    if s.len() == 0 {
        Some(Seq::empty())
    } else if after_frag && s[0] == 'y' {
        cons_tok(seq!['y'], kaha_steps(s.skip(1), false))
    } else if after_frag && s[0] == 'n' && s.len() >= 2 && s[1] == 'r' {
        cons_tok(seq!['n'], kaha_steps(s.skip(1), false))
    } else if after_frag && s[0] == 'r' && s.len() >= 2 && is_consonant(s[1]) {
        cons_tok(seq!['r'], kaha_steps(s.skip(1), false))
    } else if s.len() >= 3 && shape_cvv(s.take(3)) && is_diphthong(s[1], s[2]) {
        cons_tok(s.take(3), kaha_steps(s.skip(3), true))
    } else if s.len() >= 4 && shape_cvhv(s.take(4)) {
        cons_tok(s.take(4), kaha_steps(s.skip(4), true))
    } else if s.len() >= 5 && (shape_cvccy(s.take(5)) || shape_ccvcy(s.take(5))) {
        cons_tok2(s.take(4), seq!['y'], kaha_steps(s.skip(5), false))
    } else if shape_cvccv(s) || shape_ccvcv(s) {
        Some(seq![s])
    } else if s.len() >= 3 && (shape_cvc(s.take(3)) || shape_ccv(s.take(3))) {
        cons_tok(s.take(3), kaha_steps(s.skip(3), true))
    } else {
        None
    }
}

/// The raw decomposition of a surface word into fragments and glue.
pub open spec fn jvokaha2_spec(s: Seq<char>) -> Option<Seq<Seq<char>>> {
    kaha_steps(s, false)
}

/// The fragments of a token list: glue tokens (length one) dropped.
pub open spec fn filter_glue(ts: Seq<Seq<char>>) -> Seq<Seq<char>>
    decreases ts.len(),
{
    if ts.len() == 0 {
        Seq::empty()
    } else if ts.last().len() != 1 {
        filter_glue(ts.drop_last()).push(ts.last())
    } else {
        filter_glue(ts.drop_last())
    }
}

/// The validated decomposition: the raw token list, accepted only when
/// re-synthesizing its fragments gives back the input verbatim.
pub open spec fn jvokaha_spec(s: Seq<char>) -> Option<Seq<Seq<char>>> {
    match jvokaha2_spec(s) {
        None => None,
        Some(arr) => match normalize_spec(filter_glue(arr)) {
            None => None,
            Some(toks) => if seq_join(toks) == s {
                Some(arr)
            } else {
                None
            },
        },
    }
}

/// Every token the machine emits is a fragment of one to five letters.
pub proof fn lemma_kaha_tokens(s: Seq<char>, af: bool)
    ensures
        kaha_steps(s, af) matches Some(ts) ==> forall|i: int|
            0 <= i < ts.len() ==> 1 <= (#[trigger] ts[i]).len() <= 5,
    decreases s.len(),
{
    if s.len() == 0 {
    } else {
        lemma_kaha_tokens(s.skip(1), false);
        if s.len() >= 3 {
            lemma_kaha_tokens(s.skip(3), true);
        }
        if s.len() >= 4 {
            lemma_kaha_tokens(s.skip(4), true);
        }
        if s.len() >= 5 {
            lemma_kaha_tokens(s.skip(5), false);
        }
    }
}

/// Filtering glue keeps only multi-letter fragments.
pub proof fn lemma_filter_glue_nonempty(ts: Seq<Seq<char>>)
    requires
        forall|i: int| 0 <= i < ts.len() ==> 1 <= (#[trigger] ts[i]).len() <= 5,
    ensures
        forall|i: int|
            0 <= i < filter_glue(ts).len() ==> (#[trigger] filter_glue(ts)[i]).len() > 1,
    decreases ts.len(),
{
    if ts.len() > 0 {
        assert(forall|i: int|
            0 <= i < ts.drop_last().len() ==> 1 <= (#[trigger] ts.drop_last()[i]).len() <= 5);
        lemma_filter_glue_nonempty(ts.drop_last());
        let f = filter_glue(ts);
        let fd = filter_glue(ts.drop_last());
        if ts.last().len() != 1 {
            assert(ts[ts.len() - 1].len() >= 1);
            assert forall|i: int| 0 <= i < f.len() implies (#[trigger] f[i]).len() > 1 by {
                if i < fd.len() {
                    assert(f[i] == fd[i]);
                } else {
                    assert(f[i] == ts.last());
                }
            }
        }
    }
}

/// Runs the decomposition machine on a surface word.
pub fn jvokaha2(lujvo: &str) -> (r: Result<Vec<String>, LujvoError>)
    ensures
        r is Ok <==> jvokaha2_spec(lujvo@) is Some,
        r matches Ok(v) ==> word_views(v@) == jvokaha2_spec(lujvo@)->Some_0,
        r matches Ok(v) ==> seq_join(word_views(v@)) == lujvo@,
        r matches Err(e) ==> e is UnparsableInput,
{
    let n = lujvo.unicode_len();
    let mut res: Vec<String> = Vec::new();
    let mut pos: usize = 0;
    let mut af: bool = false;
    proof {
        assert(lujvo@.skip(0) =~= lujvo@);
        if kaha_steps(lujvo@, false) is Some {
            let t = kaha_steps(lujvo@, false)->Some_0;
            assert(word_views(res@) + t =~= t);
        }
    }
    while pos < n
        invariant
            pos <= n,
            n == lujvo@.len(),
            match kaha_steps(lujvo@.skip(pos as int), af) {
                Some(t) => jvokaha2_spec(lujvo@) == Some(word_views(res@) + t),
                None => jvokaha2_spec(lujvo@) is None,
            },
        decreases n - pos,
    {
        let ghost rest = lujvo@.skip(pos as int);
        let ghost prev_views = word_views(res@);
        proof {
            assert(rest.len() == n - pos);
        }
        let c0 = lujvo.get_char(pos);
        proof {
            assert(c0 == rest[0]);
        }
        if af && c0 == 'y' {
            let t = substr_owned(lujvo, pos, pos + 1);
            proof {
                assert(t@ =~= seq!['y']);
                assert(rest.skip(1) =~= lujvo@.skip(pos + 1));
            }
            res.push(t);
            proof {
                assert(word_views(res@) =~= prev_views + seq![seq!['y']]);
            }
            af = false;
            pos = pos + 1;
        } else if af && c0 == 'n' && n - pos >= 2 && lujvo.get_char(pos + 1) == 'r' {
            let t = substr_owned(lujvo, pos, pos + 1);
            proof {
                assert(rest[1] == lujvo@[pos + 1]);
                assert(t@ =~= seq!['n']);
                assert(rest.skip(1) =~= lujvo@.skip(pos + 1));
            }
            res.push(t);
            proof {
                assert(word_views(res@) =~= prev_views + seq![seq!['n']]);
            }
            af = false;
            pos = pos + 1;
        } else if af && c0 == 'r' && n - pos >= 2 && crate::shape::consonant(lujvo.get_char(pos + 1)) {
            let t = substr_owned(lujvo, pos, pos + 1);
            proof {
                assert(rest[1] == lujvo@[pos + 1]);
                assert(t@ =~= seq!['r']);
                assert(rest.skip(1) =~= lujvo@.skip(pos + 1));
            }
            res.push(t);
            proof {
                assert(word_views(res@) =~= prev_views + seq![seq!['r']]);
            }
            af = false;
            pos = pos + 1;
        } else {
            // from here on the glue rules are settled not to apply
            proof {
                assert(rest.len() >= 2 ==> rest[1] == lujvo@[pos + 1]);
            }
            let r3 = n - pos >= 3 && crate::shape::consonant(c0) && crate::shape::vowel(
                lujvo.get_char(pos + 1),
            ) && crate::shape::vowel(lujvo.get_char(pos + 2)) && crate::shape::diphthong(
                lujvo.get_char(pos + 1),
                lujvo.get_char(pos + 2),
            );
            proof {
                if n - pos >= 3 {
                    assert(rest.take(3)[0] == rest[0] && rest.take(3)[1] == rest[1] && rest.take(
                        3,
                    )[2] == rest[2]);
                    assert(rest[1] == lujvo@[pos + 1] && rest[2] == lujvo@[pos + 2]);
                }
                assert(r3 == (rest.len() >= 3 && shape_cvv(rest.take(3)) && is_diphthong(
                    rest[1],
                    rest[2],
                )));
            }
            if r3 {
                let t = substr_owned(lujvo, pos, pos + 3);
                proof {
                    assert(t@ =~= rest.take(3));
                    assert(rest.skip(3) =~= lujvo@.skip(pos + 3));
                }
                res.push(t);
                proof {
                    assert(word_views(res@) =~= prev_views + seq![rest.take(3)]);
                }
                af = true;
                pos = pos + 3;
            } else {
                let r4 = n - pos >= 4 && crate::shape::consonant(c0) && crate::shape::vowel(
                    lujvo.get_char(pos + 1),
                ) && lujvo.get_char(pos + 2) == '\'' && crate::shape::vowel(lujvo.get_char(pos + 3));
                proof {
                    if n - pos >= 4 {
                        assert(rest.take(4)[0] == rest[0] && rest.take(4)[1] == rest[1]
                            && rest.take(4)[2] == rest[2] && rest.take(4)[3] == rest[3]);
                        assert(rest[1] == lujvo@[pos + 1] && rest[2] == lujvo@[pos + 2] && rest[3] == lujvo@[
                            pos + 3]);
                    }
                    assert(r4 == (rest.len() >= 4 && shape_cvhv(rest.take(4))));
                }
                if r4 {
                    let t = substr_owned(lujvo, pos, pos + 4);
                    proof {
                        assert(t@ =~= rest.take(4));
                        assert(rest.skip(4) =~= lujvo@.skip(pos + 4));
                    }
                    res.push(t);
                    proof {
                        assert(word_views(res@) =~= prev_views + seq![rest.take(4)]);
                    }
                    af = true;
                    pos = pos + 4;
                } else {
                    let long5 = n - pos >= 5 && crate::shape::consonant(c0)
                        && crate::shape::consonant(lujvo.get_char(pos + 3)) && lujvo.get_char(pos + 4)
                        == 'y' && ((crate::shape::vowel(lujvo.get_char(pos + 1))
                        && crate::shape::consonant(lujvo.get_char(pos + 2))) || (
                    crate::shape::consonant(lujvo.get_char(pos + 1)) && crate::shape::vowel(
                        lujvo.get_char(pos + 2),
                    )));
                    proof {
                        if n - pos >= 5 {
                            assert(rest.take(5)[0] == rest[0] && rest.take(5)[1] == rest[1]
                                && rest.take(5)[2] == rest[2] && rest.take(5)[3] == rest[3]
                                && rest.take(5)[4] == rest[4]);
                            assert(rest[1] == lujvo@[pos + 1] && rest[2] == lujvo@[pos + 2] && rest[3]
                                == lujvo@[pos + 3] && rest[4] == lujvo@[pos + 4]);
                        }
                        assert(long5 == (rest.len() >= 5 && (shape_cvccy(rest.take(5))
                            || shape_ccvcy(rest.take(5)))));
                    }
                    if long5 {
                        let t1 = substr_owned(lujvo, pos, pos + 4);
                        let t2 = substr_owned(lujvo, pos + 4, pos + 5);
                        proof {
                            assert(t1@ =~= rest.take(4));
                            assert(rest.take(5)[4] == rest[4]);
                            assert(t2@ =~= seq!['y']);
                            assert(rest.skip(5) =~= lujvo@.skip(pos + 5));
                            assert(rest.take(5).take(4) =~= rest.take(4));
                        }
                        res.push(t1);
                        res.push(t2);
                        proof {
                            assert(word_views(res@) =~= prev_views + seq![
                                rest.take(4),
                                seq!['y'],
                            ]);
                        }
                        af = false;
                        pos = pos + 5;
                    } else {
                        let whole5 = n - pos == 5 && crate::shape::consonant(c0)
                            && crate::shape::consonant(lujvo.get_char(pos + 3))
                            && crate::shape::vowel(lujvo.get_char(pos + 4)) && ((crate::shape::vowel(
                            lujvo.get_char(pos + 1),
                        ) && crate::shape::consonant(lujvo.get_char(pos + 2))) || (
                        crate::shape::consonant(lujvo.get_char(pos + 1)) && crate::shape::vowel(
                            lujvo.get_char(pos + 2),
                        )));
                        proof {
                            if n - pos >= 5 {
                                assert(rest[1] == lujvo@[pos + 1] && rest[2] == lujvo@[pos + 2] && rest[3]
                                    == lujvo@[pos + 3] && rest[4] == lujvo@[pos + 4]);
                            }
                            assert(whole5 == (shape_cvccv(rest) || shape_ccvcv(rest)));
                        }
                        if whole5 {
                            let t = substr_owned(lujvo, pos, n);
                            proof {
                                assert(t@ =~= rest);
                                assert(lujvo@.skip(n as int) =~= Seq::<char>::empty());
                            }
                            res.push(t);
                            proof {
                                assert(word_views(res@) =~= prev_views + seq![rest]);
                                assert(kaha_steps(rest, af) == Some(seq![rest]));
                            }
                            af = true;
                            pos = n;
                        } else {
                            let short3 = n - pos >= 3 && crate::shape::consonant(c0) && ((
                            crate::shape::vowel(lujvo.get_char(pos + 1)) && crate::shape::consonant(
                                lujvo.get_char(pos + 2),
                            )) || (crate::shape::consonant(lujvo.get_char(pos + 1))
                                && crate::shape::vowel(lujvo.get_char(pos + 2))));
                            proof {
                                if n - pos >= 3 {
                                    assert(rest.take(3)[0] == rest[0] && rest.take(3)[1] == rest[1]
                                        && rest.take(3)[2] == rest[2]);
                                    assert(rest[1] == lujvo@[pos + 1] && rest[2] == lujvo@[pos + 2]);
                                }
                                assert(short3 == (rest.len() >= 3 && (shape_cvc(rest.take(3))
                                    || shape_ccv(rest.take(3)))));
                            }
                            if short3 {
                                let t = substr_owned(lujvo, pos, pos + 3);
                                proof {
                                    assert(t@ =~= rest.take(3));
                                    assert(rest.skip(3) =~= lujvo@.skip(pos + 3));
                                }
                                res.push(t);
                                proof {
                                    assert(word_views(res@) =~= prev_views + seq![rest.take(3)]);
                                }
                                af = true;
                                pos = pos + 3;
                            } else {
                                proof {
                                    assert(kaha_steps(rest, af) is None);
                                    assert(jvokaha2_spec(lujvo@) is None);
                                }
                                return Err(LujvoError::UnparsableInput);
                            }
                        }
                    }
                }
            }
        }
    }
    proof {
        assert(lujvo@.skip(pos as int) =~= Seq::<char>::empty());
        assert(kaha_steps(lujvo@.skip(pos as int), af) == Some(Seq::<Seq<char>>::empty()));
        assert(word_views(res@) + Seq::<Seq<char>>::empty() =~= word_views(res@));
        lemma_kaha_join(lujvo@, false);
    }
    Ok(res)
}

/// Splits a surface word into its token list and validates that the word
/// is the canonical form of its own fragments.
pub fn jvokaha(lujvo: &str) -> (r: Result<Vec<String>, LujvoError>)
    ensures
        r is Ok <==> jvokaha_spec(lujvo@) is Some,
        r matches Ok(v) ==> word_views(v@) == jvokaha_spec(lujvo@)->Some_0,
        r matches Ok(v) ==> seq_join(word_views(v@)) == lujvo@,
        r matches Err(e) ==> match jvokaha2_spec(lujvo@) {
            None => e is UnparsableInput,
            Some(arr) => match normalize_spec(filter_glue(arr)) {
                None => e is InsufficientComponents,
                Some(toks) => e matches LujvoError::MalformedCanonicalForm { correct } && correct@
                    == seq_join(toks) && seq_join(toks) != lujvo@,
            },
        },
{
    let arr = match jvokaha2(lujvo) {
        Ok(a) => a,
        Err(e) => {
            return Err(e);
        },
    };
    let ghost arrv = word_views(arr@);
    proof {
        lemma_kaha_tokens(lujvo@, false);
    }
    let mut rafsi_list: Vec<String> = Vec::new();
    let mut i: usize = 0;
    while i < arr.len()
        invariant
            i <= arr@.len(),
            arrv == word_views(arr@),
            word_views(rafsi_list@) == filter_glue(arrv.take(i as int)),
        decreases arr@.len() - i,
    {
        proof {
            assert(arrv.take(i + 1).drop_last() =~= arrv.take(i as int));
            assert(arrv.take(i + 1).last() == arr@[i as int]@);
        }
        if arr[i].as_str().unicode_len() != 1 {
            rafsi_list.push(arr[i].clone());
            proof {
                assert(word_views(rafsi_list@) =~= filter_glue(arrv.take(i as int)).push(
                    arr@[i as int]@,
                ));
            }
        }
        i = i + 1;
    }
    proof {
        assert(arrv.take(arr@.len() as int) =~= arrv);
        lemma_filter_glue_nonempty(arrv);
        assert forall|k: int|
            0 <= k < rafsi_list@.len() implies (#[trigger] rafsi_list@[k])@.len() > 0 by {
            assert(word_views(rafsi_list@)[k] == rafsi_list@[k]@);
            assert(filter_glue(arrv)[k].len() > 1);
        }
    }
    let correct_toks = match normalize(&rafsi_list) {
        Ok(t) => t,
        Err(e) => {
            return Err(e);
        },
    };
    let correct = join_all(&correct_toks);
    if str_eq(lujvo, correct.as_str()) {
        Ok(arr)
    } else {
        Err(LujvoError::MalformedCanonicalForm { correct })
    }
}

/// Round trip: a surface word is accepted by decomposition exactly when
/// the raw machine splits it and re-synthesizing the fragments of that
/// split yields the word itself; what is returned is the raw split.
pub proof fn lemma_decompose_round_trip(s: Seq<char>)
    ensures
        jvokaha_spec(s) is Some <==> {
            &&& jvokaha2_spec(s) is Some
            &&& normalize_spec(filter_glue(jvokaha2_spec(s)->Some_0)) is Some
            &&& seq_join(normalize_spec(filter_glue(jvokaha2_spec(s)->Some_0))->Some_0) == s
        },
        jvokaha_spec(s) is Some ==> jvokaha_spec(s) == jvokaha2_spec(s),
{
}

/// Every accepted raw decomposition concatenates back to its input: the
/// machine only ever consumes prefixes, so its tokens partition the word.
pub proof fn lemma_kaha_join(s: Seq<char>, af: bool)
    ensures
        kaha_steps(s, af) matches Some(ts) ==> seq_join(ts) == s,
    decreases s.len(),
{
    if s.len() == 0 {
        if kaha_steps(s, af) is Some {
            assert(seq_join(kaha_steps(s, af)->0) =~= s);
        }
    } else {
        lemma_kaha_join(s.skip(1), false);
        if s.len() >= 3 {
            lemma_kaha_join(s.skip(3), true);
        }
        if s.len() >= 4 {
            lemma_kaha_join(s.skip(4), true);
        }
        if s.len() >= 5 {
            lemma_kaha_join(s.skip(5), false);
        }
        if kaha_steps(s, af) is Some {
            let ts = kaha_steps(s, af)->0;
            if af && s[0] == 'y' {
                crate::text::lemma_seq_join_concat(seq![seq!['y']], kaha_steps(s.skip(1), false)->0);
                crate::text::lemma_seq_join_single(seq!['y']);
                assert(seq!['y'] + s.skip(1) =~= s);
            } else if af && s[0] == 'n' && s.len() >= 2 && s[1] == 'r' {
                crate::text::lemma_seq_join_concat(seq![seq!['n']], kaha_steps(s.skip(1), false)->0);
                crate::text::lemma_seq_join_single(seq!['n']);
                assert(seq!['n'] + s.skip(1) =~= s);
            } else if af && s[0] == 'r' && s.len() >= 2 && is_consonant(s[1]) {
                crate::text::lemma_seq_join_concat(seq![seq!['r']], kaha_steps(s.skip(1), false)->0);
                crate::text::lemma_seq_join_single(seq!['r']);
                assert(seq!['r'] + s.skip(1) =~= s);
            } else if s.len() >= 3 && shape_cvv(s.take(3)) && is_diphthong(s[1], s[2]) {
                crate::text::lemma_seq_join_concat(seq![s.take(3)], kaha_steps(s.skip(3), true)->0);
                crate::text::lemma_seq_join_single(s.take(3));
                assert(s.take(3) + s.skip(3) =~= s);
            } else if s.len() >= 4 && shape_cvhv(s.take(4)) {
                crate::text::lemma_seq_join_concat(seq![s.take(4)], kaha_steps(s.skip(4), true)->0);
                crate::text::lemma_seq_join_single(s.take(4));
                assert(s.take(4) + s.skip(4) =~= s);
            } else if s.len() >= 5 && (shape_cvccy(s.take(5)) || shape_ccvcy(s.take(5))) {
                crate::text::lemma_seq_join_concat(
                    seq![s.take(4), seq!['y']],
                    kaha_steps(s.skip(5), false)->0,
                );
                crate::text::lemma_seq_join_pair(s.take(4), seq!['y']);
                assert(s.take(5)[4] == 'y');
                assert((s.take(4) + seq!['y']) + s.skip(5) =~= s);
            } else if shape_cvccv(s) || shape_ccvcv(s) {
                crate::text::lemma_seq_join_single(s);
            } else {
                crate::text::lemma_seq_join_concat(seq![s.take(3)], kaha_steps(s.skip(3), true)->0);
                crate::text::lemma_seq_join_single(s.take(3));
                assert(s.take(3) + s.skip(3) =~= s);
            }
        }
    }
}

} // verus!
