//! Candidate generation and ranking: the Cartesian product of the
//! per-position candidate lists, construction and scoring of every
//! combination, the name-word filters, and the final ascending sort by
//! score.

use crate::construct::{normalize, normalize_spec};
use crate::scoring::{get_lujvo_score, lujvo_score_value, word_views};
use crate::shape::spec_cmevla;
use crate::text::{clone_words, join_all, seq_join};
use crate::tools::{get_candid, spec_get_candid, RafsiOptions, RafsiOptionsView};
use vstd::prelude::*;

verus! {

broadcast use vstd::seq_lib::group_to_multiset_ensures;

/// A synthesized surface word together with its score; lower scores are
/// preferred.
#[derive(Debug, Clone)]
pub struct LujvoAndScore {
    pub lujvo: String,
    pub score: i32,
}

/// The mathematical image of a result list: surface views and scores.
pub open spec fn results_view(rs: Seq<LujvoAndScore>) -> Seq<(Seq<char>, int)> {
    rs.map_values(|x: LujvoAndScore| (x.lujvo@, x.score as int))
}

/// The views of a list of candidate lists.
pub open spec fn lists_view(aa: Seq<Vec<String>>) -> Seq<Seq<Seq<char>>> {
    aa.map_values(|v: Vec<String>| word_views(v@))
}

/// One element appended to every combination of `sub`, in order.
pub open spec fn product_block(sub: Seq<Seq<Seq<char>>>, e: Seq<char>) -> Seq<Seq<Seq<char>>>
    decreases sub.len(),
{
    if sub.len() == 0 {
        Seq::empty()
    } else {
        product_block(sub.drop_last(), e).push(sub.last().push(e))
    }
}

/// Every combination of `sub` extended with every element of `arr`, the
/// blocks in the order of `arr`.
pub open spec fn product_cross(sub: Seq<Seq<Seq<char>>>, arr: Seq<Seq<char>>) -> Seq<
    Seq<Seq<char>>,
>
    decreases arr.len(),
{
    if arr.len() == 0 {
        Seq::empty()
    } else {
        product_cross(sub, arr.drop_last()) + product_block(sub, arr.last())
    }
}

/// The Cartesian product of a list of candidate lists, one pick per
/// position, position order preserved.  The product of no lists is the
/// one empty combination.
pub open spec fn spec_product(aa: Seq<Seq<Seq<char>>>) -> Seq<Seq<Seq<char>>>
    decreases aa.len(),
{
    if aa.len() == 0 {
        seq![Seq::<Seq<char>>::empty()]
    } else {
        product_cross(spec_product(aa.drop_last()), aa.last())
    }
}

proof fn lemma_block_index(sub: Seq<Seq<Seq<char>>>, e: Seq<char>)
    ensures
        product_block(sub, e).len() == sub.len(),
        forall|i: int| 0 <= i < sub.len() ==> product_block(sub, e)[i] == sub[i].push(e),
    decreases sub.len(),
{
    if sub.len() > 0 {
        lemma_block_index(sub.drop_last(), e);
    }
}

proof fn lemma_cross_len(sub: Seq<Seq<Seq<char>>>, arr: Seq<Seq<char>>, m: int)
    requires
        forall|i: int| 0 <= i < sub.len() ==> (#[trigger] sub[i]).len() == m,
    ensures
        forall|i: int|
            0 <= i < product_cross(sub, arr).len() ==> (#[trigger] product_cross(sub, arr)[i]).len()
                == m + 1,
    decreases arr.len(),
{
    if arr.len() > 0 {
        lemma_cross_len(sub, arr.drop_last(), m);
        lemma_block_index(sub, arr.last());
        assert forall|i: int| 0 <= i < product_cross(sub, arr).len() implies (
        #[trigger] product_cross(sub, arr)[i]).len() == m + 1 by {
            let pre = product_cross(sub, arr.drop_last());
            if i < pre.len() {
                assert(product_cross(sub, arr)[i] == pre[i]);
            } else {
                assert(product_cross(sub, arr)[i] == product_block(sub, arr.last())[i - pre.len()]);
            }
        }
    }
}

/// Every combination of the product has one pick per position.
pub proof fn lemma_product_len(aa: Seq<Seq<Seq<char>>>)
    ensures
        forall|i: int|
            0 <= i < spec_product(aa).len() ==> (#[trigger] spec_product(aa)[i]).len() == aa.len(),
    decreases aa.len(),
{
    if aa.len() > 0 {
        lemma_product_len(aa.drop_last());
        lemma_cross_len(spec_product(aa.drop_last()), aa.last(), aa.len() - 1);
    }
}

fn product_prefix(aa: &Vec<Vec<String>>, k: usize) -> (r: Vec<Vec<String>>)
    requires
        k <= aa@.len(),
    ensures
        lists_view(r@) == spec_product(lists_view(aa@).take(k as int)),
    decreases k,
{
    let mut result: Vec<Vec<String>> = Vec::new();
    if k == 0 {
        result.push(Vec::new());
        proof {
            assert(lists_view(aa@).take(0) =~= Seq::<Seq<Seq<char>>>::empty());
            assert(word_views(Seq::<String>::empty()) =~= Seq::<Seq<char>>::empty());
            assert(lists_view(result@) =~= seq![Seq::<Seq<char>>::empty()]);
        }
        return result;
    }
    let sub = product_prefix(aa, k - 1);
    let ghost av = lists_view(aa@);
    let ghost subv = lists_view(sub@);
    proof {
        assert(av.take(k as int).drop_last() =~= av.take(k - 1));
        assert(av.take(k as int).last() == av[k - 1]);
        assert(av[k - 1] == word_views(aa@[k - 1]@));
    }
    let arr = &aa[k - 1];
    let ghost arrv = word_views(arr@);
    let mut i: usize = 0;
    proof {
        assert(arrv.take(0) =~= Seq::<Seq<char>>::empty());
        assert(lists_view(result@) =~= product_cross(subv, arrv.take(0)));
    }
    while i < arr.len()
        invariant
            i <= arr@.len(),
            arrv == word_views(arr@),
            subv == lists_view(sub@),
            sub@.len() == subv.len(),
            lists_view(result@) == product_cross(subv, arrv.take(i as int)),
        decreases arr@.len() - i,
    {
        proof {
            assert(arrv[i as int] == arr@[i as int]@);
        }
        let ghost r0 = lists_view(result@);
        let mut jj: usize = 0;
        while jj < sub.len()
            invariant
                jj <= sub@.len(),
                i < arr@.len(),
                arrv == word_views(arr@),
                subv == lists_view(sub@),
                r0 == product_cross(subv, arrv.take(i as int)),
                lists_view(result@) == r0 + product_block(subv.take(jj as int), arrv[i as int]),
            decreases sub@.len() - jj,
        {
            let mut f = clone_words(&sub[jj]);
            f.push(arr[i].clone());
            proof {
                assert(subv[jj as int] == word_views(sub@[jj as int]@));
                assert(word_views(f@) =~= subv[jj as int].push(arrv[i as int]));
            }
            let ghost r_before = lists_view(result@);
            result.push(f);
            proof {
                assert(lists_view(result@) =~= r_before.push(word_views(f@)));
                assert(subv.take(jj + 1).drop_last() =~= subv.take(jj as int));
                assert(subv.take(jj + 1).last() == subv[jj as int]);
                assert(product_block(subv.take(jj + 1), arrv[i as int]) == product_block(
                    subv.take(jj as int),
                    arrv[i as int],
                ).push(subv[jj as int].push(arrv[i as int])));
                assert(r_before.push(word_views(f@)) =~= r0 + product_block(
                    subv.take(jj + 1),
                    arrv[i as int],
                ));
            }
            jj = jj + 1;
        }
        proof {
            assert(subv.take(subv.len() as int) =~= subv);
            assert(arrv.take(i + 1).drop_last() =~= arrv.take(i as int));
            assert(arrv.take(i + 1).last() == arrv[i as int]);
            assert(product_cross(subv, arrv.take(i + 1)) == product_cross(
                subv,
                arrv.take(i as int),
            ) + product_block(subv, arrv[i as int]));
        }
        i = i + 1;
    }
    proof {
        assert(arrv.take(arr@.len() as int) =~= arrv);
    }
    result
}

/// Forms every combination that picks one entry from each inner list,
/// position order preserved.
pub fn create_every_possibility(aa: Vec<Vec<String>>) -> (r: Vec<Vec<String>>)
    ensures
        lists_view(r@) == spec_product(lists_view(aa@)),
{
    let k = aa.len();
    let r = product_prefix(&aa, k);
    proof {
        assert(lists_view(aa@).take(aa@.len() as int) =~= lists_view(aa@));
    }
    r
}

/// The banned three-letter run.
pub open spec fn contains_triple(l: Seq<char>, a: char, b: char, c: char) -> bool {
    exists|i: int| 0 <= i && i + 3 <= l.len() && #[trigger] l[i] == a && l[i + 1] == b && l[i + 2]
        == c
}

/// The first forbid-flag bans a name-word whose surface contains `lai`
/// or `doi`, or opens with `la` not followed by `u`.
pub open spec fn spec_is_forbidden(l: Seq<char>, forbid_la_lai_doi: bool) -> bool {
    &&& spec_cmevla(l)
    &&& forbid_la_lai_doi
    &&& {
        ||| contains_triple(l, 'l', 'a', 'i')
        ||| contains_triple(l, 'd', 'o', 'i')
        ||| (l.len() >= 2 && l[0] == 'l' && l[1] == 'a' && !(l.len() >= 3 && l[2] == 'u'))
    }
}

fn find_triple(s: &str, a: char, b: char, c: char) -> (r: bool)
    ensures
        r == contains_triple(s@, a, b, c),
{
    let n = s.unicode_len();
    if n < 3 {
        return false;
    }
    let mut i: usize = 0;
    while i <= n - 3
        invariant
            3 <= n == s@.len(),
            i <= n - 2,
            forall|k: int|
                0 <= k < i ==> !(#[trigger] s@[k] == a && s@[k + 1] == b && s@[k + 2] == c),
        decreases n - i,
    {
        if s.get_char(i) == a && s.get_char(i + 1) == b && s.get_char(i + 2) == c {
            proof {
                assert(s@[i as int] == a && s@[i + 1] == b && s@[i + 2] == c);
            }
            return true;
        }
        i = i + 1;
    }
    false
}

fn is_forbidden(l: &str, forbid_la_lai_doi: bool) -> (r: bool)
    ensures
        r == spec_is_forbidden(l@, forbid_la_lai_doi),
{
    if !forbid_la_lai_doi {
        return false;
    }
    if !crate::shape::is_cmevla(l) {
        return false;
    }
    if find_triple(l, 'l', 'a', 'i') {
        return true;
    }
    if find_triple(l, 'd', 'o', 'i') {
        return true;
    }
    let n = l.unicode_len();
    if n >= 2 && l.get_char(0) == 'l' && l.get_char(1) == 'a' {
        if n >= 3 && l.get_char(2) == 'u' {
            return false;
        }
        return true;
    }
    false
}

/// Every fragment of a combination is non-empty; only such combinations
/// reach construction (an empty fragment is outside the data model).
pub open spec fn all_nonempty(combo: Seq<Seq<char>>) -> bool {
    forall|i: int| 0 <= i < combo.len() ==> (#[trigger] combo[i]).len() > 0
}

/// What one combination contributes: the canonical surface word and its
/// score, unless construction fails or a filter drops it.
pub open spec fn combo_survivor(combo: Seq<Seq<char>>, f1: bool, f2: bool) -> Option<
    (Seq<char>, int),
> {
    if !all_nonempty(combo) {
        None
    } else {
        match normalize_spec(combo) {
            None => None,
            Some(toks) => {
                let l = seq_join(toks);
                if !spec_is_forbidden(l, f1) && !(f2 && spec_cmevla(l)) {
                    Some((l, lujvo_score_value(toks)))
                } else {
                    None
                }
            },
        }
    }
}

/// The surviving results of a combination list, in combination order.
pub open spec fn survivors(combos: Seq<Seq<Seq<char>>>, f1: bool, f2: bool) -> Seq<
    (Seq<char>, int),
>
    decreases combos.len(),
{
    if combos.len() == 0 {
        Seq::empty()
    } else {
        let rec = survivors(combos.drop_last(), f1, f2);
        match combo_survivor(combos.last(), f1, f2) {
            Some(p) => rec.push(p),
            None => rec,
        }
    }
}

/// The candidate lists of a word list, one per position.
pub open spec fn candidates_of(arr: Seq<Seq<char>>, o: RafsiOptionsView) -> Seq<Seq<Seq<char>>> {
    Seq::new(arr.len(), |i: int| spec_get_candid(arr[i], i == arr.len() - 1, o))
}

/// Everything generation returns, before the final sort.
pub open spec fn jvozba_results(arr: Seq<Seq<char>>, f1: bool, f2: bool, o: RafsiOptionsView)
    -> Seq<(Seq<char>, int)> {
    survivors(spec_product(candidates_of(arr, o)), f1, f2)
}

/// No survivor is banned by an enabled filter.
proof fn lemma_survivors_keep(combos: Seq<Seq<Seq<char>>>, f1: bool, f2: bool)
    ensures
        forall|i: int|
            0 <= i < survivors(combos, f1, f2).len() ==> {
                let p = #[trigger] survivors(combos, f1, f2)[i];
                !spec_is_forbidden(p.0, f1) && !(f2 && spec_cmevla(p.0))
            },
    decreases combos.len(),
{
    if combos.len() > 0 {
        lemma_survivors_keep(combos.drop_last(), f1, f2);
        let rec = survivors(combos.drop_last(), f1, f2);
        let s = survivors(combos, f1, f2);
        assert forall|i: int| 0 <= i < s.len() implies {
            let p = #[trigger] s[i];
            !spec_is_forbidden(p.0, f1) && !(f2 && spec_cmevla(p.0))
        } by {
            match combo_survivor(combos.last(), f1, f2) {
                Some(q) => {
                    if i < rec.len() {
                        assert(s[i] == rec[i]);
                    } else {
                        assert(s[i] == q);
                    }
                },
                None => {
                    assert(s[i] == rec[i]);
                },
            }
        }
    }
}

/// Combinations that all fail construction leave nothing.
proof fn lemma_survivors_none(combos: Seq<Seq<Seq<char>>>, f1: bool, f2: bool)
    requires
        forall|i: int| 0 <= i < combos.len() ==> combo_survivor(#[trigger] combos[i], f1, f2)
            is None,
    ensures
        survivors(combos, f1, f2) =~= Seq::<(Seq<char>, int)>::empty(),
    decreases combos.len(),
{
    if combos.len() > 0 {
        assert(combos.last() == combos[combos.len() - 1]);
        lemma_survivors_none(combos.drop_last(), f1, f2);
    }
}

fn sort_by_score(input: Vec<LujvoAndScore>) -> (r: Vec<LujvoAndScore>)
    ensures
        results_view(r@).to_multiset() == results_view(input@).to_multiset(),
        forall|i: int, j: int| 0 <= i < j < r@.len() ==> r@[i].score <= r@[j].score,
{
    let mut rest = input;
    let mut out: Vec<LujvoAndScore> = Vec::new();
    proof {
        assert(results_view(out@).len() == 0);
        assert(results_view(out@).to_multiset().add(results_view(rest@).to_multiset()) =~= results_view(rest@).to_multiset());
    }
    while rest.len() > 0
        invariant
            results_view(out@).to_multiset().add(results_view(rest@).to_multiset())
                == results_view(input@).to_multiset(),
            forall|i: int, j: int| 0 <= i < j < out@.len() ==> out@[i].score <= out@[j].score,
            forall|i: int, j: int|
                0 <= i < out@.len() && 0 <= j < rest@.len() ==> out@[i].score <= rest@[j].score,
        decreases rest@.len(),
    {
        let mut m: usize = 0;
        let mut i: usize = 1;
        while i < rest.len()
            invariant
                m < i <= rest@.len(),
                rest@.len() > 0,
                forall|k: int| 0 <= k < i ==> rest@[m as int].score <= rest@[k].score,
            decreases rest@.len() - i,
        {
            if rest[i].score < rest[m].score {
                m = i;
            }
            i = i + 1;
        }
        let ghost old_out = out@;
        let ghost old_rest = rest@;
        let x = rest.remove(m);
        out.push(x);
        proof {
            let p = (x.lujvo@, x.score as int);
            assert(results_view(old_rest)[m as int] == p);
            assert(results_view(rest@) =~= results_view(old_rest).remove(m as int));
            assert(results_view(out@) =~= results_view(old_out).push(p));
            assert(results_view(old_rest).remove(m as int).to_multiset() =~= results_view(
                old_rest,
            ).to_multiset().remove(p));
            assert(results_view(old_out).push(p).to_multiset() =~= results_view(
                old_out,
            ).to_multiset().insert(p));
            assert(results_view(old_rest).to_multiset().contains(p)) by {
                assert(results_view(old_rest).contains(p));
            }
            assert(results_view(out@).to_multiset().add(results_view(rest@).to_multiset())
                =~= results_view(old_out).to_multiset().add(results_view(old_rest).to_multiset()));
        }
    }
    out
}

/// Generates every compound buildable from the given root words, scores
/// the survivors, applies the name-word filters, and returns them in
/// ascending score order.  Fewer than two words always yield the empty
/// list.
pub fn jvozba(
    arr: &Vec<String>,
    forbid_la_lai_doi: bool,
    forbid_cmevla: bool,
    options: &RafsiOptions,
) -> (res: Vec<LujvoAndScore>)
    ensures
        results_view(res@).to_multiset() == jvozba_results(
            word_views(arr@),
            forbid_la_lai_doi,
            forbid_cmevla,
            options@,
        ).to_multiset(),
        forall|i: int, j: int| 0 <= i < j < res@.len() ==> res@[i].score <= res@[j].score,
        arr@.len() < 2 ==> res@.len() == 0,
        forall|i: int|
            0 <= i < res@.len() ==> !spec_is_forbidden(
                (#[trigger] res@[i]).lujvo@,
                forbid_la_lai_doi,
            ) && !(forbid_cmevla && spec_cmevla(res@[i].lujvo@)),
{
    let ghost av = word_views(arr@);
    let ghost o = options@;
    let n = arr.len();
    let mut cands: Vec<Vec<String>> = Vec::new();
    let mut i: usize = 0;
    proof {
        assert(lists_view(cands@) =~= candidates_of(av, o).take(0));
    }
    while i < n
        invariant
            i <= n,
            n == arr@.len(),
            av == word_views(arr@),
            o == options@,
            lists_view(cands@) == candidates_of(av, o).take(i as int),
        decreases n - i,
    {
        let c = get_candid(arr[i].as_str(), i == n - 1, options);
        proof {
            assert(av[i as int] == arr@[i as int]@);
            assert(candidates_of(av, o)[i as int] == spec_get_candid(
                av[i as int],
                i as int == av.len() - 1,
                o,
            ));
        }
        cands.push(c);
        proof {
            assert(candidates_of(av, o).take(i + 1).drop_last() =~= candidates_of(av, o).take(
                i as int,
            ));
            assert(lists_view(cands@) =~= candidates_of(av, o).take(i + 1));
        }
        i = i + 1;
    }
    proof {
        assert(candidates_of(av, o).take(n as int) =~= candidates_of(av, o));
    }
    let combos = create_every_possibility(cands);
    let ghost combosv = lists_view(combos@);
    let mut found: Vec<LujvoAndScore> = Vec::new();
    let mut k: usize = 0;
    proof {
        assert(results_view(found@) =~= survivors(
            combosv.take(0),
            forbid_la_lai_doi,
            forbid_cmevla,
        ));
    }
    while k < combos.len()
        invariant
            k <= combos@.len(),
            combosv == lists_view(combos@),
            results_view(found@) == survivors(
                combosv.take(k as int),
                forbid_la_lai_doi,
                forbid_cmevla,
            ),
        decreases combos@.len() - k,
    {
        proof {
            assert(combosv.take(k + 1).drop_last() =~= combosv.take(k as int));
            assert(combosv.take(k + 1).last() == combosv[k as int]);
            assert(combosv[k as int] == word_views(combos@[k as int]@));
        }
        let combo = &combos[k];
        let ghost cv = word_views(combo@);
        let mut ok = true;
        let mut j: usize = 0;
        while j < combo.len()
            invariant
                j <= combo@.len(),
                cv == word_views(combo@),
                ok == (forall|t: int| 0 <= t < j ==> (#[trigger] cv[t]).len() > 0),
            decreases combo@.len() - j,
        {
            proof {
                assert(cv[j as int] == combo@[j as int]@);
            }
            let this_ok = combo[j].as_str().unicode_len() > 0;
            let ghost ok_before = ok;
            ok = ok && this_ok;
            proof {
                assert(ok == (ok_before && cv[j as int].len() > 0));
            }
            j = j + 1;
        }
        proof {
            assert(ok == all_nonempty(cv));
        }
        let ghost f0 = results_view(found@);
        if ok {
            proof {
                assert forall|t: int| 0 <= t < combo@.len() implies (
                #[trigger] combo@[t])@.len() > 0 by {
                    assert(cv[t] == combo@[t]@);
                }
            }
            match normalize(combo) {
                Ok(toks) => {
                    let ghost toksv = word_views(toks@);
                    let l = join_all(&toks);
                    let sc = get_lujvo_score(&toks);
                    let forb = is_forbidden(l.as_str(), forbid_la_lai_doi);
                    let cmev = crate::shape::is_cmevla(l.as_str());
                    if !forb && !(forbid_cmevla && cmev) {
                        let ghost p = (l@, sc as int);
                        proof {
                            assert(combo_survivor(cv, forbid_la_lai_doi, forbid_cmevla) == Some(
                                p,
                            ));
                        }
                        found.push(LujvoAndScore { lujvo: l, score: sc });
                        proof {
                            assert(results_view(found@) =~= f0.push(p));
                        }
                    } else {
                        proof {
                            assert(combo_survivor(cv, forbid_la_lai_doi, forbid_cmevla) is None);
                        }
                    }
                },
                Err(_) => {
                    proof {
                        assert(combo_survivor(cv, forbid_la_lai_doi, forbid_cmevla) is None);
                    }
                },
            }
        } else {
            proof {
                assert(combo_survivor(cv, forbid_la_lai_doi, forbid_cmevla) is None);
            }
        }
        k = k + 1;
        proof {
            assert(results_view(found@) == survivors(
                combosv.take(k as int),
                forbid_la_lai_doi,
                forbid_cmevla,
            ));
        }
    }
    proof {
        assert(combosv.take(combos@.len() as int) =~= combosv);
    }
    let res = sort_by_score(found);
    proof {
        let survs = jvozba_results(av, forbid_la_lai_doi, forbid_cmevla, o);
        assert(results_view(res@).to_multiset() == survs.to_multiset());
        if av.len() < 2 {
            lemma_product_len(candidates_of(av, o));
            assert(candidates_of(av, o).len() == av.len());
            assert forall|c: int|
                0 <= c < combosv.len() implies combo_survivor(
                #[trigger] combosv[c],
                forbid_la_lai_doi,
                forbid_cmevla,
            ) is None by {
                assert(combosv[c].len() == av.len());
                if all_nonempty(combosv[c]) {
                    assert(normalize_spec(combosv[c]) is None);
                }
            }
            lemma_survivors_none(combosv, forbid_la_lai_doi, forbid_cmevla);
            assert(survs.to_multiset().len() == 0);
            assert(results_view(res@).len() == res@.len());
            assert(res@.len() == 0);
        }
        lemma_survivors_keep(combosv, forbid_la_lai_doi, forbid_cmevla);
        assert forall|i2: int| 0 <= i2 < res@.len() implies !spec_is_forbidden(
            (#[trigger] res@[i2]).lujvo@,
            forbid_la_lai_doi,
        ) && !(forbid_cmevla && spec_cmevla(res@[i2].lujvo@)) by {
            let p = (res@[i2].lujvo@, res@[i2].score as int);
            assert(results_view(res@)[i2] == p);
            assert(results_view(res@).contains(p));
            assert(results_view(res@).to_multiset().contains(p));
            assert(survs.to_multiset().contains(p));
            assert(survs.contains(p));
            let w = choose|w: int| 0 <= w < survs.len() && survs[w] == p;
            assert(!spec_is_forbidden(survs[w].0, forbid_la_lai_doi) && !(forbid_cmevla
                && spec_cmevla(survs[w].0)));
        }
    }
    res
}

} // verus!
