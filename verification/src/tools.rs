//! Catalog access for the generation engine: per-tier lookup of a root
//! word's fragment forms, the per-position candidate list, the reverse
//! search from a fragment back to a root word, and reconstruction of a
//! compound from its own fragments.

use crate::catalog::{
    builtin_cmavo, builtin_cmavo_exp, builtin_cmavo_exp_view, builtin_cmavo_view, builtin_gismu,
    builtin_gismu_exp, builtin_gismu_exp_view, builtin_gismu_view, catalog_lookup, catalog_scan,
    Catalog,
};
use crate::errors::LujvoError;
use crate::generate::{jvozba, jvozba_results, results_view};
use crate::jvokaha::{jvokaha, jvokaha_spec};
use crate::scoring::word_views;
use crate::text::{clone_words, str_eq, substr_owned};
use vstd::prelude::*;

verus! {

broadcast use vstd::seq_lib::group_to_multiset_ensures;

/// Configuration of a generation call: whether the experimental tier is
/// consulted, and up to four override catalogs that replace the built-in
/// ones.
#[derive(Clone)]
pub struct RafsiOptions<'a> {
    pub exp_rafsi: bool,
    pub custom_cmavo: Option<&'a Catalog>,
    pub custom_cmavo_exp: Option<&'a Catalog>,
    pub custom_gismu: Option<&'a Catalog>,
    pub custom_gismu_exp: Option<&'a Catalog>,
}

/// The ghost image of a configuration: the catalog views it selects.
pub struct RafsiOptionsView {
    pub exp_rafsi: bool,
    pub custom_cmavo: Option<Seq<(Seq<char>, Seq<Seq<char>>)>>,
    pub custom_cmavo_exp: Option<Seq<(Seq<char>, Seq<Seq<char>>)>>,
    pub custom_gismu: Option<Seq<(Seq<char>, Seq<Seq<char>>)>>,
    pub custom_gismu_exp: Option<Seq<(Seq<char>, Seq<Seq<char>>)>>,
}

pub open spec fn catalog_opt_view(c: Option<&Catalog>) -> Option<Seq<(Seq<char>, Seq<Seq<char>>)>> {
    match c {
        Some(cat) => Some(cat@),
        None => None,
    }
}

impl<'a> View for RafsiOptions<'a> {
    type V = RafsiOptionsView;

    open spec fn view(&self) -> RafsiOptionsView {
        RafsiOptionsView {
            exp_rafsi: self.exp_rafsi,
            custom_cmavo: catalog_opt_view(self.custom_cmavo),
            custom_cmavo_exp: catalog_opt_view(self.custom_cmavo_exp),
            custom_gismu: catalog_opt_view(self.custom_gismu),
            custom_gismu_exp: catalog_opt_view(self.custom_gismu_exp),
        }
    }
}

/// One tier's answer: the fragment list found in the override catalog if
/// one is supplied, else in the built-in one; an empty list counts as no
/// answer.
pub open spec fn tier_list(
    custom: Option<Seq<(Seq<char>, Seq<Seq<char>>)>>,
    builtin: Seq<(Seq<char>, Seq<Seq<char>>)>,
    key: Seq<char>,
) -> Option<Seq<Seq<char>>> {
    let table = if custom is Some {
        custom->0
    } else {
        builtin
    };
    match catalog_lookup(table, key) {
        Some(fs) => if fs.len() > 0 {
            Some(fs)
        } else {
            None
        },
        None => None,
    }
}

/// The content-word lookup: standard tier first, then (when enabled) the
/// experimental tier; a word that no consulted tier knows is a miss.
pub open spec fn spec_gismu_rafsi_list(
    a: Seq<char>,
    exp_rafsi: bool,
    custom: Option<Seq<(Seq<char>, Seq<Seq<char>>)>>,
    custom_exp: Option<Seq<(Seq<char>, Seq<Seq<char>>)>>,
) -> Option<Seq<Seq<char>>> {
    if tier_list(custom, builtin_gismu_view(), a) is Some {
        tier_list(custom, builtin_gismu_view(), a)
    } else if exp_rafsi && tier_list(custom_exp, builtin_gismu_exp_view(), a) is Some {
        tier_list(custom_exp, builtin_gismu_exp_view(), a)
    } else {
        None
    }
}

/// The structure-word lookup: as the content-word one, but a miss is a
/// miss — there is no empty-list fallback.
pub open spec fn spec_cmavo_rafsi_list(
    a: Seq<char>,
    exp_rafsi: bool,
    custom: Option<Seq<(Seq<char>, Seq<Seq<char>>)>>,
    custom_exp: Option<Seq<(Seq<char>, Seq<Seq<char>>)>>,
) -> Option<Seq<Seq<char>>> {
    if tier_list(custom, builtin_cmavo_view(), a) is Some {
        tier_list(custom, builtin_cmavo_view(), a)
    } else if exp_rafsi && tier_list(custom_exp, builtin_cmavo_exp_view(), a) is Some {
        tier_list(custom_exp, builtin_cmavo_exp_view(), a)
    } else {
        None
    }
}

fn tier_lookup(custom: Option<&Catalog>, builtin: &Catalog, key: &str) -> (r: Option<Vec<String>>)
    ensures
        match r {
            Some(v) => tier_list(catalog_opt_view(custom), builtin@, key@) == Some(word_views(v@)),
            None => tier_list(catalog_opt_view(custom), builtin@, key@) is None,
        },
{
    let table: &Catalog = match custom {
        Some(c) => c,
        None => builtin,
    };
    match table.get(key) {
        Some(v) => {
            if v.len() > 0 {
                Some(clone_words(v))
            } else {
                None
            }
        },
        None => None,
    }
}

/// Looks up the known content-word fragment forms of a root word.
pub fn gismu_rafsi_list(
    a: &str,
    exp_rafsi: bool,
    custom_gismu: Option<&Catalog>,
    custom_gismu_exp: Option<&Catalog>,
) -> (r: Option<Vec<String>>)
    ensures
        r is Some <==> spec_gismu_rafsi_list(
            a@,
            exp_rafsi,
            catalog_opt_view(custom_gismu),
            catalog_opt_view(custom_gismu_exp),
        ) is Some,
        r matches Some(v) ==> word_views(v@) == spec_gismu_rafsi_list(
            a@,
            exp_rafsi,
            catalog_opt_view(custom_gismu),
            catalog_opt_view(custom_gismu_exp),
        )->0,
{
    let b = builtin_gismu();
    if let Some(v) = tier_lookup(custom_gismu, &b, a) {
        return Some(v);
    }
    if exp_rafsi {
        let be = builtin_gismu_exp();
        if let Some(v) = tier_lookup(custom_gismu_exp, &be, a) {
            return Some(v);
        }
    }
    None
}

/// Looks up the known structure-word fragment forms of a root word.
pub fn cmavo_rafsi_list(
    a: &str,
    exp_rafsi: bool,
    custom_cmavo: Option<&Catalog>,
    custom_cmavo_exp: Option<&Catalog>,
) -> (r: Option<Vec<String>>)
    ensures
        r is Some <==> spec_cmavo_rafsi_list(
            a@,
            exp_rafsi,
            catalog_opt_view(custom_cmavo),
            catalog_opt_view(custom_cmavo_exp),
        ) is Some,
        r matches Some(v) ==> word_views(v@) == spec_cmavo_rafsi_list(
            a@,
            exp_rafsi,
            catalog_opt_view(custom_cmavo),
            catalog_opt_view(custom_cmavo_exp),
        )->0,
{
    let b = builtin_cmavo();
    if let Some(v) = tier_lookup(custom_cmavo, &b, a) {
        return Some(v);
    }
    if exp_rafsi {
        let be = builtin_cmavo_exp();
        if let Some(v) = tier_lookup(custom_cmavo_exp, &be, a) {
            return Some(v);
        }
    }
    None
}

/// The candidate fragment list of one root word at one position: a
/// structure-word hit is taken as is; a content-word hit contributes its
/// forms, plus the full word at the last position, plus the word with
/// its final vowel dropped unless that is the reserved string `brod`.  A
/// word that neither lookup finds gets no candidates at all.
pub open spec fn spec_get_candid(w: Seq<char>, is_last: bool, o: RafsiOptionsView) -> Seq<
    Seq<char>,
> {
    match spec_cmavo_rafsi_list(w, o.exp_rafsi, o.custom_cmavo, o.custom_cmavo_exp) {
        Some(fs) => fs,
        None => match spec_gismu_rafsi_list(w, o.exp_rafsi, o.custom_gismu, o.custom_gismu_exp) {
            Some(b) => {
                let b1 = if is_last {
                    b.push(w)
                } else {
                    b
                };
                if w.len() >= 1 && w.drop_last() != seq!['b', 'r', 'o', 'd'] {
                    b1.push(w.drop_last())
                } else {
                    b1
                }
            },
            None => Seq::empty(),
        },
    }
}

/// Computes the candidate fragment list of one root word.
pub fn get_candid(selrafsi: &str, is_last: bool, options: &RafsiOptions) -> (r: Vec<String>)
    ensures
        word_views(r@) == spec_get_candid(selrafsi@, is_last, options@),
{
    if let Some(a) = cmavo_rafsi_list(
        selrafsi,
        options.exp_rafsi,
        options.custom_cmavo,
        options.custom_cmavo_exp,
    ) {
        return a;
    }
    let b = gismu_rafsi_list(
        selrafsi,
        options.exp_rafsi,
        options.custom_gismu,
        options.custom_gismu_exp,
    );
    let mut candid = match b {
        Some(v) => v,
        None => {
            proof {
                assert(word_views(Seq::<String>::empty()) =~= Seq::<Seq<char>>::empty());
            }
            return Vec::new();
        },
    };
    let ghost b0 = word_views(candid@);
    if is_last {
        candid.push(selrafsi.to_owned());
        proof {
            assert(word_views(candid@) =~= b0.push(selrafsi@));
        }
    }
    let ghost b1 = word_views(candid@);
    let wn = selrafsi.unicode_len();
    if wn >= 1 {
        let chopped = substr_owned(selrafsi, 0, wn - 1);
        proof {
            assert(chopped@ =~= selrafsi@.drop_last());
            reveal_strlit("brod");
            assert("brod"@ =~= seq!['b', 'r', 'o', 'd']);
        }
        if !str_eq(chopped.as_str(), "brod") {
            candid.push(chopped);
            proof {
                assert(word_views(candid@) =~= b1.push(selrafsi@.drop_last()));
            }
        }
    }
    candid
}

/// The word completed from a four-letter fragment: the fragment with the
/// first vowel appended whose word the built-in content-word catalog
/// (standard tier, then the experimental one when enabled) knows.
pub open spec fn vowel_completion(rafsi: Seq<char>, exp_rafsi: bool) -> Option<Seq<char>> {
    if spec_gismu_rafsi_list(rafsi.push('a'), exp_rafsi, None, None) is Some {
        Some(rafsi.push('a'))
    } else if spec_gismu_rafsi_list(rafsi.push('e'), exp_rafsi, None, None) is Some {
        Some(rafsi.push('e'))
    } else if spec_gismu_rafsi_list(rafsi.push('i'), exp_rafsi, None, None) is Some {
        Some(rafsi.push('i'))
    } else if spec_gismu_rafsi_list(rafsi.push('o'), exp_rafsi, None, None) is Some {
        Some(rafsi.push('o'))
    } else if spec_gismu_rafsi_list(rafsi.push('u'), exp_rafsi, None, None) is Some {
        Some(rafsi.push('u'))
    } else {
        None
    }
}

/// The reverse mapping of a fragment to a root word.  A fragment with
/// known content-word forms stands for itself; a four-letter fragment
/// without apostrophe stands for its vowel completion when one exists;
/// otherwise the built-in catalogs are scanned, standard tiers first,
/// for a fragment list that contains it.
pub open spec fn spec_search_selrafsi(rafsi: Seq<char>, o: RafsiOptionsView) -> Option<Seq<char>> {
    if spec_gismu_rafsi_list(rafsi, o.exp_rafsi, o.custom_gismu, o.custom_gismu_exp) is Some {
        Some(rafsi)
    } else if rafsi != seq!['b', 'r', 'o', 'd'] && rafsi.len() == 4 && !rafsi.contains('\'')
        && vowel_completion(rafsi, o.exp_rafsi) is Some {
        vowel_completion(rafsi, o.exp_rafsi)
    } else if catalog_scan(builtin_gismu_view(), rafsi) is Some {
        catalog_scan(builtin_gismu_view(), rafsi)
    } else if catalog_scan(builtin_cmavo_view(), rafsi) is Some {
        catalog_scan(builtin_cmavo_view(), rafsi)
    } else if o.exp_rafsi && catalog_scan(builtin_gismu_exp_view(), rafsi) is Some {
        catalog_scan(builtin_gismu_exp_view(), rafsi)
    } else if o.exp_rafsi && catalog_scan(builtin_cmavo_exp_view(), rafsi) is Some {
        catalog_scan(builtin_cmavo_exp_view(), rafsi)
    } else {
        None
    }
}

fn vowel_candidate(rafsi: &str, suffix: &str, exp_rafsi: bool) -> (r: Option<String>)
    ensures
        match r {
            Some(w) => w@ == rafsi@ + suffix@ && spec_gismu_rafsi_list(
                rafsi@ + suffix@,
                exp_rafsi,
                None,
                None,
            ) is Some,
            None => spec_gismu_rafsi_list(rafsi@ + suffix@, exp_rafsi, None, None) is None,
        },
{
    let w = rafsi.to_owned().concat(suffix);
    match gismu_rafsi_list(w.as_str(), exp_rafsi, None, None) {
        Some(_) => Some(w),
        None => None,
    }
}

/// Maps a fragment back to a root word, if any is known.
pub fn search_selrafsi_from_rafsi2(rafsi: &str, options: &RafsiOptions) -> (r: Option<String>)
    ensures
        match r {
            Some(w) => spec_search_selrafsi(rafsi@, options@) == Some(w@),
            None => spec_search_selrafsi(rafsi@, options@) is None,
        },
{
    let direct = gismu_rafsi_list(
        rafsi,
        options.exp_rafsi,
        options.custom_gismu,
        options.custom_gismu_exp,
    );
    if direct.is_some() {
        return Some(rafsi.to_owned());
    }
    proof {
        reveal_strlit("brod");
        assert("brod"@ =~= seq!['b', 'r', 'o', 'd']);
    }
    if !str_eq(rafsi, "brod") && rafsi.unicode_len() == 4 && !crate::text::contains_char(
        rafsi,
        '\'',
    ) {
        // append each vowel in turn; keep the first whose word the
        // content-word catalog knows, else fall through to the scans
        proof {
            reveal_strlit("a");
            reveal_strlit("e");
            reveal_strlit("i");
            reveal_strlit("o");
            reveal_strlit("u");
            assert(rafsi@ + "a"@ =~= rafsi@.push('a'));
            assert(rafsi@ + "e"@ =~= rafsi@.push('e'));
            assert(rafsi@ + "i"@ =~= rafsi@.push('i'));
            assert(rafsi@ + "o"@ =~= rafsi@.push('o'));
            assert(rafsi@ + "u"@ =~= rafsi@.push('u'));
        }
        if let Some(w) = vowel_candidate(rafsi, "a", options.exp_rafsi) {
            return Some(w);
        }
        if let Some(w) = vowel_candidate(rafsi, "e", options.exp_rafsi) {
            return Some(w);
        }
        if let Some(w) = vowel_candidate(rafsi, "i", options.exp_rafsi) {
            return Some(w);
        }
        if let Some(w) = vowel_candidate(rafsi, "o", options.exp_rafsi) {
            return Some(w);
        }
        if let Some(w) = vowel_candidate(rafsi, "u", options.exp_rafsi) {
            return Some(w);
        }
    }
    let bg = builtin_gismu();
    if let Some(k) = bg.scan_for_form(rafsi) {
        return Some(k);
    }
    let bc = builtin_cmavo();
    if let Some(k) = bc.scan_for_form(rafsi) {
        return Some(k);
    }
    if options.exp_rafsi {
        let bge = builtin_gismu_exp();
        if let Some(k) = bge.scan_for_form(rafsi) {
            return Some(k);
        }
        let bce = builtin_cmavo_exp();
        if let Some(k) = bce.scan_for_form(rafsi) {
            return Some(k);
        }
    }
    None
}

/// A glue token in a decomposition: one of the words `y`, `r`, `n`.
pub open spec fn is_glue_word(t: Seq<char>) -> bool {
    t == seq!['y'] || t == seq!['r'] || t == seq!['n']
}

/// The root words recovered from a token list: glue dropped, each
/// fragment reverse-mapped, fragments with no mapping dropped.
pub open spec fn selrafsi_of(ts: Seq<Seq<char>>, o: RafsiOptionsView) -> Seq<Seq<char>>
    decreases ts.len(),
{
    if ts.len() == 0 {
        Seq::empty()
    } else {
        let rec = selrafsi_of(ts.drop_last(), o);
        if is_glue_word(ts.last()) {
            rec
        } else {
            match spec_search_selrafsi(ts.last(), o) {
                Some(w) => rec.push(w),
                None => rec,
            }
        }
    }
}

/// Decomposes a compound, recovers the root words of its fragments, and
/// regenerates the best-ranked compound for them.  Fails when the input
/// does not decompose or when regeneration yields no candidate.
pub fn reconstruct_lujvo(lujvo: &str, forbid_cmevla: bool, options: &RafsiOptions) -> (r: Result<
    String,
    LujvoError,
>)
    ensures
        jvokaha_spec(lujvo@) is None ==> (r matches Err(e) && match crate::jvokaha::jvokaha2_spec(
            lujvo@,
        ) {
            None => e is UnparsableInput,
            Some(arr) => match crate::construct::normalize_spec(crate::jvokaha::filter_glue(arr)) {
                None => e is InsufficientComponents,
                Some(toks) => e matches LujvoError::MalformedCanonicalForm { correct } && correct@
                    == crate::text::seq_join(toks) && crate::text::seq_join(toks) != lujvo@,
            },
        }),
        jvokaha_spec(lujvo@) matches Some(arr) ==> {
            let survs = jvozba_results(selrafsi_of(arr, options@), false, forbid_cmevla, options@);
            &&& (r is Ok <==> survs.len() > 0)
            &&& (r matches Ok(w) ==> exists|i: int|
                0 <= i < survs.len() && (#[trigger] survs[i]).0 == w@ && (forall|j: int|
                    0 <= j < survs.len() ==> survs[i].1 <= (#[trigger] survs[j]).1))
            &&& (survs.len() == 0 ==> (r matches Err(e) && e is NoCandidates))
        },
{
    let arr = match jvokaha(lujvo) {
        Ok(a) => a,
        Err(e) => {
            return Err(e);
        },
    };
    let ghost arrv = word_views(arr@);
    let ghost o = options@;
    let mut selrafsi: Vec<String> = Vec::new();
    let mut i: usize = 0;
    proof {
        assert(word_views(selrafsi@) =~= selrafsi_of(arrv.take(0), o));
    }
    while i < arr.len()
        invariant
            i <= arr@.len(),
            arrv == word_views(arr@),
            o == options@,
            word_views(selrafsi@) == selrafsi_of(arrv.take(i as int), o),
        decreases arr@.len() - i,
    {
        proof {
            assert(arrv.take(i + 1).drop_last() =~= arrv.take(i as int));
            assert(arrv.take(i + 1).last() == arrv[i as int]);
            assert(arrv[i as int] == arr@[i as int]@);
        }
        let t = &arr[i];
        let tn = t.as_str().unicode_len();
        let glue = tn == 1 && (t.as_str().get_char(0) == 'y' || t.as_str().get_char(0) == 'r'
            || t.as_str().get_char(0) == 'n');
        proof {
            if glue {
                assert(t@ =~= seq![t@[0]]);
            } else {
                if is_glue_word(t@) {
                    assert(t@.len() == 1);
                    assert(t@[0] == 'y' || t@[0] == 'r' || t@[0] == 'n');
                    assert(false);
                }
            }
        }
        if !glue {
            let ghost s0 = word_views(selrafsi@);
            match search_selrafsi_from_rafsi2(t.as_str(), options) {
                Some(w) => {
                    selrafsi.push(w);
                    proof {
                        assert(word_views(selrafsi@) =~= s0.push(
                            spec_search_selrafsi(arrv[i as int], o)->0,
                        ));
                    }
                },
                None => {},
            }
        }
        i = i + 1;
    }
    proof {
        assert(arrv.take(arr@.len() as int) =~= arrv);
    }
    let results = jvozba(&selrafsi, false, forbid_cmevla, options);
    let ghost survs = jvozba_results(word_views(selrafsi@), false, forbid_cmevla, o);
    proof {
        assert(results_view(results@).to_multiset().len() == survs.to_multiset().len());
        assert(results_view(results@).len() == results@.len());
        assert(results@.len() == survs.len());
    }
    if results.len() == 0 {
        return Err(LujvoError::NoCandidates);
    }
    let first = &results[0];
    let out = first.lujvo.clone();
    proof {
        let p = (first.lujvo@, first.score as int);
        assert(results_view(results@)[0] == p);
        assert(results_view(results@).contains(p));
        assert(survs.to_multiset().contains(p));
        assert(survs.contains(p));
        let wi = choose|wi: int| 0 <= wi < survs.len() && survs[wi] == p;
        assert forall|j: int| 0 <= j < survs.len() implies survs[wi].1 <= (
        #[trigger] survs[j]).1 by {
            let q = survs[j];
            assert(survs.contains(q));
            assert(survs.to_multiset().contains(q));
            assert(results_view(results@).contains(q));
            let k = choose|k: int|
                0 <= k < results_view(results@).len() && results_view(results@)[k] == q;
            assert(results_view(results@)[k] == (results@[k].lujvo@, results@[k].score as int));
            if k > 0 {
                assert(results@[0].score <= results@[k].score);
            }
        }
    }
    Ok(out)
}

} // verus!
