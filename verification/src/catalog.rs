//! Root-word catalogs: ordered, immutable mappings from a root word to
//! its known fragment forms.  The engine ships a small built-in table per
//! word class and tier; callers may supply their own catalogs, which
//! replace (never merge with) the corresponding built-in one.

use crate::scoring::word_views;
use crate::text::str_eq;
use vstd::prelude::*;

verus! {

/// The view of a catalog: ordered (root word, fragment list) pairs.
pub open spec fn catalog_lookup(c: Seq<(Seq<char>, Seq<Seq<char>>)>, key: Seq<char>) -> Option<
    Seq<Seq<char>>,
>
    decreases c.len(),
{
    if c.len() == 0 {
        None
    } else if c[0].0 == key {
        Some(c[0].1)
    } else {
        catalog_lookup(c.drop_first(), key)
    }
}

/// The first entry whose fragment list contains the given form.
pub open spec fn catalog_scan(c: Seq<(Seq<char>, Seq<Seq<char>>)>, form: Seq<char>) -> Option<
    Seq<char>,
>
    decreases c.len(),
{
    if c.len() == 0 {
        None
    } else if c[0].1.contains(form) {
        Some(c[0].0)
    } else {
        catalog_scan(c.drop_first(), form)
    }
}

/// A mapping from root words to ordered fragment lists.  Later bindings
/// shadow earlier ones for the same word.
pub struct Catalog {
    entries: Vec<(String, Vec<String>)>,
}

impl View for Catalog {
    type V = Seq<(Seq<char>, Seq<Seq<char>>)>;

    closed spec fn view(&self) -> Self::V {
        self.entries@.map_values(|e: (String, Vec<String>)| (e.0@, word_views(e.1@)))
    }
}

impl Catalog {
    /// An empty catalog.
    pub fn new() -> (c: Catalog)
        ensures
            c@ =~= Seq::<(Seq<char>, Seq<Seq<char>>)>::empty(),
    {
        Catalog { entries: Vec::new() }
    }

    /// Binds a word to its fragment list, shadowing any earlier binding.
    pub fn insert(&mut self, word: &str, forms: Vec<String>)
        ensures
            final(self)@ == seq![(word@, word_views(forms@))] + old(self)@,
    {
        self.entries.insert(0, (word.to_owned(), forms));
        proof {
            assert(self@ =~= seq![(word@, word_views(forms@))] + old(self)@);
        }
    }

    /// Looks a word up.
    pub fn get(&self, word: &str) -> (r: Option<&Vec<String>>)
        ensures
            match r {
                Some(v) => catalog_lookup(self@, word@) == Some(word_views(v@)),
                None => catalog_lookup(self@, word@) is None,
            },
    {
        let n = self.entries.len();
        let mut i: usize = 0;
        proof {
            assert(self@.skip(0) =~= self@);
        }
        while i < n
            invariant
                i <= n,
                n == self.entries@.len(),
                catalog_lookup(self@, word@) == catalog_lookup(self@.skip(i as int), word@),
            decreases n - i,
        {
            proof {
                assert(self@.skip(i as int)[0] == self@[i as int]);
                assert(self@.skip(i as int).drop_first() =~= self@.skip(i + 1));
                assert(self@[i as int].0 == self.entries@[i as int].0@);
            }
            let e = &self.entries[i];
            if str_eq(e.0.as_str(), word) {
                return Some(&e.1);
            }
            i = i + 1;
        }
        proof {
            assert(self@.skip(n as int).len() == 0);
        }
        None
    }

    /// Finds the first word whose fragment list contains the given form.
    pub fn scan_for_form(&self, form: &str) -> (r: Option<String>)
        ensures
            match r {
                Some(k) => catalog_scan(self@, form@) == Some(k@),
                None => catalog_scan(self@, form@) is None,
            },
    {
        let n = self.entries.len();
        let mut i: usize = 0;
        proof {
            assert(self@.skip(0) =~= self@);
        }
        while i < n
            invariant
                i <= n,
                n == self.entries@.len(),
                catalog_scan(self@, form@) == catalog_scan(self@.skip(i as int), form@),
            decreases n - i,
        {
            proof {
                assert(self@.skip(i as int)[0] == self@[i as int]);
                assert(self@.skip(i as int).drop_first() =~= self@.skip(i + 1));
                assert(self@[i as int].0 == self.entries@[i as int].0@);
                assert(self@[i as int].1 == word_views(self.entries@[i as int].1@));
            }
            let e = &self.entries[i];
            let fs = &e.1;
            let m = fs.len();
            let mut j: usize = 0;
            let mut hit = false;
            while j < m && !hit
                invariant
                    j <= m,
                    m == fs@.len(),
                    hit ==> j > 0 && word_views(fs@)[j - 1] == form@,
                    !hit ==> forall|k: int| 0 <= k < j ==> word_views(fs@)[k] != form@,
                decreases m - j + if hit {
                    0int
                } else {
                    1int
                },
            {
                proof {
                    assert(word_views(fs@)[j as int] == fs@[j as int]@);
                }
                if str_eq(fs[j].as_str(), form) {
                    hit = true;
                }
                j = j + 1;
            }
            if hit {
                proof {
                    assert(word_views(fs@).contains(form@));
                    assert(self@[i as int].1.contains(form@));
                }
                return Some(e.0.clone());
            }
            proof {
                assert(!word_views(fs@).contains(form@)) by {
                    if word_views(fs@).contains(form@) {
                        let w = choose|k: int|
                            0 <= k < word_views(fs@).len() && word_views(fs@)[k] == form@;
                        assert(word_views(fs@)[w] == form@);
                    }
                }
            }
            i = i + 1;
        }
        proof {
            assert(self@.skip(n as int).len() == 0);
        }
        None
    }
}

/// The built-in standard content-word catalog.
pub open spec fn builtin_gismu_view() -> Seq<(Seq<char>, Seq<Seq<char>>)> {
    seq![
        ("klama"@, seq!["kla"@]),
        ("gasnu"@, seq!["gau"@]),
        ("barda"@, seq!["bra"@]),
        ("mlatu"@, seq!["lat"@]),
        ("broda"@, seq!["rod"@]),
        ("turni"@, seq!["tru"@]),
        ("catni"@, seq!["ca'i"@]),
        ("prami"@, seq!["pam"@]),
        ("sutra"@, seq!["sut"@]),
    ]
}

/// The built-in experimental content-word catalog.
pub open spec fn builtin_gismu_exp_view() -> Seq<(Seq<char>, Seq<Seq<char>>)> {
    seq![("mruli"@, seq!["mru"@])]
}

/// The built-in standard structure-word catalog.
pub open spec fn builtin_cmavo_view() -> Seq<(Seq<char>, Seq<Seq<char>>)> {
    seq![
        ("se"@, seq!["sel"@]),
        ("te"@, seq!["ter"@]),
        ("ve"@, seq!["vel"@]),
        ("xe"@, seq!["xel"@]),
        ("toi"@, seq!["toi"@]),
    ]
}

/// The built-in experimental structure-word catalog.
pub open spec fn builtin_cmavo_exp_view() -> Seq<(Seq<char>, Seq<Seq<char>>)> {
    seq![("zi'o"@, seq!["zil"@])]
}

/// Builds the built-in standard content-word catalog.
pub fn builtin_gismu() -> (c: Catalog)
    ensures
        c@ == builtin_gismu_view(),
{
    let mut entries: Vec<(String, Vec<String>)> = Vec::new();
    entries.push(("klama".to_owned(), vec!["kla".to_owned()]));
    entries.push(("gasnu".to_owned(), vec!["gau".to_owned()]));
    entries.push(("barda".to_owned(), vec!["bra".to_owned()]));
    entries.push(("mlatu".to_owned(), vec!["lat".to_owned()]));
    entries.push(("broda".to_owned(), vec!["rod".to_owned()]));
    entries.push(("turni".to_owned(), vec!["tru".to_owned()]));
    entries.push(("catni".to_owned(), vec!["ca'i".to_owned()]));
    entries.push(("prami".to_owned(), vec!["pam".to_owned()]));
    entries.push(("sutra".to_owned(), vec!["sut".to_owned()]));
    let c = Catalog { entries };
    proof {
        assert(c@ =~~= builtin_gismu_view());
    }
    c
}

/// Builds the built-in experimental content-word catalog.
pub fn builtin_gismu_exp() -> (c: Catalog)
    ensures
        c@ == builtin_gismu_exp_view(),
{
    let mut entries: Vec<(String, Vec<String>)> = Vec::new();
    entries.push(("mruli".to_owned(), vec!["mru".to_owned()]));
    let c = Catalog { entries };
    proof {
        assert(c@ =~~= builtin_gismu_exp_view());
    }
    c
}

/// Builds the built-in standard structure-word catalog.
pub fn builtin_cmavo() -> (c: Catalog)
    ensures
        c@ == builtin_cmavo_view(),
{
    let mut entries: Vec<(String, Vec<String>)> = Vec::new();
    entries.push(("se".to_owned(), vec!["sel".to_owned()]));
    entries.push(("te".to_owned(), vec!["ter".to_owned()]));
    entries.push(("ve".to_owned(), vec!["vel".to_owned()]));
    entries.push(("xe".to_owned(), vec!["xel".to_owned()]));
    entries.push(("toi".to_owned(), vec!["toi".to_owned()]));
    let c = Catalog { entries };
    proof {
        assert(c@ =~~= builtin_cmavo_view());
    }
    c
}

/// Builds the built-in experimental structure-word catalog.
pub fn builtin_cmavo_exp() -> (c: Catalog)
    ensures
        c@ == builtin_cmavo_exp_view(),
{
    let mut entries: Vec<(String, Vec<String>)> = Vec::new();
    entries.push(("zi'o".to_owned(), vec!["zil".to_owned()]));
    let c = Catalog { entries };
    proof {
        assert(c@ =~~= builtin_cmavo_exp_view());
    }
    c
}

} // verus!
