//! Small executable helpers on strings, with exact contracts over their
//! character-sequence views.

use crate::scoring::word_views;
use vstd::prelude::*;

verus! {

/// The concatenation of a token list.
pub open spec fn seq_join(ts: Seq<Seq<char>>) -> Seq<char>
    decreases ts.len(),
{
    if ts.len() == 0 {
        Seq::empty()
    } else {
        seq_join(ts.drop_last()) + ts.last()
    }
}

/// Character-wise string equality.
pub fn str_eq(a: &str, b: &str) -> (r: bool)
    ensures
        r == (a@ == b@),
{
    let na = a.unicode_len();
    let nb = b.unicode_len();
    if na != nb {
        proof {
            assert(a@ != b@);
        }
        return false;
    }
    let mut i: usize = 0;
    while i < na
        invariant
            i <= na,
            na == a@.len(),
            na == b@.len(),
            forall|k: int| 0 <= k < i ==> a@[k] == b@[k],
        decreases na - i,
    {
        if a.get_char(i) != b.get_char(i) {
            proof {
                assert(a@[i as int] != b@[i as int]);
            }
            return false;
        }
        i = i + 1;
    }
    proof {
        assert(a@ =~= b@);
    }
    true
}

/// Whether a string contains a given character.
pub fn contains_char(s: &str, c: char) -> (r: bool)
    ensures
        r == s@.contains(c),
{
    let n = s.unicode_len();
    let mut i: usize = 0;
    while i < n
        invariant
            i <= n,
            n == s@.len(),
            forall|k: int| 0 <= k < i ==> s@[k] != c,
        decreases n - i,
    {
        if s.get_char(i) == c {
            proof {
                assert(s@[i as int] == c);
            }
            return true;
        }
        i = i + 1;
    }
    proof {
        assert(forall|k: int| 0 <= k < s@.len() ==> s@[k] != c);
    }
    false
}

/// An owned copy of a character range of a string.
pub fn substr_owned(s: &str, from: usize, to: usize) -> (r: String)
    requires
        from <= to <= s@.len(),
    ensures
        r@ == s@.subrange(from as int, to as int),
{
    s.substring_char(from, to).to_owned()
}

/// Concatenates a token list into one string.
pub fn join_all(ts: &Vec<String>) -> (r: String)
    ensures
        r@ == seq_join(word_views(ts@)),
{
    let mut r = String::new();
    let mut i: usize = 0;
    while i < ts.len()
        invariant
            i <= ts@.len(),
            r@ == seq_join(word_views(ts@).take(i as int)),
        decreases ts@.len() - i,
    {
        proof {
            assert(word_views(ts@).take(i + 1).drop_last() =~= word_views(ts@).take(i as int));
            assert(word_views(ts@).take(i + 1).last() == ts@[i as int]@);
        }
        r.append(ts[i].as_str());
        i = i + 1;
    }
    proof {
        assert(word_views(ts@).take(ts@.len() as int) =~= word_views(ts@));
    }
    r
}

/// An element-wise copy of a word list.
pub fn clone_words(v: &Vec<String>) -> (r: Vec<String>)
    ensures
        r@ == v@,
{
    let mut r: Vec<String> = Vec::new();
    let mut i: usize = 0;
    while i < v.len()
        invariant
            i <= v@.len(),
            r@ == v@.take(i as int),
        decreases v@.len() - i,
    {
        r.push(v[i].clone());
        proof {
            assert(v@.take(i + 1).drop_last() =~= v@.take(i as int));
            assert(r@ =~= v@.take(i + 1));
        }
        i = i + 1;
    }
    proof {
        assert(v@.take(v@.len() as int) =~= v@);
    }
    r
}

/// Concatenation distributes over joining two token lists.
pub proof fn lemma_seq_join_concat(a: Seq<Seq<char>>, b: Seq<Seq<char>>)
    ensures
        seq_join(a + b) == seq_join(a) + seq_join(b),
    decreases b.len(),
{
    if b.len() == 0 {
        assert(a + b =~= a);
        assert(seq_join(a) + seq_join(b) =~= seq_join(a));
    } else {
        lemma_seq_join_concat(a, b.drop_last());
        assert((a + b).drop_last() =~= a + b.drop_last());
        assert((a + b).last() == b.last());
        assert(seq_join(a) + seq_join(b) =~= (seq_join(a) + seq_join(b.drop_last())) + b.last());
    }
}

/// Joining a single token gives that token.
pub proof fn lemma_seq_join_single(t: Seq<char>)
    ensures
        seq_join(seq![t]) == t,
{
    assert(seq![t].len() == 1);
    assert(seq![t].last() == t);
    assert(seq![t].drop_last() =~= Seq::<Seq<char>>::empty());
    assert(seq_join(seq![t].drop_last()) == Seq::<char>::empty());
    assert(Seq::<char>::empty() + t =~= t);
}

/// Joining two tokens concatenates them.
pub proof fn lemma_seq_join_pair(t1: Seq<char>, t2: Seq<char>)
    ensures
        seq_join(seq![t1, t2]) == t1 + t2,
{
    assert(seq![t1, t2].drop_last() =~= seq![t1]);
    assert(seq![t1, t2].last() == t2);
    lemma_seq_join_single(t1);
    assert(seq_join(seq![t1, t2]) =~= t1 + t2);
}

} // verus!
