//! The shape classifier: letter classes of the fixed Lojban alphabet and
//! the category signatures (consonant/vowel patterns) of candidate
//! fragments.  Every other component matches on these shapes.

use vstd::prelude::*;

verus! {

/// The five vowels.
pub open spec fn is_vowel(c: char) -> bool {
    c == 'a' || c == 'e' || c == 'i' || c == 'o' || c == 'u'
}

/// The seventeen consonants.
pub open spec fn is_consonant(c: char) -> bool {
    ||| c == 'b'
    ||| c == 'c'
    ||| c == 'd'
    ||| c == 'f'
    ||| c == 'g'
    ||| c == 'j'
    ||| c == 'k'
    ||| c == 'l'
    ||| c == 'm'
    ||| c == 'n'
    ||| c == 'p'
    ||| c == 'r'
    ||| c == 's'
    ||| c == 't'
    ||| c == 'v'
    ||| c == 'x'
    ||| c == 'z'
}

pub fn vowel(c: char) -> (b: bool)
    ensures
        b == is_vowel(c),
{
    c == 'a' || c == 'e' || c == 'i' || c == 'o' || c == 'u'
}

pub fn consonant(c: char) -> (b: bool)
    ensures
        b == is_consonant(c),
{
    match c {
        'b' | 'c' | 'd' | 'f' | 'g' | 'j' | 'k' | 'l' | 'm' | 'n' | 'p' | 'r' | 's' | 't' | 'v'
            | 'x' | 'z' => true,
        _ => false,
    }
}

/// The falling diphthongs `ai`, `ei`, `oi`, `au` that may close a
/// three-letter vowel fragment.
pub open spec fn is_diphthong(a: char, b: char) -> bool {
    ||| (a == 'a' && b == 'i')
    ||| (a == 'e' && b == 'i')
    ||| (a == 'o' && b == 'i')
    ||| (a == 'a' && b == 'u')
}

pub fn diphthong(a: char, b: char) -> (r: bool)
    ensures
        r == is_diphthong(a, b),
{
    (a == 'a' && b == 'i') || (a == 'e' && b == 'i') || (a == 'o' && b == 'i') || (a == 'a' && b
        == 'u')
}

/// Signature CVV: a short vowel fragment without apostrophe.
pub open spec fn shape_cvv(s: Seq<char>) -> bool {
    s.len() == 3 && is_consonant(s[0]) && is_vowel(s[1]) && is_vowel(s[2])
}

/// Signature CV'V: a vowel fragment with internal apostrophe.
pub open spec fn shape_cvhv(s: Seq<char>) -> bool {
    s.len() == 4 && is_consonant(s[0]) && is_vowel(s[1]) && s[2] == '\'' && is_vowel(s[3])
}

/// Signature CVC.
pub open spec fn shape_cvc(s: Seq<char>) -> bool {
    s.len() == 3 && is_consonant(s[0]) && is_vowel(s[1]) && is_consonant(s[2])
}

/// Signature CCV.
pub open spec fn shape_ccv(s: Seq<char>) -> bool {
    s.len() == 3 && is_consonant(s[0]) && is_consonant(s[1]) && is_vowel(s[2])
}

/// Signature CVCC: a long fragment cut from a CVCCV root.
pub open spec fn shape_cvcc(s: Seq<char>) -> bool {
    s.len() == 4 && is_consonant(s[0]) && is_vowel(s[1]) && is_consonant(s[2]) && is_consonant(
        s[3],
    )
}

/// Signature CCVC: a long fragment cut from a CCVCV root.
pub open spec fn shape_ccvc(s: Seq<char>) -> bool {
    s.len() == 4 && is_consonant(s[0]) && is_consonant(s[1]) && is_vowel(s[2]) && is_consonant(
        s[3],
    )
}

/// Signature CVCCV: a full five-letter root of the first canonical form.
pub open spec fn shape_cvccv(s: Seq<char>) -> bool {
    s.len() == 5 && is_consonant(s[0]) && is_vowel(s[1]) && is_consonant(s[2]) && is_consonant(
        s[3],
    ) && is_vowel(s[4])
}

/// Signature CCVCV: a full five-letter root of the second canonical form.
pub open spec fn shape_ccvcv(s: Seq<char>) -> bool {
    s.len() == 5 && is_consonant(s[0]) && is_consonant(s[1]) && is_vowel(s[2]) && is_consonant(
        s[3],
    ) && is_vowel(s[4])
}

/// Signature CVCCY: a long fragment followed by its glue glide.
pub open spec fn shape_cvccy(s: Seq<char>) -> bool {
    s.len() == 5 && is_consonant(s[0]) && is_vowel(s[1]) && is_consonant(s[2]) && is_consonant(
        s[3],
    ) && s[4] == 'y'
}

/// Signature CCVCY: a long fragment followed by its glue glide.
pub open spec fn shape_ccvcy(s: Seq<char>) -> bool {
    s.len() == 5 && is_consonant(s[0]) && is_consonant(s[1]) && is_vowel(s[2]) && is_consonant(
        s[3],
    ) && s[4] == 'y'
}

/// A word is a name-word (cmevla) when it ends in a consonant.
pub open spec fn spec_cmevla(s: Seq<char>) -> bool {
    s.len() > 0 && is_consonant(s[s.len() - 1])
}

/// Decides whether a word is a name-word, that is, ends in a consonant.
pub fn is_cmevla(valsi: &str) -> (b: bool)
    ensures
        b == spec_cmevla(valsi@),
{
    let n = valsi.unicode_len();
    if n == 0 {
        false
    } else {
        consonant(valsi.get_char(n - 1))
    }
}

} // verus!
