//! The permissibility table: a three-level legality rating for every
//! ordered pair of consonants.  Rating 2 means the pair may open a word
//! (an initial pair), rating 1 means it is legal only inside a word, and
//! rating 0 means the two letters may never touch; every pair involving a
//! letter outside the consonant set also rates 0.

use crate::shape::is_consonant;
use vstd::prelude::*;

verus! {

/// The voiced stops and fricatives.
pub open spec fn is_voiced(c: char) -> bool {
    c == 'b' || c == 'd' || c == 'g' || c == 'j' || c == 'v' || c == 'z'
}

/// The unvoiced stops and fricatives.
pub open spec fn is_unvoiced(c: char) -> bool {
    c == 'c' || c == 'f' || c == 'k' || c == 'p' || c == 's' || c == 't' || c == 'x'
}

/// The four sibilants, no two of which may be adjacent.
pub open spec fn is_sibilant(c: char) -> bool {
    c == 'c' || c == 'j' || c == 's' || c == 'z'
}

/// The five pairs that are banned outright on top of the general rules.
pub open spec fn is_banned_pair(a: char, b: char) -> bool {
    ||| (a == 'c' && b == 'x')
    ||| (a == 'k' && b == 'x')
    ||| (a == 'x' && b == 'c')
    ||| (a == 'x' && b == 'k')
    ||| (a == 'm' && b == 'z')
}

/// An ordered consonant pair is legal somewhere inside a word: the letters
/// differ, do not mix a voiced with an unvoiced obstruent, are not both
/// sibilants, and are not one of the five banned pairs.
pub open spec fn is_medial_pair(a: char, b: char) -> bool {
    &&& is_consonant(a)
    &&& is_consonant(b)
    &&& a != b
    &&& !(is_voiced(a) && is_unvoiced(b))
    &&& !(is_unvoiced(a) && is_voiced(b))
    &&& !(is_sibilant(a) && is_sibilant(b))
    &&& !is_banned_pair(a, b)
}

/// The forty-eight pairs that may open a word.
pub open spec fn is_initial_pair(a: char, b: char) -> bool {
    ||| (a == 'b' && (b == 'l' || b == 'r'))
    ||| (a == 'c' && (b == 'f' || b == 'k' || b == 'l' || b == 'm' || b == 'n' || b == 'p' || b
        == 'r' || b == 't'))
    ||| (a == 'd' && (b == 'j' || b == 'r' || b == 'z'))
    ||| (a == 'f' && (b == 'l' || b == 'r'))
    ||| (a == 'g' && (b == 'l' || b == 'r'))
    ||| (a == 'j' && (b == 'b' || b == 'd' || b == 'g' || b == 'm' || b == 'v'))
    ||| (a == 'k' && (b == 'l' || b == 'r'))
    ||| (a == 'm' && (b == 'l' || b == 'r'))
    ||| (a == 'p' && (b == 'l' || b == 'r'))
    ||| (a == 's' && (b == 'f' || b == 'k' || b == 'l' || b == 'm' || b == 'n' || b == 'p' || b
        == 'r' || b == 't'))
    ||| (a == 't' && (b == 'c' || b == 'r' || b == 's'))
    ||| (a == 'v' && (b == 'l' || b == 'r'))
    ||| (a == 'x' && (b == 'l' || b == 'r'))
    ||| (a == 'z' && (b == 'b' || b == 'd' || b == 'g' || b == 'm' || b == 'v'))
}

/// The rating of an ordered pair: 2 for an initial pair, 1 for a pair
/// that is legal only word-internally, 0 for an illegal pair.
pub open spec fn pair_rating(a: char, b: char) -> int {
    if is_initial_pair(a, b) {
        2
    } else if is_medial_pair(a, b) {
        1
    } else {
        0
    }
}

fn voiced(c: char) -> (r: bool)
    ensures
        r == is_voiced(c),
{
    c == 'b' || c == 'd' || c == 'g' || c == 'j' || c == 'v' || c == 'z'
}

fn unvoiced(c: char) -> (r: bool)
    ensures
        r == is_unvoiced(c),
{
    c == 'c' || c == 'f' || c == 'k' || c == 'p' || c == 's' || c == 't' || c == 'x'
}

fn sibilant(c: char) -> (r: bool)
    ensures
        r == is_sibilant(c),
{
    c == 'c' || c == 'j' || c == 's' || c == 'z'
}

fn initial_pair(a: char, b: char) -> (r: bool)
    ensures
        r == is_initial_pair(a, b),
{
    match a {
        'b' => b == 'l' || b == 'r',
        'c' => b == 'f' || b == 'k' || b == 'l' || b == 'm' || b == 'n' || b == 'p' || b == 'r'
            || b == 't',
        'd' => b == 'j' || b == 'r' || b == 'z',
        'f' => b == 'l' || b == 'r',
        'g' => b == 'l' || b == 'r',
        'j' => b == 'b' || b == 'd' || b == 'g' || b == 'm' || b == 'v',
        'k' => b == 'l' || b == 'r',
        'm' => b == 'l' || b == 'r',
        'p' => b == 'l' || b == 'r',
        's' => b == 'f' || b == 'k' || b == 'l' || b == 'm' || b == 'n' || b == 'p' || b == 'r'
            || b == 't',
        't' => b == 'c' || b == 'r' || b == 's',
        'v' => b == 'l' || b == 'r',
        'x' => b == 'l' || b == 'r',
        'z' => b == 'b' || b == 'd' || b == 'g' || b == 'm' || b == 'v',
        _ => false,
    }
}

/// Looks up the legality rating of the ordered pair `(c1, c2)`.
pub fn is_permissible(c1: char, c2: char) -> (r: i32)
    ensures
        r as int == pair_rating(c1, c2),
        0 <= r <= 2,
{
    if initial_pair(c1, c2) {
        2
    } else if crate::shape::consonant(c1) && crate::shape::consonant(c2) && c1 != c2 && !(voiced(
        c1,
    ) && unvoiced(c2)) && !(unvoiced(c1) && voiced(c2)) && !(sibilant(c1) && sibilant(c2))
        && !(c1 == 'c' && c2 == 'x') && !(c1 == 'k' && c2 == 'x') && !(c1 == 'x' && c2 == 'c') && !(
    c1 == 'x' && c2 == 'k') && !(c1 == 'm' && c2 == 'z') {
        1
    } else {
        0
    }
}

} // verus!
