//! Telling Katakana from every other script.

use vstd::prelude::*;

verus! {

/// Whether `c` is Katakana: a character of the syllabary from the small `ァ`
/// to the small `ヶ`, full-size and small alike, or the prolonged sound
/// mark `ー`.
pub open spec fn is_katakana_char(c: char) -> bool {
    ('ァ' <= c && c <= 'ヶ') || c == 'ー'
}

/// Whether every character of `s` is Katakana. The empty string is.
pub open spec fn is_katakana_string(s: Seq<char>) -> bool {
    forall|i: int| 0 <= i < s.len() ==> is_katakana_char(#[trigger] s[i])
}

/// Decides whether a character is Katakana. Nothing in the ASCII range is.
pub fn is_katanaka(c: char) -> (b: bool)
    ensures
        b == is_katakana_char(c),
        c <= '\u{7f}' ==> !b,
{
    if c <= '\u{7f}' {
        return false;
    }
    ('ァ' <= c && c <= 'ヶ') || c == 'ー'
}

/// Decides whether a string is written in Katakana throughout.
pub fn is_katanaka_str(s: &str) -> (b: bool)
    ensures
        b == is_katakana_string(s@),
        s@.len() == 0 ==> b,
{
    for c in it: s.chars()
        invariant
            it.seq() == s@,
            is_katakana_string(s@.take(it.index() as int)),
    {
        if !is_katanaka(c) {
            return false;
        }
        assert forall|i: int| 0 <= i < it.index() + 1 implies is_katakana_char(
            #[trigger] s@.take(it.index() + 1)[i],
        ) by {
            if i < it.index() {
                assert(s@.take(it.index() as int)[i] == s@[i]);
            }
        }
    }
    assert(s@.take(s@.len() as int) =~= s@);
    true
}

} // verus!
