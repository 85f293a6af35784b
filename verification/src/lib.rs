//! Turns a Japanese name into its spoonerism: the first mora of the first
//! name and the first mora of the last name change places, as in
//! `マツダイラ ケン`, which becomes `ケツダイラ マン`.
//!
//! The name is split at white space, each part is replaced by its Katakana
//! reading, the heads of the first and the last part are swapped, and the
//! parts are joined again by single spaces.

use vstd::prelude::*;
use crate::names::{names_transformed, swap_and_join};
use crate::reading::{
    has_unknown, ipadic_details, lemma_reading_not_empty, lemma_unknown_part_gives_no_reading,
    reading_of, readings_of, to_katakana_readings,
};
use crate::script::is_katakana_string;
use crate::words::{lemma_words_shape, split_whitespace, words};

pub mod kana2mora;
pub mod names;
pub mod reading;
pub mod script;
pub mod text;
pub mod words;

verus! {

/// What a name is turned into, if anything: the readings of its words after
/// the swap, joined by single spaces. There is no result if a word has no
/// reading.
pub open spec fn transformed(raw_name: Seq<char>) -> Option<Seq<char>> {
    match readings_of(words(raw_name)) {
        Some(names) => names_transformed(names),
        None => None,
    }
}

/// Transforms a name by swapping the first mora of its first word with the
/// first mora of its last word.
///
/// Words are replaced by their Katakana readings; words between the first
/// and the last keep their place and their reading. A name of one word is
/// returned as its reading, and a name without any word gives the empty
/// string. If any word has no reading the result is `None`; a word that is
/// not Katakana has none as soon as the dictionary does not know a part of
/// it.
pub fn ke2daira(raw_name: &str) -> (line: Option<String>)
    ensures
        line.deep_view() == transformed(raw_name@),
{
    let parts = split_whitespace(raw_name);
    match to_katakana_readings(&parts) {
        Some(names) => swap_and_join(names),
        None => None,
    }
}

/// A name of a single word is turned into the reading of that word, with
/// nothing swapped; and if the word has no reading, into nothing.
pub proof fn lemma_single_name_is_its_reading(raw_name: Seq<char>)
    requires
        words(raw_name).len() == 1,
    ensures
        transformed(raw_name) == reading_of(words(raw_name)[0]),
{
    let word = words(raw_name)[0];
    if reading_of(word) is Some {
        let names = readings_of(words(raw_name))->0;
        assert(names[0] == reading_of(word)->0);
    }
}

/// One word without a reading and the whole name is turned into nothing.
/// Such a word is never Katakana throughout.
pub proof fn lemma_unreadable_word_gives_nothing(raw_name: Seq<char>, i: int)
    requires
        0 <= i < words(raw_name).len(),
        reading_of(words(raw_name)[i]) is None,
    ensures
        transformed(raw_name) is None,
        !is_katakana_string(words(raw_name)[i]),
{
}

/// A word that is not Katakana and has a part that the dictionary does not
/// know leaves the whole name without a result, whatever the other words are.
pub proof fn lemma_unknown_part_gives_nothing(raw_name: Seq<char>, i: int)
    ensures
        ({
            &&& 0 <= i < words(raw_name).len()
            &&& !is_katakana_string(words(raw_name)[i])
            &&& ipadic_details(words(raw_name)[i]) is Some
            &&& has_unknown(ipadic_details(words(raw_name)[i])->0)
        }) ==> transformed(raw_name) is None,
{
    if 0 <= i < words(raw_name).len() {
        lemma_unknown_part_gives_no_reading(words(raw_name)[i]);
    }
}

/// Nothing else stands in the way: if every word of a name has a reading,
/// the name is turned into something.
pub proof fn lemma_readable_words_give_a_result(raw_name: Seq<char>)
    requires
        forall|i: int|
            0 <= i < words(raw_name).len() ==> (#[trigger] reading_of(words(raw_name)[i])) is Some,
    ensures
        transformed(raw_name) is Some,
{
    let parts = words(raw_name);
    let names = readings_of(parts)->0;
    lemma_words_shape(raw_name);
    if names.len() >= 2 {
        assert(reading_of(parts[0]) is Some);
        assert(reading_of(parts[parts.len() - 1]) is Some);
        lemma_reading_not_empty(parts[0]);
        lemma_reading_not_empty(parts[parts.len() - 1]);
    }
}

/// A name without any word, empty or all white space, is turned into the
/// empty string.
pub proof fn lemma_no_name_gives_the_empty_string(raw_name: Seq<char>)
    requires
        words(raw_name).len() == 0,
    ensures
        transformed(raw_name) == Some(Seq::<char>::empty()),
{
    assert(readings_of(words(raw_name))->0 =~= Seq::<Seq<char>>::empty());
}

} // verus!
