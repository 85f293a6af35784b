//! The Katakana reading of a word.
//!
//! A word that is already Katakana is its own reading. Any other word is
//! handed to the morphological analyser with the IPADIC dictionary, and the
//! readings of the tokens that it finds are put together. A word with a part
//! that the dictionary does not know has no reading at all: readings are never
//! partial.

use vstd::prelude::*;
use vstd::string::StringExecFns;
use lindera::error::LinderaError;
use lindera::mode::Mode;
use lindera::tokenizer::{DictionaryConfig, Tokenizer, TokenizerConfig};
use lindera::DictionaryKind;
use crate::script::{is_katakana_string, is_katanaka_str};

verus! {

/// The error type of the analyser, carried through without looking inside.
#[verifier::external_type_specification]
#[verifier::external_body]
pub struct ExLinderaError(LinderaError);

/// What the analyser says of a word: for each token that it cuts the word
/// into, the token's detail fields if it has any, and nothing at all if the
/// analyser fails.
///
/// The analysis is that of `lindera`'s tokenizer in normal mode over the
/// IPADIC dictionary that is compiled into it, so it depends on the word alone.
pub uninterp spec fn ipadic_details(word: Seq<char>) -> Option<Seq<Option<Seq<Seq<char>>>>>;

/// The longest word, in characters, that is handed to the analyser.
///
/// The analyser adds up the cost of a path through the word in a 32-bit
/// integer. Each token adds a word cost and a connection cost of 16 bits
/// each, and a word has no more tokens than characters, so up to this length
/// the sum stays in range.
pub const MAX_WORD_CHARS: usize = 32767;

/// Runs the analyser on a word and copies out each token's details.
///
/// Trusted: builds a tokenizer with `Tokenizer::from_config` (IPADIC
/// dictionary, no user dictionary, normal mode), cuts the word with
/// `Tokenizer::tokenize` and reads each token with `Token::get_details`. The
/// contract only gives the outcome its name, `ipadic_details`: an error of
/// either call is the name's `None`, and the details of the tokens, in order
/// and field by field, are its `Some`. Longer words are kept away from the
/// tokenizer, whose sum of path costs could overflow on them.
#[verifier::external_body]
fn analyze(word: &str) -> (outcome: Result<Vec<Option<Vec<String>>>, LinderaError>)
    requires
        word@.len() <= MAX_WORD_CHARS,
    ensures
        match outcome {
            Ok(tokens) => ipadic_details(word@) == Some(tokens.deep_view()),
            Err(_) => ipadic_details(word@) is None,
        },
{
    let dictionary = DictionaryConfig { kind: Some(DictionaryKind::IPADIC), path: None };
    let config = TokenizerConfig { dictionary, user_dictionary: None, mode: Mode::Normal };
    let tokenizer = Tokenizer::from_config(config)?;
    let mut tokens = Vec::new();
    for mut token in tokenizer.tokenize(word)? {
        tokens.push(match token.get_details() {
            Some(fields) => Some(fields.into_iter().map(String::from).collect()),
            None => None,
        });
    }
    Ok(tokens)
}

/// The index of the detail field that holds a token's reading.
pub const READING_FIELD: usize = 7;

/// The first detail field of a token that the dictionary does not know.
pub open spec fn unknown_marker() -> Seq<char> {
    "UNK"@
}

/// Whether a token's details can be read: if there are any, the first field
/// is there, and unless it marks the token as unknown the reading field is
/// there too.
pub open spec fn details_well_formed(details: Option<Seq<Seq<char>>>) -> bool {
    match details {
        None => true,
        Some(fields) => fields.len() >= 1 && (fields[0] == unknown_marker() || fields.len()
            > READING_FIELD),
    }
}

/// Whether the details of every token can be read.
pub open spec fn all_well_formed(tokens: Seq<Option<Seq<Seq<char>>>>) -> bool {
    forall|i: int| 0 <= i < tokens.len() ==> details_well_formed(#[trigger] tokens[i])
}

/// Whether the dictionary does not know this token: it has details, and
/// their first field is the marker for unknown words.
pub open spec fn is_unknown(details: Option<Seq<Seq<char>>>) -> bool {
    match details {
        None => false,
        Some(fields) => fields.len() >= 1 && fields[0] == unknown_marker(),
    }
}

/// Whether the dictionary does not know one of the tokens.
pub open spec fn has_unknown(tokens: Seq<Option<Seq<Seq<char>>>>) -> bool {
    exists|i: int| 0 <= i < tokens.len() && is_unknown(#[trigger] tokens[i])
}

/// What one token adds to the reading: its reading field, or nothing if it
/// has no details.
pub open spec fn token_reading(details: Option<Seq<Seq<char>>>) -> Seq<char> {
    match details {
        None => Seq::empty(),
        Some(fields) => fields[READING_FIELD as int],
    }
}

/// The readings of all tokens, one after the other.
pub open spec fn spelled_out(tokens: Seq<Option<Seq<Seq<char>>>>) -> Seq<char> {
    tokens.map_values(|details: Option<Seq<Seq<char>>>| token_reading(details)).flatten()
}

/// The reading that the tokens give. There is none if the dictionary does
/// not know one of the tokens, whatever the others are, and none if the
/// tokens spell out nothing.
pub open spec fn reading_from_details(tokens: Seq<Option<Seq<Seq<char>>>>) -> Option<Seq<char>> {
    if has_unknown(tokens) || spelled_out(tokens).len() == 0 {
        None
    } else {
        Some(spelled_out(tokens))
    }
}

/// The reading of a word: the word itself if it is Katakana throughout,
/// else what the analyser's tokens spell out. There is no reading if the
/// word is too long for the analyser, if the analyser fails, if its details
/// cannot be read, if it does not know a part of the word, or if the tokens
/// spell out nothing.
pub open spec fn reading_of(word: Seq<char>) -> Option<Seq<char>> {
    if is_katakana_string(word) {
        Some(word)
    } else if word.len() > MAX_WORD_CHARS {
        None
    } else {
        match ipadic_details(word) {
            Some(tokens) => if all_well_formed(tokens) {
                reading_from_details(tokens)
            } else {
                None
            },
            None => None,
        }
    }
}

/// Decides whether one token's details can be read.
pub fn is_well_formed(details: &Option<Vec<String>>) -> (b: bool)
    ensures
        b == details_well_formed(details.deep_view()),
{
    match details {
        None => true,
        Some(fields) => {
            if fields.len() == 0 {
                return false;
            }
            assert(fields.deep_view()[0] == fields[0]@);
            let unknown = String::from_str("UNK");
            fields[0] == unknown || fields.len() > READING_FIELD
        },
    }
}

/// Decides whether the details of every token can be read.
pub fn are_well_formed(tokens: &Vec<Option<Vec<String>>>) -> (b: bool)
    ensures
        b == all_well_formed(tokens.deep_view()),
{
    for i in 0..tokens.len()
        invariant
            forall|j: int| 0 <= j < i ==> details_well_formed(#[trigger] tokens.deep_view()[j]),
    {
        if !is_well_formed(&tokens[i]) {
            assert(!details_well_formed(tokens.deep_view()[i as int]));
            return false;
        }
    }
    true
}

/// Puts the reading together from the details of a word's tokens, skipping
/// tokens without details. There is no reading if the dictionary does not
/// know one of the tokens, and none if nothing is spelled out.
pub fn build_reading_from_tokens(tokens: &Vec<Option<Vec<String>>>) -> (reading: Option<String>)
    requires
        all_well_formed(tokens.deep_view()),
    ensures
        reading.deep_view() == reading_from_details(tokens.deep_view()),
        has_unknown(tokens.deep_view()) ==> reading is None,
{
    let mut reading = String::new();
    let unknown = String::from_str("UNK");
    let ghost views = tokens.deep_view();
    let ghost parts = views.map_values(|details: Option<Seq<Seq<char>>>| token_reading(details));
    assert(parts.take(0) =~= Seq::<Seq<char>>::empty());
    for i in 0..tokens.len()
        invariant
            views == tokens.deep_view(),
            parts == views.map_values(|details: Option<Seq<Seq<char>>>| token_reading(details)),
            all_well_formed(views),
            unknown@ == unknown_marker(),
            forall|j: int| 0 <= j < i ==> !is_unknown(#[trigger] views[j]),
            reading@ == parts.take(i as int).flatten(),
    {
        proof {
            assert(details_well_formed(views[i as int]));
            parts.take(i as int).lemma_flatten_push(parts[i as int]);
            assert(parts.take(i as int).push(parts[i as int]) =~= parts.take(i + 1));
        }
        match &tokens[i] {
            None => {},
            Some(fields) => {
                assert(views[i as int] == Some(fields.deep_view()));
                assert(fields.deep_view()[0] == fields[0]@);
                if fields[0] == unknown {
                    assert(is_unknown(views[i as int]));
                    return None;
                }
                assert(fields.deep_view()[READING_FIELD as int]
                    == fields[READING_FIELD as int]@);
                reading.append(fields[READING_FIELD].as_str());
            },
        }
    }
    assert(parts.take(tokens.len() as int) =~= parts);
    if reading.as_str().unicode_len() == 0 {
        None
    } else {
        Some(reading)
    }
}

/// Finds the Katakana reading of a word.
///
/// A word in Katakana is returned as it is. Any other word goes to the
/// analyser, unless it is longer than `MAX_WORD_CHARS`. There is no reading
/// if the word is that long, if the analyser fails, if a token's details lack
/// a field that is needed, if the dictionary does not know a part of the
/// word, or if the tokens spell out nothing.
pub fn to_katakana_reading(word: &str) -> (reading: Option<String>)
    ensures
        reading.deep_view() == reading_of(word@),
        is_katakana_string(word@) ==> reading.deep_view() == Some(word@),
{
    if is_katanaka_str(word) {
        return Some(String::from_str(word));
    }
    if word.unicode_len() > MAX_WORD_CHARS {
        return None;
    }
    match analyze(word) {
        Ok(tokens) => {
            if are_well_formed(&tokens) {
                build_reading_from_tokens(&tokens)
            } else {
                None
            }
        },
        Err(_) => None,
    }
}

/// The readings of all the words, if every word has one.
pub open spec fn readings_of(words: Seq<Seq<char>>) -> Option<Seq<Seq<char>>> {
    if forall|i: int| 0 <= i < words.len() ==> (#[trigger] reading_of(words[i])) is Some {
        Some(Seq::new(words.len(), |i: int| reading_of(words[i])->0))
    } else {
        None
    }
}

/// Finds the reading of every word. One word without a reading and there is
/// no result: readings are never left out or filled in.
pub fn to_katakana_readings(words: &Vec<String>) -> (readings: Option<Vec<String>>)
    ensures
        readings.deep_view() == readings_of(words.deep_view()),
{
    let mut readings: Vec<String> = Vec::new();
    let ghost views = words.deep_view();
    for i in 0..words.len()
        invariant
            views == words.deep_view(),
            readings.len() == i,
            forall|j: int|
                0 <= j < i ==> (#[trigger] reading_of(views[j])) == Some(readings.deep_view()[j]),
    {
        assert(views[i as int] == words[i as int]@);
        match to_katakana_reading(words[i].as_str()) {
            Some(reading) => {
                let ghost found = readings.deep_view();
                readings.push(reading);
                assert(readings.deep_view() =~= found.push(reading@));
            },
            None => {
                return None;
            },
        }
    }
    assert(readings.deep_view() =~= Seq::new(views.len(), |i: int| reading_of(views[i])->0));
    Some(readings)
}

/// A reading is never empty, unless the word itself is: a Katakana word is
/// read as it stands, and the analyser's tokens count only if they spell out
/// at least one character.
pub proof fn lemma_reading_not_empty(word: Seq<char>)
    requires
        word.len() > 0,
        reading_of(word) is Some,
    ensures
        reading_of(word)->0.len() > 0,
{
}

/// One token that the dictionary does not know and there is no reading,
/// whatever the other tokens spell out.
pub proof fn lemma_unknown_token_gives_no_reading(tokens: Seq<Option<Seq<Seq<char>>>>, i: int)
    requires
        0 <= i < tokens.len(),
        is_unknown(tokens[i]),
    ensures
        reading_from_details(tokens) is None,
{
}

/// A word that is not Katakana and has a part that the dictionary does not
/// know has no reading, and neither has a word that is not Katakana and too
/// long for the analyser.
pub proof fn lemma_unknown_part_gives_no_reading(word: Seq<char>)
    ensures
        !is_katakana_string(word) && ipadic_details(word) is Some && has_unknown(
            ipadic_details(word)->0,
        ) ==> reading_of(word) is None,
        !is_katakana_string(word) && word.len() > MAX_WORD_CHARS ==> reading_of(word) is None,
{
}

/// A word without a reading is not Katakana: Katakana is its own reading.
pub proof fn lemma_katakana_reads_as_itself(word: Seq<char>)
    ensures
        is_katakana_string(word) ==> reading_of(word) == Some(word),
        reading_of(word) is None ==> !is_katakana_string(word),
{
}

} // verus!
