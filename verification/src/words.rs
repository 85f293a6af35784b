//! Splitting a line into its words at white space.

use vstd::prelude::*;

verus! {

/// Whether `c` is white space in the sense of Unicode's `White_Space`
/// property: the ASCII controls from tab to carriage return, the space, the
/// next-line control, the no-break space, the Ogham space mark, the spaces
/// from en quad to hair space, the line and paragraph separators, the narrow
/// no-break space, the medium mathematical space and the ideographic space.
pub open spec fn is_whitespace(c: char) -> bool {
    ('\u{9}' <= c && c <= '\u{d}') || c == ' ' || c == '\u{85}' || c == '\u{a0}' || c
        == '\u{1680}' || ('\u{2000}' <= c && c <= '\u{200a}') || c == '\u{2028}' || c
        == '\u{2029}' || c == '\u{202f}' || c == '\u{205f}' || c == '\u{3000}'
}

/// The words of `s`, in order: its longest stretches without white space.
///
/// Reading `s` from left to right, white space is dropped, a character that
/// follows white space or stands first opens a new word, and any other
/// character is appended to the word before it.
pub open spec fn words(s: Seq<char>) -> Seq<Seq<char>>
    decreases s.len(),
{
    if s.len() == 0 {
        Seq::empty()
    } else {
        let before = words(s.drop_last());
        if is_whitespace(s.last()) {
            before
        } else if s.len() >= 2 && !is_whitespace(s[s.len() - 2]) {
            before.drop_last().push(before.last().push(s.last()))
        } else {
            before.push(seq![s.last()])
        }
    }
}

/// Decides whether a character is white space.
pub fn is_space(c: char) -> (b: bool)
    ensures
        b == is_whitespace(c),
{
    ('\u{9}' <= c && c <= '\u{d}') || c == ' ' || c == '\u{85}' || c == '\u{a0}' || c
        == '\u{1680}' || ('\u{2000}' <= c && c <= '\u{200a}') || c == '\u{2028}' || c
        == '\u{2029}' || c == '\u{202f}' || c == '\u{205f}' || c == '\u{3000}'
}

/// Splits a line into its words. White space at either end and between words
/// is dropped, however much of it there is.
pub fn split_whitespace(line: &str) -> (result: Vec<String>)
    ensures
        result.deep_view() == words(line@),
{
    let mut result: Vec<String> = Vec::new();
    let mut current = String::new();
    let mut in_word = false;
    assert(result.deep_view() =~= words(line@.take(0)));
    for c in it: line.chars()
        invariant
            it.seq() == line@,
            in_word <==> it.index() > 0 && !is_whitespace(line@[it.index() - 1]),
            !in_word ==> current@.len() == 0,
            words(line@.take(it.index() as int)) == if in_word {
                result.deep_view().push(current@)
            } else {
                result.deep_view()
            },
    {
        let ghost done = line@.take(it.index() as int);
        let ghost next = line@.take(it.index() + 1);
        let ghost closed = result.deep_view();
        assert(next.drop_last() =~= done && next.last() == c);
        if is_space(c) {
            if in_word {
                result.push(current);
                current = String::new();
                in_word = false;
                assert(result.deep_view() =~= words(next));
            }
        } else {
            current.push(c);
            proof {
                if in_word {
                    assert(next[next.len() - 2] == line@[it.index() - 1]);
                    assert(closed.push(current@) =~= words(next));
                } else {
                    if it.index() > 0 {
                        assert(next[next.len() - 2] == line@[it.index() - 1]);
                    }
                    assert(current@ =~= seq![c]);
                }
            }
            in_word = true;
        }
    }
    assert(line@.take(line@.len() as int) =~= line@);
    if in_word {
        let ghost closed = result.deep_view();
        result.push(current);
        assert(result.deep_view() =~= closed.push(current@));
    }
    result
}

/// No word is empty, no word holds white space, and a line that does not end
/// in white space has at least one word.
pub proof fn lemma_words_shape(s: Seq<char>)
    ensures
        words(s).len() <= s.len(),
        s.len() > 0 && !is_whitespace(s.last()) ==> words(s).len() > 0,
        forall|k: int| 0 <= k < words(s).len() ==> (#[trigger] words(s)[k]).len() >= 1,
        forall|k: int, j: int|
            0 <= k < words(s).len() && 0 <= j < words(s)[k].len() ==> !is_whitespace(
                #[trigger] words(s)[k][j],
            ),
    decreases s.len(),
{
    if s.len() > 0 {
        lemma_words_shape(s.drop_last());
    }
}

/// A line of nothing but white space has no words.
pub proof fn lemma_words_of_blank(s: Seq<char>)
    requires
        forall|i: int| 0 <= i < s.len() ==> is_whitespace(#[trigger] s[i]),
    ensures
        words(s).len() == 0,
    decreases s.len(),
{
    if s.len() > 0 {
        lemma_words_of_blank(s.drop_last());
    }
}

/// A line without white space, if it is not empty, is a single word.
pub proof fn lemma_words_of_one(s: Seq<char>)
    requires
        s.len() > 0,
        forall|i: int| 0 <= i < s.len() ==> !is_whitespace(#[trigger] s[i]),
    ensures
        words(s) == seq![s],
    decreases s.len(),
{
    assert(!is_whitespace(s[s.len() - 1]));
    if s.len() == 1 {
        assert(words(s.drop_last()).len() == 0);
        assert(seq![s.last()] =~= s);
        assert(words(s) =~= seq![s]);
    } else {
        let shorter = s.drop_last();
        assert forall|i: int| 0 <= i < shorter.len() implies !is_whitespace(
            #[trigger] shorter[i],
        ) by {
            assert(shorter[i] == s[i]);
        }
        lemma_words_of_one(shorter);
        assert(!is_whitespace(s[s.len() - 2]));
        assert(shorter.push(s.last()) =~= s);
        assert(words(s) =~= seq![s]);
    }
}

/// White space separates: the words of a line with a white space character
/// in it are the words before that character followed by the words after it.
pub proof fn lemma_words_around_whitespace(a: Seq<char>, w: char, b: Seq<char>)
    requires
        is_whitespace(w),
    ensures
        words(a.push(w) + b) == words(a) + words(b),
    decreases b.len(),
{
    let whole = a.push(w) + b;
    if b.len() == 0 {
        assert(whole =~= a.push(w));
        assert(whole.drop_last() =~= a);
        assert(words(whole) =~= words(a) + words(b));
    } else {
        let shorter = b.drop_last();
        lemma_words_around_whitespace(a, w, shorter);
        lemma_words_shape(shorter);
        assert(whole.drop_last() =~= a.push(w) + shorter);
        assert(whole.last() == b.last());
        if b.len() >= 2 {
            assert(whole[whole.len() - 2] == b[b.len() - 2]);
        } else {
            assert(whole[whole.len() - 2] == w);
        }
        assert(words(whole) =~= words(a) + words(b));
    }
}

} // verus!
