//! Segmentation of a Katakana string into morae.
//!
//! A mora is one phonological beat. In writing it is a full-size character
//! together with the small characters (sutegana) that directly follow it, as
//! in `チョ`. The prolonged sound mark `ー` and the small `ッ` count as beats of
//! their own.

use vstd::prelude::*;
use vstd::seq_lib::lemma_flatten_concat;
use crate::text::char_to_string;

verus! {

/// The nine small Katakana that attach to the character before them: the five
/// small vowels, the three small y-row characters and the small `ヮ`.
pub open spec fn is_small_kana(c: char) -> bool {
    c == 'ァ' || c == 'ィ' || c == 'ゥ' || c == 'ェ' || c == 'ォ' || c == 'ャ' || c == 'ュ'
        || c == 'ョ' || c == 'ヮ'
}

/// The morae of `s`, in order.
///
/// Reading `s` from left to right, a small kana is appended to the mora
/// before it, and every other character opens a new mora. A small kana with
/// no mora before it, which can only be the very first character, opens a
/// mora as well.
pub open spec fn morae(s: Seq<char>) -> Seq<Seq<char>>
    decreases s.len(),
{
    if s.len() == 0 {
        Seq::empty()
    } else {
        let before = morae(s.drop_last());
        if is_small_kana(s.last()) && before.len() > 0 {
            before.drop_last().push(before.last().push(s.last()))
        } else {
            before.push(seq![s.last()])
        }
    }
}

/// The number of characters that stand before mora `k` of `m`: the lengths of
/// the morae before it, added up.
pub open spec fn mora_offset(m: Seq<Seq<char>>, k: int) -> int {
    m.take(k).flatten().len() as int
}

/// Whether mora `k` of `m` holds the character at position `i` of the string
/// that `m` was cut from.
pub open spec fn mora_covers(m: Seq<Seq<char>>, k: int, i: int) -> bool {
    0 <= k < m.len() && mora_offset(m, k) <= i < mora_offset(m, k) + m[k].len()
}

/// Whether `c` is one of the small kana.
pub fn is_sutekana(c: char) -> (b: bool)
    ensures
        b == is_small_kana(c),
{
    c == 'ァ' || c == 'ィ' || c == 'ゥ' || c == 'ェ' || c == 'ォ' || c == 'ャ' || c == 'ュ'
        || c == 'ョ' || c == 'ヮ'
}

/// Cuts a Katakana string into its morae.
///
/// The input is meant to be Katakana, but any string is accepted: characters
/// outside the small kana are treated alike.
pub fn katakana_to_mora(kana: &str) -> (result: Vec<String>)
    ensures
        result.deep_view() == morae(kana@),
        result.len() <= kana@.len(),
        result.deep_view().flatten() == kana@,
{
    let mut result: Vec<String> = Vec::new();
    assert(result.deep_view() =~= morae(kana@.take(0)));
    for c in it: kana.chars()
        invariant
            it.seq() == kana@,
            result.deep_view() == morae(kana@.take(it.index() as int)),
    {
        let ghost done = kana@.take(it.index() as int);
        let ghost next = kana@.take(it.index() + 1);
        let ghost before = result.deep_view();
        assert(next.drop_last() =~= done && next.last() == c);
        if is_sutekana(c) {
            match result.pop() {
                Some(mut previous) => {
                    previous.push(c);
                    result.push(previous);
                    assert(result.deep_view() =~= before.drop_last().push(before.last().push(c)));
                },
                None => {
                    result.push(char_to_string(c));
                    assert(result.deep_view() =~= before.push(seq![c]));
                },
            }
        } else {
            result.push(char_to_string(c));
            assert(result.deep_view() =~= before.push(seq![c]));
        }
    }
    proof {
        assert(kana@.take(kana@.len() as int) =~= kana@);
        lemma_morae_shape(kana@);
        lemma_morae_concat(kana@);
    }
    result
}

/// Segmentation loses nothing and adds nothing: the morae of a string,
/// written one after the other, are the string itself.
pub proof fn lemma_morae_concat(s: Seq<char>)
    ensures
        morae(s).flatten() == s,
    decreases s.len(),
{
    if s.len() > 0 {
        let before = morae(s.drop_last());
        let c = s.last();
        lemma_morae_concat(s.drop_last());
        assert(s.drop_last().push(c) =~= s);
        if is_small_kana(c) && before.len() > 0 {
            let front = before.drop_last();
            assert(front.push(before.last()) =~= before);
            front.lemma_flatten_push(before.last());
            front.lemma_flatten_push(before.last().push(c));
            assert(morae(s).flatten() =~= s);
        } else {
            before.lemma_flatten_push(seq![c]);
            assert(morae(s).flatten() =~= s);
        }
    }
}

/// The shape of a segmentation: there are no more morae than characters and
/// at least one if there is a character; no mora is empty; within a mora only
/// the leading character can be other than a small kana; and only the first
/// mora can begin with a small kana, which is then the first character of the
/// string.
pub proof fn lemma_morae_shape(s: Seq<char>)
    ensures
        morae(s).len() <= s.len(),
        s.len() > 0 ==> morae(s).len() > 0 && morae(s)[0].len() > 0 && morae(s)[0][0] == s[0],
        forall|k: int| 0 <= k < morae(s).len() ==> (#[trigger] morae(s)[k]).len() >= 1,
        forall|k: int, j: int|
            0 <= k < morae(s).len() && 1 <= j < morae(s)[k].len() ==> is_small_kana(
                #[trigger] morae(s)[k][j],
            ),
        forall|k: int| 1 <= k < morae(s).len() ==> !is_small_kana((#[trigger] morae(s)[k])[0]),
    decreases s.len(),
{
    if s.len() > 0 {
        lemma_morae_shape(s.drop_last());
    }
}

/// Appending a character leaves the morae before the last one as they were,
/// and the last one either as it was or longer by that character.
proof fn lemma_morae_grow(s: Seq<char>, k: int)
    requires
        s.len() > 0,
        0 <= k < morae(s.drop_last()).len(),
    ensures
        k < morae(s).len(),
        mora_offset(morae(s), k) == mora_offset(morae(s.drop_last()), k),
        morae(s.drop_last())[k].len() <= morae(s)[k].len(),
{
    assert(morae(s).take(k) =~= morae(s.drop_last()).take(k));
}

/// Where the morae lie in the string: character `j` of mora `k` is the
/// character of the string that stands `j` places after the mora's offset.
pub proof fn lemma_mora_at(s: Seq<char>, k: int, j: int)
    requires
        0 <= k < morae(s).len(),
        0 <= j < morae(s)[k].len(),
    ensures
        mora_covers(morae(s), k, mora_offset(morae(s), k) + j),
        mora_offset(morae(s), k) + j < s.len(),
        s[mora_offset(morae(s), k) + j] == morae(s)[k][j],
{
    let m = morae(s);
    lemma_morae_concat(s);
    assert(m =~= m.take(k) + m.skip(k));
    lemma_flatten_concat(m.take(k), m.skip(k));
    assert(m.skip(k).flatten() == m.skip(k).first() + m.skip(k).drop_first().flatten());
    assert(m.skip(k).first() == m[k]);
}

/// A small kana that is not the first character lies in the same mora as the
/// character before it, right behind it. In particular a full-size character
/// and the small kana after it are merged into one mora.
pub proof fn lemma_small_kana_joins_previous(s: Seq<char>, i: int)
    requires
        0 < i < s.len(),
        is_small_kana(s[i]),
    ensures
        exists|k: int|
            {
                &&& mora_covers(morae(s), k, i - 1)
                &&& mora_covers(morae(s), k, i)
                &&& morae(s)[k][i - 1 - mora_offset(morae(s), k)] == s[i - 1]
                &&& morae(s)[k][i - mora_offset(morae(s), k)] == s[i]
            },
{
    lemma_same_mora(s, i);
    let m = morae(s);
    let k = choose|k: int| mora_covers(m, k, i - 1) && mora_covers(m, k, i);
    lemma_mora_at(s, k, i - 1 - mora_offset(m, k));
    lemma_mora_at(s, k, i - mora_offset(m, k));
}

/// A small kana that is not the first character is covered by the mora that
/// covers the character before it.
proof fn lemma_same_mora(s: Seq<char>, i: int)
    requires
        0 < i < s.len(),
        is_small_kana(s[i]),
    ensures
        exists|k: int| mora_covers(morae(s), k, i - 1) && mora_covers(morae(s), k, i),
    decreases s.len(),
{
    let shorter = s.drop_last();
    let before = morae(shorter);
    let after = morae(s);
    lemma_morae_shape(shorter);
    if i == s.len() - 1 {
        let k = after.len() - 1;
        lemma_morae_concat(shorter);
        assert(after.take(k) =~= before.drop_last());
        assert(before.drop_last().push(before.last()) =~= before);
        before.drop_last().lemma_flatten_push(before.last());
        assert(mora_covers(after, k, i - 1) && mora_covers(after, k, i));
    } else {
        lemma_same_mora(shorter, i);
        let k = choose|k: int| mora_covers(before, k, i - 1) && mora_covers(before, k, i);
        lemma_morae_grow(s, k);
        assert(mora_covers(after, k, i - 1) && mora_covers(after, k, i));
    }
}

/// A string without small kana has one mora for each character, in order.
pub proof fn lemma_morae_without_small_kana(s: Seq<char>)
    requires
        forall|i: int| 0 <= i < s.len() ==> !is_small_kana(#[trigger] s[i]),
    ensures
        morae(s) == Seq::new(s.len(), |i: int| seq![s[i]]),
    decreases s.len(),
{
    if s.len() > 0 {
        lemma_morae_without_small_kana(s.drop_last());
    }
    assert(morae(s) =~= Seq::new(s.len(), |i: int| seq![s[i]]));
}

/// A small kana at the very start has nothing to attach to and stands as a
/// mora of its own, unless further small kana follow it directly.
pub proof fn lemma_leading_small_kana_stands_alone(s: Seq<char>)
    requires
        s.len() > 0,
        is_small_kana(s[0]),
        s.len() > 1 ==> !is_small_kana(s[1]),
    ensures
        morae(s)[0] == seq![s[0]],
{
    if s.len() == 1 {
        assert(morae(s.drop_last()).len() == 0);
        assert(morae(s)[0] =~= seq![s[0]]);
    } else {
        lemma_opening_mora_of_one(s);
    }
}

/// When the second character is not a small kana, the first mora is the first
/// character alone and a second mora exists.
proof fn lemma_opening_mora_of_one(s: Seq<char>)
    requires
        s.len() >= 2,
        !is_small_kana(s[1]),
    ensures
        morae(s).len() >= 2,
        morae(s)[0] == seq![s[0]],
    decreases s.len(),
{
    let shorter = s.drop_last();
    if s.len() == 2 {
        assert(morae(shorter.drop_last()).len() == 0);
        assert(morae(shorter) =~= seq![seq![s[0]]]);
        assert(morae(s) =~= seq![seq![s[0]], seq![s[1]]]);
    } else {
        lemma_opening_mora_of_one(shorter);
    }
}

/// The first mora is a prefix of the string, the other morae make up the
/// rest of it, and putting another piece in the first mora's place gives that
/// piece followed by the rest of the string.
pub proof fn lemma_replace_first_mora(s: Seq<char>, piece: Seq<char>)
    requires
        s.len() > 0,
    ensures
        morae(s).len() > 0,
        1 <= morae(s)[0].len() <= s.len(),
        morae(s)[0] == s.take(morae(s)[0].len() as int),
        morae(s).drop_first().flatten() == s.skip(morae(s)[0].len() as int),
        morae(s).update(0, piece).flatten() == piece + s.skip(morae(s)[0].len() as int),
{
    let m = morae(s);
    lemma_morae_shape(s);
    lemma_morae_concat(s);
    let rest = m.drop_first().flatten();
    assert(m.flatten() == m[0] + rest);
    assert(m.update(0, piece).drop_first() =~= m.drop_first());
    assert(m.update(0, piece).flatten() == piece + rest);
    assert(s.take(m[0].len() as int) =~= m[0]);
    assert(s.skip(m[0].len() as int) =~= rest);
}

/// A character followed by nothing but small kana is a single mora.
pub proof fn lemma_single_mora(s: Seq<char>)
    requires
        s.len() > 0,
        forall|j: int| 1 <= j < s.len() ==> is_small_kana(#[trigger] s[j]),
    ensures
        morae(s) == seq![s],
    decreases s.len(),
{
    let shorter = s.drop_last();
    if s.len() == 1 {
        assert(morae(shorter).len() == 0);
        assert(seq![s.last()] =~= s);
        assert(morae(s) =~= seq![s]);
    } else {
        assert forall|j: int| 1 <= j < shorter.len() implies is_small_kana(
            #[trigger] shorter[j],
        ) by {
            assert(shorter[j] == s[j]);
        }
        lemma_single_mora(shorter);
        assert(is_small_kana(s[s.len() - 1]));
        assert(shorter.push(s.last()) =~= s);
        assert(morae(s) =~= seq![s]);
    }
}

/// A string can be cut before any character that is not a small kana: the
/// morae of the whole are the morae of the part before the cut followed by
/// the morae of the part after it.
pub proof fn lemma_morae_split(a: Seq<char>, b: Seq<char>)
    requires
        b.len() > 0,
        !is_small_kana(b[0]),
    ensures
        morae(a + b) == morae(a) + morae(b),
    decreases b.len(),
{
    let whole = a + b;
    let shorter = b.drop_last();
    assert(whole.drop_last() =~= a + shorter);
    assert(whole.last() == b.last());
    if b.len() == 1 {
        assert(a + shorter =~= a);
        assert(morae(shorter).len() == 0);
        assert(morae(whole) =~= morae(a) + morae(b));
    } else {
        lemma_morae_split(a, shorter);
        lemma_morae_shape(shorter);
        assert(morae(whole) =~= morae(a) + morae(b));
    }
}

} // verus!
