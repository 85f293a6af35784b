//! The swap itself: the first mora of the first name and the first mora of
//! the last name change places.

use vstd::prelude::*;
use crate::kana2mora::{
    is_small_kana, katakana_to_mora, lemma_morae_concat, lemma_morae_shape, lemma_morae_split,
    lemma_replace_first_mora, lemma_single_mora, morae,
};
use crate::text::{concatenate, join_with_space, joined};

verus! {

/// Why two names could not swap their heads.
#[derive(Debug, Clone, Copy, PartialEq, Eq)]
pub enum SwapError {
    /// The first name is empty, so it has no mora to give.
    EmptyFirstName,
    /// The last name is empty, so it has no mora to give.
    EmptyLastName,
}

/// The two names after the swap: each keeps all its morae but the first,
/// which it gets from the other.
pub open spec fn swap_heads(first: Seq<char>, last: Seq<char>) -> (Seq<char>, Seq<char>) {
    (
        morae(first).update(0, morae(last)[0]).flatten(),
        morae(last).update(0, morae(first)[0]).flatten(),
    )
}

/// The names after the swap between the first and the last of them. The
/// names between the two stay as they are.
pub open spec fn swapped_names(names: Seq<Seq<char>>) -> Seq<Seq<char>> {
    let swapped = swap_heads(names.first(), names.last());
    names.update(0, swapped.0).update(names.len() - 1, swapped.1)
}

/// What the swap makes of these names, or why it cannot be made. Fewer than
/// two names stay as they are. Otherwise the first and the last name must
/// not be empty, since an empty name has no mora to give.
pub open spec fn swap_outcome(names: Seq<Seq<char>>) -> Result<Seq<Seq<char>>, SwapError> {
    if names.len() < 2 {
        Ok(names)
    } else if names.first().len() == 0 {
        Err(SwapError::EmptyFirstName)
    } else if names.last().len() == 0 {
        Err(SwapError::EmptyLastName)
    } else {
        Ok(swapped_names(names))
    }
}

/// Swaps the first mora of the first name with the first mora of the last
/// name, in place, and hands the names back. A single name, or none, is left
/// alone. Where the first or the last name is empty the names are left alone
/// too, and the error says which of them it was.
///
/// The names are meant to be Katakana.
pub fn swap_names_head(names: &mut Vec<String>) -> (outcome: Result<&Vec<String>, SwapError>)
    ensures
        match swap_outcome(old(names).deep_view()) {
            Ok(swapped) => {
                &&& outcome is Ok
                &&& outcome->Ok_0.deep_view() == swapped
                &&& final(names).deep_view() == swapped
            },
            Err(e) => {
                &&& outcome == Err::<&Vec<String>, SwapError>(e)
                &&& final(names).deep_view() == old(names).deep_view()
            },
        },
{
    if names.len() < 2 {
        return Ok(names);
    }
    let last_index = names.len() - 1;
    let ghost before = names.deep_view();
    assert(before.first() == names[0]@ && before.last() == names[last_index as int]@);
    let mut first_morae = katakana_to_mora(names[0].as_str());
    let mut last_morae = katakana_to_mora(names[last_index].as_str());
    proof {
        lemma_morae_shape(before.first());
        lemma_morae_shape(before.last());
    }
    if first_morae.len() == 0 {
        return Err(SwapError::EmptyFirstName);
    }
    if last_morae.len() == 0 {
        return Err(SwapError::EmptyLastName);
    }
    let ghost first_before = first_morae.deep_view();
    let ghost last_before = last_morae.deep_view();
    let first_head = first_morae.remove(0);
    let last_head = last_morae.remove(0);
    first_morae.insert(0, last_head);
    last_morae.insert(0, first_head);
    assert(first_morae.deep_view() =~= first_before.update(0, last_before[0]));
    assert(last_morae.deep_view() =~= last_before.update(0, first_before[0]));
    let swapped_first = concatenate(&first_morae);
    let swapped_last = concatenate(&last_morae);
    names[0] = swapped_first;
    names[last_index] = swapped_last;
    assert(names.deep_view() =~= swapped_names(before));
    Ok(names)
}

/// What becomes of a list of names: they are joined by single spaces, after
/// the swap if there are two or more of them. There is no result if the swap
/// cannot be made.
pub open spec fn names_transformed(names: Seq<Seq<char>>) -> Option<Seq<char>> {
    match swap_outcome(names) {
        Ok(swapped) => Some(joined(swapped)),
        Err(_) => None,
    }
}

/// Swaps the heads of the first and the last name and joins all names with
/// single spaces.
pub fn swap_and_join(names: Vec<String>) -> (line: Option<String>)
    ensures
        line.deep_view() == names_transformed(names.deep_view()),
{
    let mut names = names;
    match swap_names_head(&mut names) {
        Ok(swapped) => Some(join_with_space(swapped)),
        Err(_) => None,
    }
}

/// The swap, said without morae in between: each name becomes the other's
/// first mora followed by what it had after its own first mora.
pub proof fn lemma_swap_heads_by_parts(first: Seq<char>, last: Seq<char>)
    requires
        first.len() > 0,
        last.len() > 0,
    ensures
        swap_heads(first, last).0 == morae(last)[0] + first.skip(morae(first)[0].len() as int),
        swap_heads(first, last).1 == morae(first)[0] + last.skip(morae(last)[0].len() as int),
        swap_heads(first, last).0.len() + swap_heads(first, last).1.len() == first.len()
            + last.len(),
{
    lemma_replace_first_mora(first, morae(last)[0]);
    lemma_replace_first_mora(last, morae(first)[0]);
}

/// After the swap a name begins with the mora that it was given: that mora is
/// its first mora, and what follows it is what followed the name's own first
/// mora before.
proof fn lemma_given_head_is_first_mora(name: Seq<char>, head: Seq<char>)
    requires
        name.len() > 0,
        head.len() > 0,
        forall|j: int| 1 <= j < head.len() ==> is_small_kana(#[trigger] head[j]),
    ensures
        morae(head + name.skip(morae(name)[0].len() as int)) == seq![head] + morae(
            name,
        ).drop_first(),
{
    let m = morae(name);
    lemma_morae_shape(name);
    lemma_replace_first_mora(name, head);
    let rest = name.skip(m[0].len() as int);
    lemma_single_mora(head);
    let others = m.drop_first();
    assert(rest == others.flatten());
    if m.len() == 1 {
        assert(others =~= Seq::<Seq<char>>::empty());
        assert(head + rest =~= head);
        assert(seq![head] + others =~= seq![head]);
    } else {
        assert(others.first() == m[1]);
        assert(rest == m[1] + others.drop_first().flatten());
        assert(rest[0] == m[1][0]);
        lemma_single_mora(m[0]);
        assert(name =~= m[0] + rest);
        lemma_morae_split(m[0], rest);
        lemma_morae_split(head, rest);
        assert(morae(rest) =~= others);
    }
}

/// Swapping twice gives both names back.
pub proof fn lemma_swap_heads_twice(first: Seq<char>, last: Seq<char>)
    requires
        first.len() > 0,
        last.len() > 0,
    ensures
        swap_heads(swap_heads(first, last).0, swap_heads(first, last).1) == (first, last),
{
    let f = morae(first);
    let l = morae(last);
    lemma_morae_shape(first);
    lemma_morae_shape(last);
    lemma_swap_heads_by_parts(first, last);
    lemma_replace_first_mora(first, f[0]);
    lemma_replace_first_mora(last, l[0]);
    lemma_given_head_is_first_mora(first, l[0]);
    lemma_given_head_is_first_mora(last, f[0]);
    let swapped = swap_heads(first, last);
    assert(morae(swapped.0) =~= f.update(0, l[0]));
    assert(morae(swapped.1) =~= l.update(0, f[0]));
    assert(morae(swapped.0).update(0, morae(swapped.1)[0]) =~= f);
    assert(morae(swapped.1).update(0, morae(swapped.0)[0]) =~= l);
    lemma_morae_concat(first);
    lemma_morae_concat(last);
}

/// The swap touches the first and the last name only: the number of names
/// stays, and so does every name between the two.
pub proof fn lemma_swap_keeps_middle_names(names: Seq<Seq<char>>, i: int)
    requires
        0 < i < names.len() - 1,
    ensures
        swapped_names(names).len() == names.len(),
        swapped_names(names)[i] == names[i],
{
}

} // verus!
