//! Small string utilities shared by the rest of the crate: appending a
//! character, concatenating pieces, and joining names with a space.

use vstd::prelude::*;

verus! {

/// Trusted specification of `String::push` from the standard library:
/// the character is appended at the end, and nothing else changes.
pub assume_specification[ String::push ](s: &mut String, ch: char)
    ensures
        final(s)@ == old(s)@.push(ch),
;

/// The pieces joined by a single space: nothing for no piece, the piece itself
/// for one, and otherwise each further piece preceded by one `' '`.
pub open spec fn joined(pieces: Seq<Seq<char>>) -> Seq<char>
    decreases pieces.len(),
{
    if pieces.len() == 0 {
        Seq::empty()
    } else if pieces.len() == 1 {
        pieces[0]
    } else {
        joined(pieces.drop_last()).push(' ') + pieces.last()
    }
}

/// A string that holds exactly the character `c`.
pub fn char_to_string(c: char) -> (s: String)
    ensures
        s@ == seq![c],
{
    let mut s = String::new();
    s.push(c);
    assert(s@ =~= seq![c]);
    s
}

/// Concatenates the pieces in order, with nothing between them.
pub fn concatenate(pieces: &Vec<String>) -> (whole: String)
    ensures
        whole@ == pieces.deep_view().flatten(),
{
    let mut whole = String::new();
    let ghost views = pieces.deep_view();
    assert(views.take(0) =~= Seq::<Seq<char>>::empty());
    for i in 0..pieces.len()
        invariant
            views == pieces.deep_view(),
            whole@ == views.take(i as int).flatten(),
    {
        whole.append(pieces[i].as_str());
        proof {
            views.take(i as int).lemma_flatten_push(views[i as int]);
            assert(views.take(i as int).push(views[i as int]) =~= views.take(i + 1));
        }
    }
    assert(views.take(pieces.len() as int) =~= views);
    whole
}

/// Joins the pieces with a single space between neighbours.
pub fn join_with_space(pieces: &Vec<String>) -> (whole: String)
    ensures
        whole@ == joined(pieces.deep_view()),
{
    let mut whole = String::new();
    let ghost views = pieces.deep_view();
    assert(views.take(0) =~= Seq::<Seq<char>>::empty());
    for i in 0..pieces.len()
        invariant
            views == pieces.deep_view(),
            whole@ == joined(views.take(i as int)),
    {
        let ghost so_far = views.take(i + 1);
        assert(so_far.drop_last() =~= views.take(i as int));
        assert(so_far.last() == views[i as int]);
        if i > 0 {
            whole.push(' ');
        }
        whole.append(pieces[i].as_str());
        assert(whole@ =~= joined(so_far));
    }
    assert(views.take(pieces.len() as int) =~= views);
    whole
}

} // verus!
