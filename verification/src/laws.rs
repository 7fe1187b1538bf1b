//! What holds of every expression, stated over the model and proved.

use crate::balance::{lemma_erase_keeps_well_formed, lemma_push_keeps_well_formed};
use crate::item::Token;
use crate::machine::planned;
use crate::model::{after_push, cleaned, erased, is_placeholder, open_count, pushed, well_formed};
use crate::text::{is_zero_dot, longer_than_one_byte};
use vstd::prelude::*;

verus! {

/// The expression that results when the tokens of `typed` are pushed one
/// after the other, starting from the empty expression.
pub open spec fn typed_in(typed: Seq<Token>) -> Seq<Token>
    decreases typed.len(),
{
    if typed.len() == 0 {
        Seq::empty()
    } else {
        after_push(typed_in(typed.drop_last()), typed.last())
    }
}

/// The expression after the tokens of `typed` were pushed and the backspace
/// was then pressed `presses` times.
pub open spec fn typed_and_erased(typed: Seq<Token>, presses: nat) -> Seq<Token>
    decreases presses,
{
    if presses == 0 {
        typed_in(typed)
    } else {
        erased(typed_and_erased(typed, (presses - 1) as nat))
    }
}

/// Whatever is pushed, in whatever order, the expression is well formed and
/// the number of its open groups is not negative.
pub proof fn lemma_open_count_never_negative(typed: Seq<Token>)
    ensures
        well_formed(typed_in(typed)),
        open_count(typed_in(typed)) >= 0,
    decreases typed.len(),
{
    if typed.len() == 0 {
        let empty = Seq::<Token>::empty();
        assert forall|k: int| 0 <= k <= empty.len() implies #[trigger] open_count(empty.take(k))
            >= 0 by {
            assert(empty.take(k) =~= empty);
        }
    } else {
        lemma_open_count_never_negative(typed.drop_last());
        lemma_push_keeps_well_formed(typed_in(typed.drop_last()), typed.last());
    }
}

/// Nor does any number of backspaces after that make it negative.
pub proof fn lemma_open_count_never_negative_after_erasing(typed: Seq<Token>, presses: nat)
    ensures
        well_formed(typed_and_erased(typed, presses)),
        open_count(typed_and_erased(typed, presses)) >= 0,
    decreases presses,
{
    if presses == 0 {
        lemma_open_count_never_negative(typed);
    } else {
        lemma_open_count_never_negative_after_erasing(typed, (presses - 1) as nat);
        lemma_erase_keeps_well_formed(typed_and_erased(typed, (presses - 1) as nat));
    }
}

/// A push that appends one token `x` is undone by the backspace that follows
/// it. Left out are the two cases in which a backspace does not take exactly
/// the last token: `x` is a literal of more than one byte other than `0.`,
/// which only loses a character, and `x` is `Power`, `%` or `!` behind a
/// literal `0` or `0.`, which goes along.
pub proof fn lemma_backspace_undoes_push(list: Seq<Token>, t: Token)
    requires
        pushed(list, t) is Some,
        after_push(list, t).len() == list.len() + 1,
        after_push(list, t).drop_last() == list,
        after_push(list, t).last() matches Token::Number(d) ==> !longer_than_one_byte(d)
            || is_zero_dot(d),
        matches!(after_push(list, t).last(), Token::Power | Token::Factorial | Token::Percent)
            ==> !(list.len() > 0 && is_placeholder(list.last())),
    ensures
        erased(after_push(list, t)) == list,
{
}

/// `Power`, `%` or `!` pushed on the empty expression brings a `0` of its
/// own, and the backspace that follows takes both away again.
pub proof fn lemma_backspace_takes_implied_zero(t: Token)
    requires
        matches!(t, Token::Power | Token::Factorial | Token::Percent),
    ensures
        after_push(Seq::empty(), t).len() == 2,
        erased(after_push(Seq::empty(), t)) == Seq::<Token>::empty(),
{
    let l = after_push(Seq::empty(), t);
    assert(l.take(0) =~= Seq::<Token>::empty());
}

/// A push that brings a `Multiply` of its own before the token `x` it
/// appends is undone only in part: the backspace that follows takes `x` and
/// leaves the `Multiply`. Left out is, as above, an `x` that only loses a
/// character.
pub proof fn lemma_backspace_leaves_implied_times(list: Seq<Token>, t: Token)
    requires
        list.len() > 0,
        pushed(list, t) is Some,
        after_push(list, t).len() == list.len() + 2,
        after_push(list, t).last() matches Token::Number(d) ==> !longer_than_one_byte(d)
            || is_zero_dot(d),
    ensures
        erased(after_push(list, t)) == list.push(Token::Multiply),
{
    let l = after_push(list, t);
    assert(l.drop_last() =~= list.push(Token::Multiply));
}

/// The plan of an expression depends on nothing but the expression, the
/// angle mode and the text of the previous answer.
pub proof fn lemma_plan_is_determined(
    first: Seq<Token>,
    second: Seq<Token>,
    first_degrees: bool,
    second_degrees: bool,
    first_ans: Seq<char>,
    second_ans: Seq<char>,
)
    requires
        first == second,
        first_degrees == second_degrees,
        first_ans == second_ans,
    ensures
        planned(cleaned(first, first_ans), first_degrees) == planned(
            cleaned(second, second_ans),
            second_degrees,
        ),
{
}

} // verus!
