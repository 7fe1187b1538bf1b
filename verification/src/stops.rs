//! When a plan stops short: only where the expression holds `Nroot`.

use crate::balance::{lemma_open_count_push, lemma_prefix_never_overclosed};
use crate::canonical::{lemma_cleaned_is_well_nested, lemma_cleaned_without_nroot, without_nroot};
use crate::item::Token;
use crate::machine::{
    closed, consumed, drained, fed, planned, reduced, yielded, Machine, Status,
};
use crate::model::{cleaned, never_overclosed, open_count, well_formed};
use crate::plans::{lemma_consumed_sane, lemma_drained_sane, never_stops};
use vstd::prelude::*;

verus! {

/// The number of openers among the pending tokens.
pub open spec fn openers_in(ops: Seq<Token>) -> int
    decreases ops.len(),
{
    if ops.len() == 0 {
        0
    } else {
        openers_in(ops.drop_last()) + if ops.last().is_opener() {
            1int
        } else {
            0int
        }
    }
}

/// An opener other than `Nroot`, or a binary operator.
pub open spec fn may_wait(t: Token) -> bool {
    (t.is_opener() || t.is_binary()) && t != Token::Nroot
}

/// Every pending token is an opener other than `Nroot`, or a binary operator.
pub open spec fn tidy(ops: Seq<Token>) -> bool {
    forall|i: int| 0 <= i < ops.len() ==> may_wait(#[trigger] ops[i])
}

/// The machine has not stopped, and while it runs its pending tokens are
/// tidy, with `open` openers among them.
pub open spec fn on_track(m: Machine, open: int) -> bool {
    &&& m.status != Status::Stopped
    &&& m.status == Status::Running ==> tidy(m.ops) && openers_in(m.ops) == open
}

proof fn lemma_openers_push(ops: Seq<Token>, t: Token)
    ensures
        openers_in(ops.push(t)) == openers_in(ops) + if t.is_opener() {
            1int
        } else {
            0int
        },
{
    assert(ops.push(t).drop_last() =~= ops);
}

proof fn lemma_openers_not_negative(ops: Seq<Token>)
    ensures
        openers_in(ops) >= 0,
        openers_in(ops) == 0 ==> forall|i: int| 0 <= i < ops.len() ==> !ops[i].is_opener(),
    decreases ops.len(),
{
    if ops.len() > 0 {
        lemma_openers_not_negative(ops.drop_last());
        assert forall|i: int| openers_in(ops) == 0 && 0 <= i < ops.len() implies !ops[i].is_opener() by {
            if i < ops.len() - 1 {
                assert(ops.drop_last()[i] == ops[i]);
            }
        }
    }
}

proof fn lemma_tidy_drop_last(ops: Seq<Token>)
    requires
        tidy(ops),
        ops.len() > 0,
    ensures
        tidy(ops.drop_last()),
{
    assert forall|i: int| 0 <= i < ops.drop_last().len() implies may_wait(
        #[trigger] ops.drop_last()[i],
    ) by {
        assert(ops.drop_last()[i] == ops[i]);
    }
}

proof fn lemma_reduced_on_track(m: Machine, open: int)
    requires
        m.status == Status::Running,
        on_track(m, open),
        m.ops.len() > 0,
        !m.ops.last().is_opener(),
    ensures
        on_track(reduced(m), open),
        reduced(m).status == Status::Running ==> reduced(m).ops.len() < m.ops.len(),
{
    assert(m.ops.last() == m.ops[m.ops.len() - 1]);
    lemma_tidy_drop_last(m.ops);
}

proof fn lemma_closed_on_track(m: Machine, open: int, degrees: bool)
    requires
        m.status == Status::Running,
        on_track(m, open),
        open >= 1,
    ensures
        on_track(closed(m, degrees), open - 1),
    decreases m.ops.len(),
{
    if m.ops.len() > 0 {
        assert(m.ops.last() == m.ops[m.ops.len() - 1]);
        if m.ops.last().is_opener() {
            lemma_tidy_drop_last(m.ops);
        } else {
            lemma_reduced_on_track(m, open);
            if reduced(m).status == Status::Running {
                lemma_closed_on_track(reduced(m), open, degrees);
            }
        }
    }
}

proof fn lemma_yielded_on_track(m: Machine, t: Token, open: int)
    requires
        m.status == Status::Running,
        on_track(m, open),
        t.is_binary(),
    ensures
        on_track(yielded(m, t), open),
    decreases m.ops.len(),
{
    if m.ops.len() > 0 && m.ops.last().has_precedence_over(t) && m.depth >= 2 {
        lemma_reduced_on_track(m, open);
        if reduced(m).status == Status::Running {
            lemma_yielded_on_track(reduced(m), t, open);
        }
    }
}

proof fn lemma_tidy_push(ops: Seq<Token>, t: Token)
    requires
        tidy(ops),
        may_wait(t),
    ensures
        tidy(ops.push(t)),
{
    assert forall|i: int| 0 <= i < ops.push(t).len() implies may_wait(
        #[trigger] ops.push(t)[i],
    ) by {
        if i < ops.len() {
            assert(ops.push(t)[i] == ops[i]);
        }
    }
}

proof fn lemma_fed_on_track(m: Machine, t: Token, open: int, degrees: bool)
    requires
        on_track(m, open),
        t != Token::Nroot,
        t == Token::ClosingParenthesis ==> open >= 1,
    ensures
        on_track(fed(m, t, degrees), open + crate::model::weight(t)),
{
    if m.status == Status::Running {
        if t.is_opener() {
            lemma_tidy_push(m.ops, t);
            lemma_openers_push(m.ops, t);
        } else if t.is_binary() {
            lemma_yielded_on_track(m, t, open);
            let y = yielded(m, t);
            if y.status == Status::Running {
                lemma_tidy_push(y.ops, t);
                lemma_openers_push(y.ops, t);
            }
        } else if t == Token::ClosingParenthesis {
            lemma_closed_on_track(m, open, degrees);
        }
    }
}

proof fn lemma_consumed_on_track(stream: Seq<Token>, degrees: bool)
    requires
        never_overclosed(stream),
        without_nroot(stream),
    ensures
        on_track(consumed(stream, degrees), open_count(stream)),
    decreases stream.len(),
{
    if stream.len() > 0 {
        let front = stream.drop_last();
        let t = stream.last();
        lemma_prefix_never_overclosed(stream, stream.len() - 1);
        assert(stream.take(stream.len() - 1) =~= front);
        assert forall|i: int| 0 <= i < front.len() implies front[i] != Token::Nroot by {
            assert(front[i] == stream[i]);
        }
        lemma_consumed_on_track(front, degrees);
        assert(front.push(t) =~= stream);
        lemma_open_count_push(front, t);
        lemma_prefix_never_overclosed(stream, 0);
        assert(t == stream[stream.len() - 1]);
        lemma_fed_on_track(consumed(front, degrees), t, open_count(front), degrees);
    }
}

proof fn lemma_drained_on_track(m: Machine)
    requires
        on_track(m, 0),
    ensures
        on_track(drained(m), 0),
    decreases m.ops.len(),
{
    if m.status == Status::Running && m.ops.len() > 0 {
        lemma_openers_not_negative(m.ops);
        assert(m.ops.last() == m.ops[m.ops.len() - 1]);
        lemma_reduced_on_track(m, 0);
        if reduced(m).status == Status::Running {
            lemma_drained_on_track(reduced(m));
        }
    }
}

/// The plan of a stream in which every closing parenthesis has its opener,
/// every opener is closed and no `Nroot` occurs holds no
/// [`crate::machine::Action::Unsupported`]: it can be carried out to its end.
pub proof fn lemma_plan_of_well_nested_stream(stream: Seq<Token>, degrees: bool)
    requires
        never_overclosed(stream),
        open_count(stream) == 0,
        without_nroot(stream),
    ensures
        planned(stream, degrees) matches Some(steps) ==> never_stops(steps),
{
    if stream.len() > 0 {
        lemma_consumed_on_track(stream, degrees);
        lemma_drained_on_track(consumed(stream, degrees));
        lemma_consumed_sane(stream, degrees);
        lemma_drained_sane(consumed(stream, degrees));
    }
}

/// The plan of a well-formed expression stops short only where the
/// expression holds `Nroot`: without it, no step of the plan is
/// [`crate::machine::Action::Unsupported`].
pub proof fn lemma_plan_stops_only_for_nroot(list: Seq<Token>, ans: Seq<char>, degrees: bool)
    requires
        well_formed(list),
        without_nroot(list),
    ensures
        planned(cleaned(list, ans), degrees) matches Some(steps) ==> never_stops(steps),
{
    lemma_cleaned_is_well_nested(list, ans);
    lemma_cleaned_without_nroot(list, ans);
    lemma_plan_of_well_nested_stream(cleaned(list, ans), degrees);
}

} // verus!
