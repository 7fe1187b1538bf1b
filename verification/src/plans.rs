//! What holds of every plan: it never asks for a value that is not there, and
//! the two postfix operators are the arithmetic they abbreviate.

use crate::item::Token;
use crate::machine::{
    applied, closed, consumed, drained, fed, function_actions, planned,
    popped, reduced, yielded, Action, Machine, Operation, Status,
};
use crate::model::{cleaned, closers, expanded, group_start, value_start};
use vstd::prelude::*;

verus! {

/// The height of the stack of values after `steps` were carried out on the
/// empty stack, or `None` where a step does not find the values it takes.
pub open spec fn height_after(steps: Seq<Action>) -> Option<nat>
    decreases steps.len(),
{
    if steps.len() == 0 {
        Some(0)
    } else {
        match height_after(steps.drop_last()) {
            None => None,
            Some(h) => match steps.last() {
                Action::Push(_) => Some(h + 1),
                Action::Apply(o) => if h >= o.arity() {
                    Some((h - o.arity() + 1) as nat)
                } else {
                    None
                },
                Action::Unsupported => Some(h),
            },
        }
    }
}

/// No step but the last is [`Action::Unsupported`].
pub open spec fn stops_only_at_end(steps: Seq<Action>) -> bool {
    forall|i: int| 0 <= i < steps.len() - 1 ==> steps[i] != Action::Unsupported
}

/// No step is [`Action::Unsupported`].
pub open spec fn never_stops(steps: Seq<Action>) -> bool {
    forall|i: int| 0 <= i < steps.len() ==> steps[i] != Action::Unsupported
}

/// A plan that can be carried out: every step finds its values, only the
/// last step can be [`Action::Unsupported`], and a plan that does not end so
/// leaves a value on the stack.
pub open spec fn can_be_carried_out(steps: Seq<Action>) -> bool {
    &&& height_after(steps) is Some
    &&& stops_only_at_end(steps)
    &&& steps.len() > 0
    &&& steps.last() != Action::Unsupported ==> height_after(steps).unwrap() >= 1
}

/// The machine's count of values is the height that its plan reaches, and
/// its plan holds [`Action::Unsupported`] just where the machine has stopped:
/// as the last step.
pub open spec fn sane(m: Machine) -> bool {
    &&& height_after(m.steps) == Some(m.depth)
    &&& m.status != Status::Stopped ==> never_stops(m.steps)
    &&& m.status == Status::Stopped ==> {
        &&& m.steps.len() > 0
        &&& m.steps.last() == Action::Unsupported
        &&& stops_only_at_end(m.steps)
    }
}

proof fn lemma_height_push(steps: Seq<Action>, a: Action)
    ensures
        height_after(steps.push(a)) == match height_after(steps) {
            None => None,
            Some(h) => match a {
                Action::Push(_) => Some(h + 1),
                Action::Apply(o) => if h >= o.arity() {
                    Some((h - o.arity() + 1) as nat)
                } else {
                    None
                },
                Action::Unsupported => Some(h),
            },
        },
{
    assert(steps.push(a).drop_last() =~= steps);
}

proof fn lemma_reduced_sane(m: Machine)
    requires
        sane(m),
        m.status == Status::Running,
        m.ops.len() > 0,
    ensures
        sane(reduced(m)),
        reduced(m).status == Status::Running ==> reduced(m).ops.len() < m.ops.len(),
{
    if m.depth >= 2 {
        if m.ops.last().is_binary() {
            lemma_height_push(m.steps, reduced(m).steps.last());
        } else {
            assert(m.steps + seq![Action::Unsupported] =~= m.steps.push(Action::Unsupported));
            lemma_height_push(m.steps, Action::Unsupported);
        }
    }
}

proof fn lemma_applied_sane(m: Machine, f: Token, degrees: bool)
    requires
        sane(m),
        m.status == Status::Running,
    ensures
        sane(applied(m, f, degrees)),
{
    if f != Token::OpeningParenthesis && m.depth > 0 {
        if f == Token::Nroot {
            assert(m.steps + seq![Action::Unsupported] =~= m.steps.push(Action::Unsupported));
            lemma_height_push(m.steps, Action::Unsupported);
        } else {
            let more = function_actions(f, degrees);
            if more.len() == 0 {
                assert(m.steps + more =~= m.steps);
            } else if more.len() == 1 {
                assert(m.steps + more =~= m.steps.push(more[0]));
                lemma_height_push(m.steps, more[0]);
            } else {
                assert(m.steps + more =~= m.steps.push(more[0]).push(more[1]));
                lemma_height_push(m.steps, more[0]);
                lemma_height_push(m.steps.push(more[0]), more[1]);
            }
        }
    }
}

proof fn lemma_closed_sane(m: Machine, degrees: bool)
    requires
        sane(m),
        m.status == Status::Running,
    ensures
        sane(closed(m, degrees)),
    decreases m.ops.len(),
{
    if m.ops.len() > 0 {
        if m.ops.last().is_opener() {
            lemma_applied_sane(popped(m), m.ops.last(), degrees);
        } else {
            lemma_reduced_sane(m);
            if reduced(m).status == Status::Running {
                lemma_closed_sane(reduced(m), degrees);
            }
        }
    }
}

proof fn lemma_yielded_sane(m: Machine, t: Token)
    requires
        sane(m),
        m.status == Status::Running,
    ensures
        sane(yielded(m, t)),
    decreases m.ops.len(),
{
    if m.ops.len() > 0 && m.ops.last().has_precedence_over(t) && m.depth >= 2 {
        lemma_reduced_sane(m);
        if reduced(m).status == Status::Running {
            lemma_yielded_sane(reduced(m), t);
        }
    }
}

proof fn lemma_fed_sane(m: Machine, t: Token, degrees: bool)
    requires
        sane(m),
    ensures
        sane(fed(m, t, degrees)),
{
    if m.status == Status::Running && !t.is_opener() {
        if t.is_binary() {
            lemma_yielded_sane(m, t);
        } else {
            match t {
                Token::Number(d) => {
                    lemma_height_push(m.steps, Action::Push(d));
                },
                Token::ClosingParenthesis => {
                    lemma_closed_sane(m, degrees);
                },
                Token::Factorial => {
                    let gamma = Action::Apply(Operation::Gamma);
                    assert(m.steps + seq![gamma] =~= m.steps.push(gamma));
                    lemma_height_push(m.steps, gamma);
                },
                _ => {},
            }
        }
    }
}

/// The machine is sane after any stream.
pub proof fn lemma_consumed_sane(stream: Seq<Token>, degrees: bool)
    ensures
        sane(consumed(stream, degrees)),
    decreases stream.len(),
{
    if stream.len() > 0 {
        lemma_consumed_sane(stream.drop_last(), degrees);
        lemma_fed_sane(consumed(stream.drop_last(), degrees), stream.last(), degrees);
    }
}

/// To apply what is pending keeps the machine sane.
pub proof fn lemma_drained_sane(m: Machine)
    requires
        sane(m),
    ensures
        sane(drained(m)),
    decreases m.ops.len(),
{
    if m.status == Status::Running && m.ops.len() > 0 {
        lemma_reduced_sane(m);
        if reduced(m).status == Status::Running {
            lemma_drained_sane(reduced(m));
        }
    }
}

/// Every plan can be carried out: each of its steps finds the values it
/// takes, and at the end a value is left, unless the plan ends in
/// [`Action::Unsupported`], which then is its only such step.
pub proof fn lemma_plan_can_be_carried_out(stream: Seq<Token>, degrees: bool)
    ensures
        planned(stream, degrees) matches Some(steps) ==> can_be_carried_out(steps),
{
    if stream.len() == 0 {
        let zero = Action::Push(seq!['0']);
        assert(seq![zero] =~= Seq::<Action>::empty().push(zero));
        lemma_height_push(Seq::<Action>::empty(), zero);
    } else {
        lemma_consumed_sane(stream, degrees);
        lemma_drained_sane(consumed(stream, degrees));
    }
}

/// Reading one more token is one more step of the machine.
pub proof fn lemma_consumed_push(stream: Seq<Token>, t: Token, degrees: bool)
    ensures
        consumed(stream.push(t), degrees) == fed(consumed(stream, degrees), t, degrees),
{
    assert(stream.push(t).drop_last() =~= stream);
}

/// The plan of the stream `( d / 100 )`, and that of `d / 100`.
proof fn lemma_plan_of_division(d: Seq<char>, degrees: bool)
    ensures
        planned(
            seq![
                Token::OpeningParenthesis,
                Token::Number(d),
                Token::Divide,
                Token::Number(seq!['1', '0', '0']),
                Token::ClosingParenthesis,
            ],
            degrees,
        ) == Some(
            seq![
                Action::Push(d),
                Action::Push(seq!['1', '0', '0']),
                Action::Apply(Operation::Divide),
            ],
        ),
        planned(
            seq![Token::Number(d), Token::Divide, Token::Number(seq!['1', '0', '0'])],
            degrees,
        ) == Some(
            seq![
                Action::Push(d),
                Action::Push(seq!['1', '0', '0']),
                Action::Apply(Operation::Divide),
            ],
        ),
{
    let hundred = seq!['1', '0', '0'];
    let steps = seq![Action::Push(d), Action::Push(hundred), Action::Apply(Operation::Divide)];
    let e = Seq::<Token>::empty();
    // In parentheses.
    let s1 = e.push(Token::OpeningParenthesis);
    let s2 = s1.push(Token::Number(d));
    let s3 = s2.push(Token::Divide);
    let s4 = s3.push(Token::Number(hundred));
    let s5 = s4.push(Token::ClosingParenthesis);
    lemma_consumed_push(e, Token::OpeningParenthesis, degrees);
    lemma_consumed_push(s1, Token::Number(d), degrees);
    lemma_consumed_push(s2, Token::Divide, degrees);
    lemma_consumed_push(s3, Token::Number(hundred), degrees);
    lemma_consumed_push(s4, Token::ClosingParenthesis, degrees);
    let m1 = consumed(s1, degrees);
    let m2 = consumed(s2, degrees);
    let m3 = consumed(s3, degrees);
    let m4 = consumed(s4, degrees);
    let m5 = consumed(s5, degrees);
    assert(m1.ops =~= seq![Token::OpeningParenthesis]);
    assert(m2.ops == m1.ops && m2.depth == 1);
    assert(yielded(m2, Token::Divide) == m2);
    assert(m3.ops =~= seq![Token::OpeningParenthesis, Token::Divide] && m3.depth == 1);
    assert(m4.ops == m3.ops && m4.depth == 2 && m4.status == Status::Running);
    let r = reduced(m4);
    assert(r.ops =~= seq![Token::OpeningParenthesis] && r.depth == 1);
    assert(closed(r, degrees) == popped(r));
    assert(m5 == popped(r));
    assert(m5.ops =~= Seq::<Token>::empty());
    assert(drained(m5) == m5);
    assert(m5.steps =~= steps);
    assert(s5 =~= seq![
        Token::OpeningParenthesis,
        Token::Number(d),
        Token::Divide,
        Token::Number(hundred),
        Token::ClosingParenthesis,
    ]);
    // Without them.
    let t1 = e.push(Token::Number(d));
    let t2 = t1.push(Token::Divide);
    let t3 = t2.push(Token::Number(hundred));
    lemma_consumed_push(e, Token::Number(d), degrees);
    lemma_consumed_push(t1, Token::Divide, degrees);
    lemma_consumed_push(t2, Token::Number(hundred), degrees);
    let n1 = consumed(t1, degrees);
    let n2 = consumed(t2, degrees);
    let n3 = consumed(t3, degrees);
    assert(n1.ops =~= Seq::<Token>::empty() && n1.depth == 1);
    assert(yielded(n1, Token::Divide) == n1);
    assert(n2.ops =~= seq![Token::Divide] && n2.depth == 1);
    assert(n3.ops == n2.ops && n3.depth == 2 && n3.status == Status::Running);
    let q = reduced(n3);
    assert(q.ops =~= Seq::<Token>::empty() && q.depth == 1);
    assert(drained(q) == q);
    assert(drained(n3) == q);
    assert(q.steps =~= steps);
    assert(t3 =~= seq![Token::Number(d), Token::Divide, Token::Number(hundred)]);
}

/// Expanding one more token of an expression.
pub proof fn lemma_expanded_push(list: Seq<Token>, t: Token, ans: Seq<char>)
    ensures
        expanded(list.push(t), ans) == crate::model::expanded_by(expanded(list, ans), t, ans),
{
    assert(list.push(t).drop_last() =~= list);
}

/// `d %` is evaluated as `d / 100` is: both have the plan that puts `d` and
/// `100` on the stack and divides.
pub proof fn lemma_percent_is_division_by_hundred(d: Seq<char>, degrees: bool, ans: Seq<char>)
    ensures
        planned(cleaned(seq![Token::Number(d), Token::Percent], ans), degrees) == Some(
            seq![
                Action::Push(d),
                Action::Push(seq!['1', '0', '0']),
                Action::Apply(Operation::Divide),
            ],
        ),
        planned(cleaned(seq![Token::Number(d), Token::Percent], ans), degrees) == planned(
            cleaned(
                seq![Token::Number(d), Token::Divide, Token::Number(seq!['1', '0', '0'])],
                ans,
            ),
            degrees,
        ),
{
    let hundred = Token::Number(seq!['1', '0', '0']);
    let e = Seq::<Token>::empty();
    lemma_plan_of_division(d, degrees);
    assert(closers(0) =~= e);
    // With the percent sign.
    let shorter = e.push(Token::Number(d));
    let short = shorter.push(Token::Percent);
    lemma_expanded_push(e, Token::Number(d), ans);
    lemma_expanded_push(shorter, Token::Percent, ans);
    crate::balance::lemma_open_count_push(e, Token::Number(d));
    crate::balance::lemma_open_count_push(shorter, Token::Percent);
    assert(short =~= seq![Token::Number(d), Token::Percent]);
    assert(expanded(shorter, ans) =~= shorter);
    assert(cleaned(short, ans) =~= seq![
        Token::OpeningParenthesis,
        Token::Number(d),
        Token::Divide,
        hundred,
        Token::ClosingParenthesis,
    ]);
    // Written out.
    let w2 = shorter.push(Token::Divide);
    let w3 = w2.push(hundred);
    lemma_expanded_push(shorter, Token::Divide, ans);
    lemma_expanded_push(w2, hundred, ans);
    crate::balance::lemma_open_count_push(shorter, Token::Divide);
    crate::balance::lemma_open_count_push(w2, hundred);
    assert(w3 =~= seq![Token::Number(d), Token::Divide, hundred]);
    assert(cleaned(w3, ans) =~= w3);
}

/// `d !` is evaluated by the gamma function: its plan puts `d` on the stack
/// and replaces it by the gamma function at `d + 1`.
pub proof fn lemma_factorial_is_gamma(d: Seq<char>, degrees: bool, ans: Seq<char>)
    ensures
        planned(cleaned(seq![Token::Number(d), Token::Factorial], ans), degrees) == Some(
            seq![Action::Push(d), Action::Apply(Operation::Gamma)],
        ),
{
    let e = Seq::<Token>::empty();
    assert(closers(0) =~= e);
    let shorter = e.push(Token::Number(d));
    let short = shorter.push(Token::Factorial);
    lemma_expanded_push(e, Token::Number(d), ans);
    lemma_expanded_push(shorter, Token::Factorial, ans);
    crate::balance::lemma_open_count_push(e, Token::Number(d));
    crate::balance::lemma_open_count_push(shorter, Token::Factorial);
    assert(short =~= seq![Token::Number(d), Token::Factorial]);
    assert(expanded(shorter, ans) =~= shorter);
    let s1 = e.push(Token::OpeningParenthesis);
    let s2 = s1.push(Token::Number(d));
    let s3 = s2.push(Token::Factorial);
    let s4 = s3.push(Token::ClosingParenthesis);
    assert(cleaned(short, ans) =~= s4);
    lemma_consumed_push(e, Token::OpeningParenthesis, degrees);
    lemma_consumed_push(s1, Token::Number(d), degrees);
    lemma_consumed_push(s2, Token::Factorial, degrees);
    lemma_consumed_push(s3, Token::ClosingParenthesis, degrees);
    let m1 = consumed(s1, degrees);
    let m2 = consumed(s2, degrees);
    let m3 = consumed(s3, degrees);
    let m4 = consumed(s4, degrees);
    assert(m1.ops =~= seq![Token::OpeningParenthesis]);
    assert(m2.ops == m1.ops && m2.depth == 1);
    assert(m3.ops == m1.ops && m3.depth == 1 && m3.status == Status::Running);
    assert(m4 == popped(m3));
    assert(m4.ops =~= e);
    assert(drained(m4) == m4);
    assert(m4.steps =~= seq![Action::Push(d), Action::Apply(Operation::Gamma)]);
}

/// A postfix operator behind a group applies to the group: the canonical
/// stream of `( a + b ) %` is `( ( a + b ) / 100 )`, and its plan adds first
/// and then divides the sum by `100`.
pub proof fn lemma_percent_applies_to_the_group(
    a: Seq<char>,
    b: Seq<char>,
    degrees: bool,
    ans: Seq<char>,
)
    ensures
        cleaned(
            seq![
                Token::OpeningParenthesis,
                Token::Number(a),
                Token::Add,
                Token::Number(b),
                Token::ClosingParenthesis,
                Token::Percent,
            ],
            ans,
        ) == seq![
            Token::OpeningParenthesis,
            Token::OpeningParenthesis,
            Token::Number(a),
            Token::Add,
            Token::Number(b),
            Token::ClosingParenthesis,
            Token::Divide,
            Token::Number(seq!['1', '0', '0']),
            Token::ClosingParenthesis,
        ],
        planned(
            cleaned(
                seq![
                    Token::OpeningParenthesis,
                    Token::Number(a),
                    Token::Add,
                    Token::Number(b),
                    Token::ClosingParenthesis,
                    Token::Percent,
                ],
                ans,
            ),
            degrees,
        ) == Some(
            seq![
                Action::Push(a),
                Action::Push(b),
                Action::Apply(Operation::Add),
                Action::Push(seq!['1', '0', '0']),
                Action::Apply(Operation::Divide),
            ],
        ),
{
    let hundred = Token::Number(seq!['1', '0', '0']);
    let open = Token::OpeningParenthesis;
    let close = Token::ClosingParenthesis;
    let e = Seq::<Token>::empty();
    // The expression and its expansion.
    let l1 = e.push(open);
    let l2 = l1.push(Token::Number(a));
    let l3 = l2.push(Token::Add);
    let l4 = l3.push(Token::Number(b));
    let l5 = l4.push(close);
    let l6 = l5.push(Token::Percent);
    lemma_expanded_push(e, open, ans);
    lemma_expanded_push(l1, Token::Number(a), ans);
    lemma_expanded_push(l2, Token::Add, ans);
    lemma_expanded_push(l3, Token::Number(b), ans);
    lemma_expanded_push(l4, close, ans);
    lemma_expanded_push(l5, Token::Percent, ans);
    crate::balance::lemma_open_count_push(e, open);
    crate::balance::lemma_open_count_push(l1, Token::Number(a));
    crate::balance::lemma_open_count_push(l2, Token::Add);
    crate::balance::lemma_open_count_push(l3, Token::Number(b));
    crate::balance::lemma_open_count_push(l4, close);
    crate::balance::lemma_open_count_push(l5, Token::Percent);
    assert(expanded(l1, ans) =~= l1);
    assert(expanded(l2, ans) =~= l2);
    assert(expanded(l3, ans) =~= l3);
    assert(expanded(l4, ans) =~= l4);
    assert(expanded(l5, ans) =~= l5);
    assert(value_start(l5) == 0) by {
        reveal_with_fuel(group_start, 6);
    }
    assert(closers(0) =~= e);
    let stream = seq![open, open, Token::Number(a), Token::Add, Token::Number(b), close,
        Token::Divide, hundred, close];
    assert(l6 =~= seq![open, Token::Number(a), Token::Add, Token::Number(b), close,
        Token::Percent]);
    assert(cleaned(l6, ans) =~= stream);
    // The machine on the stream.
    let s1 = e.push(open);
    let s2 = s1.push(open);
    let s3 = s2.push(Token::Number(a));
    let s4 = s3.push(Token::Add);
    let s5 = s4.push(Token::Number(b));
    let s6 = s5.push(close);
    let s7 = s6.push(Token::Divide);
    let s8 = s7.push(hundred);
    let s9 = s8.push(close);
    assert(s9 =~= stream);
    lemma_consumed_push(e, open, degrees);
    lemma_consumed_push(s1, open, degrees);
    lemma_consumed_push(s2, Token::Number(a), degrees);
    lemma_consumed_push(s3, Token::Add, degrees);
    lemma_consumed_push(s4, Token::Number(b), degrees);
    lemma_consumed_push(s5, close, degrees);
    lemma_consumed_push(s6, Token::Divide, degrees);
    lemma_consumed_push(s7, hundred, degrees);
    lemma_consumed_push(s8, close, degrees);
    let m2 = consumed(s2, degrees);
    let m3 = consumed(s3, degrees);
    let m4 = consumed(s4, degrees);
    let m5 = consumed(s5, degrees);
    let m6 = consumed(s6, degrees);
    let m7 = consumed(s7, degrees);
    let m8 = consumed(s8, degrees);
    let m9 = consumed(s9, degrees);
    assert(m2.ops =~= seq![open, open] && m2.depth == 0);
    assert(m3.ops == m2.ops && m3.depth == 1);
    assert(yielded(m3, Token::Add) == m3);
    assert(m4.ops =~= seq![open, open, Token::Add] && m4.depth == 1);
    assert(m5.ops == m4.ops && m5.depth == 2 && m5.status == Status::Running);
    let r = reduced(m5);
    assert(r.ops =~= seq![open, open] && r.depth == 1);
    assert(closed(r, degrees) == popped(r));
    assert(m6 == popped(r));
    assert(m6.ops =~= seq![open] && m6.depth == 1 && m6.status == Status::Running);
    assert(yielded(m6, Token::Divide) == m6);
    assert(m7.ops =~= seq![open, Token::Divide] && m7.depth == 1);
    assert(m8.ops == m7.ops && m8.depth == 2 && m8.status == Status::Running);
    let q = reduced(m8);
    assert(q.ops =~= seq![open] && q.depth == 1);
    assert(closed(q, degrees) == popped(q));
    assert(m9 == popped(q));
    assert(m9.ops =~= e);
    assert(drained(m9) == m9);
    assert(m9.steps =~= seq![
        Action::Push(a),
        Action::Push(b),
        Action::Apply(Operation::Add),
        Action::Push(seq!['1', '0', '0']),
        Action::Apply(Operation::Divide),
    ]);
}

} // verus!
