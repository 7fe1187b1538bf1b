//! The expression as mathematics: a sequence of tokens, the rule by which it
//! takes a new token, the rule by which it loses its last one, and its
//! expansion into plain arithmetic.

use crate::item::Token;
use crate::text::{
    ends_with_dot, is_dot, is_minus, is_minus_zero_dot, is_zero, is_zero_dot,
    longer_than_one_byte,
};
use vstd::prelude::*;

verus! {

/// What a token adds to the number of open groups.
pub open spec fn weight(t: Token) -> int {
    if t.is_opener() {
        1
    } else if t == Token::ClosingParenthesis {
        -1
    } else {
        0
    }
}

/// The number of openers in `list` minus the number of closing parentheses.
pub open spec fn open_count(list: Seq<Token>) -> int
    decreases list.len(),
{
    if list.len() == 0 {
        0
    } else {
        open_count(list.drop_last()) + weight(list.last())
    }
}

/// No closing parenthesis in `list` lacks an opener before it.
pub open spec fn never_overclosed(list: Seq<Token>) -> bool {
    forall|k: int| 0 <= k <= list.len() ==> #[trigger] open_count(list.take(k)) >= 0
}

/// What every expression satisfies: no closing parenthesis lacks its opener,
/// and the first token is neither `%` nor `!`.
pub open spec fn well_formed(list: Seq<Token>) -> bool {
    &&& never_overclosed(list)
    &&& list.len() > 0 ==> !list[0].is_postfix()
}

/// `list` is not empty and its last token ends a value.
pub open spec fn ends_in_value(list: Seq<Token>) -> bool {
    list.len() > 0 && list.last().is_value_complete()
}

/// `list`, followed by a `Multiply` where it ends in a value.
pub open spec fn with_implied_times(list: Seq<Token>) -> Seq<Token> {
    if ends_in_value(list) {
        list.push(Token::Multiply)
    } else {
        list
    }
}

/// The literal `0` that stands in for a missing left operand.
pub open spec fn zero() -> Token {
    Token::Number(seq!['0'])
}

/// The literal `-`: a sign that waits for its digits.
pub open spec fn pending_minus() -> Token {
    Token::Number(seq!['-'])
}

/// The literal `cur` after `d` was typed behind it, or `None` where `d` is a
/// second decimal point.
pub open spec fn grown(cur: Seq<char>, d: Seq<char>) -> Option<Seq<char>> {
    if is_dot(d) {
        if is_minus(cur) {
            Some(seq!['-', '0', '.'])
        } else if !cur.contains('.') {
            Some(cur.push('.'))
        } else {
            None
        }
    } else if is_zero(cur) {
        Some(d)
    } else {
        Some(cur + d)
    }
}

/// The literal that starts with the typed text `d`.
pub open spec fn fresh_number(d: Seq<char>) -> Token {
    if is_dot(d) {
        Token::Number(seq!['0', '.'])
    } else {
        Token::Number(d)
    }
}

/// `list` after the text `d` of a literal was pushed.
pub open spec fn pushed_number(list: Seq<Token>, d: Seq<char>) -> Option<Seq<Token>> {
    if list.len() > 0 && list.last() is Number {
        match grown(list.last()->Number_0, d) {
            Some(n) => Some(list.drop_last().push(Token::Number(n))),
            None => None,
        }
    } else {
        Some(with_implied_times(list).push(fresh_number(d)))
    }
}

/// `Add`, `Subtract`, `Multiply` or `Divide`.
pub open spec fn is_replaceable(t: Token) -> bool {
    matches!(t, Token::Add | Token::Multiply | Token::Divide | Token::Subtract)
}

/// `list` after `t`, one of `Add`, `Multiply` and `Divide`, was pushed.
pub open spec fn pushed_operator(list: Seq<Token>, t: Token) -> Option<Seq<Token>> {
    if list.len() == 0 {
        Some(seq![zero(), t])
    } else if list.last().is_value_complete() {
        Some(list.push(t))
    } else if is_replaceable(list.last()) {
        Some(list.drop_last().push(t))
    } else {
        None
    }
}

/// `list` after `t`, which needs a value before it, was pushed: `Power`, `%`
/// or `!`.
pub open spec fn pushed_after_value(list: Seq<Token>, t: Token) -> Option<Seq<Token>> {
    if list.len() == 0 {
        Some(seq![zero(), t])
    } else if list.last().is_value_complete() {
        Some(list.push(t))
    } else {
        None
    }
}

/// A token after which a minus can only be a sign.
pub open spec fn takes_sign_after(t: Token) -> bool {
    t.is_opener() || matches!(
        t,
        Token::Percent | Token::Divide | Token::Multiply | Token::Power | Token::EXP
    )
}

/// `list` after `Subtract` was pushed.
pub open spec fn pushed_subtract(list: Seq<Token>) -> Option<Seq<Token>> {
    if list.len() == 0 {
        Some(seq![pending_minus()])
    } else if takes_sign_after(list.last()) {
        Some(list.push(pending_minus()))
    } else if list.last() == Token::Add {
        Some(list.drop_last().push(Token::Subtract))
    } else if list.last().is_value_complete() {
        Some(list.push(Token::Subtract))
    } else {
        None
    }
}

/// `list` ends in a literal that the marker of scientific notation may
/// follow: one that neither ends in `.` nor is a lone `-`.
pub open spec fn takes_exp(list: Seq<Token>) -> bool {
    &&& list.len() > 0
    &&& list.last() matches Token::Number(d)
    &&& !ends_with_dot(d)
    &&& !is_minus(d)
}

/// The expression `list` after the token `t` was pushed, or `None` where the
/// push is rejected.
pub open spec fn pushed(list: Seq<Token>, t: Token) -> Option<Seq<Token>> {
    if t.is_opener() {
        Some(with_implied_times(list).push(t))
    } else {
        match t {
            Token::ClosingParenthesis => if ends_in_value(list) && open_count(list) > 0 {
                Some(list.push(t))
            } else {
                None
            },
            Token::Number(d) => pushed_number(list, d),
            Token::Add | Token::Multiply | Token::Divide => pushed_operator(list, t),
            Token::Factorial | Token::Percent | Token::Power => pushed_after_value(list, t),
            Token::Subtract => pushed_subtract(list),
            Token::EXP => if takes_exp(list) {
                Some(list.push(t))
            } else {
                None
            },
            _ => Some(with_implied_times(list).push(t)),
        }
    }
}

/// The expression that `try_push` leaves: the new one, or the old one where
/// the push is rejected.
pub open spec fn after_push(list: Seq<Token>, t: Token) -> Seq<Token> {
    match pushed(list, t) {
        Some(l) => l,
        None => list,
    }
}

/// The literal `0` or `0.`, as the expression itself supplies it for a
/// missing operand.
pub open spec fn is_placeholder(t: Token) -> bool {
    t matches Token::Number(d) && (is_zero(d) || is_zero_dot(d))
}

/// `list` without the last character of the literal `d` it ends in.
pub open spec fn erased_in_number(list: Seq<Token>, d: Seq<char>) -> Seq<Token> {
    if is_zero_dot(d) {
        list.drop_last()
    } else if is_minus_zero_dot(d) {
        list.drop_last().push(pending_minus())
    } else if longer_than_one_byte(d) {
        list.drop_last().push(Token::Number(d.drop_last()))
    } else {
        list.drop_last()
    }
}

/// The expression `list` after one backspace.
pub open spec fn erased(list: Seq<Token>) -> Seq<Token> {
    if list.len() == 0 {
        list
    } else {
        match list.last() {
            Token::Number(d) => erased_in_number(list, d),
            Token::Power | Token::Factorial | Token::Percent => if list.len() >= 2
                && is_placeholder(list[list.len() - 2]) {
                list.take(list.len() - 2)
            } else {
                list.drop_last()
            },
            _ => list.drop_last(),
        }
    }
}

/// The digits that stand for the constant pi.
pub open spec fn pi_text() -> Seq<char> {
    "3.141592653589793238462643383279502884197"@
}

/// The digits that stand for Euler's number.
pub open spec fn e_text() -> Seq<char> {
    "2.7182818284590452353602874713527"@
}

/// The position at or before `i` at which the group starts that is entered
/// when `acc` is read backwards from `i`, while `depth` closing parentheses
/// that were read so far still wait for their openers: the position of the
/// first token that leaves none of them waiting. Where the openers run out,
/// it is the start of `acc`.
pub open spec fn group_start(acc: Seq<Token>, i: int, depth: int) -> int
    decreases i + 1,
{
    if i < 0 {
        0
    } else {
        let waiting = depth - weight(acc[i]);
        if waiting <= 0 {
            i
        } else {
            group_start(acc, i - 1, waiting)
        }
    }
}

/// The position at which the last value of the stream `acc` starts: the
/// opener that matches the closing parenthesis `acc` ends in, and else the
/// last token.
pub open spec fn value_start(acc: Seq<Token>) -> int {
    group_start(acc, acc.len() - 1, 0)
}

/// The last value of the stream `acc`: a group in its parentheses, or one
/// token.
pub open spec fn last_value(acc: Seq<Token>) -> Seq<Token> {
    acc.skip(value_start(acc))
}

/// `acc` with its last value put in parentheses together with `tail`: what
/// stands before the value, an opening parenthesis, the value, `tail`, and a
/// closing parenthesis.
pub open spec fn wrapped(acc: Seq<Token>, tail: Seq<Token>) -> Seq<Token> {
    acc.take(value_start(acc)).push(Token::OpeningParenthesis) + last_value(acc) + tail.push(
        Token::ClosingParenthesis,
    )
}

/// The plain-arithmetic stream `acc` after the token `t` of an expression was
/// expanded behind it; `ans` is the text of the previous answer.
pub open spec fn expanded_by(acc: Seq<Token>, t: Token, ans: Seq<char>) -> Seq<Token> {
    match t {
        Token::Rnd(v) => acc.push(Token::Number(v)),
        Token::Pi => acc.push(Token::Number(pi_text())),
        Token::E => acc.push(Token::Number(e_text())),
        Token::Ans => acc.push(Token::Number(ans)),
        Token::Percent => wrapped(acc, seq![Token::Divide, Token::Number(seq!['1', '0', '0'])]),
        Token::Factorial => wrapped(acc, seq![Token::Factorial]),
        Token::EXP => acc.push(Token::Multiply).push(Token::Number(seq!['1', '0'])).push(
            Token::Power,
        ),
        _ => if t.is_opener() {
            with_implied_times(acc).push(t)
        } else {
            acc.push(t)
        },
    }
}

/// The tokens of `list`, each expanded into plain arithmetic.
pub open spec fn expanded(list: Seq<Token>, ans: Seq<char>) -> Seq<Token>
    decreases list.len(),
{
    if list.len() == 0 {
        Seq::empty()
    } else {
        expanded_by(expanded(list.drop_last(), ans), list.last(), ans)
    }
}

/// `n` closing parentheses.
pub open spec fn closers(n: nat) -> Seq<Token> {
    Seq::new(n, |i: int| Token::ClosingParenthesis)
}

/// The canonical stream of the expression `list`: its expansion, followed by
/// one closing parenthesis for each group that is still open.
pub open spec fn cleaned(list: Seq<Token>, ans: Seq<char>) -> Seq<Token> {
    expanded(list, ans) + closers(open_count(list) as nat)
}

} // verus!
