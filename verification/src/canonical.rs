//! What holds of the canonical stream of every well-formed expression: each
//! closing parenthesis has its opener before it, and nothing appears in it
//! that the expression did not hold.

use crate::balance::{
    lemma_open_count_push, lemma_prefix_never_overclosed, lemma_push_never_overclosed,
};
use crate::item::Token;
use crate::model::{
    cleaned, closers, expanded, expanded_by, group_start, last_value, never_overclosed,
    open_count, value_start, weight, well_formed, wrapped,
};
use vstd::prelude::*;

verus! {

/// The sequence holds no `Nroot`.
pub open spec fn without_nroot(list: Seq<Token>) -> bool {
    forall|i: int| 0 <= i < list.len() ==> list[i] != Token::Nroot
}

/// The count of open groups of two sequences in a row is the sum of their
/// counts.
pub proof fn lemma_open_count_concat(a: Seq<Token>, b: Seq<Token>)
    ensures
        open_count(a + b) == open_count(a) + open_count(b),
    decreases b.len(),
{
    if b.len() == 0 {
        assert(a + b =~= a);
    } else {
        assert((a + b).drop_last() =~= a + b.drop_last());
        lemma_open_count_concat(a, b.drop_last());
    }
}

/// The start of a group lies at or before the position from which it was
/// looked for, and within the sequence.
pub proof fn lemma_group_start_in_range(acc: Seq<Token>, i: int, depth: int)
    requires
        -1 <= i < acc.len(),
    ensures
        0 <= group_start(acc, i, depth),
        i >= 0 ==> group_start(acc, i, depth) <= i,
        i < 0 ==> group_start(acc, i, depth) == 0,
    decreases i + 1,
{
    if i >= 0 && depth - weight(acc[i]) > 0 {
        lemma_group_start_in_range(acc, i - 1, depth - weight(acc[i]));
    }
}

/// The last value of a stream starts within the stream, and a stream that is
/// not empty has a last value that is not empty.
pub proof fn lemma_value_start_in_range(acc: Seq<Token>)
    ensures
        0 <= value_start(acc) <= acc.len(),
        acc.len() > 0 ==> value_start(acc) < acc.len(),
        acc.take(value_start(acc)) + last_value(acc) == acc,
{
    lemma_group_start_in_range(acc, acc.len() - 1, 0);
    assert(acc.take(value_start(acc)) + last_value(acc) =~= acc);
}

/// To put the last value in parentheses together with `tail` adds what
/// `tail` adds to the count of open groups.
pub proof fn lemma_open_count_wrapped(acc: Seq<Token>, tail: Seq<Token>)
    ensures
        open_count(wrapped(acc, tail)) == open_count(acc) + open_count(tail),
{
    let before = acc.take(value_start(acc));
    let value = last_value(acc);
    lemma_value_start_in_range(acc);
    lemma_open_count_concat(before, value);
    lemma_open_count_push(before, Token::OpeningParenthesis);
    lemma_open_count_push(tail, Token::ClosingParenthesis);
    lemma_open_count_concat(before.push(Token::OpeningParenthesis), value);
    lemma_open_count_concat(
        before.push(Token::OpeningParenthesis) + value,
        tail.push(Token::ClosingParenthesis),
    );
}

/// The expansion of an expression has as many open groups as the expression.
pub proof fn lemma_open_count_expanded(list: Seq<Token>, ans: Seq<char>)
    ensures
        open_count(expanded(list, ans)) == open_count(list),
    decreases list.len(),
{
    if list.len() > 0 {
        let front = list.drop_last();
        let t = list.last();
        let acc = expanded(front, ans);
        lemma_open_count_expanded(front, ans);
        match t {
            Token::Percent => {
                let tail = seq![Token::Divide, Token::Number(seq!['1', '0', '0'])];
                assert(tail =~= Seq::<Token>::empty().push(Token::Divide).push(
                    Token::Number(seq!['1', '0', '0']),
                ));
                lemma_open_count_push(Seq::<Token>::empty(), Token::Divide);
                lemma_open_count_push(
                    Seq::<Token>::empty().push(Token::Divide),
                    Token::Number(seq!['1', '0', '0']),
                );
                lemma_open_count_wrapped(acc, tail);
            },
            Token::Factorial => {
                let tail = seq![Token::Factorial];
                assert(tail =~= Seq::<Token>::empty().push(Token::Factorial));
                lemma_open_count_push(Seq::<Token>::empty(), Token::Factorial);
                lemma_open_count_wrapped(acc, tail);
            },
            Token::EXP => {
                lemma_open_count_push(acc, Token::Multiply);
                lemma_open_count_push(acc.push(Token::Multiply), Token::Number(seq!['1', '0']));
                lemma_open_count_push(
                    acc.push(Token::Multiply).push(Token::Number(seq!['1', '0'])),
                    Token::Power,
                );
            },
            _ => {
                lemma_open_count_push(acc, Token::Multiply);
                lemma_open_count_push(acc.push(Token::Multiply), t);
                let last = expanded_by(acc, t, ans).last();
                assert(weight(last) == weight(t));
                lemma_open_count_push(acc, last);
            },
        }
    }
}

/// The count of open groups from a position on is the weight of the token
/// there and the count behind it.
proof fn lemma_open_count_skip(acc: Seq<Token>, i: int)
    requires
        0 <= i < acc.len(),
    ensures
        open_count(acc.skip(i)) == weight(acc[i]) + open_count(acc.skip(i + 1)),
{
    let first = Seq::<Token>::empty().push(acc[i]);
    lemma_open_count_push(Seq::<Token>::empty(), acc[i]);
    lemma_open_count_concat(first, acc.skip(i + 1));
    assert(first + acc.skip(i + 1) =~= acc.skip(i));
}

proof fn lemma_group_start_matches(acc: Seq<Token>, i: int, depth: int)
    requires
        never_overclosed(acc),
        -1 <= i < acc.len(),
        depth >= 1,
        depth == -open_count(acc.skip(i + 1)),
        forall|k: int| i < k < acc.len() ==> #[trigger] open_count(acc.skip(k)) < 0,
    ensures
        0 <= group_start(acc, i, depth) <= i,
        acc[group_start(acc, i, depth)].is_opener(),
        open_count(acc.skip(group_start(acc, i, depth))) == 0,
        forall|k: int|
            group_start(acc, i, depth) < k < acc.len() ==> #[trigger] open_count(acc.skip(k)) < 0,
    decreases i + 1,
{
    if i < 0 {
        assert(acc.skip(0) =~= acc);
        lemma_prefix_never_overclosed(acc, 0);
    } else {
        lemma_open_count_skip(acc, i);
        let waiting = depth - weight(acc[i]);
        if waiting > 0 {
            lemma_group_start_matches(acc, i - 1, waiting);
        }
    }
}

/// The last value of a stream that ends in a closing parenthesis is the
/// group which that parenthesis closes: it starts with an opener, it opens
/// as many groups as it closes, and nothing shorter at the end of the stream
/// does.
pub proof fn lemma_last_value_is_a_group(acc: Seq<Token>)
    requires
        never_overclosed(acc),
        acc.len() > 0,
        acc.last() == Token::ClosingParenthesis,
    ensures
        0 <= value_start(acc) < acc.len() - 1,
        acc[value_start(acc)].is_opener(),
        open_count(last_value(acc)) == 0,
        forall|k: int| value_start(acc) < k < acc.len() ==> #[trigger] open_count(acc.skip(k)) < 0,
{
    let i = acc.len() - 1;
    lemma_open_count_skip(acc, i);
    assert(acc.skip(i + 1) =~= Seq::<Token>::empty());
    lemma_group_start_matches(acc, i - 1, 1);
}

/// The last value of a stream that does not end in a closing parenthesis is
/// its last token.
pub proof fn lemma_last_value_is_a_token(acc: Seq<Token>)
    requires
        acc.len() > 0,
        acc.last() != Token::ClosingParenthesis,
    ensures
        value_start(acc) == acc.len() - 1,
        last_value(acc) == seq![acc.last()],
{
    assert(acc.skip(acc.len() - 1) =~= seq![acc.last()]);
}

/// Every token of the sequence opens and closes nothing.
pub open spec fn weightless(tail: Seq<Token>) -> bool {
    forall|i: int| 0 <= i < tail.len() ==> weight(#[trigger] tail[i]) == 0
}

/// Tokens that open and close nothing leave the count of open groups alone.
proof fn lemma_open_count_weightless(tail: Seq<Token>)
    requires
        weightless(tail),
    ensures
        open_count(tail) == 0,
    decreases tail.len(),
{
    if tail.len() > 0 {
        assert forall|i: int| 0 <= i < tail.drop_last().len() implies weight(
            #[trigger] tail.drop_last()[i],
        ) == 0 by {
            assert(tail.drop_last()[i] == tail[i]);
        }
        lemma_open_count_weightless(tail.drop_last());
        assert(tail.last() == tail[tail.len() - 1]);
    }
}

/// A sequence may follow one that is never overclosed if none of its own
/// prefixes closes more groups than are open before it.
proof fn lemma_concat_never_overclosed(head: Seq<Token>, more: Seq<Token>)
    requires
        never_overclosed(head),
        forall|j: int| 0 <= j <= more.len() ==> open_count(head) + #[trigger] open_count(
            more.take(j),
        ) >= 0,
    ensures
        never_overclosed(head + more),
    decreases more.len(),
{
    if more.len() == 0 {
        assert(head + more =~= head);
    } else {
        let front = more.drop_last();
        assert forall|j: int| 0 <= j <= front.len() implies open_count(head) + #[trigger] open_count(
            front.take(j),
        ) >= 0 by {
            assert(front.take(j) =~= more.take(j));
        }
        lemma_concat_never_overclosed(head, front);
        assert(more.take(more.len() as int) =~= more);
        assert(more.take(more.len() - 1) =~= front);
        lemma_open_count_concat(head, front);
        lemma_open_count_concat(head, more);
        assert(front.push(more.last()) =~= more);
        lemma_open_count_push(front, more.last());
        assert(head + more =~= (head + front).push(more.last()));
        lemma_push_never_overclosed(head + front, more.last());
    }
}

/// A stream that is never overclosed stays so with its last value put in
/// parentheses together with tokens that open and close nothing.
pub proof fn lemma_wrapped_never_overclosed(acc: Seq<Token>, tail: Seq<Token>)
    requires
        never_overclosed(acc),
        weightless(tail),
    ensures
        never_overclosed(wrapped(acc, tail)),
{
    let start = value_start(acc);
    let before = acc.take(start);
    let value = last_value(acc);
    lemma_value_start_in_range(acc);
    lemma_prefix_never_overclosed(acc, start);
    lemma_open_count_push(before, Token::OpeningParenthesis);
    lemma_push_never_overclosed(before, Token::OpeningParenthesis);
    let opened = before.push(Token::OpeningParenthesis);
    assert forall|j: int| 0 <= j <= value.len() implies open_count(opened) + #[trigger] open_count(
        value.take(j),
    ) >= 0 by {
        lemma_open_count_concat(before, value.take(j));
        assert(before + value.take(j) =~= acc.take(start + j));
    }
    lemma_concat_never_overclosed(opened, value);
    lemma_open_count_concat(opened, value);
    lemma_open_count_concat(before, value);
    assert forall|j: int| 0 <= j <= tail.len() implies open_count(opened + value)
        + #[trigger] open_count(tail.take(j)) >= 0 by {
        assert forall|i: int| 0 <= i < tail.take(j).len() implies weight(
            #[trigger] tail.take(j)[i],
        ) == 0 by {
            assert(tail.take(j)[i] == tail[i]);
        }
        lemma_open_count_weightless(tail.take(j));
    }
    lemma_concat_never_overclosed(opened + value, tail);
    lemma_open_count_weightless(tail);
    lemma_open_count_concat(opened + value, tail);
    lemma_push_never_overclosed(opened + value + tail, Token::ClosingParenthesis);
    assert(wrapped(acc, tail) =~= (opened + value + tail).push(Token::ClosingParenthesis));
}

/// Nothing but parentheses and `tail` is added where the last value is put
/// in parentheses: without `Nroot` before, there is none after.
proof fn lemma_wrapped_without_nroot(acc: Seq<Token>, tail: Seq<Token>)
    requires
        without_nroot(acc),
        without_nroot(tail),
    ensures
        without_nroot(wrapped(acc, tail)),
{
    let start = value_start(acc);
    lemma_value_start_in_range(acc);
    let w = wrapped(acc, tail);
    assert forall|i: int| 0 <= i < w.len() implies w[i] != Token::Nroot by {
        if i < start {
            assert(w[i] == acc[i]);
        } else if i == start {
        } else if i <= acc.len() {
            assert(w[i] == acc[i - 1]);
        } else if i < acc.len() + 1 + tail.len() {
            assert(w[i] == tail[i - acc.len() - 1]);
        }
    }
}

/// The expansion of a well-formed expression is never overclosed.
pub proof fn lemma_expanded_never_overclosed(list: Seq<Token>, ans: Seq<char>)
    requires
        well_formed(list),
    ensures
        never_overclosed(expanded(list, ans)),
    decreases list.len(),
{
    if list.len() == 0 {
        let empty = Seq::<Token>::empty();
        assert forall|k: int| 0 <= k <= empty.len() implies #[trigger] open_count(empty.take(k))
            >= 0 by {
            assert(empty.take(k) =~= empty);
        }
    } else {
        let front = list.drop_last();
        let t = list.last();
        let acc = expanded(front, ans);
        lemma_prefix_never_overclosed(list, list.len() - 1);
        assert(list.take(list.len() - 1) =~= front);
        lemma_expanded_never_overclosed(front, ans);
        lemma_open_count_expanded(front, ans);
        assert(front.push(t) =~= list);
        lemma_open_count_push(front, t);
        lemma_prefix_never_overclosed(list, 0);
        match t {
            Token::Percent => {
                lemma_wrapped_never_overclosed(
                    acc,
                    seq![Token::Divide, Token::Number(seq!['1', '0', '0'])],
                );
            },
            Token::Factorial => {
                lemma_wrapped_never_overclosed(acc, seq![Token::Factorial]);
            },
            Token::EXP => {
                let ten = Token::Number(seq!['1', '0']);
                lemma_open_count_push(acc, Token::Multiply);
                lemma_push_never_overclosed(acc, Token::Multiply);
                lemma_open_count_push(acc.push(Token::Multiply), ten);
                lemma_push_never_overclosed(acc.push(Token::Multiply), ten);
                lemma_push_never_overclosed(acc.push(Token::Multiply).push(ten), Token::Power);
            },
            _ => {
                let last = expanded_by(acc, t, ans).last();
                assert(weight(last) == weight(t));
                lemma_open_count_push(acc, Token::Multiply);
                lemma_push_never_overclosed(acc, Token::Multiply);
                lemma_push_never_overclosed(acc.push(Token::Multiply), last);
                lemma_push_never_overclosed(acc, last);
            },
        }
    }
}

/// Closing parentheses may follow a sequence that is never overclosed, as
/// many as it has open groups.
proof fn lemma_closers_never_overclosed(stream: Seq<Token>, n: nat)
    requires
        never_overclosed(stream),
        n <= open_count(stream),
    ensures
        never_overclosed(stream + closers(n)),
        open_count(stream + closers(n)) == open_count(stream) - n,
    decreases n,
{
    if n == 0 {
        assert(stream + closers(0) =~= stream);
    } else {
        let m = (n - 1) as nat;
        lemma_closers_never_overclosed(stream, m);
        assert(stream + closers(n) =~= (stream + closers(m)).push(Token::ClosingParenthesis));
        lemma_open_count_push(stream + closers(m), Token::ClosingParenthesis);
        lemma_push_never_overclosed(stream + closers(m), Token::ClosingParenthesis);
    }
}

/// In the canonical stream of a well-formed expression every closing
/// parenthesis has its opener before it, and every opener is closed.
pub proof fn lemma_cleaned_is_well_nested(list: Seq<Token>, ans: Seq<char>)
    requires
        well_formed(list),
    ensures
        never_overclosed(cleaned(list, ans)),
        open_count(cleaned(list, ans)) == 0,
{
    lemma_prefix_never_overclosed(list, 0);
    lemma_expanded_never_overclosed(list, ans);
    lemma_open_count_expanded(list, ans);
    lemma_closers_never_overclosed(expanded(list, ans), open_count(list) as nat);
}

/// The expansion of an expression without `Nroot` holds none.
pub proof fn lemma_expanded_without_nroot(list: Seq<Token>, ans: Seq<char>)
    requires
        without_nroot(list),
    ensures
        without_nroot(expanded(list, ans)),
    decreases list.len(),
{
    if list.len() > 0 {
        let front = list.drop_last();
        assert forall|i: int| 0 <= i < front.len() implies front[i] != Token::Nroot by {
            assert(front[i] == list[i]);
        }
        lemma_expanded_without_nroot(front, ans);
        assert(list.last() == list[list.len() - 1]);
        let acc = expanded(front, ans);
        match list.last() {
            Token::Percent => {
                lemma_wrapped_without_nroot(
                    acc,
                    seq![Token::Divide, Token::Number(seq!['1', '0', '0'])],
                );
            },
            Token::Factorial => {
                lemma_wrapped_without_nroot(acc, seq![Token::Factorial]);
            },
            _ => {},
        }
    }
}

/// The canonical stream of an expression without `Nroot` holds none.
pub proof fn lemma_cleaned_without_nroot(list: Seq<Token>, ans: Seq<char>)
    requires
        without_nroot(list),
    ensures
        without_nroot(cleaned(list, ans)),
{
    lemma_expanded_without_nroot(list, ans);
}

} // verus!
