//! Why an expression stays well formed: how the count of open groups moves
//! with each edit.

use crate::item::Token;
use crate::model::{
    after_push, erased, never_overclosed, open_count, pushed, weight, well_formed,
};
use vstd::prelude::*;

verus! {

/// A token behind a sequence adds its weight to the count of open groups.
pub proof fn lemma_open_count_push(list: Seq<Token>, t: Token)
    ensures
        open_count(list.push(t)) == open_count(list) + weight(t),
{
    assert(list.push(t).drop_last() =~= list);
}

/// A sequence that is never overclosed has no negative count of open groups,
/// and neither has any of its prefixes.
pub proof fn lemma_prefix_never_overclosed(list: Seq<Token>, n: int)
    requires
        never_overclosed(list),
        0 <= n <= list.len(),
    ensures
        never_overclosed(list.take(n)),
        open_count(list.take(n)) >= 0,
        open_count(list) >= 0,
{
    assert forall|k: int| 0 <= k <= list.take(n).len() implies #[trigger] open_count(
        list.take(n).take(k),
    ) >= 0 by {
        assert(list.take(n).take(k) =~= list.take(k));
    }
    assert(list.take(list.len() as int) =~= list);
}

/// A token may follow a sequence that is never overclosed if it leaves the
/// count of open groups at zero or above.
pub proof fn lemma_push_never_overclosed(list: Seq<Token>, t: Token)
    requires
        never_overclosed(list),
        open_count(list) + weight(t) >= 0,
    ensures
        never_overclosed(list.push(t)),
{
    lemma_open_count_push(list, t);
    let l = list.push(t);
    assert forall|k: int| 0 <= k <= l.len() implies #[trigger] open_count(l.take(k)) >= 0 by {
        if k == l.len() {
            assert(l.take(k) =~= l);
        } else {
            assert(l.take(k) =~= list.take(k));
        }
    }
}

/// Well-formedness passes to every prefix.
pub proof fn lemma_prefix_well_formed(list: Seq<Token>, n: int)
    requires
        well_formed(list),
        0 <= n <= list.len(),
    ensures
        well_formed(list.take(n)),
{
    lemma_prefix_never_overclosed(list, n);
}

/// A token may follow a well-formed expression if it closes no group that is
/// not open and is no postfix operator at the very start.
pub proof fn lemma_push_well_formed(list: Seq<Token>, t: Token)
    requires
        well_formed(list),
        open_count(list) + weight(t) >= 0,
        list.len() == 0 ==> !t.is_postfix(),
    ensures
        well_formed(list.push(t)),
{
    lemma_push_never_overclosed(list, t);
}

/// The last token of a well-formed expression may give way to another that
/// opens and closes nothing, unless that is a postfix operator at the very
/// start.
pub proof fn lemma_replace_last_well_formed(list: Seq<Token>, t: Token)
    requires
        well_formed(list),
        list.len() > 0,
        weight(t) == 0,
        list.len() == 1 ==> !t.is_postfix(),
    ensures
        well_formed(list.drop_last().push(t)),
{
    lemma_prefix_well_formed(list, list.len() - 1);
    lemma_prefix_never_overclosed(list, list.len() - 1);
    assert(list.take(list.len() - 1) =~= list.drop_last());
    lemma_push_well_formed(list.drop_last(), t);
}

/// Pushing a token keeps an expression well formed, whether the push is
/// taken or rejected: in particular the count of open groups never falls
/// below zero.
pub proof fn lemma_push_keeps_well_formed(list: Seq<Token>, t: Token)
    requires
        well_formed(list),
    ensures
        well_formed(after_push(list, t)),
        open_count(after_push(list, t)) >= 0,
{
    lemma_prefix_never_overclosed(list, 0);
    match pushed(list, t) {
        None => {},
        Some(l) => {
            let n = list.len() as int;
            if l.len() == n + 2 {
                let a = l[n];
                let b = l[n + 1];
                assert(l =~= list.push(a).push(b));
                lemma_open_count_push(list, a);
                lemma_push_well_formed(list, a);
                lemma_push_well_formed(list.push(a), b);
            } else if l.len() == n + 1 {
                let a = l[n];
                assert(l =~= list.push(a));
                lemma_push_well_formed(list, a);
            } else {
                let last = l.last();
                assert(l =~= list.drop_last().push(last));
                lemma_replace_last_well_formed(list, last);
            }
        },
    }
    lemma_prefix_never_overclosed(after_push(list, t), 0);
}

/// A backspace keeps an expression well formed.
pub proof fn lemma_erase_keeps_well_formed(list: Seq<Token>)
    requires
        well_formed(list),
    ensures
        well_formed(erased(list)),
        open_count(erased(list)) >= 0,
{
    let e = erased(list);
    if list.len() > 0 {
        if e.len() == list.len() {
            let last = e.last();
            assert(e =~= list.drop_last().push(last));
            lemma_replace_last_well_formed(list, last);
        } else if e.len() == list.len() - 1 {
            assert(e =~= list.take(list.len() - 1));
            lemma_prefix_well_formed(list, list.len() - 1);
        } else {
            lemma_prefix_well_formed(list, list.len() - 2);
        }
    }
    lemma_prefix_never_overclosed(e, 0);
}

} // verus!
