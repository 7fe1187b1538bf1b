//! The editable expression: an ordered list of items that takes one token at
//! a time and stays well formed under every edit.

use crate::balance::{lemma_erase_keeps_well_formed, lemma_push_keeps_well_formed};
use crate::canonical::lemma_cleaned_is_well_nested;
use crate::item::{Item, Token};
use crate::model::{
    after_push, cleaned, closers, ends_in_value, erased, erased_in_number, expanded, expanded_by,
    group_start, is_placeholder, is_replaceable, never_overclosed, open_count, pending_minus,
    pushed, pushed_after_value, pushed_number, pushed_operator, pushed_subtract, takes_exp,
    takes_sign_after, value_start, well_formed, with_implied_times, wrapped, zero,
};
use crate::text::{
    text_contains, text_ends_with_dot, text_followed_by, text_hundred, text_is_dot,
    text_is_minus, text_is_minus_zero_dot, text_is_zero, text_is_zero_dot,
    text_longer_than_one_byte, text_minus, text_minus_zero_dot, text_ten, text_with_dot,
    text_without_last, text_zero, text_zero_dot,
};
use vstd::prelude::*;
use vstd::std_specs::cmp::PartialEqSpecImpl;

verus! {

/// The tokens that a sequence of items stands for.
pub open spec fn tokens_of(items: Seq<Item>) -> Seq<Token> {
    items.map_values(|i: Item| i@)
}

/// An arithmetic expression under construction.
#[derive(Debug)]
pub struct Equation {
    list: Vec<Item>,
}

impl View for Equation {
    type V = Seq<Token>;

    closed spec fn view(&self) -> Seq<Token> {
        tokens_of(self.list@)
    }
}

/// The position at which the last value of the stream starts: the opener
/// that matches the closing parenthesis at its end, and else the last item.
fn value_start_of(stream: &Vec<Item>) -> (start: usize)
    ensures
        start == value_start(tokens_of(stream@)),
        start <= stream@.len(),
{
    let ghost acc = tokens_of(stream@);
    let mut i: usize = stream.len();
    let mut depth: usize = 0;
    while i > 0
        invariant
            acc == tokens_of(stream@),
            i <= stream.len(),
            depth <= stream.len() - i,
            group_start(acc, i - 1, depth as int) == value_start(acc),
        decreases i,
    {
        let item = &stream[i - 1];
        assert(acc[i - 1] == item@);
        if item.is_opening_parenthesis() {
            if depth <= 1 {
                return i - 1;
            }
            depth -= 1;
        } else if matches!(item, Item::ClosingParenthesis) {
            depth += 1;
        } else if depth == 0 {
            return i - 1;
        }
        i -= 1;
    }
    0
}

impl Equation {
    /// The invariant of the type: see [`well_formed`].
    pub open spec fn wf(&self) -> bool {
        well_formed(self@)
    }

    /// The empty expression.
    pub fn new() -> (r: Equation)
        ensures
            r@ == Seq::<Token>::empty(),
            r.wf(),
    {
        let r = Equation { list: Vec::new() };
        assert(r@ =~= Seq::<Token>::empty());
        assert(Seq::<Token>::empty().take(0) =~= Seq::<Token>::empty());
        assert forall|k: int| 0 <= k <= 0 implies #[trigger] open_count(
            Seq::<Token>::empty().take(k),
        ) >= 0 by {
            assert(Seq::<Token>::empty().take(k) =~= Seq::<Token>::empty());
        }
        r
    }

    /// Empties the expression.
    pub fn clear(&mut self)
        ensures
            final(self)@ == Seq::<Token>::empty(),
            final(self).wf(),
    {
        let fresh = Equation::new();
        *self = fresh;
    }

    /// The number of items.
    pub fn len(&self) -> (n: usize)
        ensures
            n == self@.len(),
    {
        self.list.len()
    }

    /// Whether the expression holds no item.
    pub fn is_empty(&self) -> (b: bool)
        ensures
            b == (self@.len() == 0),
    {
        self.list.len() == 0
    }

    /// The item at position `i`.
    pub fn get(&self, i: usize) -> (r: &Item)
        requires
            i < self@.len(),
        ensures
            r@ == self@[i as int],
    {
        &self.list[i]
    }

    /// A copy of the items, in order.
    pub fn items(&self) -> (r: Vec<Item>)
        ensures
            tokens_of(r@) == self@,
    {
        let mut r: Vec<Item> = Vec::new();
        let mut i: usize = 0;
        while i < self.list.len()
            invariant
                i <= self.list.len(),
                tokens_of(r@) =~= self@.take(i as int),
            decreases self.list.len() - i,
        {
            r.push(self.list[i].clone());
            assert(self@.take(i + 1) =~= self@.take(i as int).push(self@[i as int]));
            i += 1;
        }
        assert(self@.take(i as int) =~= self@);
        r
    }

    /// The number of groups that are open: the openers minus the closing
    /// parentheses.
    pub fn open_parentheses_count(&self) -> (n: usize)
        requires
            self.wf(),
        ensures
            n == open_count(self@),
    {
        let mut count: usize = 0;
        let mut i: usize = 0;
        while i < self.list.len()
            invariant
                self.wf(),
                i <= self.list.len(),
                count == open_count(self@.take(i as int)),
                count <= i,
            decreases self.list.len() - i,
        {
            proof {
                let next = self@.take(i + 1);
                assert(next.drop_last() =~= self@.take(i as int));
                assert(next.last() == self.list@[i as int]@);
                assert(open_count(next) >= 0);
            }
            if self.list[i].is_opening_parenthesis() {
                count += 1;
            } else if matches!(self.list[i], Item::ClosingParenthesis) {
                count -= 1;
            }
            i += 1;
        }
        proof {
            assert(self@.take(i as int) =~= self@);
        }
        count
    }

    /// Whether the expression refers to the previous answer.
    pub fn contains_ans(&self) -> (b: bool)
        ensures
            b == self@.contains(Token::Ans),
    {
        let mut i: usize = 0;
        while i < self.list.len()
            invariant
                i <= self.list.len(),
                forall|k: int| 0 <= k < i ==> self@[k] != Token::Ans,
            decreases self.list.len() - i,
        {
            if matches!(self.list[i], Item::Ans) {
                assert(self@[i as int] == Token::Ans);
                return true;
            }
            i += 1;
        }
        false
    }

    fn ends_in_value(&self) -> (b: bool)
        ensures
            b == ends_in_value(self@),
    {
        let n: usize = self.list.len();
        n > 0 && self.list[n - 1].can_put_operation_after()
    }

    fn put(&mut self, item: Item)
        ensures
            final(self)@ == old(self)@.push(item@),
    {
        self.list.push(item);
        assert(self@ =~= old(self)@.push(item@));
    }

    fn put_with_implied_times(&mut self, item: Item)
        ensures
            final(self)@ == with_implied_times(old(self)@).push(item@),
    {
        if self.ends_in_value() {
            self.put(Item::Multiply);
        }
        self.put(item);
    }

    fn replace_last(&mut self, item: Item)
        requires
            old(self)@.len() > 0,
        ensures
            final(self)@ == old(self)@.drop_last().push(item@),
    {
        let _ = self.list.pop();
        self.list.push(item);
        assert(self@ =~= old(self)@.drop_last().push(item@));
    }

    fn put_after_zero(&mut self, item: Item)
        requires
            old(self)@.len() == 0,
        ensures
            final(self)@ == seq![zero(), item@],
    {
        self.put(Item::Number(text_zero()));
        self.put(item);
        assert(self@ =~= seq![zero(), item@]);
    }

    fn push_number(&mut self, num: String) -> (ok: bool)
        ensures
            ok == pushed_number(old(self)@, num@).is_some(),
            final(self)@ == (match pushed_number(old(self)@, num@) {
                Some(l) => l,
                None => old(self)@,
            }),
    {
        let n: usize = self.list.len();
        let current: Option<String> = if n == 0 {
            None
        } else {
            match &self.list[n - 1] {
                Item::Number(cur) => Some(cur.clone()),
                _ => None,
            }
        };
        match current {
            Some(current) => {
                assert(self@.last() == Token::Number(current@));
                if text_is_dot(&num) {
                    if text_is_minus(&current) {
                        self.replace_last(Item::Number(text_minus_zero_dot()));
                        true
                    } else if !text_contains(&current, '.') {
                        self.replace_last(Item::Number(text_with_dot(current)));
                        true
                    } else {
                        false
                    }
                } else if text_is_zero(&current) {
                    self.replace_last(Item::Number(num));
                    true
                } else {
                    self.replace_last(Item::Number(text_followed_by(current, num.as_str())));
                    true
                }
            },
            None => {
                let fresh = if text_is_dot(&num) {
                    text_zero_dot()
                } else {
                    num
                };
                self.put_with_implied_times(Item::Number(fresh));
                true
            },
        }
    }

    fn last_is_replaceable(&self) -> (b: bool)
        requires
            self@.len() > 0,
        ensures
            b == is_replaceable(self@.last()),
    {
        let n: usize = self.list.len();
        matches!(self.list[n - 1], Item::Add | Item::Multiply | Item::Divide | Item::Subtract)
    }

    fn push_operator(&mut self, item: Item) -> (ok: bool)
        ensures
            ok == pushed_operator(old(self)@, item@).is_some(),
            final(self)@ == (match pushed_operator(old(self)@, item@) {
                Some(l) => l,
                None => old(self)@,
            }),
    {
        if self.list.len() == 0 {
            self.put_after_zero(item);
            true
        } else if self.ends_in_value() {
            self.put(item);
            true
        } else if self.last_is_replaceable() {
            self.replace_last(item);
            true
        } else {
            false
        }
    }

    fn push_after_value(&mut self, item: Item) -> (ok: bool)
        ensures
            ok == pushed_after_value(old(self)@, item@).is_some(),
            final(self)@ == (match pushed_after_value(old(self)@, item@) {
                Some(l) => l,
                None => old(self)@,
            }),
    {
        if self.list.len() == 0 {
            self.put_after_zero(item);
            true
        } else if self.ends_in_value() {
            self.put(item);
            true
        } else {
            false
        }
    }

    fn last_takes_sign(&self) -> (b: bool)
        requires
            self@.len() > 0,
        ensures
            b == takes_sign_after(self@.last()),
    {
        let n: usize = self.list.len();
        self.list[n - 1].is_opening_parenthesis() || matches!(
            self.list[n - 1],
            Item::Percent | Item::Divide | Item::Multiply | Item::Power | Item::EXP
        )
    }

    fn push_subtract(&mut self) -> (ok: bool)
        ensures
            ok == pushed_subtract(old(self)@).is_some(),
            final(self)@ == (match pushed_subtract(old(self)@) {
                Some(l) => l,
                None => old(self)@,
            }),
    {
        let n: usize = self.list.len();
        if n == 0 {
            self.put(Item::Number(text_minus()));
            assert(self@ =~= seq![pending_minus()]);
            true
        } else if self.last_takes_sign() {
            self.put(Item::Number(text_minus()));
            true
        } else if matches!(self.list[n - 1], Item::Add) {
            self.replace_last(Item::Subtract);
            true
        } else if self.ends_in_value() {
            self.put(Item::Subtract);
            true
        } else {
            false
        }
    }

    fn takes_exp(&self) -> (b: bool)
        ensures
            b == takes_exp(self@),
    {
        let n: usize = self.list.len();
        if n == 0 {
            false
        } else {
            match &self.list[n - 1] {
                Item::Number(num) => !text_ends_with_dot(num) && !text_is_minus(num),
                _ => false,
            }
        }
    }

    /// Pushes `item` and returns `true`, or leaves the expression as it is
    /// and returns `false` where the item cannot follow.
    ///
    /// An opener, a constant or a random literal is always taken, after a
    /// `Multiply` of its own where the expression ends in a value. A closing
    /// parenthesis needs a value before it and a group to close. The text of
    /// a literal joins the literal that the expression ends in, and starts a
    /// new one elsewhere. `Add`, `Multiply` and `Divide` follow a value,
    /// replace an operator, and on the empty expression follow a `0` of
    /// their own; `Power`, `%` and `!` follow a value or that `0`. `Subtract`
    /// becomes a sign where no value stands before it. The marker of
    /// scientific notation follows a literal that is complete.
    pub fn try_push(&mut self, item: Item) -> (ok: bool)
        requires
            old(self).wf(),
        ensures
            final(self).wf(),
            ok == pushed(old(self)@, item@).is_some(),
            final(self)@ == after_push(old(self)@, item@),
            open_count(final(self)@) >= 0,
    {
        proof {
            lemma_push_keeps_well_formed(self@, item@);
        }
        if item.is_opening_parenthesis() {
            self.put_with_implied_times(item);
            return true;
        }
        match item {
            Item::ClosingParenthesis => {
                if self.ends_in_value() && self.open_parentheses_count() > 0 {
                    self.put(item);
                    true
                } else {
                    false
                }
            },
            Item::Number(num) => self.push_number(num),
            Item::Add | Item::Multiply | Item::Divide => self.push_operator(item),
            Item::Factorial | Item::Percent | Item::Power => self.push_after_value(item),
            Item::Subtract => self.push_subtract(),
            Item::EXP => {
                if self.takes_exp() {
                    self.put(item);
                    true
                } else {
                    false
                }
            },
            _ => {
                self.put_with_implied_times(item);
                true
            },
        }
    }

    fn last_is_placeholder(&self) -> (b: bool)
        ensures
            b == (self@.len() > 0 && is_placeholder(self@.last())),
    {
        let n: usize = self.list.len();
        if n == 0 {
            false
        } else {
            match &self.list[n - 1] {
                Item::Number(num) => text_is_zero(num) || text_is_zero_dot(num),
                _ => false,
            }
        }
    }

    /// Takes back one keystroke: the last character of the literal that the
    /// expression ends in, or else its last token. A literal of one byte goes
    /// as a whole, `0.` goes as a whole and `-0.` falls back to `-`. A
    /// `Power`, `%` or `!` takes the `0` or `0.` before it along.
    pub fn backspace(&mut self)
        requires
            old(self).wf(),
        ensures
            final(self).wf(),
            final(self)@ == erased(old(self)@),
            open_count(final(self)@) >= 0,
    {
        proof {
            lemma_erase_keeps_well_formed(self@);
        }
        match self.list.pop() {
            None => {
                assert(self@ =~= old(self)@);
            },
            Some(Item::Number(num)) => {
                assert(old(self)@.last() == Token::Number(num@));
                if text_is_zero_dot(&num) {
                } else if text_is_minus_zero_dot(&num) {
                    self.list.push(Item::Number(text_minus()));
                } else if text_longer_than_one_byte(&num) {
                    self.list.push(Item::Number(text_without_last(&num, 1)));
                }
                assert(self@ =~= erased_in_number(old(self)@, num@));
            },
            Some(last) => {
                assert(old(self)@.last() == last@);
                assert(self@ =~= old(self)@.drop_last());
                if matches!(last, Item::Power | Item::Factorial | Item::Percent) {
                    if self.last_is_placeholder() {
                        let _ = self.list.pop();
                        assert(self@ =~= old(self)@.take(old(self)@.len() - 2));
                    }
                }
            },
        }
    }

    /// The canonical stream of the expression: plain arithmetic that the
    /// evaluator reads. `ans` is the text of the previous answer.
    ///
    /// A random literal becomes a number, and so does each constant. Behind
    /// a value `x`, which is a whole group where a closing parenthesis stands
    /// before the operator, `x %` becomes `( x / 100 )` and `x !` becomes
    /// `( x ! )`. The marker of
    /// scientific notation becomes `* 10 ^`. An opener behind a value gets a
    /// `Multiply` before it. At the end every open group is closed.
    pub fn clean(&self, ans: &str) -> (stream: Vec<Item>)
        requires
            self.wf(),
        ensures
            tokens_of(stream@) == cleaned(self@, ans@),
            never_overclosed(tokens_of(stream@)),
            open_count(tokens_of(stream@)) == 0,
    {
        proof {
            lemma_cleaned_is_well_nested(self@, ans@);
        }
        let mut stream: Vec<Item> = Vec::new();
        let mut i: usize = 0;
        assert(self@.take(0) =~= Seq::<Token>::empty());
        while i < self.list.len()
            invariant
                self.wf(),
                i <= self.list.len(),
                tokens_of(stream@) =~= expanded(self@.take(i as int), ans@),
            decreases self.list.len() - i,
        {
            let ghost acc = tokens_of(stream@);
            let ghost t = self@[i as int];
            proof {
                let next = self@.take(i + 1);
                assert(next.drop_last() =~= self@.take(i as int));
                assert(next.last() == t);
                assert(expanded(next, ans@) == expanded_by(acc, t, ans@));
            }
            match &self.list[i] {
                Item::Rnd(num) => {
                    stream.push(Item::Number(num.clone()));
                },
                Item::Pi => {
                    stream.push(
                        Item::Number("3.141592653589793238462643383279502884197".to_owned()),
                    );
                },
                Item::E => {
                    stream.push(Item::Number("2.7182818284590452353602874713527".to_owned()));
                },
                Item::Ans => {
                    stream.push(Item::Number(ans.to_owned()));
                },
                Item::Percent => {
                    let start: usize = value_start_of(&stream);
                    stream.insert(start, Item::OpeningParenthesis);
                    stream.push(Item::Divide);
                    stream.push(Item::Number(text_hundred()));
                    stream.push(Item::ClosingParenthesis);
                    assert(tokens_of(stream@) =~= wrapped(
                        acc,
                        seq![Token::Divide, Token::Number(seq!['1', '0', '0'])],
                    ));
                },
                Item::Factorial => {
                    let start: usize = value_start_of(&stream);
                    stream.insert(start, Item::OpeningParenthesis);
                    stream.push(Item::Factorial);
                    stream.push(Item::ClosingParenthesis);
                    assert(tokens_of(stream@) =~= wrapped(acc, seq![Token::Factorial]));
                },
                Item::EXP => {
                    stream.push(Item::Multiply);
                    stream.push(Item::Number(text_ten()));
                    stream.push(Item::Power);
                },
                item => {
                    if item.is_opening_parenthesis() {
                        let n: usize = stream.len();
                        if n > 0 && stream[n - 1].can_put_operation_after() {
                            stream.push(Item::Multiply);
                        }
                    }
                    stream.push(item.clone());
                },
            }
            assert(tokens_of(stream@) =~= expanded_by(acc, t, ans@));
            i += 1;
        }
        assert(self@.take(i as int) =~= self@);
        let count: usize = self.open_parentheses_count();
        let mut closed: usize = 0;
        while closed < count
            invariant
                closed <= count,
                tokens_of(stream@) =~= expanded(self@, ans@) + closers(closed as nat),
            decreases count - closed,
        {
            let ghost before = tokens_of(stream@);
            stream.push(Item::ClosingParenthesis);
            assert(tokens_of(stream@) =~= before.push(Token::ClosingParenthesis));
            assert(closers((closed + 1) as nat) =~= closers(closed as nat).push(
                Token::ClosingParenthesis,
            ));
            assert(before.push(Token::ClosingParenthesis) =~= expanded(self@, ans@) + closers(
                (closed + 1) as nat,
            ));
            closed += 1;
        }
        assert(closers(0) =~= Seq::<Token>::empty());
        stream
    }
}

impl Clone for Equation {
    fn clone(&self) -> (r: Equation)
        ensures
            r@ == self@,
    {
        Equation { list: self.items() }
    }
}

impl PartialEq for Equation {
    fn eq(&self, other: &Equation) -> (b: bool) {
        if self.list.len() != other.list.len() {
            assert(self@.len() != other@.len());
            return false;
        }
        let mut i: usize = 0;
        while i < self.list.len()
            invariant
                self.list.len() == other.list.len(),
                i <= self.list.len(),
                forall|k: int| 0 <= k < i ==> self@[k] == other@[k],
            decreases self.list.len() - i,
        {
            if self.list[i] != other.list[i] {
                assert(self@[i as int] != other@[i as int]);
                return false;
            }
            i += 1;
        }
        assert(self@ =~= other@);
        true
    }
}

impl PartialEqSpecImpl for Equation {
    open spec fn obeys_eq_spec() -> bool {
        true
    }

    open spec fn eq_spec(&self, other: &Equation) -> bool {
        self@ == other@
    }
}

} // verus!
