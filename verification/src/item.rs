//! The units of calculator input and the predicates that classify them.

use crate::text::{is_minus, text_is_minus};
use vstd::prelude::*;
use vstd::std_specs::cmp::PartialEqSpecImpl;

verus! {

/// One unit of calculator input.
#[derive(Debug)]
pub enum Item {
    /// A literal that grows character by character.
    Number(String),
    /// A literal that came from a request for a random number.
    Rnd(String),
    Factorial,
    OpeningParenthesis,
    ClosingParenthesis,
    Percent,
    Sin,
    Ln,
    Divide,
    Pi,
    Cos,
    Log,
    Multiply,
    E,
    Tan,
    Sqrt,
    Subtract,
    Ans,
    /// The marker of scientific notation.
    EXP,
    Power,
    Asin,
    Acos,
    Atan,
    Nroot,
    Add,
}

/// What an [`Item`] stands for: the same variants, with the text of a literal
/// as a sequence of characters.
pub enum Token {
    Number(Seq<char>),
    Rnd(Seq<char>),
    Factorial,
    OpeningParenthesis,
    ClosingParenthesis,
    Percent,
    Sin,
    Ln,
    Divide,
    Pi,
    Cos,
    Log,
    Multiply,
    E,
    Tan,
    Sqrt,
    Subtract,
    Ans,
    EXP,
    Power,
    Asin,
    Acos,
    Atan,
    Nroot,
    Add,
}

impl Token {
    /// A token that opens a group: a parenthesis or a function.
    pub open spec fn is_opener(self) -> bool {
        matches!(
            self,
            Token::OpeningParenthesis | Token::Sin | Token::Ln | Token::Cos | Token::Log
                | Token::Tan | Token::Sqrt | Token::Asin | Token::Acos | Token::Atan
                | Token::Nroot
        )
    }

    /// A token that can end a value, so that an operator or a closing
    /// parenthesis may follow it.
    pub open spec fn is_value_complete(self) -> bool {
        match self {
            Token::Number(d) => !is_minus(d),
            Token::Percent | Token::Factorial | Token::Pi | Token::E | Token::Ans
            | Token::ClosingParenthesis | Token::Rnd(_) => true,
            _ => false,
        }
    }

    /// `%` or `!`: an operator written behind its operand.
    pub open spec fn is_postfix(self) -> bool {
        self == Token::Factorial || self == Token::Percent
    }

    /// One of the five operators that stand between two operands.
    pub open spec fn is_binary(self) -> bool {
        matches!(
            self,
            Token::Add | Token::Subtract | Token::Multiply | Token::Divide | Token::Power
        )
    }

    /// Whether `self`, lying on top of the evaluator's operator stack, is
    /// applied before `other` is pushed.
    ///
    /// The rules, of which the first that applies decides: equal tokens yield
    /// to each other, so operators of one kind apply from left to right; an
    /// opener never yields; nothing yields to an opener or to a closing
    /// parenthesis; nothing else yields to `Power`; only `Power` yields to
    /// `Multiply` and `Divide`; every operator yields to `Add` and `Subtract`.
    pub open spec fn has_precedence_over(self, other: Token) -> bool {
        if self == other {
            true
        } else if self.is_opener() {
            false
        } else if other.is_opener() || other == Token::ClosingParenthesis {
            false
        } else if other == Token::Power {
            false
        } else if other == Token::Multiply || other == Token::Divide {
            self == Token::Power
        } else {
            true
        }
    }
}

impl View for Item {
    type V = Token;

    open spec fn view(&self) -> Token {
        match *self {
            Item::Number(s) => Token::Number(s@),
            Item::Rnd(s) => Token::Rnd(s@),
            Item::Factorial => Token::Factorial,
            Item::OpeningParenthesis => Token::OpeningParenthesis,
            Item::ClosingParenthesis => Token::ClosingParenthesis,
            Item::Percent => Token::Percent,
            Item::Sin => Token::Sin,
            Item::Ln => Token::Ln,
            Item::Divide => Token::Divide,
            Item::Pi => Token::Pi,
            Item::Cos => Token::Cos,
            Item::Log => Token::Log,
            Item::Multiply => Token::Multiply,
            Item::E => Token::E,
            Item::Tan => Token::Tan,
            Item::Sqrt => Token::Sqrt,
            Item::Subtract => Token::Subtract,
            Item::Ans => Token::Ans,
            Item::EXP => Token::EXP,
            Item::Power => Token::Power,
            Item::Asin => Token::Asin,
            Item::Acos => Token::Acos,
            Item::Atan => Token::Atan,
            Item::Nroot => Token::Nroot,
            Item::Add => Token::Add,
        }
    }
}

impl Clone for Item {
    fn clone(&self) -> (r: Item)
        ensures
            r@ == self@,
    {
        match self {
            Item::Number(s) => Item::Number(s.clone()),
            Item::Rnd(s) => Item::Rnd(s.clone()),
            Item::Factorial => Item::Factorial,
            Item::OpeningParenthesis => Item::OpeningParenthesis,
            Item::ClosingParenthesis => Item::ClosingParenthesis,
            Item::Percent => Item::Percent,
            Item::Sin => Item::Sin,
            Item::Ln => Item::Ln,
            Item::Divide => Item::Divide,
            Item::Pi => Item::Pi,
            Item::Cos => Item::Cos,
            Item::Log => Item::Log,
            Item::Multiply => Item::Multiply,
            Item::E => Item::E,
            Item::Tan => Item::Tan,
            Item::Sqrt => Item::Sqrt,
            Item::Subtract => Item::Subtract,
            Item::Ans => Item::Ans,
            Item::EXP => Item::EXP,
            Item::Power => Item::Power,
            Item::Asin => Item::Asin,
            Item::Acos => Item::Acos,
            Item::Atan => Item::Atan,
            Item::Nroot => Item::Nroot,
            Item::Add => Item::Add,
        }
    }
}

impl PartialEq for Item {
    fn eq(&self, other: &Item) -> (b: bool) {
        match (self, other) {
            (Item::Number(a), Item::Number(b)) => *a == *b,
            (Item::Rnd(a), Item::Rnd(b)) => *a == *b,
            (Item::Factorial, Item::Factorial) => true,
            (Item::OpeningParenthesis, Item::OpeningParenthesis) => true,
            (Item::ClosingParenthesis, Item::ClosingParenthesis) => true,
            (Item::Percent, Item::Percent) => true,
            (Item::Sin, Item::Sin) => true,
            (Item::Ln, Item::Ln) => true,
            (Item::Divide, Item::Divide) => true,
            (Item::Pi, Item::Pi) => true,
            (Item::Cos, Item::Cos) => true,
            (Item::Log, Item::Log) => true,
            (Item::Multiply, Item::Multiply) => true,
            (Item::E, Item::E) => true,
            (Item::Tan, Item::Tan) => true,
            (Item::Sqrt, Item::Sqrt) => true,
            (Item::Subtract, Item::Subtract) => true,
            (Item::Ans, Item::Ans) => true,
            (Item::EXP, Item::EXP) => true,
            (Item::Power, Item::Power) => true,
            (Item::Asin, Item::Asin) => true,
            (Item::Acos, Item::Acos) => true,
            (Item::Atan, Item::Atan) => true,
            (Item::Nroot, Item::Nroot) => true,
            (Item::Add, Item::Add) => true,
            _ => false,
        }
    }
}

impl PartialEqSpecImpl for Item {
    open spec fn obeys_eq_spec() -> bool {
        true
    }

    open spec fn eq_spec(&self, other: &Item) -> bool {
        self@ == other@
    }
}

impl Item {
    /// Whether the item opens a group: a parenthesis or a function.
    pub fn is_opening_parenthesis(&self) -> (b: bool)
        ensures
            b == self@.is_opener(),
    {
        matches!(
            self,
            Item::OpeningParenthesis | Item::Sin | Item::Ln | Item::Cos | Item::Log | Item::Tan
                | Item::Sqrt | Item::Asin | Item::Acos | Item::Atan | Item::Nroot
        )
    }

    /// Whether a closing parenthesis may follow the item.
    pub fn can_put_end_parenthesis_after(&self) -> (b: bool)
        ensures
            b == self@.is_value_complete(),
    {
        self.can_put_operation_after()
    }

    /// Whether an operator may follow the item.
    pub fn can_put_operation_after(&self) -> (b: bool)
        ensures
            b == self@.is_value_complete(),
    {
        match self {
            Item::Number(num) => !text_is_minus(num),
            Item::Percent | Item::Factorial | Item::Pi | Item::E | Item::Ans
            | Item::ClosingParenthesis | Item::Rnd(_) => true,
            _ => false,
        }
    }

    /// Whether the item, lying on top of the evaluator's operator stack, is
    /// applied before `other` is pushed.
    pub fn has_precedence_over(&self, other: &Item) -> (b: bool)
        ensures
            b == self@.has_precedence_over(other@),
    {
        if *self == *other {
            true
        } else if self.is_opening_parenthesis() {
            false
        } else if other.is_opening_parenthesis() {
            false
        } else {
            match other {
                Item::ClosingParenthesis => false,
                Item::Power => false,
                Item::Multiply | Item::Divide => matches!(self, Item::Power),
                _ => true,
            }
        }
    }
}

} // verus!
