//! How an expression is shown, as mathematics: a sequence of pieces of text,
//! each on a level. Level zero is the base line, and each exponent that is
//! still being written lifts what follows by one level.

use crate::item::Token;
use crate::model::weight;
use vstd::prelude::*;

verus! {

/// The font of a piece of text.
#[derive(Clone, Copy, Debug, PartialEq, Eq, Structural)]
pub enum Face {
    /// The font of the expression.
    Plain,
    /// The font of the box that stands for an exponent yet to come.
    Symbol,
}

/// A piece of text of the display, as mathematics.
pub struct Piece {
    pub text: Seq<char>,
    /// The number of exponents that the piece is nested in.
    pub level: nat,
    pub face: Face,
    /// Whether the piece is a closing parenthesis that the expression still
    /// lacks, shown as a hint.
    pub hint: bool,
}

/// The text that shows the token; `Power` and `Nroot` have none.
pub open spec fn label(t: Token) -> Option<Seq<char>> {
    match t {
        Token::Number(d) => Some(d),
        Token::Rnd(d) => Some(d),
        Token::Factorial => Some("!"@),
        Token::OpeningParenthesis => Some("("@),
        Token::ClosingParenthesis => Some(")"@),
        Token::Percent => Some("%"@),
        Token::Sin => Some("sin("@),
        Token::Ln => Some("ln("@),
        Token::Divide => Some(" \u{f7} "@),
        Token::Pi => Some("\u{3c0}"@),
        Token::Cos => Some("cos("@),
        Token::Log => Some("log("@),
        Token::Multiply => Some(" \u{d7} "@),
        Token::E => Some("e"@),
        Token::Tan => Some("tan("@),
        Token::Sqrt => Some("\u{221a}("@),
        Token::Subtract => Some(" \u{2013} "@),
        Token::Ans => Some("Ans"@),
        Token::EXP => Some("E"@),
        Token::Asin => Some("arcsin("@),
        Token::Acos => Some("arccos("@),
        Token::Atan => Some("arctan("@),
        Token::Add => Some(" + "@),
        Token::Power | Token::Nroot => None,
    }
}

/// A piece of the expression itself.
pub open spec fn plain(text: Seq<char>, level: nat) -> Piece {
    Piece { text, level, face: Face::Plain, hint: false }
}

/// The box that stands for an exponent yet to come.
pub open spec fn placeholder(level: nat) -> Piece {
    Piece { text: "\u{25a1}"@, level, face: Face::Symbol, hint: false }
}

/// A closing parenthesis that the expression still lacks.
pub open spec fn hint(level: nat) -> Piece {
    Piece { text: ")"@, level, face: Face::Plain, hint: true }
}

/// The display while it is laid out.
pub struct Layout {
    pub pieces: Seq<Piece>,
    /// For each level that was reached, the number of groups that are open
    /// on it.
    pub open_at: Seq<int>,
    /// For each exponent that is being written, the innermost last, the
    /// number of groups that are open inside it. Its length is the level.
    pub inside: Seq<int>,
}

/// The layout before the first token.
pub open spec fn blank() -> Layout {
    Layout { pieces: Seq::empty(), open_at: Seq::empty(), inside: Seq::empty() }
}

/// `counts`, long enough to hold an entry for `level`.
pub open spec fn reaching(counts: Seq<int>, level: nat) -> Seq<int> {
    if level + 1 > counts.len() {
        counts.push(0)
    } else {
        counts
    }
}

/// `inside` without the exponents at its end that hold no open group: they
/// are complete.
pub open spec fn settled(inside: Seq<int>) -> Seq<int>
    decreases inside.len(),
{
    if inside.len() > 0 && inside.last() == 0 {
        settled(inside.drop_last())
    } else {
        inside
    }
}

/// The pieces that show the token `t` on `level`; `last` says whether the
/// expression ends with it.
pub open spec fn pieces_of(t: Token, level: nat, last: bool) -> Seq<Piece> {
    match label(t) {
        Some(text) => seq![plain(text, level)],
        None => if t == Token::Power && last {
            seq![placeholder(level + 1)]
        } else {
            Seq::empty()
        },
    }
}

/// The exponents that are being written once the token `t` was shown;
/// `before_power` says whether a `Power` follows it. A `Power` starts an
/// exponent. A token that ends a value ends every exponent that holds no open
/// group, unless a `Power` follows, which continues it.
pub open spec fn inside_after(inside: Seq<int>, t: Token, before_power: bool) -> Seq<int> {
    let started = if t == Token::Power {
        inside.push(0)
    } else {
        inside
    };
    if started.len() == 0 {
        started
    } else {
        let counted = started.update(started.len() - 1, started.last() + weight(t));
        if counted.last() == 0 && t.is_value_complete() && !before_power {
            settled(counted)
        } else {
            counted
        }
    }
}

/// The layout `l` after the token at `index` of `list` was shown.
pub open spec fn shown(l: Layout, list: Seq<Token>, index: int) -> Layout {
    let t = list[index];
    let level = l.inside.len();
    let last = index == list.len() - 1;
    let before_power = index + 1 < list.len() && list[index + 1] == Token::Power;
    let here = reaching(l.open_at, level);
    let counted = here.update(level as int, here[level as int] + weight(t));
    Layout {
        pieces: l.pieces + pieces_of(t, level, last),
        open_at: if t == Token::Power && last {
            reaching(counted, level + 1)
        } else {
            counted
        },
        inside: inside_after(l.inside, t, before_power),
    }
}

/// The layout after the first `n` tokens of `list` were shown.
pub open spec fn laid_out(list: Seq<Token>, n: nat) -> Layout
    decreases n,
{
    if n == 0 {
        blank()
    } else {
        shown(laid_out(list, (n - 1) as nat), list, n - 1)
    }
}

/// `n` hints on `level`; none where `n` is negative.
pub open spec fn hints(n: int, level: nat) -> Seq<Piece> {
    Seq::new(
        if n > 0 {
            n as nat
        } else {
            0
        },
        |i: int| hint(level),
    )
}

/// The hints for the levels from `levels - 1` down to zero: on each level as
/// many as it has open groups.
pub open spec fn all_hints(open_at: Seq<int>, levels: nat) -> Seq<Piece>
    decreases open_at.len() - levels,
{
    if levels >= open_at.len() {
        Seq::empty()
    } else {
        all_hints(open_at, levels + 1) + hints(open_at[levels as int], levels)
    }
}

/// The display of the expression `list`: a lone `0` for the empty
/// expression; else the text of each token on its level, a box behind a
/// `Power` that ends the expression, and at the end, from the highest level
/// down, a hint for each group that is still open.
pub open spec fn rendered(list: Seq<Token>) -> Seq<Piece> {
    if list.len() == 0 {
        seq![plain(seq!['0'], 0)]
    } else {
        let l = laid_out(list, list.len());
        l.pieces + all_hints(l.open_at, 0)
    }
}

} // verus!
