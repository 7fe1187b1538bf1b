//! The evaluator as mathematics: a machine with a stack of pending operators
//! that reads a stream of tokens and writes down, in order, what is to be done
//! to a stack of values.
//!
//! No decision of the evaluator depends on a value, only on how many values
//! there are. The machine therefore keeps the height of the value stack in
//! place of the stack, and its output is a plan in postfix order that can be
//! carried out on numbers afterwards.

use crate::item::Token;
use vstd::prelude::*;

verus! {

/// What a step of a plan does to the stack of values.
#[derive(Clone, Copy, Debug, PartialEq, Eq, Structural)]
pub enum Operation {
    /// Replaces the two values on top, `a` below `b`, by `a + b`.
    Add,
    /// Replaces the two values on top, `a` below `b`, by `a - b`.
    Subtract,
    /// Replaces the two values on top, `a` below `b`, by `a * b`.
    Multiply,
    /// Replaces the two values on top, `a` below `b`, by `a / b`.
    Divide,
    /// Replaces the two values on top, `a` below `b`, by `a` to the power `b`.
    Power,
    Sin,
    Cos,
    Tan,
    Asin,
    Acos,
    Atan,
    /// The natural logarithm of the value on top.
    Ln,
    /// The logarithm to base ten of the value on top.
    Log,
    Sqrt,
    /// Takes the value on top from degrees to radians.
    ToRadians,
    /// Takes the value on top from radians to degrees.
    ToDegrees,
    /// Replaces the value `v` on top by the gamma function at `v + 1`.
    Gamma,
}

impl Operation {
    /// The number of values that the operation takes from the stack; it puts
    /// one back.
    pub open spec fn arity(self) -> nat {
        match self {
            Operation::Add | Operation::Subtract | Operation::Multiply | Operation::Divide
            | Operation::Power => 2,
            _ => 1,
        }
    }
}

/// One step of a plan, as mathematics.
pub enum Action {
    /// Reads the text as a number and puts it on the stack.
    Push(Seq<char>),
    /// Applies the operation to the top of the stack.
    Apply(Operation),
    /// Stops: the expression asks for what has no meaning yet.
    Unsupported,
}

/// Whether the machine still reads.
#[derive(Clone, Copy, Debug, PartialEq, Eq, Structural)]
pub enum Status {
    Running,
    /// A value was asked for that is not there: the evaluation has no result.
    Failed,
    /// The plan ends in [`Action::Unsupported`].
    Stopped,
}

/// The state of the evaluator between two tokens.
pub struct Machine {
    /// The pending operators and openers, the latest last.
    pub ops: Seq<Token>,
    /// The height of the stack of values.
    pub depth: nat,
    /// The plan so far.
    pub steps: Seq<Action>,
    pub status: Status,
}

/// The machine before the first token.
pub open spec fn initial() -> Machine {
    Machine { ops: Seq::empty(), depth: 0, steps: Seq::empty(), status: Status::Running }
}

/// The operation that a binary operator stands for.
pub open spec fn binary_operation(t: Token) -> Operation {
    match t {
        Token::Add => Operation::Add,
        Token::Subtract => Operation::Subtract,
        Token::Multiply => Operation::Multiply,
        Token::Divide => Operation::Divide,
        _ => Operation::Power,
    }
}

/// `m` in the state `status`, all else unchanged.
pub open spec fn halted(m: Machine, status: Status) -> Machine {
    Machine { ops: m.ops, depth: m.depth, steps: m.steps, status }
}

/// `m` after the steps `more` were written down; they leave the height of
/// the value stack as it is.
pub open spec fn noted(m: Machine, more: Seq<Action>) -> Machine {
    Machine { ops: m.ops, depth: m.depth, steps: m.steps + more, status: m.status }
}

/// `m` after its topmost pending operator was applied to the two values on
/// top. With fewer than two values the machine fails; a pending token that is
/// no binary operator stops it.
pub open spec fn reduced(m: Machine) -> Machine {
    if m.depth < 2 {
        halted(m, Status::Failed)
    } else if m.ops.last().is_binary() {
        Machine {
            ops: m.ops.drop_last(),
            depth: (m.depth - 1) as nat,
            steps: m.steps.push(Action::Apply(binary_operation(m.ops.last()))),
            status: m.status,
        }
    } else {
        halted(noted(m, seq![Action::Unsupported]), Status::Stopped)
    }
}

/// The steps by which the function `f` is applied to the value on top. In
/// degrees mode the argument of a trigonometric function is taken to radians
/// first, and the result of an inverse one is taken to degrees.
pub open spec fn function_actions(f: Token, degrees: bool) -> Seq<Action> {
    let to_radians = if degrees {
        seq![Action::Apply(Operation::ToRadians)]
    } else {
        Seq::empty()
    };
    let to_degrees = if degrees {
        seq![Action::Apply(Operation::ToDegrees)]
    } else {
        Seq::empty()
    };
    match f {
        Token::Sin => to_radians.push(Action::Apply(Operation::Sin)),
        Token::Cos => to_radians.push(Action::Apply(Operation::Cos)),
        Token::Tan => to_radians.push(Action::Apply(Operation::Tan)),
        Token::Asin => seq![Action::Apply(Operation::Asin)] + to_degrees,
        Token::Acos => seq![Action::Apply(Operation::Acos)] + to_degrees,
        Token::Atan => seq![Action::Apply(Operation::Atan)] + to_degrees,
        Token::Ln => seq![Action::Apply(Operation::Ln)],
        Token::Log => seq![Action::Apply(Operation::Log)],
        Token::Sqrt => seq![Action::Apply(Operation::Sqrt)],
        _ => Seq::empty(),
    }
}

/// `m` after the group that the opener `f` had opened was closed; `f` has
/// left the pending operators already. A parenthesis leaves no trace. A
/// function needs a value to apply to, and `Nroot`, which has no meaning yet,
/// stops the machine.
pub open spec fn applied(m: Machine, f: Token, degrees: bool) -> Machine {
    if f == Token::OpeningParenthesis {
        m
    } else if m.depth == 0 {
        halted(m, Status::Failed)
    } else if f == Token::Nroot {
        halted(noted(m, seq![Action::Unsupported]), Status::Stopped)
    } else {
        noted(m, function_actions(f, degrees))
    }
}

/// `m` without its topmost pending token.
pub open spec fn popped(m: Machine) -> Machine {
    Machine { ops: m.ops.drop_last(), depth: m.depth, steps: m.steps, status: m.status }
}

/// `m` after a closing parenthesis: the pending operators down to the
/// nearest opener are applied, then the opener itself. Without any pending
/// token nothing happens.
pub open spec fn closed(m: Machine, degrees: bool) -> Machine
    decreases m.ops.len(),
{
    if m.ops.len() == 0 {
        m
    } else if m.ops.last().is_opener() {
        applied(popped(m), m.ops.last(), degrees)
    } else {
        let r = reduced(m);
        if r.status == Status::Running {
            closed(r, degrees)
        } else {
            r
        }
    }
}

/// `m` after every pending operator that has precedence over `t` was applied,
/// as long as two values are there.
pub open spec fn yielded(m: Machine, t: Token) -> Machine
    decreases m.ops.len(),
{
    if m.ops.len() > 0 && m.ops.last().has_precedence_over(t) && m.depth >= 2 {
        let r = reduced(m);
        if r.status == Status::Running {
            yielded(r, t)
        } else {
            r
        }
    } else {
        m
    }
}

/// `m` with `t` as its latest pending token.
pub open spec fn pending(m: Machine, t: Token) -> Machine {
    Machine { ops: m.ops.push(t), depth: m.depth, steps: m.steps, status: m.status }
}

/// `m` after the token `t` was read. A machine that has halted reads no more.
pub open spec fn fed(m: Machine, t: Token, degrees: bool) -> Machine {
    if m.status != Status::Running {
        m
    } else if t.is_opener() {
        pending(m, t)
    } else if t.is_binary() {
        let y = yielded(m, t);
        if y.status == Status::Running {
            pending(y, t)
        } else {
            y
        }
    } else {
        match t {
            Token::Number(d) => Machine {
                ops: m.ops,
                depth: m.depth + 1,
                steps: m.steps.push(Action::Push(d)),
                status: m.status,
            },
            Token::ClosingParenthesis => closed(m, degrees),
            Token::Factorial => if m.depth == 0 {
                halted(m, Status::Failed)
            } else {
                noted(m, seq![Action::Apply(Operation::Gamma)])
            },
            _ => m,
        }
    }
}

/// The machine after the whole of `stream` was read.
pub open spec fn consumed(stream: Seq<Token>, degrees: bool) -> Machine
    decreases stream.len(),
{
    if stream.len() == 0 {
        initial()
    } else {
        fed(consumed(stream.drop_last(), degrees), stream.last(), degrees)
    }
}

/// `m` after all its pending tokens were applied, the latest first.
pub open spec fn drained(m: Machine) -> Machine
    decreases m.ops.len(),
{
    if m.status == Status::Running && m.ops.len() > 0 {
        let r = reduced(m);
        if r.status == Status::Running {
            drained(r)
        } else {
            r
        }
    } else {
        m
    }
}

/// What a machine that has read its stream has to show: no plan where it
/// failed or holds no value, else the plan it wrote.
pub open spec fn outcome(m: Machine) -> Option<Seq<Action>> {
    match m.status {
        Status::Failed => None,
        Status::Stopped => Some(m.steps),
        Status::Running => if m.depth == 0 {
            None
        } else {
            Some(m.steps)
        },
    }
}

/// The plan that evaluates `stream`, or `None` where the evaluation has no
/// result. The value of the expression is the one on top of the stack once
/// the plan was carried out. The empty stream has the value zero.
pub open spec fn planned(stream: Seq<Token>, degrees: bool) -> Option<Seq<Action>> {
    if stream.len() == 0 {
        Some(seq![Action::Push(seq!['0'])])
    } else {
        outcome(drained(consumed(stream, degrees)))
    }
}

} // verus!
