//! The evaluator: from an expression to the plan that computes its value.

use crate::equation::{tokens_of, Equation};
use crate::item::{Item, Token};
use crate::machine::{
    applied, binary_operation, closed, consumed, drained, fed, function_actions, initial,
    noted, outcome, pending, planned, popped, reduced, yielded, Action, Machine, Operation,
    Status,
};
use crate::model::cleaned;
use crate::canonical::without_nroot;
use crate::plans::{can_be_carried_out, lemma_plan_can_be_carried_out, never_stops};
use crate::stops::lemma_plan_stops_only_for_nroot;
use crate::text::text_zero;
use vstd::prelude::*;
use vstd::std_specs::cmp::PartialEqSpecImpl;

verus! {

/// One step of a plan.
#[derive(Debug)]
pub enum Step {
    /// Reads the text as a number and puts it on the stack of values.
    Push(String),
    /// Applies the operation to the top of the stack.
    Apply(Operation),
    /// Stops: the expression asks for what has no meaning yet.
    Unsupported,
}

impl View for Step {
    type V = Action;

    open spec fn view(&self) -> Action {
        match *self {
            Step::Push(s) => Action::Push(s@),
            Step::Apply(o) => Action::Apply(o),
            Step::Unsupported => Action::Unsupported,
        }
    }
}

impl Clone for Step {
    fn clone(&self) -> (r: Step)
        ensures
            r@ == self@,
    {
        match self {
            Step::Push(s) => Step::Push(s.clone()),
            Step::Apply(o) => Step::Apply(*o),
            Step::Unsupported => Step::Unsupported,
        }
    }
}

impl PartialEq for Step {
    fn eq(&self, other: &Step) -> (b: bool) {
        match (self, other) {
            (Step::Push(a), Step::Push(b)) => *a == *b,
            (Step::Apply(a), Step::Apply(b)) => *a == *b,
            (Step::Unsupported, Step::Unsupported) => true,
            _ => false,
        }
    }
}

impl PartialEqSpecImpl for Step {
    open spec fn obeys_eq_spec() -> bool {
        true
    }

    open spec fn eq_spec(&self, other: &Step) -> bool {
        self@ == other@
    }
}

/// The actions that a sequence of steps stands for.
pub open spec fn actions_of(steps: Seq<Step>) -> Seq<Action> {
    steps.map_values(|s: Step| s@)
}

/// What an optional plan stands for.
pub open spec fn plan_of(plan: Option<Vec<Step>>) -> Option<Seq<Action>> {
    match plan {
        Some(steps) => Some(actions_of(steps@)),
        None => None,
    }
}

struct Evaluator {
    ops: Vec<Item>,
    depth: usize,
    steps: Vec<Step>,
    status: Status,
}

impl View for Evaluator {
    type V = Machine;

    closed spec fn view(&self) -> Machine {
        Machine {
            ops: tokens_of(self.ops@),
            depth: self.depth as nat,
            steps: actions_of(self.steps@),
            status: self.status,
        }
    }
}

impl Evaluator {
    /// Each value on the stack was put there by a step of its own.
    spec fn inv(&self) -> bool {
        self.depth <= self.steps@.len()
    }

    fn new() -> (e: Evaluator)
        ensures
            e.inv(),
            e@ == initial(),
    {
        let e = Evaluator {
            ops: Vec::new(),
            depth: 0,
            steps: Vec::new(),
            status: Status::Running,
        };
        assert(e@.ops =~= initial().ops);
        assert(e@.steps =~= initial().steps);
        e
    }

    fn note(&mut self, step: Step)
        requires
            old(self).inv(),
        ensures
            final(self).inv(),
            final(self)@ == noted(old(self)@, seq![step@]),
    {
        self.steps.push(step);
        assert(self@.steps =~= old(self)@.steps + seq![step@]);
    }

    fn reduce(&mut self)
        requires
            old(self).inv(),
            old(self)@.ops.len() > 0,
        ensures
            final(self).inv(),
            final(self)@ == reduced(old(self)@),
    {
        if self.depth < 2 {
            self.status = Status::Failed;
            return ;
        }
        let n: usize = self.ops.len();
        let operation = match &self.ops[n - 1] {
            Item::Add => Some(Operation::Add),
            Item::Subtract => Some(Operation::Subtract),
            Item::Multiply => Some(Operation::Multiply),
            Item::Divide => Some(Operation::Divide),
            Item::Power => Some(Operation::Power),
            _ => None,
        };
        match operation {
            Some(o) => {
                let _ = self.ops.pop();
                self.steps.push(Step::Apply(o));
                self.depth = self.depth - 1;
                assert(self@.ops =~= old(self)@.ops.drop_last());
                assert(self@.steps =~= old(self)@.steps.push(
                    Action::Apply(binary_operation(old(self)@.ops.last())),
                ));
            },
            None => {
                self.note(Step::Unsupported);
                self.status = Status::Stopped;
            },
        }
    }

    fn apply(&mut self, f: &Item, degrees: bool)
        requires
            old(self).inv(),
        ensures
            final(self).inv(),
            final(self)@ == applied(old(self)@, f@, degrees),
    {
        if matches!(f, Item::OpeningParenthesis) {
            return ;
        }
        if self.depth == 0 {
            self.status = Status::Failed;
            return ;
        }
        let ghost before = self@;
        match f {
            Item::Sin | Item::Cos | Item::Tan => {
                if degrees {
                    self.note(Step::Apply(Operation::ToRadians));
                }
                let o = match f {
                    Item::Sin => Operation::Sin,
                    Item::Cos => Operation::Cos,
                    _ => Operation::Tan,
                };
                self.note(Step::Apply(o));
                assert(self@.steps =~= before.steps + function_actions(f@, degrees));
            },
            Item::Asin | Item::Acos | Item::Atan => {
                let o = match f {
                    Item::Asin => Operation::Asin,
                    Item::Acos => Operation::Acos,
                    _ => Operation::Atan,
                };
                self.note(Step::Apply(o));
                if degrees {
                    self.note(Step::Apply(Operation::ToDegrees));
                }
                assert(self@.steps =~= before.steps + function_actions(f@, degrees));
            },
            Item::Ln => {
                self.note(Step::Apply(Operation::Ln));
            },
            Item::Log => {
                self.note(Step::Apply(Operation::Log));
            },
            Item::Sqrt => {
                self.note(Step::Apply(Operation::Sqrt));
            },
            Item::Nroot => {
                self.note(Step::Unsupported);
                self.status = Status::Stopped;
            },
            _ => {
                assert(self@.steps =~= before.steps + function_actions(f@, degrees));
            },
        }
    }

    fn close(&mut self, degrees: bool)
        requires
            old(self).inv(),
        ensures
            final(self).inv(),
            final(self)@ == closed(old(self)@, degrees),
    {
        let ghost target = closed(self@, degrees);
        loop
            invariant_except_break
                self.inv(),
                closed(self@, degrees) == target,
            ensures
                self.inv(),
                self@ == target,
            decreases self.ops@.len(),
        {
            let n: usize = self.ops.len();
            if n == 0 {
                break ;
            }
            if self.ops[n - 1].is_opening_parenthesis() {
                let ghost before = self@;
                let opener = self.ops.pop();
                assert(self@ == popped(before)) by {
                    assert(self@.ops =~= before.ops.drop_last());
                }
                match opener {
                    Some(f) => {
                        self.apply(&f, degrees);
                    },
                    None => {},
                }
                break ;
            }
            self.reduce();
            if !matches!(self.status, Status::Running) {
                break ;
            }
        }
    }

    fn give_way(&mut self, item: &Item)
        requires
            old(self).inv(),
        ensures
            final(self).inv(),
            final(self)@ == yielded(old(self)@, item@),
    {
        let ghost target = yielded(self@, item@);
        loop
            invariant_except_break
                self.inv(),
                yielded(self@, item@) == target,
            ensures
                self.inv(),
                self@ == target,
            decreases self.ops@.len(),
        {
            let n: usize = self.ops.len();
            if n == 0 || self.depth < 2 {
                break ;
            }
            if !self.ops[n - 1].has_precedence_over(item) {
                break ;
            }
            self.reduce();
            if !matches!(self.status, Status::Running) {
                break ;
            }
        }
    }

    fn wait(&mut self, item: Item)
        requires
            old(self).inv(),
        ensures
            final(self).inv(),
            final(self)@ == pending(old(self)@, item@),
    {
        self.ops.push(item);
        assert(self@.ops =~= old(self)@.ops.push(item@));
    }

    fn feed(&mut self, item: &Item, degrees: bool)
        requires
            old(self).inv(),
        ensures
            final(self).inv(),
            final(self)@ == fed(old(self)@, item@, degrees),
    {
        if !matches!(self.status, Status::Running) {
            return ;
        }
        if item.is_opening_parenthesis() {
            self.wait(item.clone());
            return ;
        }
        match item {
            Item::Add | Item::Subtract | Item::Multiply | Item::Divide | Item::Power => {
                self.give_way(item);
                if matches!(self.status, Status::Running) {
                    self.wait(item.clone());
                }
            },
            Item::Number(num) => {
                self.steps.push(Step::Push(num.clone()));
                let held: usize = self.steps.len();
                assert(self.depth < held);
                self.depth = self.depth + 1;
                assert(self@.steps =~= old(self)@.steps.push(Action::Push(num@)));
                assert(self@.ops =~= old(self)@.ops);
            },
            Item::ClosingParenthesis => {
                self.close(degrees);
            },
            Item::Factorial => {
                if self.depth == 0 {
                    self.status = Status::Failed;
                } else {
                    self.note(Step::Apply(Operation::Gamma));
                }
            },
            _ => {},
        }
    }

    fn drain(&mut self)
        requires
            old(self).inv(),
        ensures
            final(self).inv(),
            final(self)@ == drained(old(self)@),
    {
        let ghost target = drained(self@);
        loop
            invariant_except_break
                self.inv(),
                drained(self@) == target,
            ensures
                self.inv(),
                self@ == target,
            decreases self.ops@.len(),
        {
            if !matches!(self.status, Status::Running) || self.ops.len() == 0 {
                break ;
            }
            self.reduce();
            if !matches!(self.status, Status::Running) {
                break ;
            }
        }
    }

    fn finish(self) -> (r: Option<Vec<Step>>)
        ensures
            plan_of(r) == outcome(self@),
    {
        match self.status {
            Status::Failed => None,
            Status::Stopped => Some(self.steps),
            Status::Running => if self.depth == 0 {
                None
            } else {
                Some(self.steps)
            },
        }
    }
}

/// The plan that evaluates the canonical stream `stream`, or `None` where
/// the evaluation has no result.
///
/// The stream is read from left to right with a stack of pending operators.
/// A number goes into the plan at once. An opener waits. A closing
/// parenthesis applies what is pending down to its opener, and then the
/// opener, if that is a function. A binary operator first lets those pending
/// operators go that have precedence over it, then waits. At the end all
/// that is pending is applied, the latest first. Whatever is applied must
/// find its values: a function or `!` one, a binary operator two.
pub fn plan(stream: &Vec<Item>, degrees: bool) -> (r: Option<Vec<Step>>)
    ensures
        plan_of(r) == planned(tokens_of(stream@), degrees),
        r matches Some(steps) ==> can_be_carried_out(actions_of(steps@)),
{
    let ghost tokens = tokens_of(stream@);
    proof {
        lemma_plan_can_be_carried_out(tokens, degrees);
    }
    if stream.len() == 0 {
        let mut steps: Vec<Step> = Vec::new();
        steps.push(Step::Push(text_zero()));
        assert(actions_of(steps@) =~= seq![Action::Push(seq!['0'])]);
        return Some(steps);
    }
    let mut evaluator = Evaluator::new();
    let mut i: usize = 0;
    assert(tokens.take(0) =~= Seq::<Token>::empty());
    while i < stream.len()
        invariant
            tokens == tokens_of(stream@),
            i <= stream.len(),
            evaluator.inv(),
            evaluator@ == consumed(tokens.take(i as int), degrees),
        decreases stream.len() - i,
    {
        proof {
            let next = tokens.take(i + 1);
            assert(next.drop_last() =~= tokens.take(i as int));
            assert(next.last() == stream@[i as int]@);
        }
        evaluator.feed(&stream[i], degrees);
        i += 1;
    }
    assert(tokens.take(i as int) =~= tokens);
    evaluator.drain();
    evaluator.finish()
}

/// The plan that evaluates `equation`, or `None` where the evaluation has no
/// result; `ans` is the text of the previous answer. In degrees mode angles
/// are read and given in degrees.
pub fn solve(equation: &Equation, degrees: bool, ans: &str) -> (r: Option<Vec<Step>>)
    requires
        equation.wf(),
    ensures
        plan_of(r) == planned(cleaned(equation@, ans@), degrees),
        r matches Some(steps) ==> can_be_carried_out(actions_of(steps@)),
        without_nroot(equation@) ==> (r matches Some(steps) ==> never_stops(actions_of(steps@))),
{
    proof {
        if without_nroot(equation@) {
            lemma_plan_stops_only_for_nroot(equation@, ans@, degrees);
        }
    }
    let stream = equation.clean(ans);
    self::plan(&stream, degrees)
}

} // verus!
