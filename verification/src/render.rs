//! The display of an expression: pieces of text with their levels, for any
//! surface to draw.

use crate::display::{
    all_hints, blank, hint, hints, inside_after, label, laid_out, pieces_of, plain,
    reaching, rendered, settled, shown, Face, Piece,
};
use crate::equation::Equation;
use crate::item::Item;
use crate::model::weight;
use crate::text::text_zero;
use vstd::prelude::*;
use vstd::std_specs::cmp::PartialEqSpecImpl;

verus! {

/// A piece of text of the display.
#[derive(Debug)]
pub struct Span {
    pub text: String,
    /// The number of exponents that the piece is nested in.
    pub level: usize,
    pub face: Face,
    /// Whether the piece is a closing parenthesis that the expression still
    /// lacks, shown as a hint.
    pub hint: bool,
}

impl View for Span {
    type V = Piece;

    open spec fn view(&self) -> Piece {
        Piece { text: self.text@, level: self.level as nat, face: self.face, hint: self.hint }
    }
}

impl Clone for Span {
    fn clone(&self) -> (r: Span)
        ensures
            r@ == self@,
    {
        Span { text: self.text.clone(), level: self.level, face: self.face, hint: self.hint }
    }
}

impl PartialEq for Span {
    fn eq(&self, other: &Span) -> (b: bool) {
        self.text == other.text && self.level == other.level && self.face == other.face
            && self.hint == other.hint
    }
}

impl PartialEqSpecImpl for Span {
    open spec fn obeys_eq_spec() -> bool {
        true
    }

    open spec fn eq_spec(&self, other: &Span) -> bool {
        self@ == other@
    }
}

/// The pieces that a sequence of spans stands for.
pub open spec fn pieces_shown(spans: Seq<Span>) -> Seq<Piece> {
    spans.map_values(|s: Span| s@)
}

/// The numbers that a sequence of counters holds.
pub open spec fn counts_of(counters: Seq<i128>) -> Seq<int> {
    counters.map_values(|c: i128| c as int)
}

/// No counter is beyond `bound` on either side.
pub open spec fn within(counters: Seq<i128>, bound: int) -> bool {
    forall|k: int| 0 <= k < counters.len() ==> -bound <= #[trigger] counters[k] <= bound
}

/// The text that shows the item, if it has one.
pub fn label_of(item: &Item) -> (r: Option<String>)
    ensures
        match r {
            Some(text) => label(item@) == Some(text@),
            None => label(item@) is None,
        },
{
    match item {
        Item::Number(num) => Some(num.clone()),
        Item::Rnd(num) => Some(num.clone()),
        Item::Factorial => Some("!".to_owned()),
        Item::OpeningParenthesis => Some("(".to_owned()),
        Item::ClosingParenthesis => Some(")".to_owned()),
        Item::Percent => Some("%".to_owned()),
        Item::Sin => Some("sin(".to_owned()),
        Item::Ln => Some("ln(".to_owned()),
        Item::Divide => Some(" \u{f7} ".to_owned()),
        Item::Pi => Some("\u{3c0}".to_owned()),
        Item::Cos => Some("cos(".to_owned()),
        Item::Log => Some("log(".to_owned()),
        Item::Multiply => Some(" \u{d7} ".to_owned()),
        Item::E => Some("e".to_owned()),
        Item::Tan => Some("tan(".to_owned()),
        Item::Sqrt => Some("\u{221a}(".to_owned()),
        Item::Subtract => Some(" \u{2013} ".to_owned()),
        Item::Ans => Some("Ans".to_owned()),
        Item::EXP => Some("E".to_owned()),
        Item::Asin => Some("arcsin(".to_owned()),
        Item::Acos => Some("arccos(".to_owned()),
        Item::Atan => Some("arctan(".to_owned()),
        Item::Add => Some(" + ".to_owned()),
        Item::Power => None,
        Item::Nroot => None,
    }
}

/// What the item adds to the number of open groups.
pub fn weight_of(item: &Item) -> (w: i128)
    ensures
        w == weight(item@),
{
    if item.is_opening_parenthesis() {
        1
    } else if matches!(item, Item::ClosingParenthesis) {
        -1
    } else {
        0
    }
}

fn settle(inside: &mut Vec<i128>)
    ensures
        counts_of(final(inside)@) == settled(counts_of(old(inside)@)),
        final(inside)@.len() <= old(inside)@.len(),
        forall|k: int| 0 <= k < final(inside)@.len() ==> final(inside)@[k] == old(inside)@[k],
{
    let ghost start = inside@;
    loop
        invariant_except_break
            settled(counts_of(inside@)) == settled(counts_of(start)),
            inside@.len() <= start.len(),
            forall|k: int| 0 <= k < inside@.len() ==> inside@[k] == start[k],
        ensures
            counts_of(inside@) == settled(counts_of(start)),
            inside@.len() <= start.len(),
            forall|k: int| 0 <= k < inside@.len() ==> inside@[k] == start[k],
        decreases inside@.len(),
    {
        let n: usize = inside.len();
        if n == 0 || inside[n - 1] != 0 {
            break ;
        }
        let ghost before = inside@;
        let _ = inside.pop();
        assert(counts_of(inside@) =~= counts_of(before).drop_last());
    }
}

impl Equation {
    /// The display of the expression: see [`rendered`].
    pub fn render(&self) -> (spans: Vec<Span>)
        ensures
            pieces_shown(spans@) == rendered(self@),
    {
        let n: usize = self.len();
        let mut spans: Vec<Span> = Vec::new();
        if n == 0 {
            spans.push(Span { text: text_zero(), level: 0, face: Face::Plain, hint: false });
            assert(pieces_shown(spans@) =~= seq![plain(seq!['0'], 0)]);
            return spans;
        }
        let mut open_at: Vec<i128> = Vec::new();
        let mut inside: Vec<i128> = Vec::new();
        let mut i: usize = 0;
        assert(pieces_shown(spans@) =~= blank().pieces);
        assert(counts_of(open_at@) =~= blank().open_at);
        assert(counts_of(inside@) =~= blank().inside);
        while i < n
            invariant
                n == self@.len(),
                i <= n,
                pieces_shown(spans@) == laid_out(self@, i as nat).pieces,
                counts_of(open_at@) == laid_out(self@, i as nat).open_at,
                counts_of(inside@) == laid_out(self@, i as nat).inside,
                inside@.len() <= open_at@.len(),
                inside@.len() <= i,
                within(open_at@, i as int),
                within(inside@, i as int),
            decreases n - i,
        {
            let ghost l = laid_out(self@, i as nat);
            let ghost t = self@[i as int];
            let ghost pieces_before = pieces_shown(spans@);
            let item = self.get(i);
            let level: usize = inside.len();
            let last: bool = i == n - 1;
            let w: i128 = weight_of(item);
            if level + 1 > open_at.len() {
                open_at.push(0);
            }
            assert(counts_of(open_at@) =~= reaching(l.open_at, level as nat));
            let ghost here = counts_of(open_at@);
            let count: i128 = open_at[level];
            open_at.set(level, count + w);
            assert(counts_of(open_at@) =~= here.update(level as int, here[level as int] + weight(t)));
            let is_power: bool = matches!(item, Item::Power);
            match label_of(item) {
                Some(text) => {
                    spans.push(Span { text, level, face: Face::Plain, hint: false });
                },
                None => {
                    if is_power && last {
                        spans.push(
                            Span {
                                text: "\u{25a1}".to_owned(),
                                level: level + 1,
                                face: Face::Symbol,
                                hint: false,
                            },
                        );
                    }
                },
            }
            assert(pieces_shown(spans@) =~= pieces_before + pieces_of(t, level as nat, last));
            let ghost inside_before = counts_of(inside@);
            let ghost counted_open = counts_of(open_at@);
            if is_power {
                inside.push(0);
                assert(counts_of(inside@) =~= inside_before.push(0));
                if last {
                    if level + 1 >= open_at.len() {
                        open_at.push(0);
                    }
                    assert(counts_of(open_at@) =~= reaching(counted_open, (level + 1) as nat));
                }
            }
            let before_power: bool = i + 1 < n && matches!(self.get(i + 1), Item::Power);
            let m: usize = inside.len();
            if m > 0 {
                let ghost started = counts_of(inside@);
                let c: i128 = inside[m - 1] + w;
                inside.set(m - 1, c);
                assert(counts_of(inside@) =~= started.update(
                    started.len() - 1,
                    started.last() + weight(t),
                ));
                if c == 0 && item.can_put_operation_after() && !before_power {
                    settle(&mut inside);
                }
            }
            assert(counts_of(inside@) == inside_after(l.inside, t, before_power));
            i += 1;
        }
        let ghost l = laid_out(self@, n as nat);
        let mut level: usize = open_at.len();
        assert(pieces_shown(spans@) =~= l.pieces + all_hints(l.open_at, level as nat));
        while level > 0
            invariant
                level <= open_at@.len(),
                counts_of(open_at@) == l.open_at,
                pieces_shown(spans@) == l.pieces + all_hints(l.open_at, level as nat),
            decreases level,
        {
            level -= 1;
            let count: i128 = open_at[level];
            let ghost base = pieces_shown(spans@);
            let mut k: i128 = 0;
            assert(hints(0, level as nat) =~= Seq::<Piece>::empty());
            while k < count
                invariant
                    0 <= k,
                    k <= count || count < 0,
                    count < 0 ==> k == 0,
                    pieces_shown(spans@) == base + hints(k as int, level as nat),
                decreases count - k,
            {
                let ghost before = pieces_shown(spans@);
                spans.push(
                    Span { text: ")".to_owned(), level, face: Face::Plain, hint: true },
                );
                assert(pieces_shown(spans@) =~= before.push(hint(level as nat)));
                assert(hints(k + 1, level as nat) =~= hints(k as int, level as nat).push(
                    hint(level as nat),
                ));
                k += 1;
            }
            assert(hints(k as int, level as nat) =~= hints(count as int, level as nat));
            assert(pieces_shown(spans@) =~= l.pieces + (all_hints(l.open_at, (level + 1) as nat)
                + hints(l.open_at[level as int], level as nat)));
        }
        spans
    }
}

} // verus!
