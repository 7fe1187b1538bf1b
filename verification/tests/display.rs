use calculator::display::Face;
use calculator::equation::Equation;
use calculator::item::Item;
use calculator::item::Item::{
    Add, ClosingParenthesis, Divide, Multiply, Nroot, Number, OpeningParenthesis, Pi, Power, Sin,
    Sqrt, Subtract,
};
use calculator::render::Span;

fn number(text: &str) -> Item {
    Number(text.into())
}

fn equation(items: Vec<Item>) -> Equation {
    let mut equation = Equation::new();
    for item in items {
        equation.try_push(item);
    }
    equation
}

fn plain(text: &str, level: usize) -> Span {
    Span {
        text: text.into(),
        level,
        face: Face::Plain,
        hint: false,
    }
}

fn hint(level: usize) -> Span {
    Span {
        text: ")".into(),
        level,
        face: Face::Plain,
        hint: true,
    }
}

fn placeholder(level: usize) -> Span {
    Span {
        text: "\u{25a1}".into(),
        level,
        face: Face::Symbol,
        hint: false,
    }
}

#[test]
fn empty_expression_shows_zero() {
    assert_eq!(Equation::new().render(), vec![plain("0", 0)]);
}

#[test]
fn tokens_show_their_labels() {
    let equation = equation(vec![
        number("12"),
        Add,
        number("3"),
        Multiply,
        Pi,
        Divide,
        number("4"),
        Subtract,
        number("5"),
    ]);
    assert_eq!(
        equation.render(),
        vec![
            plain("12", 0),
            plain(" + ", 0),
            plain("3", 0),
            plain(" \u{d7} ", 0),
            plain("\u{3c0}", 0),
            plain(" \u{f7} ", 0),
            plain("4", 0),
            plain(" \u{2013} ", 0),
            plain("5", 0),
        ]
    );
}

#[test]
fn open_groups_get_hints() {
    let equation = equation(vec![OpeningParenthesis, number("1"), Add, Sin, number("2")]);
    assert_eq!(
        equation.render(),
        vec![
            plain("(", 0),
            plain("1", 0),
            plain(" + ", 0),
            plain("sin(", 0),
            plain("2", 0),
            hint(0),
            hint(0),
        ]
    );
    let closed = self::equation(vec![OpeningParenthesis, number("1"), ClosingParenthesis]);
    assert_eq!(
        closed.render(),
        vec![plain("(", 0), plain("1", 0), plain(")", 0)]
    );
}

#[test]
fn power_at_the_end_shows_a_box() {
    let equation = equation(vec![number("2"), Power]);
    assert_eq!(equation.render(), vec![plain("2", 0), placeholder(1)]);
}

#[test]
fn exponent_is_lifted_and_ends_with_its_value() {
    let equation = equation(vec![number("2"), Power, number("3"), Add, number("1")]);
    assert_eq!(
        equation.render(),
        vec![
            plain("2", 0),
            plain("3", 1),
            plain(" + ", 0),
            plain("1", 0)
        ]
    );
}

#[test]
fn exponent_of_an_exponent() {
    let equation = equation(vec![number("2"), Power, number("3"), Power, number("4")]);
    assert_eq!(
        equation.render(),
        vec![plain("2", 0), plain("3", 1), plain("4", 2)]
    );
    let open = self::equation(vec![number("2"), Power, number("3"), Power]);
    assert_eq!(
        open.render(),
        vec![plain("2", 0), plain("3", 1), placeholder(2)]
    );
}

#[test]
fn group_in_an_exponent() {
    let equation = equation(vec![
        number("2"),
        Power,
        OpeningParenthesis,
        number("3"),
        Add,
        number("4"),
    ]);
    assert_eq!(
        equation.render(),
        vec![
            plain("2", 0),
            plain("(", 1),
            plain("3", 1),
            plain(" + ", 1),
            plain("4", 1),
            hint(1),
        ]
    );
    let mut closed = equation.clone();
    assert!(closed.try_push(ClosingParenthesis));
    assert!(closed.try_push(Add));
    assert_eq!(
        closed.render(),
        vec![
            plain("2", 0),
            plain("(", 1),
            plain("3", 1),
            plain(" + ", 1),
            plain("4", 1),
            plain(")", 1),
            plain(" + ", 0),
        ]
    );
}

#[test]
fn hints_come_from_the_highest_level_down() {
    let equation = equation(vec![Sqrt, number("2"), Power, OpeningParenthesis, number("3")]);
    assert_eq!(
        equation.render(),
        vec![
            plain("\u{221a}(", 0),
            plain("2", 0),
            plain("(", 1),
            plain("3", 1),
            hint(1),
            hint(0),
        ]
    );
}

#[test]
fn nroot_has_no_label() {
    let equation = equation(vec![Nroot, number("2")]);
    assert_eq!(equation.render(), vec![plain("2", 0), hint(0)]);
}
