use calculator::equation::Equation;
use calculator::item::Item;
use calculator::item::Item::{
    Acos, Add, Ans, Asin, Atan, ClosingParenthesis, Cos, Divide, Factorial, Ln, Log, Multiply,
    Nroot, Number, OpeningParenthesis, Percent, Pi, Power, Rnd, Sin, Sqrt, Subtract, Tan, E, EXP,
};

fn number(text: &str) -> Item {
    Number(text.into())
}

fn equation(items: Vec<Item>) -> Equation {
    let mut equation = Equation::new();
    for item in items {
        equation.try_push(item);
    }
    equation
}

fn openers() -> Vec<Item> {
    vec![OpeningParenthesis, Sin, Ln, Cos, Log, Tan, Sqrt, Asin, Acos, Atan, Nroot]
}

fn others() -> Vec<Item> {
    vec![
        number("1"),
        Rnd("0.5".into()),
        Factorial,
        ClosingParenthesis,
        Percent,
        Divide,
        Pi,
        Multiply,
        E,
        Subtract,
        Ans,
        EXP,
        Power,
        Add,
    ]
}

#[test]
fn opener_class() {
    for item in openers() {
        assert!(item.is_opening_parenthesis());
    }
    for item in others() {
        assert!(!item.is_opening_parenthesis());
    }
}

#[test]
fn value_complete_class() {
    let complete = vec![
        ClosingParenthesis,
        Pi,
        E,
        Ans,
        Factorial,
        Percent,
        Rnd("0.5".into()),
        number("12"),
        number("0"),
        number("-1"),
        number(""),
    ];
    for item in complete {
        assert!(item.can_put_operation_after());
        assert!(item.can_put_end_parenthesis_after());
    }
    let incomplete = vec![number("-"), Add, Subtract, Multiply, Divide, Power, EXP];
    for item in incomplete {
        assert!(!item.can_put_operation_after());
        assert!(!item.can_put_end_parenthesis_after());
    }
    for item in openers() {
        assert!(!item.can_put_operation_after());
        assert!(!item.can_put_end_parenthesis_after());
    }
}

#[test]
fn precedence_of_equal_operators() {
    for item in vec![Add, Subtract, Multiply, Divide, Power] {
        assert!(item.has_precedence_over(&item.clone()));
    }
    assert!(number("1").has_precedence_over(&number("1")));
    assert!(OpeningParenthesis.has_precedence_over(&OpeningParenthesis));
}

#[test]
fn precedence_of_openers() {
    for opener in openers() {
        for other in vec![Add, Subtract, Multiply, Divide, Power, ClosingParenthesis] {
            assert!(!opener.has_precedence_over(&other));
            assert!(!other.has_precedence_over(&opener));
        }
    }
    assert!(!Sin.has_precedence_over(&Cos));
}

#[test]
fn precedence_table() {
    let operators = vec![Add, Subtract, Multiply, Divide, Power];
    // Rows: the operator on the stack; columns: the incoming operator.
    let expected = vec![
        vec![true, true, false, false, false],
        vec![true, true, false, false, false],
        vec![true, true, true, false, false],
        vec![true, true, false, true, false],
        vec![true, true, true, true, true],
    ];
    for (i, on_stack) in operators.iter().enumerate() {
        for (j, incoming) in operators.iter().enumerate() {
            assert_eq!(on_stack.has_precedence_over(incoming), expected[i][j]);
        }
    }
    for operator in operators {
        assert!(!operator.has_precedence_over(&ClosingParenthesis));
    }
}

#[test]
fn new_expression_is_empty() {
    let equation = Equation::new();
    assert!(equation.is_empty());
    assert_eq!(equation.len(), 0);
    assert_eq!(equation.open_parentheses_count(), 0);
    assert_eq!(equation.items(), vec![]);
}

#[test]
fn opener_is_always_accepted() {
    for opener in openers() {
        let mut equation = Equation::new();
        assert!(equation.try_push(opener.clone()));
        assert_eq!(equation.items(), vec![opener.clone()]);
        assert!(equation.try_push(opener.clone()));
        assert_eq!(equation.items(), vec![opener.clone(), opener.clone()]);
        assert_eq!(equation.open_parentheses_count(), 2);
    }
}

fn ending_in_value() -> Vec<Vec<Item>> {
    vec![
        vec![number("2")],
        vec![Pi],
        vec![E],
        vec![Ans],
        vec![Rnd("0.5".into())],
        vec![number("5"), Percent],
        vec![number("5"), Factorial],
        vec![OpeningParenthesis, number("1"), ClosingParenthesis],
    ]
}

#[test]
fn opener_after_value_gets_multiply() {
    for start in ending_in_value() {
        for opener in openers() {
            let mut equation = equation(start.clone());
            assert_eq!(equation.items(), start);
            assert!(equation.try_push(opener.clone()));
            let mut expected = start.clone();
            expected.push(Multiply);
            expected.push(opener);
            assert_eq!(equation.items(), expected);
        }
    }
    let mut after_operator = equation(vec![number("5"), Add]);
    assert!(after_operator.try_push(OpeningParenthesis));
    assert_eq!(
        after_operator.items(),
        vec![number("5"), Add, OpeningParenthesis]
    );
    let mut after_sign = equation(vec![Subtract]);
    assert!(after_sign.try_push(OpeningParenthesis));
    assert_eq!(after_sign.items(), vec![number("-"), OpeningParenthesis]);
}

#[test]
fn closing_parenthesis_needs_value_and_open_group() {
    let mut equation = Equation::new();
    assert!(!equation.try_push(ClosingParenthesis));
    assert!(equation.is_empty());
    let mut equation = equation_of(vec![number("1")]);
    assert!(!equation.try_push(ClosingParenthesis));
    assert_eq!(equation.items(), vec![number("1")]);
    let mut equation = equation_of(vec![OpeningParenthesis]);
    assert!(!equation.try_push(ClosingParenthesis));
    assert_eq!(equation.items(), vec![OpeningParenthesis]);
    let mut equation = equation_of(vec![OpeningParenthesis, number("1"), Add]);
    assert!(!equation.try_push(ClosingParenthesis));
    let mut equation = equation_of(vec![OpeningParenthesis, number("1")]);
    assert!(equation.try_push(ClosingParenthesis));
    assert_eq!(
        equation.items(),
        vec![OpeningParenthesis, number("1"), ClosingParenthesis]
    );
    assert_eq!(equation.open_parentheses_count(), 0);
    assert!(!equation.try_push(ClosingParenthesis));
    assert_eq!(equation.open_parentheses_count(), 0);
}

fn equation_of(items: Vec<Item>) -> Equation {
    equation(items)
}

#[test]
fn digits_join_the_last_number() {
    let mut equation = Equation::new();
    assert!(equation.try_push(number("1")));
    assert!(equation.try_push(number("2")));
    assert!(equation.try_push(number(".")));
    assert!(equation.try_push(number("5")));
    assert_eq!(equation.items(), vec![number("12.5")]);
    assert!(!equation.try_push(number(".")));
    assert_eq!(equation.items(), vec![number("12.5")]);
}

#[test]
fn leading_zero_is_overwritten() {
    let mut equation = Equation::new();
    assert!(equation.try_push(number("0")));
    assert!(equation.try_push(number("7")));
    assert_eq!(equation.items(), vec![number("7")]);
    let mut equation = equation_of(vec![number("0"), number(".")]);
    assert_eq!(equation.items(), vec![number("0.")]);
    assert!(equation.try_push(number("7")));
    assert_eq!(equation.items(), vec![number("0.7")]);
    let mut equation = equation_of(vec![number("0"), number("0")]);
    assert_eq!(equation.items(), vec![number("0")]);
    assert!(equation.try_push(number("0")));
    assert_eq!(equation.items(), vec![number("0")]);
}

#[test]
fn lone_dot_becomes_zero_dot() {
    let mut equation = Equation::new();
    assert!(equation.try_push(number(".")));
    assert_eq!(equation.items(), vec![number("0.")]);
    let mut equation = equation_of(vec![Subtract]);
    assert!(equation.try_push(number(".")));
    assert_eq!(equation.items(), vec![number("-0.")]);
    assert!(!equation.try_push(number(".")));
}

#[test]
fn number_after_value_gets_multiply() {
    for start in ending_in_value() {
        if start == vec![number("2")] {
            continue;
        }
        let mut equation = equation_of(start.clone());
        assert!(equation.try_push(number("4")));
        let mut expected = start.clone();
        expected.push(Multiply);
        expected.push(number("4"));
        assert_eq!(equation.items(), expected);

        let mut equation = equation_of(start.clone());
        assert!(equation.try_push(number(".")));
        let mut expected = start;
        expected.push(Multiply);
        expected.push(number("0."));
        assert_eq!(equation.items(), expected);
    }
    let mut after_operator = equation_of(vec![number("3"), Add]);
    assert!(after_operator.try_push(number("4")));
    assert_eq!(after_operator.items(), vec![number("3"), Add, number("4")]);
}

#[test]
fn operator_on_empty_expression_follows_zero() {
    for operator in vec![Add, Multiply, Divide, Power, Factorial, Percent] {
        let mut equation = Equation::new();
        assert!(equation.try_push(operator.clone()));
        assert_eq!(equation.items(), vec![number("0"), operator]);
    }
}

#[test]
fn operator_replaces_operator() {
    for first in vec![Add, Multiply, Divide] {
        for second in vec![Add, Multiply, Divide] {
            let mut equation = equation_of(vec![number("1"), first.clone()]);
            assert!(equation.try_push(second.clone()));
            assert_eq!(equation.items(), vec![number("1"), second]);
        }
    }
    let mut equation = equation_of(vec![number("1"), Subtract]);
    assert_eq!(equation.items(), vec![number("1"), Subtract]);
    assert!(equation.try_push(Multiply));
    assert_eq!(equation.items(), vec![number("1"), Multiply]);
}

#[test]
fn operator_is_rejected_where_nothing_can_take_it() {
    for operator in vec![Add, Multiply, Divide, Power, Factorial, Percent] {
        for last in vec![OpeningParenthesis, Sin, Subtract] {
            let mut equation = equation_of(vec![last]);
            let before = equation.items();
            assert!(!equation.try_push(operator.clone()));
            assert_eq!(equation.items(), before);
        }
        let mut equation = equation_of(vec![number("2"), Power]);
        assert!(!equation.try_push(operator.clone()));
        assert_eq!(equation.items(), vec![number("2"), Power]);
        let mut equation = equation_of(vec![number("2"), EXP]);
        assert!(!equation.try_push(operator.clone()));
        assert_eq!(equation.items(), vec![number("2"), EXP]);
    }
    for operator in vec![Power, Factorial, Percent] {
        let mut equation = equation_of(vec![number("2"), Add]);
        assert!(!equation.try_push(operator));
        assert_eq!(equation.items(), vec![number("2"), Add]);
    }
}

#[test]
fn postfix_follows_value() {
    for operator in vec![Factorial, Percent, Power] {
        for value in vec![number("5"), Pi, E, Ans, Rnd("0.1".into())] {
            let mut equation = equation_of(vec![value.clone()]);
            assert!(equation.try_push(operator.clone()));
            assert_eq!(equation.items(), vec![value, operator.clone()]);
        }
    }
    let mut equation = equation_of(vec![number("5"), Percent]);
    assert!(equation.try_push(Factorial));
    assert_eq!(equation.items(), vec![number("5"), Percent, Factorial]);
}

#[test]
fn subtract_cases() {
    let mut equation = Equation::new();
    assert!(equation.try_push(Subtract));
    assert_eq!(equation.items(), vec![number("-")]);
    assert!(!equation.try_push(Subtract));
    assert_eq!(equation.items(), vec![number("-")]);

    for last in vec![Percent, Divide, Multiply, Power, EXP] {
        let mut equation = equation_of(vec![number("2"), last.clone()]);
        assert!(equation.try_push(Subtract));
        assert_eq!(equation.items(), vec![number("2"), last, number("-")]);
    }
    for opener in openers() {
        let mut equation = equation_of(vec![opener.clone()]);
        assert!(equation.try_push(Subtract));
        assert_eq!(equation.items(), vec![opener, number("-")]);
    }
    let mut equation = equation_of(vec![number("2"), Add]);
    assert!(equation.try_push(Subtract));
    assert_eq!(equation.items(), vec![number("2"), Subtract]);
    assert!(!equation.try_push(Subtract));
    assert_eq!(equation.items(), vec![number("2"), Subtract]);

    for value in vec![number("2"), Pi, E, Ans, Rnd("0.1".into())] {
        let mut equation = equation_of(vec![value.clone()]);
        assert!(equation.try_push(Subtract));
        assert_eq!(equation.items(), vec![value, Subtract]);
    }
    let mut equation = equation_of(vec![number("2"), Factorial]);
    assert!(equation.try_push(Subtract));
    assert_eq!(equation.items(), vec![number("2"), Factorial, Subtract]);
    let mut equation = equation_of(vec![OpeningParenthesis, number("2"), ClosingParenthesis]);
    assert!(equation.try_push(Subtract));
    assert_eq!(equation.len(), 4);
    assert_eq!(*equation.get(3), Subtract);
}

#[test]
fn constants_are_always_accepted() {
    for constant in vec![Pi, E, Ans, Rnd("0.123".into())] {
        let mut equation = Equation::new();
        assert!(equation.try_push(constant.clone()));
        assert_eq!(equation.items(), vec![constant.clone()]);
        assert!(equation.try_push(constant.clone()));
        assert_eq!(
            equation.items(),
            vec![constant.clone(), Multiply, constant.clone()]
        );
        let mut equation = equation_of(vec![number("2")]);
        assert!(equation.try_push(constant.clone()));
        assert_eq!(
            equation.items(),
            vec![number("2"), Multiply, constant.clone()]
        );
        let mut equation = equation_of(vec![number("2"), Add]);
        assert!(equation.try_push(constant.clone()));
        assert_eq!(equation.items(), vec![number("2"), Add, constant.clone()]);
        let mut equation = equation_of(vec![Subtract]);
        assert!(equation.try_push(constant.clone()));
        assert_eq!(equation.items(), vec![number("-"), constant]);
    }
}

#[test]
fn exp_follows_a_complete_literal() {
    let mut equation = equation_of(vec![number("2")]);
    assert!(equation.try_push(EXP));
    assert_eq!(equation.items(), vec![number("2"), EXP]);
    assert!(!equation.try_push(EXP));
    let mut equation = equation_of(vec![number("2.5")]);
    assert!(equation.try_push(EXP));

    let mut equation = Equation::new();
    assert!(!equation.try_push(EXP));
    assert!(equation.is_empty());
    let mut equation = equation_of(vec![number("2"), number(".")]);
    assert_eq!(equation.items(), vec![number("2.")]);
    assert!(!equation.try_push(EXP));
    assert_eq!(equation.items(), vec![number("2.")]);
    let mut equation = equation_of(vec![Subtract]);
    assert!(!equation.try_push(EXP));
    for last in vec![Pi, Rnd("0.5".into()), OpeningParenthesis] {
        let mut equation = equation_of(vec![last.clone()]);
        assert!(!equation.try_push(EXP));
        assert_eq!(equation.items(), vec![last]);
    }
}

#[test]
fn backspace_on_empty_expression() {
    let mut equation = Equation::new();
    equation.backspace();
    assert!(equation.is_empty());
}

#[test]
fn backspace_in_a_number() {
    let mut equation = equation_of(vec![number("1"), number("2"), number("3")]);
    equation.backspace();
    assert_eq!(equation.items(), vec![number("12")]);
    equation.backspace();
    assert_eq!(equation.items(), vec![number("1")]);
    equation.backspace();
    assert!(equation.is_empty());

    let mut equation = equation_of(vec![number(".")]);
    assert_eq!(equation.items(), vec![number("0.")]);
    equation.backspace();
    assert!(equation.is_empty());

    let mut equation = equation_of(vec![Subtract, number(".")]);
    assert_eq!(equation.items(), vec![number("-0.")]);
    equation.backspace();
    assert_eq!(equation.items(), vec![number("-")]);
    equation.backspace();
    assert!(equation.is_empty());

    let mut equation = equation_of(vec![Subtract, number("5")]);
    equation.backspace();
    assert_eq!(equation.items(), vec![number("-")]);
}

#[test]
fn backspace_counts_bytes() {
    let mut equation = equation_of(vec![number("\u{e9}")]);
    equation.backspace();
    assert_eq!(equation.items(), vec![number("")]);
    equation.backspace();
    assert!(equation.is_empty());
}

#[test]
fn backspace_takes_the_implied_zero() {
    for operator in vec![Power, Factorial, Percent] {
        let mut equation = Equation::new();
        assert!(equation.try_push(operator.clone()));
        assert_eq!(equation.len(), 2);
        equation.backspace();
        assert!(equation.is_empty());

        let mut equation = equation_of(vec![number("."), operator.clone()]);
        assert_eq!(equation.items(), vec![number("0."), operator.clone()]);
        equation.backspace();
        assert!(equation.is_empty());

        let mut equation = equation_of(vec![number("5"), operator.clone()]);
        equation.backspace();
        assert_eq!(equation.items(), vec![number("5")]);

        let mut equation = equation_of(vec![Pi, operator]);
        equation.backspace();
        assert_eq!(equation.items(), vec![Pi]);
    }
    let mut equation = Equation::new();
    assert!(equation.try_push(Add));
    equation.backspace();
    assert_eq!(equation.items(), vec![number("0")]);
}

#[test]
fn backspace_undoes_a_push_of_one_token() {
    let starts = vec![
        vec![],
        vec![number("12")],
        vec![number("2"), Add],
        vec![OpeningParenthesis, number("2")],
        vec![Sin],
        vec![number("2"), Power],
    ];
    let pushes = vec![
        number("7"),
        number("."),
        Add,
        Subtract,
        Multiply,
        Divide,
        Power,
        Factorial,
        Percent,
        Pi,
        E,
        Ans,
        Rnd("0.5".into()),
        OpeningParenthesis,
        ClosingParenthesis,
        Sqrt,
        EXP,
    ];
    let mut checked = 0;
    for start in starts {
        for item in &pushes {
            let mut equation = equation_of(start.clone());
            let before = equation.items();
            let accepted = equation.try_push(item.clone());
            let after = equation.items();
            if accepted && after.len() == before.len() + 1 && after[..before.len()] == before[..] {
                equation.backspace();
                assert_eq!(equation.items(), before);
                checked += 1;
            }
        }
    }
    assert!(checked >= 20);
}

#[test]
fn backspace_leaves_the_implied_multiply() {
    let mut equation = equation_of(vec![Pi, Pi]);
    assert_eq!(equation.items(), vec![Pi, Multiply, Pi]);
    equation.backspace();
    assert_eq!(equation.items(), vec![Pi, Multiply]);
}

#[test]
fn clear_empties() {
    let mut equation = equation_of(vec![OpeningParenthesis, number("1"), Add]);
    equation.clear();
    assert!(equation.is_empty());
    assert_eq!(equation.open_parentheses_count(), 0);
    assert!(equation.try_push(number("1")));
    assert_eq!(equation.items(), vec![number("1")]);
}

#[test]
fn open_parentheses_count_is_never_negative() {
    let keys = vec![
        ClosingParenthesis,
        OpeningParenthesis,
        number("1"),
        ClosingParenthesis,
        ClosingParenthesis,
        Sin,
        Cos,
        number("2"),
        ClosingParenthesis,
        Percent,
        ClosingParenthesis,
        ClosingParenthesis,
        ClosingParenthesis,
        Add,
        ClosingParenthesis,
    ];
    let expected = vec![0, 1, 1, 0, 0, 1, 2, 2, 1, 1, 0, 0, 0, 0, 0];
    let mut equation = Equation::new();
    for (key, count) in keys.into_iter().zip(expected) {
        equation.try_push(key);
        assert_eq!(equation.open_parentheses_count(), count);
    }
    while !equation.is_empty() {
        equation.backspace();
        let count = equation.open_parentheses_count();
        assert!(count <= equation.len());
    }
}

#[test]
fn contains_ans_and_equality() {
    let with_ans = equation_of(vec![number("1"), Add, Ans]);
    let without = equation_of(vec![number("1"), Add, number("2")]);
    assert!(with_ans.contains_ans());
    assert!(!without.contains_ans());
    assert!(!Equation::new().contains_ans());
    assert!(with_ans != without);
    assert!(with_ans == with_ans.clone());
    assert!(without == equation_of(vec![number("1"), Add, number("2")]));
    assert!(without != equation_of(vec![number("1"), Add]));
    assert!(without != equation_of(vec![number("1"), Add, number("3")]));
}

#[test]
fn clean_expands_constants() {
    let equation = equation_of(vec![Pi, Add, E, Add, Ans, Add, Rnd("0.25".into())]);
    assert_eq!(
        equation.clean("42"),
        vec![
            number("3.141592653589793238462643383279502884197"),
            Add,
            number("2.7182818284590452353602874713527"),
            Add,
            number("42"),
            Add,
            number("0.25"),
        ]
    );
}

#[test]
fn clean_rewrites_percent_and_factorial() {
    let equation = equation_of(vec![number("50"), Percent]);
    assert_eq!(
        equation.clean("0"),
        vec![
            OpeningParenthesis,
            number("50"),
            Divide,
            number("100"),
            ClosingParenthesis
        ]
    );
    let equation = equation_of(vec![number("5"), Factorial]);
    assert_eq!(
        equation.clean("0"),
        vec![
            OpeningParenthesis,
            number("5"),
            Factorial,
            ClosingParenthesis
        ]
    );
}

#[test]
fn clean_rewrites_scientific_notation() {
    let equation = equation_of(vec![number("2"), EXP, number("3")]);
    assert_eq!(
        equation.clean("0"),
        vec![number("2"), Multiply, number("10"), Power, number("3")]
    );
}

#[test]
fn clean_closes_open_groups() {
    let equation = equation_of(vec![OpeningParenthesis, Sin, number("1"), Add, number("2")]);
    assert_eq!(equation.open_parentheses_count(), 2);
    let stream = equation.clean("0");
    assert_eq!(
        stream,
        vec![
            OpeningParenthesis,
            Sin,
            number("1"),
            Add,
            number("2"),
            ClosingParenthesis,
            ClosingParenthesis
        ]
    );
    let openers = stream.iter().filter(|i| i.is_opening_parenthesis()).count();
    let closers = stream.iter().filter(|i| **i == ClosingParenthesis).count();
    assert_eq!(openers, closers);
}

#[test]
fn clean_leaves_the_expression_alone() {
    let equation = equation_of(vec![number("50"), Percent, Add, OpeningParenthesis, Pi]);
    let before = equation.items();
    let _ = equation.clean("1");
    assert_eq!(equation.items(), before);
}

#[test]
fn clean_is_balanced_for_many_expressions() {
    let keys = vec![
        OpeningParenthesis,
        number("2"),
        Percent,
        Sin,
        Pi,
        Factorial,
        ClosingParenthesis,
        Tan,
        Ans,
        EXP,
        Sqrt,
        Subtract,
        number("4"),
        EXP,
        number("2"),
    ];
    let mut equation = Equation::new();
    for key in keys {
        equation.try_push(key);
        let stream = equation.clean("3");
        let openers = stream.iter().filter(|i| i.is_opening_parenthesis()).count();
        let closers = stream.iter().filter(|i| **i == ClosingParenthesis).count();
        assert_eq!(openers, closers);
    }
}

#[test]
fn clean_wraps_the_whole_group_behind_percent() {
    let equation = equation_of(vec![
        OpeningParenthesis,
        number("1"),
        Add,
        number("2"),
        ClosingParenthesis,
        Percent,
    ]);
    assert_eq!(
        equation.clean("0"),
        vec![
            OpeningParenthesis,
            OpeningParenthesis,
            number("1"),
            Add,
            number("2"),
            ClosingParenthesis,
            Divide,
            number("100"),
            ClosingParenthesis,
        ]
    );
}

#[test]
fn clean_wraps_the_whole_group_behind_factorial() {
    let equation = equation_of(vec![
        OpeningParenthesis,
        number("1"),
        Add,
        number("2"),
        ClosingParenthesis,
        Factorial,
    ]);
    assert_eq!(
        equation.clean("0"),
        vec![
            OpeningParenthesis,
            OpeningParenthesis,
            number("1"),
            Add,
            number("2"),
            ClosingParenthesis,
            Factorial,
            ClosingParenthesis,
        ]
    );
}

#[test]
fn clean_wraps_a_function_group() {
    let equation = equation_of(vec![Sin, number("30"), ClosingParenthesis, Percent]);
    assert_eq!(
        equation.clean("0"),
        vec![
            OpeningParenthesis,
            Sin,
            number("30"),
            ClosingParenthesis,
            Divide,
            number("100"),
            ClosingParenthesis,
        ]
    );
}

#[test]
fn clean_wraps_an_earlier_rewrite() {
    let equation = equation_of(vec![number("5"), Factorial, Percent]);
    assert_eq!(
        equation.clean("0"),
        vec![
            OpeningParenthesis,
            OpeningParenthesis,
            number("5"),
            Factorial,
            ClosingParenthesis,
            Divide,
            number("100"),
            ClosingParenthesis,
        ]
    );
}

#[test]
fn clean_wraps_only_the_last_value() {
    let equation = equation_of(vec![
        number("2"),
        Multiply,
        OpeningParenthesis,
        OpeningParenthesis,
        number("3"),
        ClosingParenthesis,
        ClosingParenthesis,
        Percent,
    ]);
    assert_eq!(
        equation.clean("0"),
        vec![
            number("2"),
            Multiply,
            OpeningParenthesis,
            OpeningParenthesis,
            OpeningParenthesis,
            number("3"),
            ClosingParenthesis,
            ClosingParenthesis,
            Divide,
            number("100"),
            ClosingParenthesis,
        ]
    );
    let literal = equation_of(vec![number("2"), Add, number("50"), Percent]);
    assert_eq!(
        literal.clean("0"),
        vec![
            number("2"),
            Add,
            OpeningParenthesis,
            number("50"),
            Divide,
            number("100"),
            ClosingParenthesis,
        ]
    );
}
