use evalexpr::{build_operator_tree, ContextWithMutableVariables, HashMapContext, Value};
use math_test_backend::equation::{compact_form, join_sides, normalize_equation, normalize_plain};
use math_test_backend::matching::{
    auto_match_answer, expression_equivalent, hint_from_rounds, plan_match, plan_rounds,
    settle_hint, Assignment, Evaluation, Findings, NUMBER_TOLERANCE,
};
use math_test_backend::variables::{collect_variables, extract_variables};

fn value(expression: &str, round: &Vec<Assignment>) -> Option<f64> {
    let tree = build_operator_tree(expression).ok()?;
    let mut context = HashMapContext::new();
    for a in round {
        context.set_value(a.name.clone(), Value::Float(a.halves as f64 / 2.0)).ok()?;
    }
    tree.eval_number_with_context(&context).ok()
}

fn tolerance(exponent: u32) -> f64 {
    format!("1e-{exponent}").parse().unwrap()
}

fn findings(expected: &str, submitted: &str) -> Findings {
    let plan = plan_match(expected, submitted);
    let numbers = match (plan.left.parse::<f64>(), plan.right.parse::<f64>()) {
        (Ok(a), Ok(b)) => Some((a - b).abs() <= tolerance(NUMBER_TOLERANCE)),
        _ => None,
    };
    let mut rounds = Vec::new();
    for round in &plan.rounds {
        let a = value(&plan.expected_expression, round);
        let b = value(&plan.submitted_expression, round);
        rounds.push(match (a, b) {
            (Some(a), Some(b)) => {
                if !a.is_finite() || !b.is_finite() {
                    Evaluation::NotFinite
                } else if (a - b).abs() <= tolerance(plan.tolerance) {
                    Evaluation::Close
                } else {
                    Evaluation::Apart
                }
            }
            _ => Evaluation::Failed,
        });
    }
    Findings { numbers, rounds }
}

fn hint(expected: &str, submitted: &str) -> Option<bool> {
    auto_match_answer(expected, submitted, &findings(expected, submitted))
}

#[test]
fn plain_form() {
    assert_eq!(normalize_plain("  X + 1 "), "x+1");
    assert_eq!(normalize_plain("x^2"), "x**2");
    assert_eq!(normalize_plain("2 ^ 3 ^ 4"), "2**3**4");
    assert_eq!(normalize_plain("a\tB"), "a\tb");
    assert_eq!(normalize_plain(""), "");
    assert_eq!(normalize_plain("ÀÉ"), "àé");
}

#[test]
fn equation_form() {
    assert_eq!(normalize_equation("x = 3"), "(x)-(3)");
    assert_eq!(normalize_equation("=3"), "()-(3)");
    assert_eq!(normalize_equation("x="), "(x)-()");
    assert_eq!(normalize_equation("x+1"), "x+1");
    assert_eq!(normalize_equation("a=b=c"), "a=b=c");
    assert_eq!(normalize_equation("a==b"), "a==b");
}

#[test]
fn variables_are_sorted_and_unique() {
    assert_eq!(extract_variables("y+x*y", "z-x"), ["x", "y", "z"]);
    assert_eq!(extract_variables("2*pi*r", "E+TRUE+false"), ["r"]);
    assert_eq!(extract_variables("A1+a1+_b", "3c"), ["_b", "a1", "c"]);
    assert_eq!(extract_variables("1+2", ""), Vec::<String>::new());
    assert_eq!(extract_variables("x y", "é9z"), ["x", "y", "z"]);
}

#[test]
fn variables_do_not_depend_on_the_order() {
    assert_eq!(extract_variables("b+a", "c*a"), extract_variables("c*a", "b+a"));
}

#[test]
fn plan_without_variables() {
    let plan = plan_match(" 1/2 ", "0.5");
    assert_eq!(plan.left, "1/2");
    assert_eq!(plan.right, "0.5");
    assert_eq!(plan.expected_expression, "1/2");
    assert_eq!(plan.submitted_expression, "0.5");
    assert_eq!(plan.rounds.len(), 1);
    assert_eq!(plan.rounds[0].len(), 0);
    assert_eq!(plan.tolerance, 7);
}

#[test]
fn plan_with_variables() {
    let plan = plan_match("y=2*x", "x*2 = y");
    assert_eq!(plan.expected_expression, "(y)-(2*x)");
    assert_eq!(plan.submitted_expression, "(x*2)-(y)");
    assert_eq!(plan.tolerance, 6);
    assert_eq!(plan.rounds.len(), 6);
    let halves: Vec<Vec<(String, i64)>> = plan
        .rounds
        .iter()
        .map(|r| r.iter().map(|a| (a.name.clone(), a.halves)).collect())
        .collect();
    let expected = [(-6, -3), (-3, -1), (-1, 1), (1, 2), (2, 4), (4, 6)];
    for (i, (x, y)) in expected.iter().enumerate() {
        assert_eq!(halves[i], [("x".to_string(), *x), ("y".to_string(), *y)]);
    }
}

#[test]
fn samples_go_round() {
    let plan = plan_match("a+b+c+d", "d+c+b+a");
    let last: Vec<i64> = plan.rounds[5].iter().map(|a| a.halves).collect();
    assert_eq!(last, [4, 6, 8, -6]);
}

#[test]
fn equal_text_matches() {
    assert_eq!(hint("x=3", " X = 3 "), Some(true));
    assert_eq!(hint("x^2", "x**2"), Some(true));
    assert_eq!(hint("no expression at all (", "NO expression at all ("), Some(true));
}

#[test]
fn numbers_match_by_value() {
    assert_eq!(hint("3", "3.0"), Some(true));
    assert_eq!(hint("3", "3.0000000001"), Some(true));
    assert_eq!(hint("3", "3.00000001"), Some(false));
    assert_eq!(hint("1e3", "1000"), Some(true));
    assert_eq!(hint("inf", "infinity"), Some(false));
}

#[test]
fn constant_expressions_match_by_value() {
    assert_eq!(hint("1.0/2", "0.5"), Some(true));
    assert_eq!(hint("2*(3+4)", "14"), Some(true));
    assert_eq!(hint("2*(3+4)", "15"), Some(false));
    assert_eq!(hint("1.0/0", "5+1"), Some(false));
}

#[test]
fn expressions_match_by_samples() {
    assert_eq!(hint("2*x+2", "2*(x+1)"), Some(true));
    assert_eq!(hint("x+y", "y+x"), Some(true));
    assert_eq!(hint("x*x", "x+x"), Some(false));
    assert_eq!(hint("2*x+4=10", "x=3"), Some(false));
    assert_eq!(hint("x/0.0", "x+1"), None);
}

#[test]
fn unreadable_expressions_have_no_hint() {
    assert_eq!(hint("(x", "x"), None);
    assert_eq!(hint("x", "x)"), None);
    assert_eq!(hint("x+y(", "2"), None);
    let close = vec![Evaluation::Close; 6];
    assert_eq!(expression_equivalent("(x", "x", &close), None);
    assert_eq!(expression_equivalent("x+0", "x", &close), Some(true));
}

#[test]
fn blank_answers_have_no_hint() {
    assert_eq!(hint("", "3"), None);
    assert_eq!(hint("3", " \t "), None);
}

#[test]
fn hint_does_not_depend_on_the_order() {
    for (a, b) in [("x+1", "1+x"), ("x", "2*x"), ("3", "3.0"), ("(", "x"), ("x=3", "3=x")] {
        assert_eq!(hint(a, b), hint(b, a));
    }
}

#[test]
fn first_round_that_is_not_close_decides() {
    let (apart, close) = (Evaluation::Apart, Evaluation::Close);
    let (failed, not_finite) = (Evaluation::Failed, Evaluation::NotFinite);
    let run = |rounds: Vec<Evaluation>| expression_equivalent("x+0", "x", &rounds);
    assert_eq!(run(vec![close, close, close, close, close, close]), Some(true));
    assert_eq!(run(vec![close, close, close, close, close, apart]), Some(false));
    assert_eq!(run(vec![close, apart, failed]), Some(false));
    assert_eq!(run(vec![close, failed, apart]), None);
    assert_eq!(run(vec![not_finite, apart]), None);
    assert_eq!(run(vec![close, close]), None);
    assert_eq!(run(vec![]), None);
}

#[test]
fn constants_are_decided_by_one_round() {
    let run = |e: Evaluation| expression_equivalent("1+1", "2*1", &vec![e]);
    assert_eq!(run(Evaluation::Close), Some(true));
    assert_eq!(run(Evaluation::Apart), Some(false));
    assert_eq!(run(Evaluation::NotFinite), Some(false));
    assert_eq!(run(Evaluation::Failed), None);
}

#[test]
fn compact_form_keeps_the_case() {
    assert_eq!(compact_form(" X ^ 2 +\tY "), "X**2+\tY");
    assert_eq!(compact_form("^^"), "****");
    assert_eq!(compact_form("  "), "");
}

#[test]
fn sides_are_joined_at_a_sole_equals_sign() {
    assert_eq!(join_sides("2x=y"), "(2x)-(y)");
    assert_eq!(join_sides("="), "()-()");
    assert_eq!(join_sides("x"), "x");
    assert_eq!(join_sides("a=b=c"), "a=b=c");
    assert_eq!(join_sides("a==b"), "a==b");
}

#[test]
fn names_are_collected_as_variables() {
    let names: Vec<String> =
        ["y", "pi", "x", "y", "e", "true", "false", "x1"].iter().map(|s| s.to_string()).collect();
    assert_eq!(collect_variables(&names), ["x", "x1", "y"]);
    assert!(collect_variables(&vec!["pi".to_string()]).is_empty());
}

#[test]
fn rounds_for_given_variables() {
    let rounds = plan_rounds(&vec!["x".to_string(), "y".to_string()]);
    assert_eq!(rounds.len(), 6);
    assert_eq!(rounds[0][0].name, "x");
    assert_eq!((rounds[0][0].halves, rounds[0][1].halves), (-6, -3));
    assert_eq!((rounds[5][0].halves, rounds[5][1].halves), (4, 6));
    let none = plan_rounds(&vec![]);
    assert_eq!(none.len(), 1);
    assert!(none[0].is_empty());
}

#[test]
fn hint_by_what_the_rounds_gave() {
    let close = vec![Evaluation::Close; 6];
    assert_eq!(hint_from_rounds(true, true, &close), Some(true));
    assert_eq!(hint_from_rounds(false, true, &close), None);
    assert_eq!(hint_from_rounds(false, false, &close), None);
    assert_eq!(hint_from_rounds(true, true, &vec![Evaluation::Close; 5]), None);
    assert_eq!(hint_from_rounds(true, true, &vec![Evaluation::NotFinite]), None);
    assert_eq!(hint_from_rounds(true, false, &vec![Evaluation::NotFinite]), Some(false));
    assert_eq!(hint_from_rounds(true, false, &vec![Evaluation::Close]), Some(true));
    assert_eq!(hint_from_rounds(true, false, &vec![]), None);
}

#[test]
fn hint_is_settled_by_the_first_comparison_that_decides() {
    assert_eq!(settle_hint(true, true, Some(true), Some(true)), None);
    assert_eq!(settle_hint(false, true, Some(false), Some(false)), Some(true));
    assert_eq!(settle_hint(false, false, Some(false), Some(true)), Some(false));
    assert_eq!(settle_hint(false, false, None, Some(true)), Some(true));
    assert_eq!(settle_hint(false, false, None, None), None);
}

#[test]
fn carets_and_stars_give_the_same_hint() {
    for (expected, submitted) in [("x^2", "x*x"), ("2^3", "8"), ("x^y", "x**y"), ("^", "")] {
        let stars = (expected.replace('^', "**"), submitted.replace('^', "**"));
        assert_eq!(hint(expected, submitted), hint(&stars.0, &stars.1));
        assert_eq!(normalize_equation(expected), normalize_equation(&stars.0));
    }
}

#[test]
fn spaces_do_not_matter() {
    for s in [" x + 1 = 2 ", "\t a b \n", "  ", " \t x"] {
        let closed_up = s.replace(' ', "");
        assert_eq!(normalize_plain(s), normalize_plain(&closed_up));
        assert_eq!(normalize_equation(s), normalize_equation(&closed_up));
    }
}

#[test]
fn samples_of_a_round_differ() {
    let names: Vec<String> = (0..8).map(|i| format!("x{i}")).collect();
    let rounds = plan_rounds(&names);
    for round in &rounds {
        let mut values: Vec<i64> = round.iter().map(|a| a.halves).collect();
        values.sort();
        assert_eq!(values, [-6, -3, -1, 1, 2, 4, 6, 8]);
    }
    let mut first: Vec<i64> = rounds.iter().map(|r| r[0].halves).collect();
    first.dedup();
    assert_eq!(first, [-6, -3, -1, 1, 2, 4]);
}

#[test]
fn compact_form_is_its_own() {
    for s in [" X ^ 2 = 4 ", "a = b = c", "\u{a0} 1 ^ 2\t", "", "  ", "x\u{2003} = y^ "] {
        let c = compact_form(s);
        assert!(!c.contains(' ') && !c.contains('^'));
        assert_eq!(c.trim(), c);
        assert_eq!(compact_form(&c), c);
        assert_eq!(c.matches('=').count(), s.matches('=').count());
    }
}

#[test]
fn joined_sides_stay_joined() {
    for s in ["x=1", "=", "a=b=c", "a==b", "", "x"] {
        let joined = join_sides(s);
        assert_eq!(join_sides(&joined), joined);
        if s.matches('=').count() == 1 {
            assert!(!joined.contains('='));
        } else {
            assert_eq!(joined, s);
        }
    }
}

#[test]
fn plain_and_expression_forms_are_their_own() {
    for s in [" X ^ 2 = 4 ", "A = B = C", "Sin(X)", " = ", "", "e^X", "\u{a0}Y\u{a0}"] {
        let p = normalize_plain(s);
        assert!(!p.contains(' ') && !p.contains('^'));
        assert!(!p.chars().any(|c| c.is_ascii_uppercase()));
        assert_eq!(p.trim(), p);
        assert_eq!(normalize_plain(&p), p);
        assert_eq!(p.matches('=').count(), s.matches('=').count());
        let e = normalize_equation(s);
        assert_eq!(normalize_equation(&e), e);
        if s.matches('=').count() == 1 {
            let (l, r) = p.split_once('=').unwrap();
            assert_eq!(e, format!("({l})-({r})"));
        } else {
            assert_eq!(e, p);
        }
    }
}

#[test]
fn letter_case_does_not_matter() {
    for (s, t) in [("X + Y", "x + y"), ("SIN(x)", "sin(X)"), ("A = b", "a = B")] {
        assert_eq!(normalize_plain(s), normalize_plain(t));
        assert_eq!(normalize_equation(s), normalize_equation(t));
        assert_eq!(hint(s, t), Some(true));
        assert_eq!(hint("x + y", s), hint("x + y", t));
    }
}

#[test]
fn same_plain_form_matches_though_it_cannot_be_read() {
    assert_eq!(hint("((( x", " ((( X "), Some(true));
    assert_eq!(hint("((( x", "((( y"), None);
    assert_eq!(hint("x", "  "), None);
}

#[test]
fn lower_case_of_every_character() {
    for c in (0..=0x10ffffu32).filter_map(char::from_u32) {
        let p = normalize_plain(&c.to_string());
        assert!(!p.chars().any(|d| d.is_ascii_uppercase()));
        assert_eq!(p.is_empty(), c.is_whitespace());
        if c.is_ascii() && c != '^' && !c.is_whitespace() {
            assert_eq!(p, c.to_ascii_lowercase().to_string());
        }
    }
}

#[test]
fn deeply_nested_answer_equal_to_the_expected_one_is_not_read() {
    let nested = format!("{}x", "-".repeat(1_000_000));
    let found = Findings { numbers: None, rounds: vec![] };
    assert_eq!(auto_match_answer(&nested, &nested, &found), Some(true));
    assert_eq!(auto_match_answer(&nested, " ", &found), None);
    let numbers = Findings { numbers: Some(false), rounds: vec![] };
    assert_eq!(auto_match_answer(&nested, "x", &numbers), Some(false));
    assert_eq!(auto_match_answer(&nested, "x", &found), None);
}

#[test]
fn plan_says_where_the_texts_decide() {
    assert!(plan_match("x + 1", " X+1 ").settled_by_text);
    assert!(plan_match("", "x").settled_by_text);
    assert!(plan_match("x", "  ").settled_by_text);
    assert!(!plan_match("x", "y").settled_by_text);
}
