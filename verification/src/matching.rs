//! The hint on a submitted answer: whether it seems equivalent to the expected one.
//!
//! Numbers and expressions are compared as floating-point values by the caller.
//! [`plan_match`] says what there is to compare, and [`auto_match_answer`] draws
//! the hint from what the comparisons gave.

use vstd::prelude::*;
use crate::equation;
use crate::forms;
use crate::text;
use crate::variables;

verus! {

/// Two numbers count as equal within ten to the minus this.
pub const NUMBER_TOLERANCE: u32 = 9;

/// Two expressions without variables count as equal within ten to the minus this.
pub const CONSTANT_TOLERANCE: u32 = 7;

/// Two expressions with variables count as equal, in each round, within ten to
/// the minus this.
pub const SAMPLED_TOLERANCE: u32 = 6;

/// How many rounds of sample values are tried on expressions with variables.
pub const ROUNDS: usize = 6;

/// How many sample values there are.
pub const SAMPLES: usize = 8;

/// What the evaluation of the two expressions of a round gave.
#[derive(Clone, Copy, Debug, PartialEq, Eq, Structural)]
pub enum Evaluation {
    /// One of the two could not be evaluated to a number.
    Failed,
    /// Both are numbers, and one of them is infinite or not a number.
    NotFinite,
    /// Both are finite and differ by no more than the tolerance.
    Close,
    /// Both are finite and differ by more than the tolerance.
    Apart,
}

/// What the comparisons of an expected and a submitted answer gave.
#[derive(Debug)]
pub struct Findings {
    /// If both answers are plain numbers, whether they are equal within the tolerance.
    pub numbers: Option<bool>,
    /// The outcome of each round that was evaluated, from the first on.
    pub rounds: Vec<Evaluation>,
}

/// A variable and the sample value it is given, in halves.
#[derive(Debug)]
pub struct Assignment {
    pub name: String,
    pub halves: i64,
}

/// What there is to compare for a hint.
#[derive(Debug)]
pub struct MatchPlan {
    /// The expected answer, trimmed.
    pub left: String,
    /// The submitted answer, trimmed.
    pub right: String,
    /// Whether the texts alone decide, so that nothing has to be compared.
    pub settled_by_text: bool,
    /// The expected answer as one expression.
    pub expected_expression: String,
    /// The submitted answer as one expression.
    pub submitted_expression: String,
    /// The values for the variables, round by round.
    pub rounds: Vec<Vec<Assignment>>,
    /// The two values of a round are close within ten to the minus this.
    pub tolerance: u32,
}

/// The sample values, in halves: -3, -1.5, -0.5, 0.5, 1, 2, 3 and 4.
pub open spec fn samples() -> Seq<i64> {
    seq![-6i64, -3i64, -1i64, 1i64, 2i64, 4i64, 6i64, 8i64]
}

/// The assignments of a round, as pairs.
pub open spec fn round_view(round: Seq<Assignment>) -> Seq<(Seq<char>, i64)> {
    round.map_values(|a: Assignment| (a.name@, a.halves))
}

/// The assignments of all rounds, as pairs.
pub open spec fn rounds_view(rounds: Seq<Vec<Assignment>>) -> Seq<Seq<(Seq<char>, i64)>> {
    rounds.map_values(|r: Vec<Assignment>| round_view(r@))
}

/// In round `i` the variable at `j` is given the sample at `i + j`, counted round the list.
pub open spec fn planned_round(vars: Seq<Seq<char>>, i: int) -> Seq<(Seq<char>, i64)> {
    Seq::new(vars.len(), |j: int| (vars[j], samples()[(i + j) % (SAMPLES as int)]))
}

/// One round without values where there are no variables, else all rounds of samples.
pub open spec fn planned_rounds(vars: Seq<Seq<char>>) -> Seq<Seq<(Seq<char>, i64)>> {
    if vars.len() == 0 {
        seq![Seq::empty()]
    } else {
        Seq::new(ROUNDS as nat, |i: int| planned_round(vars, i))
    }
}

/// Whether a plan is the one for this expected and this submitted answer.
pub open spec fn plan_for(
    plan: MatchPlan,
    expected: Seq<char>,
    answer: Seq<char>,
) -> bool {
    let vars = variables::variables(plan.expected_expression@, plan.submitted_expression@);
    &&& plan.left@ == text::trimmed(expected)
    &&& plan.right@ == text::trimmed(answer)
    &&& plan.settled_by_text == (plan.left@.len() == 0 || plan.right@.len() == 0
        || equation::plain(plan.left@) == equation::plain(plan.right@))
    &&& plan.expected_expression@ == equation::as_expression(plan.left@)
    &&& plan.submitted_expression@ == equation::as_expression(plan.right@)
    &&& rounds_view(plan.rounds@) == planned_rounds(vars)
    &&& plan.tolerance == if vars.len() == 0 {
        CONSTANT_TOLERANCE
    } else {
        SAMPLED_TOLERANCE
    }
}

/// Whether `evalexpr` can read the text as an expression.
pub uninterp spec fn readable(expression: Seq<char>) -> bool;

/// `evalexpr::build_operator_tree`: whether it accepts the text depends on the
/// characters alone, and is called [`readable`] here. Which texts it accepts is
/// not stated. It recurses into nested operators, so it needs stack in proportion
/// to how deep they are nested.
#[verifier::external_body]
fn is_readable(expression: &str) -> (r: bool)
    ensures
        r == readable(expression@),
{
    evalexpr::build_operator_tree(expression).is_ok()
}

/// The outcome of round `i`; a round that was not evaluated counts as failed.
pub open spec fn outcome(rounds: Seq<Evaluation>, i: int) -> Evaluation {
    if 0 <= i < rounds.len() {
        rounds[i]
    } else {
        Evaluation::Failed
    }
}

/// The hint from round `i` on: the first round that is not close decides.
pub open spec fn sampled_hint(rounds: Seq<Evaluation>, i: int) -> Option<bool>
    decreases ROUNDS - i,
{
    if i >= ROUNDS {
        Some(true)
    } else {
        match outcome(rounds, i) {
            Evaluation::Close => sampled_hint(rounds, i + 1),
            Evaluation::Apart => Some(false),
            Evaluation::NotFinite => None,
            Evaluation::Failed => None,
        }
    }
}

/// The hint on two expressions without variables.
pub open spec fn constant_hint(rounds: Seq<Evaluation>) -> Option<bool> {
    match outcome(rounds, 0) {
        Evaluation::Close => Some(true),
        Evaluation::Apart => Some(false),
        Evaluation::NotFinite => Some(false),
        Evaluation::Failed => None,
    }
}

/// The hint on two expressions, by whether both can be read and whether they
/// have variables.
pub open spec fn rounds_hint(
    both_readable: bool,
    with_variables: bool,
    rounds: Seq<Evaluation>,
) -> Option<bool> {
    if !both_readable {
        None
    } else if with_variables {
        sampled_hint(rounds, 0)
    } else {
        constant_hint(rounds)
    }
}

/// The hint on two answers as expressions.
pub open spec fn expression_hint(
    expected: Seq<char>,
    submitted: Seq<char>,
    rounds: Seq<Evaluation>,
) -> Option<bool> {
    let e = equation::as_expression(expected);
    let s = equation::as_expression(submitted);
    rounds_hint(readable(e) && readable(s), variables::variables(e, s).len() > 0, rounds)
}

/// The hint on two answers: none if one of them is blank, `true` if they are the
/// same text, else by their values as numbers, else by their values as expressions.
pub open spec fn settled_hint(
    blank: bool,
    same: bool,
    numbers: Option<bool>,
    as_expressions: Option<bool>,
) -> Option<bool> {
    if blank {
        None
    } else if same {
        Some(true)
    } else if numbers is Some {
        numbers
    } else {
        as_expressions
    }
}

/// The hint on a submitted answer.
pub open spec fn answer_hint(
    expected: Seq<char>,
    submitted: Seq<char>,
    numbers: Option<bool>,
    rounds: Seq<Evaluation>,
) -> Option<bool> {
    let left = text::trimmed(expected);
    let right = text::trimmed(submitted);
    settled_hint(
        left.len() == 0 || right.len() == 0,
        equation::plain(left) == equation::plain(right),
        numbers,
        expression_hint(left, right, rounds),
    )
}

/// The sample value at `k`, in halves.
fn sample(k: usize) -> (r: i64)
    requires
        k < SAMPLES,
    ensures
        r == samples()[k as int],
{
    match k {
        0 => -6,
        1 => -3,
        2 => -1,
        3 => 1,
        4 => 2,
        5 => 4,
        6 => 6,
        _ => 8,
    }
}

/// The rounds of sample values for these variables.
pub fn plan_rounds(vars: &Vec<String>) -> (rounds: Vec<Vec<Assignment>>)
    ensures
        rounds_view(rounds@) == planned_rounds(variables::texts(vars@)),
{
    let ghost names = variables::texts(vars@);
    let mut rounds: Vec<Vec<Assignment>> = Vec::new();
    if vars.len() == 0 {
        let none: Vec<Assignment> = Vec::new();
        rounds.push(none);
        assert(round_view(rounds@[0]@) =~= Seq::empty());
        assert(rounds_view(rounds@) =~= planned_rounds(names));
        return rounds;
    }
    let mut i: usize = 0;
    while i < ROUNDS
        invariant
            0 <= i <= ROUNDS,
            names == variables::texts(vars@),
            rounds@.len() == i,
            forall|k: int|
                0 <= k < i ==> round_view(#[trigger] rounds@[k]@) == planned_round(names, k),
        decreases ROUNDS - i,
    {
        let mut round: Vec<Assignment> = Vec::new();
        let mut j: usize = 0;
        while j < vars.len()
            invariant
                0 <= i < ROUNDS,
                0 <= j <= vars@.len(),
                names == variables::texts(vars@),
                round@.len() == j,
                forall|k: int|
                    0 <= k < j ==> round_view(round@)[k] == #[trigger] planned_round(
                        names,
                        i as int,
                    )[k],
            decreases vars@.len() - j,
        {
            let halves = sample((i + j % SAMPLES) % SAMPLES);
            assert((i + j % SAMPLES) % (SAMPLES as int) == (i + j) % (SAMPLES as int));
            let ghost before = round@;
            round.push(Assignment { name: vars[j].clone(), halves });
            assert forall|k: int| 0 <= k < j + 1 implies round_view(round@)[k]
                == #[trigger] planned_round(names, i as int)[k] by {
                if k < j {
                    assert(round_view(round@)[k] == round_view(before)[k]);
                } else {
                    assert(names[j as int] == vars@[j as int]@);
                }
            }
            j += 1;
        }
        assert(round_view(round@) =~= planned_round(names, i as int));
        rounds.push(round);
        i += 1;
    }
    assert(rounds_view(rounds@) =~= planned_rounds(names));
    rounds
}

/// What there is to compare for a hint on the submitted answer.
pub fn plan_match(expected: &str, submitted: &str) -> (plan: MatchPlan)
    ensures
        plan_for(plan, expected@, submitted@),
{
    let left = text::trim(expected);
    let right = text::trim(submitted);
    let left_plain = equation::normalize_plain(left.as_str());
    let right_plain = equation::normalize_plain(right.as_str());
    let settled_by_text = left.as_str().is_empty() || right.as_str().is_empty() || text::same_text(
        left_plain.as_str(),
        right_plain.as_str(),
    );
    let expected_expression = equation::join_sides(left_plain.as_str());
    let submitted_expression = equation::join_sides(right_plain.as_str());
    let vars = variables::extract_variables(
        expected_expression.as_str(),
        submitted_expression.as_str(),
    );
    assert(variables::texts(vars@).len() == vars@.len());
    let rounds = plan_rounds(&vars);
    let tolerance = if vars.len() == 0 {
        CONSTANT_TOLERANCE
    } else {
        SAMPLED_TOLERANCE
    };
    MatchPlan {
        left,
        right,
        settled_by_text,
        expected_expression,
        submitted_expression,
        rounds,
        tolerance,
    }
}

fn round_outcome(rounds: &Vec<Evaluation>, i: usize) -> (r: Evaluation)
    ensures
        r == outcome(rounds@, i as int),
{
    if i < rounds.len() {
        rounds[i]
    } else {
        Evaluation::Failed
    }
}

/// The hint on two expressions from the outcomes of the planned rounds, by
/// whether both can be read and whether they have variables.
pub fn hint_from_rounds(both_readable: bool, with_variables: bool, rounds: &Vec<Evaluation>) -> (r:
    Option<bool>)
    ensures
        r == rounds_hint(both_readable, with_variables, rounds@),
{
    if !both_readable {
        return None;
    }
    if !with_variables {
        return match round_outcome(rounds, 0) {
            Evaluation::Close => Some(true),
            Evaluation::Apart => Some(false),
            Evaluation::NotFinite => Some(false),
            Evaluation::Failed => None,
        };
    }
    let mut i: usize = 0;
    while i < ROUNDS
        invariant
            0 <= i <= ROUNDS,
            both_readable,
            with_variables,
            sampled_hint(rounds@, 0) == sampled_hint(rounds@, i as int),
        decreases ROUNDS - i,
    {
        match round_outcome(rounds, i) {
            Evaluation::Close => {},
            Evaluation::Apart => {
                return Some(false);
            },
            Evaluation::NotFinite => {
                return None;
            },
            Evaluation::Failed => {
                return None;
            },
        }
        i += 1;
    }
    Some(true)
}

/// The hint on two answers as expressions, from the outcomes of the planned
/// rounds. Where the first round failed there is none, and nothing is read.
pub fn expression_equivalent(expected: &str, submitted: &str, rounds: &Vec<Evaluation>) -> (r: Option<
    bool,
>)
    ensures
        r == expression_hint(expected@, submitted@, rounds@),
{
    if rounds.len() == 0 || rounds[0] == Evaluation::Failed {
        assert(outcome(rounds@, 0) == Evaluation::Failed);
        return None;
    }
    let expected_expression = equation::normalize_equation(expected);
    let submitted_expression = equation::normalize_equation(submitted);
    let both_readable = is_readable(expected_expression.as_str()) && is_readable(
        submitted_expression.as_str(),
    );
    let vars = variables::extract_variables(
        expected_expression.as_str(),
        submitted_expression.as_str(),
    );
    assert(variables::texts(vars@).len() == vars@.len());
    hint_from_rounds(both_readable, vars.len() > 0, rounds)
}

/// The hint on two answers, by how they compare as texts, as numbers and as expressions.
pub fn settle_hint(
    blank: bool,
    same: bool,
    numbers: Option<bool>,
    as_expressions: Option<bool>,
) -> (r: Option<bool>)
    ensures
        r == settled_hint(blank, same, numbers, as_expressions),
{
    if blank {
        return None;
    }
    if same {
        return Some(true);
    }
    match numbers {
        Some(close) => Some(close),
        None => as_expressions,
    }
}

/// The hint on a submitted answer, from what the planned comparisons gave. Two
/// answers that are not blank and have the same plain form always match; to
/// have the plain form of one that is not blank, an answer cannot be blank.
pub fn auto_match_answer(expected: &str, submitted: &str, findings: &Findings) -> (r: Option<bool>)
    ensures
        r == answer_hint(expected@, submitted@, findings.numbers, findings.rounds@),
        text::trimmed(expected@).len() > 0 && equation::plain(expected@) == equation::plain(
            submitted@,
        ) ==> r == Some(true),
{
    let left = text::trim(expected);
    let right = text::trim(submitted);
    let left_plain = equation::normalize_plain(left.as_str());
    let right_plain = equation::normalize_plain(right.as_str());
    proof {
        forms::lemma_trimmed_twice(expected@);
        forms::lemma_trimmed_twice(submitted@);
    }
    let blank = left.as_str().is_empty() || right.as_str().is_empty();
    let same = text::same_text(left_plain.as_str(), right_plain.as_str());
    let as_expressions = if blank || same || findings.numbers.is_some() {
        None
    } else {
        expression_equivalent(left.as_str(), right.as_str(), &findings.rounds)
    };
    settle_hint(blank, same, findings.numbers, as_expressions)
}

} // verus!
