//! What the hint on an answer is, and what the forms, the variables and the
//! sample values that it rests on are.

use vstd::prelude::*;
use crate::equation;
use crate::forms;
use crate::matching::{Evaluation, MatchPlan};
use crate::matching;
use crate::text;
use crate::variables;

verus! {

/// Whether every character of `s` is white space.
pub open spec fn blank(s: Seq<char>) -> bool {
    forall|i: int| 0 <= i < s.len() ==> text::white_space(#[trigger] s[i])
}

/// Whether `s` is not empty and white space stands at neither end.
pub open spec fn clear(s: Seq<char>) -> bool {
    s.len() > 0 && !text::white_space(s[0]) && !text::white_space(s.last())
}

/// Trimming takes off the white space at both ends, and nothing else.
pub proof fn law_trimming(before: Seq<char>, middle: Seq<char>, after: Seq<char>)
    requires
        blank(before),
        blank(after),
    ensures
        clear(middle) ==> text::trimmed(before + middle + after) == middle,
        text::trimmed(before) == Seq::<char>::empty(),
{
    if clear(middle) {
        let s = before + middle + after;
        let n = before.len() as int;
        assert forall|k: int| 0 <= k < n implies text::white_space(#[trigger] s[k]) by {
            assert(s[k] == before[k]);
        }
        text::lemma_trimmed_start_from(s, n);
        let rest = s.skip(n);
        assert(rest =~= middle + after);
        assert(rest[0] == middle[0]);
        assert forall|k: int| middle.len() <= k < rest.len() implies text::white_space(
            #[trigger] rest[k],
        ) by {
            assert(rest[k] == after[k - middle.len()]);
        }
        text::lemma_trimmed_end_from(rest, middle.len() as int);
        assert(rest.take(middle.len() as int) =~= middle);
    }
    text::lemma_trimmed_start_from(before, before.len() as int);
    assert(before.skip(before.len() as int) =~= Seq::empty());
}

/// Texts are ordered by the code points of their first characters that differ; a
/// text comes before every longer one that starts with it.
pub proof fn law_text_order(common: Seq<char>, a: Seq<char>, b: Seq<char>)
    ensures
        text::text_before(common + a, common + b) == text::text_before(a, b),
        !text::text_before(a, Seq::empty()),
        b.len() > 0 ==> text::text_before(Seq::empty(), b),
        a.len() > 0 && b.len() > 0 && a[0] != b[0] ==> text::text_before(a, b) == ((a[0] as u32) < (
        b[0] as u32)),
    decreases common.len(),
{
    if common.len() == 0 {
        assert(common + a =~= a);
        assert(common + b =~= b);
    } else {
        law_text_order(common.skip(1), a, b);
        assert((common + a).skip(1) =~= common.skip(1) + a);
        assert((common + b).skip(1) =~= common.skip(1) + b);
    }
}

/// In lower case an ASCII text has as many characters, each capital is the letter
/// 32 code points further on, and all else stays; any other text is what the
/// Unicode mapping makes of it.
pub proof fn law_lower_case(s: Seq<char>, i: int)
    ensures
        text::ascii(s) <==> forall|k: int| 0 <= k < s.len() ==> (#[trigger] s[k] as u32) <= 0x7f,
        text::ascii(s) ==> text::lowered(s).len() == s.len(),
        text::ascii(s) && 0 <= i < s.len() && 'A' <= s[i] <= 'Z' ==> text::lowered(s)[i] as u32
            == s[i] as u32 + 32,
        text::ascii(s) && 0 <= i < s.len() && !('A' <= s[i] <= 'Z') ==> text::lowered(s)[i] == s[i],
        !text::ascii(s) ==> text::lowered(s) == text::lowercase(s),
{
    if 0 <= i < s.len() && 'A' <= s[i] <= 'Z' {
        assert(65 <= s[i] as u32 <= 90);
    }
}

/// Stars for carets: part by part, two stars for a caret, and every other
/// character as it is.
pub proof fn law_stars_for_carets(a: Seq<char>, b: Seq<char>, c: char)
    ensures
        equation::carets_as_stars(a + b) == equation::carets_as_stars(a)
            + equation::carets_as_stars(b),
        equation::carets_as_stars(seq!['^']) == seq!['*', '*'],
        c != '^' ==> equation::carets_as_stars(seq![c]) == seq![c],
        equation::carets_as_stars(Seq::empty()) == Seq::<char>::empty(),
{
    forms::lemma_stars_concat(a, b);
    forms::lemma_stars_of_one('^');
    forms::lemma_stars_of_one(c);
}

/// The compact form, part by part: of two texts with white space between them, it
/// is the compact form of the one, the white space but for its spaces, and the
/// compact form of the other; white space around a text goes; a caret becomes two
/// stars; and any other character stays.
pub proof fn law_compact_form_by_parts(a: Seq<char>, between: Seq<char>, b: Seq<char>, c: char)
    requires
        clear(a),
        clear(b),
        blank(between),
        !text::white_space(c),
    ensures
        equation::compact(a + between + b) == equation::compact(a) + between.filter(
            |d: char| d != ' ',
        ) + equation::compact(b),
        equation::compact(between + a + between) == equation::compact(a),
        equation::compact(between) == Seq::<char>::empty(),
        equation::compact(seq!['^']) == seq!['*', '*'],
        c != '^' ==> equation::compact(seq![c]) == seq![c],
{
    let keep = |d: char| d != ' ';
    let none = Seq::<char>::empty();
    assert(blank(none));
    let s = a + between + b;
    assert(s.last() == b.last());
    assert(s[0] == a[0]);
    lemma_trimmed_is_itself(s);
    lemma_trimmed_is_itself(a);
    lemma_trimmed_is_itself(b);
    Seq::filter_distributes_over_add(a + between, b, keep);
    Seq::filter_distributes_over_add(a, between, keep);
    forms::lemma_stars_concat(a.filter(keep) + between.filter(keep), b.filter(keep));
    forms::lemma_stars_concat(a.filter(keep), between.filter(keep));
    let w = between.filter(keep);
    assert forall|i: int| 0 <= i < w.len() implies #[trigger] w[i] != '^' by {
        lemma_filter_member(between, i);
    }
    forms::lemma_stars_without_carets(w);
    law_trimming(between, a, between);
    law_trimming(between, a, none);
    reveal(Seq::filter);
    assert(none.filter(keep) =~= none);
    assert(equation::carets_as_stars(none) =~= none);
    lemma_compact_of_one('^');
    lemma_compact_of_one(c);
}

proof fn lemma_trimmed_is_itself(s: Seq<char>)
    requires
        clear(s),
    ensures
        text::trimmed(s) == s,
{
    let none = Seq::<char>::empty();
    assert(blank(none));
    law_trimming(none, s, none);
    assert(none + s + none =~= s);
}

proof fn lemma_filter_member(s: Seq<char>, i: int)
    requires
        0 <= i < s.filter(|d: char| d != ' ').len(),
    ensures
        s.contains(s.filter(|d: char| d != ' ')[i]),
    decreases s.len(),
{
    let keep = |d: char| d != ' ';
    reveal(Seq::filter);
    if s.len() > 0 {
        let fewer = s.drop_last();
        if i < fewer.filter(keep).len() {
            lemma_filter_member(fewer, i);
            let x = fewer.filter(keep)[i];
            let k = choose|k: int| 0 <= k < fewer.len() && fewer[k] == x;
            assert(s[k] == x);
            assert(s.filter(keep)[i] == x);
        } else {
            assert(s[s.len() - 1] == s.last());
        }
    }
}

proof fn lemma_compact_of_one(c: char)
    requires
        !text::white_space(c),
    ensures
        equation::compact(seq![c]) == if c == '^' {
            seq!['*', '*']
        } else {
            seq![c]
        },
{
    let keep = |d: char| d != ' ';
    let s = seq![c];
    lemma_trimmed_is_itself(s);
    forms::lemma_filter_without_spaces(s);
    forms::lemma_stars_of_one(c);
}

/// The plain form is the compact form in lower case.
pub proof fn law_plain_is_compact_in_lower_case(s: Seq<char>)
    ensures
        text::ascii(equation::compact(s)) ==> equation::plain(s) == text::ascii_lowered(
            equation::compact(s),
        ),
        !text::ascii(equation::compact(s)) ==> equation::plain(s) == text::lowercase(
            equation::compact(s),
        ),
{
}

/// An answer as an expression: with exactly one `=` in its plain form the left
/// side minus the right side, each in brackets, and else the plain form.
pub proof fn law_expression_of_an_answer(s: Seq<char>, l: Seq<char>, r: Seq<char>)
    ensures
        equation::plain(s) == l + seq!['='] + r && !l.contains('=') && !r.contains('=')
            ==> equation::as_expression(s) == seq!['('] + l + seq![')', '-', '('] + r + seq![')'],
        text::count_of(equation::plain(s), '=') != 1 ==> equation::as_expression(s)
            == equation::plain(s),
        text::count_of(l, '=') == 0 <==> !l.contains('='),
        text::count_of(l.push('='), '=') == text::count_of(l, '=') + 1,
{
    let p = equation::plain(s);
    forms::lemma_sole_equals_is_one(p);
    forms::lemma_count_none(l, '=');
    assert(l.push('=').drop_last() =~= l);
    if p == l + seq!['='] + r && !l.contains('=') && !r.contains('=') {
        let i = l.len() as int;
        assert forall|k: int| 0 <= k < p.len() && k != i implies p[k] != '=' by {
            if k < i {
                assert(p[k] == l[k]);
            } else {
                assert(p[k] == r[k - i - 1]);
            }
        }
        assert(p[i] == '=');
        forms::lemma_sides_joined_at(p, i);
        assert(p.take(i) =~= l);
        assert(p.skip(i + 1) =~= r);
        reveal_strlit("(");
        reveal_strlit(")-(");
        reveal_strlit(")");
        assert("("@ =~= seq!['(']);
        assert(")-("@ =~= seq![')', '-', '(']);
        assert(")"@ =~= seq![')']);
    }
}

/// Whether a name can start with `c`: a letter or an underscore.
pub open spec fn starts_name(c: char) -> bool {
    ('a' <= c && c <= 'z') || ('A' <= c && c <= 'Z') || c == '_'
}

/// Whether a name can go on with `c`: a letter, an underscore or a digit.
pub open spec fn continues_name(c: char) -> bool {
    starts_name(c) || ('0' <= c && c <= '9')
}

/// The first name of a text starts at the first character that can start one and
/// goes on as long as it can; the other names are those of what follows; and
/// without such a character there is no name.
pub proof fn law_names(before: Seq<char>, name: Seq<char>, after: Seq<char>)
    requires
        forall|i: int| 0 <= i < before.len() ==> !starts_name(#[trigger] before[i]),
    ensures
        variables::identifiers(before) == Seq::<Seq<char>>::empty(),
        name.len() > 0 && starts_name(name[0]) && (forall|i: int|
            0 <= i < name.len() ==> continues_name(#[trigger] name[i])) && (after.len() > 0
            ==> !continues_name(after[0])) ==> variables::identifiers(before + name + after)
            == seq![name] + variables::identifiers(after),
    decreases before.len(),
{
    if before.len() > 0 {
        let rest = before.skip(1);
        assert(!starts_name(before[0]));
        assert forall|i: int| 0 <= i < rest.len() implies !starts_name(#[trigger] rest[i]) by {
            assert(rest[i] == before[i + 1]);
        }
        law_names(rest, name, after);
        assert((before + name + after).skip(1) =~= rest + name + after);
        assert((before + name + after)[0] == before[0]);
        assert(!variables::name_start(before[0]));
    } else if name.len() > 0 && starts_name(name[0]) && (forall|i: int|
        0 <= i < name.len() ==> continues_name(#[trigger] name[i])) && (after.len() > 0
        ==> !continues_name(after[0])) {
        let s = before + name + after;
        assert(s =~= name + after);
        lemma_run(name, after);
        assert(s.take(name.len() as int) =~= name);
        assert(s.skip(name.len() as int) =~= after);
        assert(s[0] == name[0]);
        assert(variables::name_start(s[0]));
    }
}

proof fn lemma_run(name: Seq<char>, after: Seq<char>)
    requires
        forall|i: int| 0 <= i < name.len() ==> continues_name(#[trigger] name[i]),
        after.len() > 0 ==> !continues_name(after[0]),
    ensures
        variables::run_length(name + after) == name.len(),
    decreases name.len(),
{
    let s = name + after;
    if name.len() == 0 {
        assert(s =~= after);
        if after.len() > 0 {
            assert(!variables::name_part(after[0]));
        }
    } else {
        let rest = name.skip(1);
        assert(continues_name(name[0]));
        assert(variables::name_part(s[0]));
        assert forall|i: int| 0 <= i < rest.len() implies continues_name(#[trigger] rest[i]) by {
            assert(rest[i] == name[i + 1]);
        }
        lemma_run(rest, after);
        assert(s.skip(1) =~= rest + after);
    }
}

/// The variables of two expressions are their names in lower case, but for `pi`,
/// `e`, `true` and `false`, each once, in ascending order.
pub proof fn law_variables(a: Seq<char>, b: Seq<char>, v: Seq<char>)
    ensures
        ({
            let vars = variables::variables(a, b);
            let names = variables::identifiers(a) + variables::identifiers(b);
            let named = exists|i: int|
                0 <= i < names.len() && text::lowered(#[trigger] names[i]) == v;
            &&& vars.contains(v) <==> named && v != "pi"@ && v != "e"@ && v != "true"@ && v
                != "false"@
            &&& forall|i: int, j: int|
                0 <= i < j < vars.len() ==> text::text_before(#[trigger] vars[i], #[trigger] vars[j])
        }),
{
    let names = variables::identifiers(a) + variables::identifiers(b);
    let low = variables::lowered_names(a, b);
    let list = variables::lemma_variable_list_exists(low);
    variables::lemma_variables_unique(low, list);
    let named = exists|i: int| 0 <= i < names.len() && text::lowered(#[trigger] names[i]) == v;
    if named {
        let i = choose|i: int| 0 <= i < names.len() && text::lowered(#[trigger] names[i]) == v;
        assert(low[i] == v);
    }
    if low.contains(v) {
        let i = choose|i: int| 0 <= i < low.len() && low[i] == v;
        assert(text::lowered(names[i]) == v);
    }
}

/// What is planned to be compared: the answers without the white space around
/// them as numbers, within ten to the minus 9; and as expressions. Without
/// variables these are compared once, within ten to the minus 7. With variables,
/// however many, they are compared in six rounds within ten to the minus 6: the
/// variable at `j` is given, in round `i`, the value at `i + j`, counted round the
/// list, among -3, -1.5, -0.5, 0.5, 1, 2, 3 and 4. Nothing has to be compared if an
/// answer is blank or the plain forms are the same.
pub proof fn law_plan(plan: MatchPlan, expected: Seq<char>, answer: Seq<char>, i: int, j: int)
    requires
        matching::plan_for(plan, expected, answer),
    ensures
        ({
            let e = equation::as_expression(expected);
            let s = equation::as_expression(answer);
            let vars = variables::variables(e, s);
            let doubled = seq![-6i64, -3i64, -1i64, 1i64, 2i64, 4i64, 6i64, 8i64];
            &&& plan.left@ == text::trimmed(expected) && plan.right@ == text::trimmed(answer)
            &&& plan.expected_expression@ == e && plan.submitted_expression@ == s
            &&& plan.settled_by_text <==> text::trimmed(expected).len() == 0 || text::trimmed(
                answer,
            ).len() == 0 || equation::plain(expected) == equation::plain(answer)
            &&& matching::NUMBER_TOLERANCE == 9
            &&& vars.len() == 0 ==> plan.tolerance == 7 && plan.rounds@.len() == 1
                && plan.rounds@[0]@.len() == 0
            &&& vars.len() > 0 ==> plan.tolerance == 6 && plan.rounds@.len() == 6
            &&& vars.len() > 0 && 0 <= i < 6 ==> plan.rounds@[i]@.len() == vars.len()
            &&& 0 <= i < 6 && 0 <= j < vars.len() ==> plan.rounds@[i]@[j].name@ == vars[j]
                && plan.rounds@[i]@[j].halves == doubled[(i + j) % 8]
        }),
{
    let vars = variables::variables(plan.expected_expression@, plan.submitted_expression@);
    forms::lemma_compact_of_trimmed(expected);
    forms::lemma_compact_of_trimmed(answer);
    let shown = matching::rounds_view(plan.rounds@);
    assert(shown.len() == plan.rounds@.len());
    assert(shown == matching::planned_rounds(vars));
    if vars.len() == 0 {
        assert(shown[0] == matching::round_view(plan.rounds@[0]@));
        assert(shown[0].len() == plan.rounds@[0]@.len());
    } else if 0 <= i < 6 {
        let round = plan.rounds@[i]@;
        assert(shown[i] == matching::round_view(round));
        assert(shown[i] == matching::planned_round(vars, i));
        assert(shown[i].len() == round.len());
        if 0 <= j < vars.len() {
            assert(shown[i][j] == (round[j].name@, round[j].halves));
        }
    }
}

/// Whether round `k` was evaluated and gave `e`.
pub open spec fn gave(rounds: Seq<Evaluation>, k: int, e: Evaluation) -> bool {
    k < rounds.len() && rounds[k] == e
}

/// Whether the first `k` rounds were all close.
pub open spec fn close_before(rounds: Seq<Evaluation>, k: int) -> bool {
    forall|i: int| 0 <= i < k ==> #[trigger] gave(rounds, i, Evaluation::Close)
}

/// Whether nothing but the values of two answers as expressions can tell whether
/// they are equivalent: neither is blank, their plain forms differ, and both can
/// be read.
pub open spec fn told_by_expressions(expected: Seq<char>, submitted: Seq<char>) -> bool {
    &&& text::trimmed(expected).len() > 0 && text::trimmed(submitted).len() > 0
    &&& equation::plain(expected) != equation::plain(submitted)
    &&& matching::readable(equation::as_expression(expected))
    &&& matching::readable(equation::as_expression(submitted))
}

/// The hint on two answers with variables, however many, that only their values as
/// expressions can tell: `true` exactly if all six rounds were close; else the first
/// round that was not close decides, with `false` if it was apart, and with no hint
/// if it failed, was not evaluated or was not finite.
pub proof fn law_hint_with_variables(
    expected: Seq<char>,
    submitted: Seq<char>,
    rounds: Seq<Evaluation>,
    k: int,
)
    requires
        told_by_expressions(expected, submitted),
        variables::variables(
            equation::as_expression(expected),
            equation::as_expression(submitted),
        ).len() > 0,
    ensures
        ({
            let hint = matching::answer_hint(expected, submitted, None, rounds);
            &&& hint == Some(true) <==> close_before(rounds, 6)
            &&& 0 <= k < 6 && close_before(rounds, k) && gave(rounds, k, Evaluation::Apart)
                ==> hint == Some(false)
            &&& 0 <= k < 6 && close_before(rounds, k) && !gave(rounds, k, Evaluation::Close)
                && !gave(rounds, k, Evaluation::Apart) ==> hint is None
            &&& hint == Some(false) ==> exists|m: int|
                0 <= m < 6 && close_before(rounds, m) && #[trigger] gave(
                    rounds,
                    m,
                    Evaluation::Apart,
                )
        }),
{
    forms::lemma_compact_of_trimmed(expected);
    forms::lemma_compact_of_trimmed(submitted);
    assert(matching::answer_hint(expected, submitted, None, rounds) == matching::sampled_hint(
        rounds,
        0,
    ));
    if 0 <= k < 6 && close_before(rounds, k) {
        lemma_close_rounds(rounds, k);
    }
    lemma_sampled_from(rounds, 0);
}

/// Where the first `k` rounds were close, the rounds from `k` on decide.
proof fn lemma_close_rounds(rounds: Seq<Evaluation>, k: int)
    requires
        0 <= k <= 6,
        close_before(rounds, k),
    ensures
        matching::sampled_hint(rounds, 0) == matching::sampled_hint(rounds, k),
    decreases k,
{
    if k > 0 {
        assert(close_before(rounds, k - 1)) by {
            assert forall|i: int| 0 <= i < k - 1 implies #[trigger] gave(
                rounds,
                i,
                Evaluation::Close,
            ) by {}
        }
        lemma_close_rounds(rounds, k - 1);
        assert(gave(rounds, k - 1, Evaluation::Close));
    }
}

/// What the hint from round `i` on, where those before were close, says of the rounds.
proof fn lemma_sampled_from(rounds: Seq<Evaluation>, i: int)
    requires
        0 <= i <= 6,
        close_before(rounds, i),
    ensures
        matching::sampled_hint(rounds, i) == Some(true) <==> close_before(rounds, 6),
        matching::sampled_hint(rounds, i) == Some(false) ==> exists|m: int|
            0 <= m < 6 && close_before(rounds, m) && #[trigger] gave(rounds, m, Evaluation::Apart),
    decreases 6 - i,
{
    if i < 6 {
        if gave(rounds, i, Evaluation::Close) {
            assert(close_before(rounds, i + 1)) by {
                assert forall|m: int| 0 <= m < i + 1 implies #[trigger] gave(
                    rounds,
                    m,
                    Evaluation::Close,
                ) by {}
            }
            lemma_sampled_from(rounds, i + 1);
        } else if gave(rounds, i, Evaluation::Apart) {
            assert(!gave(rounds, i, Evaluation::Close));
        } else {
            assert(!gave(rounds, i, Evaluation::Close));
        }
    }
}

/// The hint on two answers without variables that only their values as expressions
/// can tell: `true` exactly if the one round was close, `false` exactly if it was
/// apart or not finite, and none if it failed or was not evaluated.
pub proof fn law_hint_without_variables(
    expected: Seq<char>,
    submitted: Seq<char>,
    rounds: Seq<Evaluation>,
)
    requires
        told_by_expressions(expected, submitted),
        variables::variables(
            equation::as_expression(expected),
            equation::as_expression(submitted),
        ).len() == 0,
    ensures
        ({
            let hint = matching::answer_hint(expected, submitted, None, rounds);
            &&& hint == Some(true) <==> gave(rounds, 0, Evaluation::Close)
            &&& hint == Some(false) <==> gave(rounds, 0, Evaluation::Apart) || gave(
                rounds,
                0,
                Evaluation::NotFinite,
            )
        }),
{
    forms::lemma_compact_of_trimmed(expected);
    forms::lemma_compact_of_trimmed(submitted);
}

/// Two numbers that are not blank and have different plain forms match exactly if
/// they are equal within the tolerance, whatever they give as expressions.
pub proof fn law_hint_on_numbers(
    expected: Seq<char>,
    submitted: Seq<char>,
    equal: bool,
    rounds: Seq<Evaluation>,
)
    requires
        text::trimmed(expected).len() > 0,
        text::trimmed(submitted).len() > 0,
        equation::plain(expected) != equation::plain(submitted),
    ensures
        matching::answer_hint(expected, submitted, Some(equal), rounds) == Some(equal),
{
    forms::lemma_compact_of_trimmed(expected);
    forms::lemma_compact_of_trimmed(submitted);
}

/// The hint on two answers as expressions alone, also where their plain forms are
/// the same: none if one cannot be read; with variables, however many, by the six
/// rounds, of which the first that was not close decides; without by the one round.
pub proof fn law_expression_hint(
    expected: Seq<char>,
    submitted: Seq<char>,
    rounds: Seq<Evaluation>,
    k: int,
)
    ensures
        ({
            let e = equation::as_expression(expected);
            let s = equation::as_expression(submitted);
            let read = matching::readable(e) && matching::readable(s);
            let varied = variables::variables(e, s).len() > 0;
            let hint = matching::expression_hint(expected, submitted, rounds);
            &&& !read ==> hint is None
            &&& read && varied ==> (hint == Some(true) <==> close_before(rounds, 6))
            &&& read && varied && 0 <= k < 6 && close_before(rounds, k) && gave(
                rounds,
                k,
                Evaluation::Apart,
            ) ==> hint == Some(false)
            &&& read && varied && 0 <= k < 6 && close_before(rounds, k) && !gave(
                rounds,
                k,
                Evaluation::Close,
            ) && !gave(rounds, k, Evaluation::Apart) ==> hint is None
            &&& read && !varied ==> (hint == Some(true) <==> gave(rounds, 0, Evaluation::Close))
            &&& read && !varied ==> (hint == Some(false) <==> gave(rounds, 0, Evaluation::Apart)
                || gave(rounds, 0, Evaluation::NotFinite))
        }),
{
    lemma_sampled_from(rounds, 0);
    if 0 <= k < 6 && close_before(rounds, k) {
        lemma_close_rounds(rounds, k);
    }
}

} // verus!
