//! Facts about the forms of an answer: what trimming, closing up, stars for
//! carets and lower case do to each other.

use vstd::prelude::*;
use crate::equation;
use crate::text;

verus! {

/// Whether white space stands at neither end of `s`.
pub open spec fn ends_clear(s: Seq<char>) -> bool {
    s.len() > 0 ==> !text::white_space(s[0]) && !text::white_space(s.last())
}

/// Whether `s` is its own compact form: clear ends, no space and no caret.
pub open spec fn is_compact(s: Seq<char>) -> bool {
    &&& ends_clear(s)
    &&& forall|i: int| 0 <= i < s.len() ==> (#[trigger] s[i]) != ' ' && s[i] != '^'
}

/// Stars for carets in a text that is put together are put in part by part.
pub proof fn lemma_stars_concat(a: Seq<char>, b: Seq<char>)
    ensures
        equation::carets_as_stars(a + b) == equation::carets_as_stars(a) + equation::carets_as_stars(b),
    decreases b.len(),
{
    if b.len() == 0 {
        assert(a + b =~= a);
        assert(equation::carets_as_stars(a) + equation::carets_as_stars(b) =~= equation::carets_as_stars(a));
    } else {
        lemma_stars_concat(a, b.drop_last());
        assert((a + b).drop_last() =~= a + b.drop_last());
        assert(equation::carets_as_stars(a + b) =~= equation::carets_as_stars(a) + equation::carets_as_stars(b));
    }
}

/// What a single character becomes.
pub proof fn lemma_stars_of_one(c: char)
    ensures
        equation::carets_as_stars(seq![c]) == if c == '^' {
            seq!['*', '*']
        } else {
            seq![c]
        },
{
    assert(seq![c].drop_last() =~= Seq::empty());
    assert(equation::carets_as_stars(seq![c].drop_last()) =~= Seq::empty());
    assert(equation::carets_as_stars(seq![c]) =~= if c == '^' {
        seq!['*', '*']
    } else {
        seq![c]
    });
}

proof fn lemma_trimmed_start_of_stars(s: Seq<char>)
    ensures
        text::trimmed_start(equation::carets_as_stars(s)) == equation::carets_as_stars(text::trimmed_start(s)),
    decreases s.len(),
{
    if s.len() > 0 {
        let rest = s.skip(1);
        assert(s =~= seq![s[0]] + rest);
        lemma_stars_concat(seq![s[0]], rest);
        lemma_stars_of_one(s[0]);
        if text::white_space(s[0]) {
            lemma_trimmed_start_of_stars(rest);
            assert(equation::carets_as_stars(s).skip(1) =~= equation::carets_as_stars(rest));
        }
    }
}

proof fn lemma_trimmed_end_of_stars(s: Seq<char>)
    ensures
        text::trimmed_end(equation::carets_as_stars(s)) == equation::carets_as_stars(text::trimmed_end(s)),
    decreases s.len(),
{
    if s.len() > 0 && text::white_space(s.last()) {
        lemma_trimmed_end_of_stars(s.drop_last());
        assert(equation::carets_as_stars(s).drop_last() =~= equation::carets_as_stars(s.drop_last()));
    }
}

/// It makes no difference whether stars are put in before or after trimming, and
/// they leave no text blank that was not.
pub proof fn lemma_trimmed_of_stars(s: Seq<char>)
    ensures
        text::trimmed(equation::carets_as_stars(s)) == equation::carets_as_stars(text::trimmed(s)),
        text::trimmed(equation::carets_as_stars(s)).len() == 0 <==> text::trimmed(s).len() == 0,
{
    lemma_trimmed_start_of_stars(s);
    lemma_trimmed_end_of_stars(text::trimmed_start(s));
}

proof fn lemma_filter_of_stars(s: Seq<char>)
    ensures
        equation::carets_as_stars(s).filter(|c: char| c != ' ') == equation::carets_as_stars(
            s.filter(|c: char| c != ' '),
        ),
    decreases s.len(),
{
    let keep = |c: char| c != ' ';
    reveal(Seq::filter);
    if s.len() > 0 {
        lemma_filter_of_stars(s.drop_last());
        let before = equation::carets_as_stars(s.drop_last());
        let kept = s.drop_last().filter(keep);
        if s.last() == '^' {
            let once = before.push('*');
            let twice = before + seq!['*', '*'];
            assert(twice.drop_last() =~= once);
            assert(once.drop_last() =~= before);
            assert(twice.filter(keep) == once.filter(keep).push('*'));
            assert(once.filter(keep) == before.filter(keep).push('*'));
            assert(s.filter(keep) == kept.push('^'));
            assert(kept.push('^').drop_last() =~= kept);
            assert(twice.filter(keep) =~= equation::carets_as_stars(kept) + seq!['*', '*']);
        } else {
            assert(before.push(s.last()).drop_last() =~= before);
            assert(kept.push(s.last()).drop_last() =~= kept);
        }
    }
}

proof fn lemma_stars_twice(s: Seq<char>)
    ensures
        equation::carets_as_stars(equation::carets_as_stars(s)) == equation::carets_as_stars(s),
    decreases s.len(),
{
    if s.len() > 0 {
        let rest = equation::carets_as_stars(s.drop_last());
        lemma_stars_twice(s.drop_last());
        if s.last() == '^' {
            let once = rest + seq!['*', '*'];
            assert(once.drop_last() =~= rest.push('*'));
            assert(rest.push('*').drop_last() =~= rest);
            assert(equation::carets_as_stars(rest.push('*')) == equation::carets_as_stars(rest).push('*'));
            assert(equation::carets_as_stars(once) =~= once);
        } else {
            assert(rest.push(s.last()).drop_last() =~= rest);
        }
    }
}

/// The compact form does not depend on whether a power is written with `^` or with `**`.
pub proof fn lemma_compact_of_stars(s: Seq<char>)
    ensures
        equation::compact(equation::carets_as_stars(s)) == equation::compact(s),
{
    lemma_trimmed_of_stars(s);
    lemma_filter_of_stars(text::trimmed(s));
    lemma_stars_twice(text::trimmed(s).filter(|c: char| c != ' '));
}

proof fn lemma_trimmed_start_without_spaces(s: Seq<char>)
    ensures
        text::trimmed_start(s.filter(|c: char| c != ' ')) == text::trimmed_start(s).filter(
            |c: char| c != ' ',
        ),
    decreases s.len(),
{
    let keep = |c: char| c != ' ';
    if s.len() == 0 {
        reveal(Seq::filter);
    } else {
        let first = seq![s[0]];
        let rest = s.skip(1);
        assert(s =~= first + rest);
        Seq::filter_distributes_over_add(first, rest, keep);
        assert(first.filter(keep) =~= if s[0] == ' ' {
            Seq::empty()
        } else {
            first
        }) by {
            reveal(Seq::filter);
            assert(first.drop_last().filter(keep) =~= Seq::empty());
            assert(first.last() == s[0]);
        }
        if s[0] == ' ' {
            assert(s.filter(keep) =~= rest.filter(keep));
        } else {
            assert(s.filter(keep)[0] == s[0]);
            assert(s.filter(keep).skip(1) =~= rest.filter(keep));
        }
        if text::white_space(s[0]) {
            lemma_trimmed_start_without_spaces(rest);
        }
    }
}

proof fn lemma_trimmed_end_without_spaces(s: Seq<char>)
    ensures
        text::trimmed_end(s.filter(|c: char| c != ' ')) == text::trimmed_end(s).filter(
            |c: char| c != ' ',
        ),
    decreases s.len(),
{
    let keep = |c: char| c != ' ';
    reveal(Seq::filter);
    if s.len() > 0 && text::white_space(s.last()) {
        lemma_trimmed_end_without_spaces(s.drop_last());
        assert(s.drop_last().filter(keep).push(s.last()).drop_last() =~= s.drop_last().filter(keep));
    }
}

/// The compact form does not depend on spaces.
pub proof fn lemma_compact_without_spaces(s: Seq<char>)
    ensures
        equation::compact(s.filter(|c: char| c != ' ')) == equation::compact(s),
{
    let keep = |c: char| c != ' ';
    lemma_trimmed_start_without_spaces(s);
    lemma_trimmed_end_without_spaces(text::trimmed_start(s));
    lemma_filter_twice(text::trimmed(s));
    assert(text::trimmed(s.filter(keep)) == text::trimmed(s).filter(keep));
}

proof fn lemma_filter_twice(s: Seq<char>)
    ensures
        s.filter(|c: char| c != ' ').filter(|c: char| c != ' ') == s.filter(|c: char| c != ' '),
    decreases s.len(),
{
    let keep = |c: char| c != ' ';
    reveal(Seq::filter);
    if s.len() > 0 {
        lemma_filter_twice(s.drop_last());
        let kept = s.drop_last().filter(keep);
        assert(kept.push(s.last()).drop_last() =~= kept);
    }
}

proof fn lemma_trimmed_start_clear(s: Seq<char>)
    ensures
        ({
            let t = text::trimmed_start(s);
            t.len() > 0 ==> !text::white_space(t[0])
        }),
    decreases s.len(),
{
    if s.len() > 0 && text::white_space(s[0]) {
        lemma_trimmed_start_clear(s.skip(1));
    }
}

proof fn lemma_trimmed_end_clear(s: Seq<char>)
    ensures
        ({
            let t = text::trimmed_end(s);
            t.len() > 0 ==> !text::white_space(t.last()) && t[0] == s[0]
        }),
    decreases s.len(),
{
    if s.len() > 0 && text::white_space(s.last()) {
        lemma_trimmed_end_clear(s.drop_last());
    }
}

/// Trimming leaves clear ends.
pub proof fn lemma_trimmed_clear(s: Seq<char>)
    ensures
        ends_clear(text::trimmed(s)),
{
    lemma_trimmed_start_clear(s);
    lemma_trimmed_end_clear(text::trimmed_start(s));
}

/// A text with clear ends, from which spaces are taken, keeps its ends.
proof fn lemma_filter_keeps_ends(s: Seq<char>)
    requires
        s.len() > 0,
        s[0] != ' ',
        s.last() != ' ',
    ensures
        ({
            let f = s.filter(|c: char| c != ' ');
            f.len() > 0 && f[0] == s[0] && f.last() == s.last()
        }),
{
    let keep = |c: char| c != ' ';
    let first = seq![s[0]];
    let rest = s.skip(1);
    assert(s =~= first + rest);
    Seq::filter_distributes_over_add(first, rest, keep);
    assert(first.filter(keep) =~= first) by {
        reveal(Seq::filter);
        assert(first.drop_last().filter(keep) =~= Seq::empty());
        assert(first.last() == s[0]);
    }
    assert(s.filter(keep).last() == s.last()) by {
        reveal(Seq::filter);
    }
}

/// Stars for carets leave no caret, bring in no space, and keep clear ends clear.
proof fn lemma_stars_shape(s: Seq<char>)
    requires
        ends_clear(s),
        forall|i: int| 0 <= i < s.len() ==> #[trigger] s[i] != ' ',
    ensures
        is_compact(equation::carets_as_stars(s)),
        equation::carets_as_stars(s).len() == 0 <==> s.len() == 0,
{
    lemma_stars_chars(s);
    if s.len() > 0 {
        let rest = s.skip(1);
        assert(s =~= seq![s[0]] + rest);
        lemma_stars_concat(seq![s[0]], rest);
        lemma_stars_of_one(s[0]);
    }
}

proof fn lemma_stars_chars(s: Seq<char>)
    requires
        forall|i: int| 0 <= i < s.len() ==> #[trigger] s[i] != ' ',
    ensures
        ({
            let t = equation::carets_as_stars(s);
            forall|i: int| 0 <= i < t.len() ==> (#[trigger] t[i]) != ' ' && t[i] != '^'
        }),
    decreases s.len(),
{
    if s.len() > 0 {
        assert forall|i: int| 0 <= i < s.drop_last().len() implies #[trigger] s.drop_last()[i]
            != ' ' by {
            assert(s.drop_last()[i] == s[i]);
        }
        assert(s[s.len() - 1] != ' ');
        lemma_stars_chars(s.drop_last());
        let before = equation::carets_as_stars(s.drop_last());
        let t = equation::carets_as_stars(s);
        assert forall|i: int| 0 <= i < t.len() implies (#[trigger] t[i]) != ' ' && t[i] != '^' by {
            if i < before.len() {
                assert(t[i] == before[i]);
            }
        }
    }
}

/// The compact form has clear ends, no space and no caret, and is empty only for
/// a blank text.
pub proof fn lemma_compact_shape(s: Seq<char>)
    ensures
        is_compact(equation::compact(s)),
        equation::compact(s).len() == 0 <==> text::trimmed(s).len() == 0,
{
    let keep = |c: char| c != ' ';
    let t = text::trimmed(s);
    let f = t.filter(keep);
    lemma_trimmed_clear(s);
    assert forall|i: int| 0 <= i < f.len() implies #[trigger] f[i] != ' ' by {
        t.lemma_filter_pred(keep, i);
    }
    if t.len() > 0 {
        lemma_filter_keeps_ends(t);
    } else {
        t.lemma_filter_len(keep);
    }
    lemma_stars_shape(f);
}

pub proof fn lemma_filter_without_spaces(s: Seq<char>)
    requires
        forall|i: int| 0 <= i < s.len() ==> #[trigger] s[i] != ' ',
    ensures
        s.filter(|c: char| c != ' ') == s,
    decreases s.len(),
{
    reveal(Seq::filter);
    if s.len() > 0 {
        assert forall|i: int| 0 <= i < s.drop_last().len() implies #[trigger] s.drop_last()[i]
            != ' ' by {
            assert(s.drop_last()[i] == s[i]);
        }
        assert(s[s.len() - 1] != ' ');
        lemma_filter_without_spaces(s.drop_last());
        assert(s =~= s.drop_last().push(s.last()));
    }
}

pub proof fn lemma_stars_without_carets(s: Seq<char>)
    requires
        forall|i: int| 0 <= i < s.len() ==> #[trigger] s[i] != '^',
    ensures
        equation::carets_as_stars(s) == s,
    decreases s.len(),
{
    if s.len() > 0 {
        assert forall|i: int| 0 <= i < s.drop_last().len() implies #[trigger] s.drop_last()[i]
            != '^' by {
            assert(s.drop_last()[i] == s[i]);
        }
        assert(s[s.len() - 1] != '^');
        lemma_stars_without_carets(s.drop_last());
        assert(s =~= s.drop_last().push(s.last()));
    } else {
        assert(equation::carets_as_stars(s) =~= s);
    }
}

/// A compact text is trimmed, and is its own compact form.
pub proof fn lemma_compact_stays(s: Seq<char>)
    requires
        is_compact(s),
    ensures
        text::trimmed(s) == s,
        equation::compact(s) == s,
{
    assert(text::trimmed(s) == s);
    assert forall|i: int| 0 <= i < s.len() implies #[trigger] s[i] != '^' by {}
    assert forall|i: int| 0 <= i < s.len() implies #[trigger] s[i] != ' ' by {}
    lemma_filter_without_spaces(s);
    lemma_stars_without_carets(s);
}

/// Trimming twice is trimming once.
pub proof fn lemma_trimmed_twice(s: Seq<char>)
    ensures
        text::trimmed(text::trimmed(s)) == text::trimmed(s),
{
    lemma_trimmed_clear(s);
}

proof fn lemma_count_concat(a: Seq<char>, b: Seq<char>, c: char)
    ensures
        text::count_of(a + b, c) == text::count_of(a, c) + text::count_of(b, c),
    decreases b.len(),
{
    if b.len() == 0 {
        assert(a + b =~= a);
    } else {
        lemma_count_concat(a, b.drop_last(), c);
        assert((a + b).drop_last() =~= a + b.drop_last());
    }
}

proof fn lemma_count_trimmed_start(s: Seq<char>, c: char)
    requires
        !text::white_space(c),
    ensures
        text::count_of(text::trimmed_start(s), c) == text::count_of(s, c),
    decreases s.len(),
{
    if s.len() > 0 && text::white_space(s[0]) {
        let first = seq![s[0]];
        lemma_count_trimmed_start(s.skip(1), c);
        assert(s =~= first + s.skip(1));
        lemma_count_concat(first, s.skip(1), c);
        assert(text::count_of(first.drop_last(), c) == 0);
        assert(text::count_of(first, c) == 0);
    }
}

proof fn lemma_count_trimmed_end(s: Seq<char>, c: char)
    requires
        !text::white_space(c),
    ensures
        text::count_of(text::trimmed_end(s), c) == text::count_of(s, c),
    decreases s.len(),
{
    if s.len() > 0 && text::white_space(s.last()) {
        lemma_count_trimmed_end(s.drop_last(), c);
    }
}

proof fn lemma_count_filter(s: Seq<char>, c: char)
    requires
        c != ' ',
    ensures
        text::count_of(s.filter(|d: char| d != ' '), c) == text::count_of(s, c),
    decreases s.len(),
{
    reveal(Seq::filter);
    if s.len() > 0 {
        let kept = s.drop_last().filter(|d: char| d != ' ');
        lemma_count_filter(s.drop_last(), c);
        assert(kept.push(s.last()).drop_last() =~= kept);
    }
}

proof fn lemma_count_stars(s: Seq<char>, c: char)
    requires
        c != '^',
        c != '*',
    ensures
        text::count_of(equation::carets_as_stars(s), c) == text::count_of(s, c),
    decreases s.len(),
{
    if s.len() > 0 {
        let before = equation::carets_as_stars(s.drop_last());
        lemma_count_stars(s.drop_last(), c);
        if s.last() == '^' {
            let twice = before + seq!['*', '*'];
            assert(twice.drop_last() =~= before.push('*'));
            assert(before.push('*').drop_last() =~= before);
            assert(text::count_of(before.push('*'), c) == text::count_of(before, c));
        } else {
            assert(before.push(s.last()).drop_last() =~= before);
        }
    }
}

/// The compact form keeps every `=`.
pub proof fn lemma_compact_keeps_equals(s: Seq<char>)
    ensures
        text::count_of(equation::compact(s), '=') == text::count_of(s, '='),
{
    let t = text::trimmed(s);
    lemma_count_trimmed_start(s, '=');
    lemma_count_trimmed_end(text::trimmed_start(s), '=');
    lemma_count_filter(t, '=');
    lemma_count_stars(t.filter(|c: char| c != ' '), '=');
}

pub proof fn lemma_count_none(s: Seq<char>, c: char)
    ensures
        text::count_of(s, c) == 0 <==> forall|i: int| 0 <= i < s.len() ==> s[i] != c,
    decreases s.len(),
{
    if s.len() > 0 {
        let fewer = s.drop_last();
        lemma_count_none(fewer, c);
        if text::count_of(s, c) == 0 {
            assert forall|i: int| 0 <= i < s.len() implies s[i] != c by {
                if i < fewer.len() {
                    assert(fewer[i] == s[i]);
                }
            }
        }
        if forall|i: int| 0 <= i < s.len() ==> s[i] != c {
            assert forall|i: int| 0 <= i < fewer.len() implies fewer[i] != c by {
                assert(fewer[i] == s[i]);
            }
            assert(s[s.len() - 1] != c);
        }
    }
}

/// There is a sole `=` exactly if there is one.
pub proof fn lemma_sole_equals_is_one(s: Seq<char>)
    ensures
        (exists|i: int| equation::sole_equals(s, i)) <==> text::count_of(s, '=') == 1,
    decreases s.len(),
{
    if s.len() > 0 {
        let fewer = s.drop_last();
        let last = s.len() - 1;
        lemma_sole_equals_is_one(fewer);
        lemma_count_none(fewer, '=');
        if s.last() == '=' {
            if text::count_of(s, '=') == 1 {
                assert forall|k: int| 0 <= k < s.len() && k != last implies s[k] != '=' by {
                    assert(fewer[k] == s[k]);
                }
                assert(equation::sole_equals(s, last));
            }
            if exists|i: int| equation::sole_equals(s, i) {
                let i = choose|i: int| equation::sole_equals(s, i);
                assert(i == last);
                assert forall|k: int| 0 <= k < fewer.len() implies fewer[k] != '=' by {
                    assert(fewer[k] == s[k]);
                }
            }
        } else {
            if text::count_of(s, '=') == 1 {
                let i = choose|i: int| equation::sole_equals(fewer, i);
                assert forall|k: int| 0 <= k < s.len() && k != i implies s[k] != '=' by {
                    if k < last {
                        assert(fewer[k] == s[k]);
                    }
                }
                assert(s[i] == fewer[i]);
                assert(equation::sole_equals(s, i));
            }
            if exists|i: int| equation::sole_equals(s, i) {
                let i = choose|i: int| equation::sole_equals(s, i);
                assert(i < last);
                assert forall|k: int| 0 <= k < fewer.len() && k != i implies fewer[k] != '=' by {
                    assert(fewer[k] == s[k]);
                }
                assert(fewer[i] == s[i]);
                assert(equation::sole_equals(fewer, i));
            }
        }
    }
}

/// The form with joined sides, written out for the sole `=` at `i`.
pub proof fn lemma_sides_joined_at(s: Seq<char>, i: int)
    requires
        equation::sole_equals(s, i),
    ensures
        equation::sides_joined(s) == "("@ + s.take(i) + ")-("@ + s.skip(i + 1) + ")"@,
{
    let j = choose|j: int| equation::sole_equals(s, j);
    assert(equation::sole_equals(s, j));
    assert(i == j);
}

/// What each character of the form with joined sides can be.
pub proof fn lemma_sides_joined_chars(s: Seq<char>, i: int)
    requires
        equation::sole_equals(s, i),
    ensures
        ({
            let e = equation::sides_joined(s);
            &&& e.len() > 0 && e[0] == '(' && e.last() == ')'
            &&& forall|k: int|
                0 <= k < e.len() ==> (#[trigger] e[k]) != '=' && (e[k] == '(' || e[k] == ')'
                    || e[k] == '-' || s.contains(e[k]))
        }),
{
    lemma_sides_joined_at(s, i);
    reveal_strlit("(");
    reveal_strlit(")-(");
    reveal_strlit(")");
    let l = s.take(i);
    let r = s.skip(i + 1);
    let e = equation::sides_joined(s);
    assert forall|k: int| 0 <= k < e.len() implies (#[trigger] e[k]) != '=' && (e[k] == '('
        || e[k] == ')' || e[k] == '-' || s.contains(e[k])) by {
        if 1 <= k < i + 1 {
            assert(e[k] == l[k - 1]);
            assert(l[k - 1] == s[k - 1]);
        } else if i + 4 <= k < e.len() - 1 {
            assert(e[k] == r[k - (i + 4)]);
            assert(r[k - (i + 4)] == s[k - 3]);
        }
    }
}

proof fn lemma_lower_char(c: char)
    ensures
        text::white_space(text::ascii_lower(c)) == text::white_space(c),
        text::ascii_lower(c) == ' ' <==> c == ' ',
        text::ascii_lower(c) == '^' <==> c == '^',
        text::ascii_lower(c) == '=' <==> c == '=',
        !text::capital(text::ascii_lower(c)),
        (text::ascii_lower(c) as u32) < 128 <==> (c as u32) < 128,
{
    if text::capital(c) {
        assert(65 <= c as u32 <= 90);
        assert(text::ascii_lower(c) as u32 == c as u32 + 32);
    }
}

/// What holds of a compact ASCII text also holds of it in lower case.
pub proof fn lemma_lowered_compact(s: Seq<char>)
    requires
        text::ascii(s),
        is_compact(s),
    ensures
        is_compact(text::lowered(s)),
        text::ascii(text::lowered(s)),
        text::without_capitals(text::lowered(s)),
        text::lowered(s).len() == s.len(),
{
    let t = text::lowered(s);
    assert forall|i: int| 0 <= i < s.len() implies (#[trigger] t[i]) != ' ' && t[i] != '^'
        && !text::capital(t[i]) && (t[i] as u32) < 128 && text::white_space(t[i])
        == text::white_space(s[i]) by {
        lemma_lower_char(s[i]);
    }
}

/// An ASCII text without capitals is in lower case.
pub proof fn lemma_lowered_stays(s: Seq<char>)
    requires
        text::ascii(s),
        text::without_capitals(s),
    ensures
        text::lowered(s) == s,
{
    assert(text::ascii_lowered(s) =~= s);
}

/// Small letters for capitals keep every `=`.
pub proof fn lemma_count_lowered(s: Seq<char>)
    ensures
        text::count_of(text::ascii_lowered(s), '=') == text::count_of(s, '='),
    decreases s.len(),
{
    if s.len() > 0 {
        lemma_count_lowered(s.drop_last());
        lemma_lower_char(s.last());
        assert(text::ascii_lowered(s).drop_last() =~= text::ascii_lowered(s.drop_last()));
    }
}

proof fn lemma_trimmed_start_lowered(s: Seq<char>)
    ensures
        text::trimmed_start(text::ascii_lowered(s)) == text::ascii_lowered(text::trimmed_start(s)),
    decreases s.len(),
{
    if s.len() > 0 {
        lemma_lower_char(s[0]);
        if text::white_space(s[0]) {
            lemma_trimmed_start_lowered(s.skip(1));
            assert(text::ascii_lowered(s).skip(1) =~= text::ascii_lowered(s.skip(1)));
        }
    }
}

proof fn lemma_trimmed_end_lowered(s: Seq<char>)
    ensures
        text::trimmed_end(text::ascii_lowered(s)) == text::ascii_lowered(text::trimmed_end(s)),
    decreases s.len(),
{
    if s.len() > 0 {
        lemma_lower_char(s.last());
        if text::white_space(s.last()) {
            lemma_trimmed_end_lowered(s.drop_last());
            assert(text::ascii_lowered(s).drop_last() =~= text::ascii_lowered(s.drop_last()));
        }
    }
}

/// It makes no difference whether capitals are made small before or after trimming.
pub proof fn lemma_trimmed_lowered(s: Seq<char>)
    ensures
        text::trimmed(text::ascii_lowered(s)) == text::ascii_lowered(text::trimmed(s)),
{
    lemma_trimmed_start_lowered(s);
    lemma_trimmed_end_lowered(text::trimmed_start(s));
}

proof fn lemma_filter_lowered(s: Seq<char>)
    ensures
        text::ascii_lowered(s).filter(|c: char| c != ' ') == text::ascii_lowered(
            s.filter(|c: char| c != ' '),
        ),
    decreases s.len(),
{
    let keep = |c: char| c != ' ';
    reveal(Seq::filter);
    if s.len() > 0 {
        lemma_filter_lowered(s.drop_last());
        lemma_lower_char(s.last());
        assert(text::ascii_lowered(s).drop_last() =~= text::ascii_lowered(s.drop_last()));
        let kept = s.drop_last().filter(keep);
        assert(text::ascii_lowered(kept.push(s.last())) =~= text::ascii_lowered(kept).push(
            text::ascii_lower(s.last()),
        ));
    } else {
        assert(text::ascii_lowered(s) =~= s);
        assert(text::ascii_lowered(s.filter(keep)) =~= s);
    }
}

proof fn lemma_stars_lowered(s: Seq<char>)
    ensures
        equation::carets_as_stars(text::ascii_lowered(s)) == text::ascii_lowered(
            equation::carets_as_stars(s),
        ),
    decreases s.len(),
{
    if s.len() > 0 {
        lemma_stars_lowered(s.drop_last());
        lemma_lower_char(s.last());
        assert(text::ascii_lowered(s).drop_last() =~= text::ascii_lowered(s.drop_last()));
        assert(text::ascii_lowered(s).last() == text::ascii_lower(s.last()));
    }
    assert(equation::carets_as_stars(text::ascii_lowered(s)) =~= text::ascii_lowered(
        equation::carets_as_stars(s),
    ));
}

/// It makes no difference whether capitals are made small before or after the
/// compact form is taken.
pub proof fn lemma_compact_lowered(s: Seq<char>)
    ensures
        equation::compact(text::ascii_lowered(s)) == text::ascii_lowered(equation::compact(s)),
{
    lemma_trimmed_lowered(s);
    lemma_filter_lowered(text::trimmed(s));
    lemma_stars_lowered(text::trimmed(s).filter(|c: char| c != ' '));
}

/// Texts that differ in the case of ASCII letters alone have the same plain form.
pub proof fn lemma_plain_without_case(s: Seq<char>, t: Seq<char>)
    requires
        text::ascii(equation::compact(s)),
        text::ascii_lowered(s) == text::ascii_lowered(t),
    ensures
        text::ascii(equation::compact(t)),
        equation::plain(s) == equation::plain(t),
        text::trimmed(s).len() == text::trimmed(t).len(),
{
    let a = equation::compact(s);
    let b = equation::compact(t);
    lemma_compact_lowered(s);
    lemma_compact_lowered(t);
    lemma_trimmed_lowered(s);
    lemma_trimmed_lowered(t);
    assert(text::ascii_lowered(text::trimmed(s)).len() == text::trimmed(s).len());
    assert(text::ascii_lowered(text::trimmed(t)).len() == text::trimmed(t).len());
    assert(text::ascii_lowered(a) == text::ascii_lowered(b));
    assert(text::ascii_lowered(a).len() == a.len());
    assert(text::ascii_lowered(b).len() == b.len());
    assert forall|i: int| 0 <= i < b.len() implies (#[trigger] b[i] as u32) < 128 by {
        lemma_lower_char(a[i]);
        lemma_lower_char(b[i]);
        assert((a[i] as u32) < 128);
        assert(text::ascii_lowered(a)[i] == text::ascii_lower(a[i]));
        assert(text::ascii_lowered(b)[i] == text::ascii_lower(b[i]));
    }
}

/// Trimming makes no difference to the compact form.
pub proof fn lemma_compact_of_trimmed(s: Seq<char>)
    ensures
        equation::compact(text::trimmed(s)) == equation::compact(s),
{
    lemma_trimmed_twice(s);
}

} // verus!
