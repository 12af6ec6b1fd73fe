//! Facts about the order of the questions.

use vstd::prelude::*;
use crate::record::{AttemptView, QuestionView};
use crate::tables;

verus! {

/// Whether every question is kept under its own id.
pub open spec fn ids_fit(questions: Map<i64, QuestionView>) -> bool {
    forall|id: i64| #[trigger] questions.contains_key(id) ==> questions[id].id == id
}

/// There is at most one first question.
pub proof fn lemma_first_unique(questions: Map<i64, QuestionView>, id: i64)
    requires
        tables::is_first(questions, id),
    ensures
        tables::first_question(questions) == Some(id),
{
    let other = choose|k: i64| tables::is_first(questions, k);
    assert(tables::is_first(questions, other));
    if other != id {
        assert(questions.contains_key(other));
    }
}

/// There is at most one next question.
pub proof fn lemma_next_unique(questions: Map<i64, QuestionView>, q: QuestionView, id: i64)
    requires
        tables::is_next(questions, q, id),
    ensures
        tables::next_question(questions, q) == Some(id),
{
    let other = choose|k: i64| tables::is_next(questions, q, k);
    assert(tables::is_next(questions, q, other));
    if other != id {
        assert(questions.contains_key(other));
    }
}

/// There is at most one largest position.
pub proof fn lemma_last_position_unique(questions: Map<i64, QuestionView>, p: i64)
    requires
        tables::is_last_position(questions, p),
    ensures
        tables::last_position(questions) == Some(p),
{
    let other = choose|k: i64| tables::is_last_position(questions, k);
    assert(tables::is_last_position(questions, other));
    let a = choose|k: i64| #[trigger] questions.contains_key(k) && questions[k].position == p;
    let b = choose|k: i64| #[trigger] questions.contains_key(k) && questions[k].position == other;
    assert(questions.contains_key(a) && questions.contains_key(b));
}

/// Among finitely many questions that come after `q`, if there are any, one comes first.
proof fn lemma_least(
    questions: Map<i64, QuestionView>,
    candidates: Set<i64>,
) -> (id: i64)
    requires
        candidates.finite(),
        candidates.len() > 0,
        ids_fit(questions),
        forall|k: i64| #[trigger] candidates.contains(k) ==> questions.contains_key(k),
    ensures
        candidates.contains(id),
        forall|k: i64| #[trigger]
            candidates.contains(k) && k != id ==> tables::before(questions[id], questions[k]),
    decreases candidates.len(),
{
    let c = candidates.choose();
    let rest = candidates.remove(c);
    if rest.len() == 0 {
        assert forall|k: i64| #[trigger] candidates.contains(k) && k != c implies tables::before(
            questions[c],
            questions[k],
        ) by {
            assert(rest.contains(k));
        }
        c
    } else {
        let least = lemma_least(questions, rest);
        assert(rest.contains(least));
        let id = if tables::before(questions[c], questions[least]) {
            c
        } else {
            least
        };
        assert forall|k: i64| #[trigger] candidates.contains(k) && k != id implies tables::before(
            questions[id],
            questions[k],
        ) by {
            assert(questions.contains_key(k) && questions.contains_key(c)
                && questions.contains_key(least));
            if k != c {
                assert(rest.contains(k));
            }
        }
        id
    }
}

/// Where there are questions, one is the first.
pub proof fn lemma_first_exists(questions: Map<i64, QuestionView>)
    requires
        questions.dom().finite(),
        ids_fit(questions),
    ensures
        tables::first_question(questions) is None <==> questions.dom() =~= Set::empty(),
        tables::first_question(questions) matches Some(id) ==> tables::is_first(questions, id),
{
    if questions.dom().len() > 0 {
        let id = lemma_least(questions, questions.dom());
        assert(questions.contains_key(id));
        assert forall|k: i64| #[trigger] questions.contains_key(k) && k != id implies tables::before(
            questions[id],
            questions[k],
        ) by {
            assert(questions.dom().contains(k));
        }
        assert(tables::is_first(questions, id));
        assert(questions.dom().contains(id));
    } else {
        assert(questions.dom() =~= Set::empty());
        if exists|id: i64| tables::is_first(questions, id) {
            let id = choose|id: i64| tables::is_first(questions, id);
            assert(questions.dom().contains(id));
        }
    }
}

/// Where questions come after `q`, one is the next.
pub proof fn lemma_next_exists(questions: Map<i64, QuestionView>, q: QuestionView)
    requires
        questions.dom().finite(),
        ids_fit(questions),
    ensures
        tables::next_question(questions, q) is None <==> forall|k: i64| #[trigger]
            questions.contains_key(k) ==> !tables::before(q, questions[k]),
        tables::next_question(questions, q) matches Some(id) ==> tables::is_next(questions, q, id),
{
    let later = questions.dom().filter(|k: i64| tables::before(q, questions[k]));
    vstd::set_lib::lemma_set_subset_finite(questions.dom(), later);
    if later.len() > 0 {
        let id = lemma_least(questions, later);
        assert forall|k: i64| #[trigger]
            questions.contains_key(k) && k != id && tables::before(
                q,
                questions[k],
            ) implies tables::before(questions[id], questions[k]) by {
            assert(later.contains(k));
        }
        assert(tables::is_next(questions, q, id));
        assert(questions.contains_key(id) && tables::before(q, questions[id]));
    } else {
        assert forall|k: i64| #[trigger] questions.contains_key(k) implies !tables::before(
            q,
            questions[k],
        ) by {
            if tables::before(q, questions[k]) {
                assert(later.contains(k));
            }
        }
    }
}

/// In a listing the first entry is the first question.
pub proof fn lemma_listing_first(questions: Map<i64, QuestionView>, list: Seq<QuestionView>)
    requires
        tables::question_listing(questions, list),
    ensures
        list.len() == 0 ==> tables::first_question(questions) is None,
        list.len() > 0 ==> tables::first_question(questions) == Some(list[0].id),
{
    if list.len() == 0 {
        if exists|id: i64| tables::is_first(questions, id) {
            let id = choose|id: i64| tables::is_first(questions, id);
            assert(questions.contains_key(id));
        }
    } else {
        let id = list[0].id;
        assert forall|k: i64| #[trigger] questions.contains_key(k) && k != id implies tables::before(
            questions[id],
            questions[k],
        ) by {
            let i = choose|i: int| 0 <= i < list.len() && (#[trigger] list[i]).id == k;
            assert(tables::before(list[0], list[i]));
        }
        assert(tables::is_first(questions, id));
        lemma_first_unique(questions, id);
    }
}

/// In a listing every entry is followed by the next question.
pub proof fn lemma_listing_next(
    questions: Map<i64, QuestionView>,
    list: Seq<QuestionView>,
    at: int,
)
    requires
        tables::question_listing(questions, list),
        0 <= at < list.len(),
    ensures
        at + 1 < list.len() ==> tables::next_question(questions, list[at]) == Some(
            list[at + 1].id,
        ),
        at + 1 == list.len() ==> tables::next_question(questions, list[at]) is None,
{
    let q = list[at];
    if at + 1 < list.len() {
        let id = list[at + 1].id;
        assert(tables::before(list[at], list[at + 1]));
        assert forall|k: i64| #[trigger]
            questions.contains_key(k) && k != id && tables::before(
                q,
                questions[k],
            ) implies tables::before(questions[id], questions[k]) by {
            let i = choose|i: int| 0 <= i < list.len() && (#[trigger] list[i]).id == k;
            if i < at {
                assert(tables::before(list[i], list[at]));
            } else if i > at + 1 {
                assert(tables::before(list[at + 1], list[i]));
            }
        }
        assert(tables::is_next(questions, q, id));
        lemma_next_unique(questions, q, id);
    } else if exists|id: i64| tables::is_next(questions, q, id) {
        let id = choose|id: i64| tables::is_next(questions, q, id);
        let i = choose|i: int| 0 <= i < list.len() && (#[trigger] list[i]).id == id;
        assert(questions.contains_key(id));
        if i < at {
            assert(tables::before(list[i], list[at]));
        }
    }
}

/// A question put in its place makes a listing of one question more.
pub proof fn lemma_question_listing_insert(
    questions: Map<i64, QuestionView>,
    list: Seq<QuestionView>,
    at: int,
    q: QuestionView,
)
    requires
        tables::question_listing(questions, list),
        !questions.contains_key(q.id),
        0 <= at <= list.len(),
        forall|i: int| 0 <= i < at ==> tables::before(#[trigger] list[i], q),
        at < list.len() ==> tables::before(q, list[at]),
    ensures
        tables::question_listing(questions.insert(q.id, q), list.insert(at, q)),
{
    let more = questions.insert(q.id, q);
    let new = list.insert(at, q);
    assert forall|i: int, j: int| 0 <= i < j < new.len() implies tables::before(
        #[trigger] new[i],
        #[trigger] new[j],
    ) by {
        if i == at {
            if j > at + 1 {
                assert(tables::before(list[at], list[j - 1]));
            }
        } else if j != at {
            let x = if i < at { i } else { i - 1 };
            let y = if j < at { j } else { j - 1 };
            assert(tables::before(list[x], list[y]));
        } else {
            assert(tables::before(list[i], q));
        }
    }
    assert forall|i: int| 0 <= i < new.len() implies more.contains_key((#[trigger] new[i]).id)
        && more[new[i].id] == new[i] by {
        if i != at {
            let x = if i < at { i } else { i - 1 };
            assert(questions.contains_key(list[x].id));
        }
    }
    assert forall|k: i64| #[trigger] more.contains_key(k) implies exists|i: int|
        0 <= i < new.len() && (#[trigger] new[i]).id == k by {
        if k == q.id {
            assert(new[at].id == k);
        } else {
            assert(questions.contains_key(k));
            let i = choose|i: int| 0 <= i < list.len() && (#[trigger] list[i]).id == k;
            assert(new[if i < at { i } else { i + 1 }].id == k);
        }
    }
}

/// An attempt put in its place makes a listing of one attempt more.
pub proof fn lemma_attempt_listing_insert(
    attempts: Map<i64, AttemptView>,
    question_id: i64,
    list: Seq<AttemptView>,
    at: int,
    a: AttemptView,
)
    requires
        tables::attempt_listing(attempts, question_id, list),
        !attempts.contains_key(a.id),
        a.question_id == question_id,
        0 <= at <= list.len(),
        forall|i: int| 0 <= i < at ==> (#[trigger] list[i]).id > a.id,
        at < list.len() ==> a.id > list[at].id,
    ensures
        tables::attempt_listing(attempts.insert(a.id, a), question_id, list.insert(at, a)),
{
    let more = attempts.insert(a.id, a);
    let new = list.insert(at, a);
    assert forall|i: int, j: int| 0 <= i < j < new.len() implies (#[trigger] new[i]).id > (
    #[trigger] new[j]).id by {
        if i == at {
            if j > at + 1 {
                assert(list[at].id > list[j - 1].id);
            }
        } else if j != at {
            let x = if i < at { i } else { i - 1 };
            let y = if j < at { j } else { j - 1 };
            assert(list[x].id > list[y].id);
        } else {
            assert(list[i].id > a.id);
        }
    }
    assert forall|i: int| 0 <= i < new.len() implies more.contains_key((#[trigger] new[i]).id)
        && more[new[i].id] == new[i] && new[i].question_id == question_id by {
        if i != at {
            let x = if i < at { i } else { i - 1 };
            assert(attempts.contains_key(list[x].id));
        }
    }
    assert forall|k: i64| #[trigger]
        more.contains_key(k) && more[k].question_id == question_id implies exists|i: int|
        0 <= i < new.len() && (#[trigger] new[i]).id == k by {
        if k == a.id {
            assert(new[at].id == k);
        } else {
            assert(attempts.contains_key(k));
            let i = choose|i: int| 0 <= i < list.len() && (#[trigger] list[i]).id == k;
            assert(new[if i < at { i } else { i + 1 }].id == k);
        }
    }
}

/// An attempt at another question leaves a listing as it is.
pub proof fn lemma_attempt_listing_skip(
    attempts: Map<i64, AttemptView>,
    question_id: i64,
    list: Seq<AttemptView>,
    a: AttemptView,
)
    requires
        tables::attempt_listing(attempts, question_id, list),
        !attempts.contains_key(a.id),
        a.question_id != question_id,
    ensures
        tables::attempt_listing(attempts.insert(a.id, a), question_id, list),
{
    let more = attempts.insert(a.id, a);
    assert forall|k: i64| #[trigger]
        more.contains_key(k) && more[k].question_id == question_id implies exists|i: int|
        0 <= i < list.len() && (#[trigger] list[i]).id == k by {
        assert(attempts.contains_key(k));
    }
}

} // verus!
