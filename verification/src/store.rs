//! The contents of the backend in memory, with the look-ups that the backend
//! makes and the changes it can make.

use vstd::prelude::*;
use crate::order;
use crate::record::{Attempt, AttemptView, Question, QuestionView, Session};
use crate::record;
use crate::table::Table;
use crate::table;
use crate::tables::{Change, Tables};
use crate::tables;

verus! {

/// The contents of the backend.
pub struct Store {
    questions: Table<Question>,
    attempts: Table<Attempt>,
    sessions: Table<Session>,
    current: Option<i64>,
    question_seq: i64,
    attempt_seq: i64,
}

impl View for Store {
    type V = Tables;

    closed spec fn view(&self) -> Tables {
        Tables {
            questions: self.questions@,
            attempts: self.attempts@,
            sessions: self.sessions@,
            current: self.current,
            question_seq: self.question_seq,
            attempt_seq: self.attempt_seq,
        }
    }
}

/// The contents that lists of rows stand for.
pub open spec fn tables_of(
    questions: Seq<Question>,
    attempts: Seq<Attempt>,
    sessions: Seq<Session>,
    current: Option<i64>,
    question_seq: i64,
    attempt_seq: i64,
) -> Tables {
    Tables {
        questions: table::by_key(questions),
        attempts: table::by_key(attempts),
        sessions: table::by_key(sessions),
        current,
        question_seq,
        attempt_seq,
    }
}

/// The views of a list of questions.
pub open spec fn question_views(list: Seq<Question>) -> Seq<QuestionView> {
    list.map_values(|q: Question| q@)
}

/// The views of a list of attempts.
pub open spec fn attempt_views(list: Seq<Attempt>) -> Seq<AttemptView> {
    list.map_values(|a: Attempt| a@)
}

impl Store {
    /// Whether the rows have different keys.
    pub closed spec fn keyed(&self) -> bool {
        self.questions.wf() && self.attempts.wf() && self.sessions.wf()
    }

    /// Whether the store is well formed.
    pub open spec fn wf(&self) -> bool {
        self.keyed() && tables::sound(self@)
    }

    /// Whether what must hold of the questions does.
    fn questions_hold(&self) -> (r: bool)
        requires
            self.keyed(),
        ensures
            r == {
                &&& forall|id: i64| #[trigger]
                    self@.questions.contains_key(id) ==> id <= self@.question_seq
                        && tables::valid_question(self@.questions[id])
                &&& tables::positions_differ(self@.questions)
            },
    {
        let ghost questions = self.questions@;
        let ghost keys = self.questions.keys();
        proof {
            self.questions.lemma_keys();
        }
        let mut i: usize = 0;
        while i < self.questions.count()
            invariant
                self.keyed(),
                questions == self.questions@,
                questions == self@.questions,
                keys == self.questions.keys(),
                0 <= i <= keys.len(),
                forall|m: int|
                    0 <= m < i ==> (#[trigger] keys[m]) <= self.question_seq
                        && tables::valid_question(questions[keys[m]]),
                forall|m: int, n: int|
                    0 <= m < n < i ==> questions[#[trigger] keys[m]].position
                        != questions[#[trigger] keys[n]].position,
            decreases keys.len() - i,
        {
            proof {
                self.questions.lemma_keys();
            }
            let q = self.questions.at(i);
            assert(questions.contains_key(keys[i as int]));
            if q.id > self.question_seq || q.time_limit_minutes < 2 || q.time_limit_minutes > 10 || (
            q.question_text.is_none() && q.question_image_path.is_none()) || (
            q.solution_text.is_none() && q.solution_image_path.is_none()) {
                return false;
            }
            let mut j: usize = 0;
            while j < i
                invariant
                    self.keyed(),
                    questions == self.questions@,
                    questions == self@.questions,
                    keys == self.questions.keys(),
                    0 <= j <= i < keys.len(),
                    q@ == questions[keys[i as int]],
                    forall|m: int|
                        0 <= m < j ==> questions[#[trigger] keys[m]].position != q.position,
                decreases i - j,
            {
                let other = self.questions.at(j);
                if other.position == q.position {
                    proof {
                        self.questions.lemma_keys();
                        assert(questions.contains_key(keys[j as int]));
                        assert(questions.contains_key(keys[i as int]));
                        assert(keys[j as int] != keys[i as int]);
                    }
                    return false;
                }
                j += 1;
            }
            i += 1;
        }
        proof {
            self.questions.lemma_keys();
            assert forall|a: i64, b: i64|
                questions.contains_key(a) && questions.contains_key(b) && a != b implies (
            #[trigger] questions[a]).position != (#[trigger] questions[b]).position by {
                let m = choose|m: int| 0 <= m < keys.len() && #[trigger] keys[m] == a;
                let n = choose|n: int| 0 <= n < keys.len() && #[trigger] keys[n] == b;
                if m < n {
                    assert(questions[keys[m]].position != questions[keys[n]].position);
                } else {
                    assert(questions[keys[n]].position != questions[keys[m]].position);
                }
            }
        }
        true
    }

    /// Whether what must hold of the attempts does.
    fn attempts_hold(&self) -> (r: bool)
        requires
            self.keyed(),
        ensures
            r == forall|id: i64| #[trigger]
                self@.attempts.contains_key(id) ==> id <= self@.attempt_seq
                    && self@.questions.contains_key(self@.attempts[id].question_id),
    {
        let ghost attempts = self.attempts@;
        let ghost keys = self.attempts.keys();
        proof {
            self.attempts.lemma_keys();
        }
        let mut i: usize = 0;
        while i < self.attempts.count()
            invariant
                self.keyed(),
                attempts == self.attempts@,
                keys == self.attempts.keys(),
                0 <= i <= keys.len(),
                forall|m: int|
                    0 <= m < i ==> (#[trigger] keys[m]) <= self.attempt_seq
                        && self.questions@.contains_key(attempts[keys[m]].question_id),
            decreases keys.len() - i,
        {
            proof {
                self.attempts.lemma_keys();
            }
            let a = self.attempts.at(i);
            assert(attempts.contains_key(keys[i as int]));
            if a.id > self.attempt_seq || self.questions.find(a.question_id).is_none() {
                return false;
            }
            i += 1;
        }
        proof {
            self.attempts.lemma_keys();
        }
        true
    }

    /// Whether what must hold of the sessions does.
    fn sessions_hold(&self) -> (r: bool)
        requires
            self.keyed(),
        ensures
            r == forall|id: i64| #[trigger]
                self@.sessions.contains_key(id) ==> self@.questions.contains_key(id),
    {
        let ghost keys = self.sessions.keys();
        proof {
            self.sessions.lemma_keys();
        }
        let mut i: usize = 0;
        while i < self.sessions.count()
            invariant
                self.keyed(),
                keys == self.sessions.keys(),
                0 <= i <= keys.len(),
                forall|m: int| 0 <= m < i ==> self.questions@.contains_key(#[trigger] keys[m]),
            decreases keys.len() - i,
        {
            proof {
                self.sessions.lemma_keys();
            }
            let s = self.sessions.at(i);
            assert(s@ == *s);
            assert(self@.sessions.contains_key(keys[i as int]));
            if self.questions.find(s.question_id).is_none() {
                return false;
            }
            i += 1;
        }
        proof {
            self.sessions.lemma_keys();
        }
        true
    }

    /// The store that holds these rows, if together they are sound.
    pub fn load(
        questions: Vec<Question>,
        attempts: Vec<Attempt>,
        sessions: Vec<Session>,
        current: Option<i64>,
        question_seq: i64,
        attempt_seq: i64,
    ) -> (r: Option<Store>)
        ensures
            ({
                let t = tables_of(
                    questions@,
                    attempts@,
                    sessions@,
                    current,
                    question_seq,
                    attempt_seq,
                );
                let fits = table::keys_differ(questions@) && table::keys_differ(attempts@)
                    && table::keys_differ(sessions@) && tables::sound(t);
                match r {
                    Some(s) => fits && s.wf() && s@ == t,
                    None => !fits,
                }
            }),
    {
        let questions = match Table::from_rows(questions) {
            Some(t) => t,
            None => {
                return None;
            },
        };
        let attempts = match Table::from_rows(attempts) {
            Some(t) => t,
            None => {
                return None;
            },
        };
        let sessions = match Table::from_rows(sessions) {
            Some(t) => t,
            None => {
                return None;
            },
        };
        let store = Store { questions, attempts, sessions, current, question_seq, attempt_seq };
        proof {
            store.questions.lemma_keys();
            store.attempts.lemma_keys();
            store.sessions.lemma_keys();
        }
        if question_seq < 0 || attempt_seq < 0 || !store.questions_hold() || !store.attempts_hold()
            || !store.sessions_hold() {
            return None;
        }
        if let Some(id) = current {
            if store.questions.find(id).is_none() {
                return None;
            }
        }
        Some(store)
    }

    /// The question with this id.
    pub fn find_question(&self, id: i64) -> (r: Option<&Question>)
        requires
            self.wf(),
        ensures
            match r {
                Some(q) => self@.questions.contains_key(id) && q@ == self@.questions[id],
                None => !self@.questions.contains_key(id),
            },
    {
        self.questions.find(id)
    }

    /// The session of the question with this id.
    pub fn find_session(&self, id: i64) -> (r: Option<Session>)
        requires
            self.wf(),
        ensures
            match r {
                Some(s) => self@.sessions.contains_key(id) && s == self@.sessions[id],
                None => !self@.sessions.contains_key(id),
            },
    {
        match self.sessions.find(id) {
            Some(s) => Some(*s),
            None => None,
        }
    }

    /// The question that the test is at.
    pub fn current(&self) -> (r: Option<i64>)
        ensures
            r == self@.current,
    {
        self.current
    }

    /// The largest id that a question was ever given.
    pub fn question_seq(&self) -> (r: i64)
        ensures
            r == self@.question_seq,
    {
        self.question_seq
    }

    /// The largest id that an attempt was ever given.
    pub fn attempt_seq(&self) -> (r: i64)
        ensures
            r == self@.attempt_seq,
    {
        self.attempt_seq
    }

    /// The first question that comes after `from`, or of all if there is no `from`.
    fn least_after(&self, from: Option<&Question>) -> (r: Option<i64>)
        requires
            self.wf(),
        ensures
            from is None ==> r == tables::first_question(self@.questions),
            from matches Some(q) ==> r == tables::next_question(self@.questions, q@),
    {
        let ghost questions = self@.questions;
        proof {
            self.questions.lemma_keys();
        }
        let mut best: Option<usize> = None;
        let mut i: usize = 0;
        while i < self.questions.count()
            invariant
                self.wf(),
                questions == self@.questions,
                questions == self.questions@,
                0 <= i <= self.questions.keys().len(),
                best matches Some(b) ==> {
                    &&& b < i
                    &&& from matches Some(q) ==> tables::before(
                        q@,
                        questions[self.questions.keys()[b as int]],
                    )
                    &&& forall|m: int|
                        0 <= m < i && m != b && (from matches Some(q) ==> tables::before(
                            q@,
                            questions[self.questions.keys()[m]],
                        )) ==> tables::before(
                            questions[self.questions.keys()[b as int]],
                            questions[#[trigger] self.questions.keys()[m]],
                        )
                },
                best is None ==> forall|m: int|
                    0 <= m < i ==> (from matches Some(q) && !tables::before(
                        q@,
                        questions[#[trigger] self.questions.keys()[m]],
                    )),
            decreases self.questions.keys().len() - i,
        {
            proof {
                self.questions.lemma_keys();
            }
            let row = self.questions.at(i);
            let later = match from {
                Some(q) => q.position < row.position || (q.position == row.position && q.id
                    < row.id),
                None => true,
            };
            if later {
                match best {
                    None => {
                        best = Some(i);
                    },
                    Some(b) => {
                        let least = self.questions.at(b);
                        if row.position < least.position || (row.position == least.position
                            && row.id < least.id) {
                            best = Some(i);
                        } else {
                            assert(self.questions.keys()[b as int] != self.questions.keys()[i as int]);
                        }
                    },
                }
            }
            i += 1;
        }
        proof {
            self.questions.lemma_keys();
        }
        match best {
            None => {
                proof {
                    if exists|id: i64| tables::is_first(questions, id) {
                        let id = choose|id: i64| tables::is_first(questions, id);
                        assert(questions.contains_key(id));
                    }
                    if let Some(q) = from {
                        if exists|id: i64| tables::is_next(questions, q@, id) {
                            let id = choose|id: i64| tables::is_next(questions, q@, id);
                            assert(questions.contains_key(id));
                        }
                    }
                }
                None
            },
            Some(b) => {
                let row = self.questions.at(b);
                proof {
                    let id = self.questions.keys()[b as int];
                    assert(questions.contains_key(id));
                    match from {
                        None => {
                            assert forall|k: i64| #[trigger]
                                questions.contains_key(k) && k != id implies tables::before(
                                questions[id],
                                questions[k],
                            ) by {
                                let m = choose|m: int|
                                    0 <= m < self.questions.keys().len()
                                        && #[trigger] self.questions.keys()[m] == k;
                                assert(m != b);
                            }
                            assert(tables::is_first(questions, id));
                            order::lemma_first_unique(questions, id);
                        },
                        Some(q) => {
                            assert forall|k: i64| #[trigger]
                                questions.contains_key(k) && k != id && tables::before(
                                    q@,
                                    questions[k],
                                ) implies tables::before(questions[id], questions[k]) by {
                                let m = choose|m: int|
                                    0 <= m < self.questions.keys().len()
                                        && #[trigger] self.questions.keys()[m] == k;
                                assert(m != b);
                            }
                            assert(tables::is_next(questions, q@, id));
                            order::lemma_next_unique(questions, q@, id);
                        },
                    }
                }
                Some(row.id)
            },
        }
    }

    /// The first question of the test.
    pub fn first_question(&self) -> (r: Option<i64>)
        requires
            self.wf(),
        ensures
            r == tables::first_question(self@.questions),
    {
        self.least_after(None)
    }

    /// The question that follows `q` in the test.
    pub fn next_question(&self, q: &Question) -> (r: Option<i64>)
        requires
            self.wf(),
        ensures
            r == tables::next_question(self@.questions, q@),
    {
        self.least_after(Some(q))
    }

    /// The largest position of a question.
    pub fn last_position(&self) -> (r: Option<i64>)
        requires
            self.wf(),
        ensures
            r == tables::last_position(self@.questions),
    {
        let ghost questions = self@.questions;
        proof {
            self.questions.lemma_keys();
        }
        let mut best: Option<i64> = None;
        let mut i: usize = 0;
        while i < self.questions.count()
            invariant
                self.wf(),
                questions == self@.questions,
                questions == self.questions@,
                0 <= i <= self.questions.keys().len(),
                best is None ==> i == 0,
                best matches Some(p) ==> {
                    &&& exists|m: int|
                        0 <= m < i && questions[#[trigger] self.questions.keys()[m]].position == p
                    &&& forall|m: int|
                        0 <= m < i ==> questions[#[trigger] self.questions.keys()[m]].position <= p
                },
            decreases self.questions.keys().len() - i,
        {
            proof {
                self.questions.lemma_keys();
            }
            let row = self.questions.at(i);
            assert(questions[self.questions.keys()[i as int]].position == row.position);
            match best {
                None => {
                    best = Some(row.position);
                },
                Some(p) => {
                    if row.position > p {
                        best = Some(row.position);
                    }
                },
            }
            i += 1;
        }
        proof {
            self.questions.lemma_keys();
            match best {
                Some(p) => {
                    let m = choose|m: int|
                        0 <= m < i && questions[#[trigger] self.questions.keys()[m]].position == p;
                    assert(questions.contains_key(self.questions.keys()[m]));
                    assert(tables::is_last_position(questions, p));
                    order::lemma_last_position_unique(questions, p);
                },
                None => {
                    if exists|p: i64| tables::is_last_position(questions, p) {
                        let p = choose|p: i64| tables::is_last_position(questions, p);
                        let k = choose|k: i64| #[trigger]
                            questions.contains_key(k) && questions[k].position == p;
                        assert(questions.contains_key(k));
                    }
                },
            }
        }
        best
    }

    /// Whether a question has this position.
    pub fn position_taken(&self, position: i64) -> (r: bool)
        requires
            self.wf(),
        ensures
            r == exists|k: i64| #[trigger]
                self@.questions.contains_key(k) && self@.questions[k].position == position,
    {
        proof {
            self.questions.lemma_keys();
        }
        let mut i: usize = 0;
        while i < self.questions.count()
            invariant
                self.wf(),
                0 <= i <= self.questions.keys().len(),
                forall|m: int|
                    0 <= m < i ==> self@.questions[#[trigger] self.questions.keys()[m]].position
                        != position,
            decreases self.questions.keys().len() - i,
        {
            let row = self.questions.at(i);
            if row.position == position {
                proof {
                    self.questions.lemma_keys();
                    assert(self@.questions.contains_key(self.questions.keys()[i as int]));
                }
                return true;
            }
            i += 1;
        }
        proof {
            self.questions.lemma_keys();
        }
        false
    }

    /// The question with this id, or that there is none.
    pub fn load_question_by_id(&self, id: i64) -> (r: Result<Question, String>)
        requires
            self.wf(),
        ensures
            match r {
                Ok(q) => self@.questions.contains_key(id) && q@ == self@.questions[id],
                Err(e) => !self@.questions.contains_key(id) && e@ == "question not found"@,
            },
    {
        match self.questions.find(id) {
            Some(q) => Ok(q.clone()),
            None => Err("question not found".to_string()),
        }
    }

    /// The attempt with this id, or that there is none.
    pub fn load_attempt_by_id(&self, id: i64) -> (r: Result<Attempt, String>)
        requires
            self.wf(),
        ensures
            match r {
                Ok(a) => self@.attempts.contains_key(id) && a@ == self@.attempts[id],
                Err(e) => !self@.attempts.contains_key(id) && e@ == "attempt not found"@,
            },
    {
        match self.attempts.find(id) {
            Some(a) => Ok(a.clone()),
            None => Err("attempt not found".to_string()),
        }
    }

    /// All questions in the order of the test.
    pub fn load_all_questions(&self) -> (r: Vec<Question>)
        requires
            self.wf(),
        ensures
            tables::question_listing(self@.questions, question_views(r@)),
    {
        let ghost questions = self@.questions;
        let ghost keys = self.questions.keys();
        let ghost mut seen: Map<i64, QuestionView> = Map::empty();
        let mut list: Vec<Question> = Vec::new();
        let mut i: usize = 0;
        while i < self.questions.count()
            invariant
                self.wf(),
                questions == self@.questions,
                questions == self.questions@,
                keys == self.questions.keys(),
                0 <= i <= keys.len(),
                forall|k: i64| #[trigger]
                    seen.contains_key(k) <==> exists|m: int| 0 <= m < i && #[trigger] keys[m] == k,
                forall|k: i64| #[trigger] seen.contains_key(k) ==> seen[k] == questions[k],
                tables::question_listing(seen, question_views(list@)),
            decreases keys.len() - i,
        {
            proof {
                self.questions.lemma_keys();
            }
            let row = self.questions.at(i);
            let ghost views = question_views(list@);
            assert(!seen.contains_key(row@.id));
            let mut place: usize = 0;
            while place < list.len() && (list[place].position < row.position || (
            list[place].position == row.position && list[place].id < row.id))
                invariant
                    0 <= place <= list@.len(),
                    views == question_views(list@),
                    forall|a: int| 0 <= a < place ==> tables::before(#[trigger] views[a], row@),
                decreases list@.len() - place,
            {
                assert(views[place as int] == list@[place as int]@);
                place += 1;
            }
            proof {
                if place < views.len() {
                    assert(views[place as int] == list@[place as int]@);
                    assert(seen.contains_key(views[place as int].id));
                }
                order::lemma_question_listing_insert(seen, views, place as int, row@);
                seen = seen.insert(row@.id, row@);
            }
            list.insert(place, row.clone());
            assert(question_views(list@) =~= views.insert(place as int, row@));
            i += 1;
            assert(keys[i - 1] == row@.id);
        }
        proof {
            self.questions.lemma_keys();
            assert(seen =~= questions);
        }
        list
    }

    /// The attempts at a question, the latest first.
    pub fn load_attempts(&self, question_id: i64) -> (r: Vec<Attempt>)
        requires
            self.wf(),
        ensures
            tables::attempt_listing(self@.attempts, question_id, attempt_views(r@)),
    {
        let ghost attempts = self@.attempts;
        let ghost keys = self.attempts.keys();
        let ghost mut seen: Map<i64, AttemptView> = Map::empty();
        let mut list: Vec<Attempt> = Vec::new();
        let mut i: usize = 0;
        while i < self.attempts.count()
            invariant
                self.wf(),
                attempts == self@.attempts,
                attempts == self.attempts@,
                keys == self.attempts.keys(),
                0 <= i <= keys.len(),
                forall|k: i64| #[trigger]
                    seen.contains_key(k) <==> exists|m: int| 0 <= m < i && #[trigger] keys[m] == k,
                forall|k: i64| #[trigger] seen.contains_key(k) ==> seen[k] == attempts[k],
                tables::attempt_listing(seen, question_id, attempt_views(list@)),
            decreases keys.len() - i,
        {
            proof {
                self.attempts.lemma_keys();
            }
            let row = self.attempts.at(i);
            let ghost views = attempt_views(list@);
            assert(!seen.contains_key(row@.id));
            if row.question_id == question_id {
                let mut place: usize = 0;
                while place < list.len() && list[place].id > row.id
                    invariant
                        0 <= place <= list@.len(),
                        views == attempt_views(list@),
                        forall|a: int| 0 <= a < place ==> (#[trigger] views[a]).id > row.id,
                    decreases list@.len() - place,
                {
                    assert(views[place as int] == list@[place as int]@);
                    place += 1;
                }
                proof {
                    if place < views.len() {
                        assert(views[place as int] == list@[place as int]@);
                        assert(seen.contains_key(views[place as int].id));
                    }
                    order::lemma_attempt_listing_insert(
                        seen,
                        question_id,
                        views,
                        place as int,
                        row@,
                    );
                }
                list.insert(place, row.clone());
                assert(attempt_views(list@) =~= views.insert(place as int, row@));
            } else {
                proof {
                    order::lemma_attempt_listing_skip(seen, question_id, views, row@);
                }
            }
            proof {
                seen = seen.insert(row@.id, row@);
            }
            i += 1;
            assert(keys[i - 1] == row@.id);
        }
        proof {
            self.attempts.lemma_keys();
            assert(seen =~= attempts);
        }
        list
    }

    /// Makes a change that can be made.
    pub fn commit(&mut self, change: &Change)
        requires
            old(self).wf(),
            tables::admissible(old(self)@, change@),
        ensures
            final(self).wf(),
            final(self)@ == tables::apply(old(self)@, change@),
    {
        proof {
            tables::lemma_change_keeps_sound(self@, change@);
        }
        match change {
            Change::InsertQuestion(q) => {
                self.questions.put(q.clone());
                self.question_seq = q.id;
            },
            Change::InsertAttempt(a) => {
                self.attempts.put(a.clone());
                self.attempt_seq = a.id;
            },
            Change::MarkAttempt { id, is_correct, feedback, reviewed_at } => {
                let found = match self.attempts.find(*id) {
                    Some(a) => Some(a.clone()),
                    None => None,
                };
                if let Some(mut a) = found {
                    a.is_correct = Some(*is_correct);
                    a.feedback = record::copy_text(feedback);
                    a.reviewed_at = Some(reviewed_at.clone());
                    self.attempts.put(a);
                }
            },
            Change::PutSession(s) => {
                self.sessions.put(*s);
            },
            Change::SelectQuestion(id) => {
                self.current = *id;
            },
        }
        assert(self@ =~= tables::apply(old(self)@, change@));
    }
}

} // verus!
