//! Timed sessions: how long a question may still be answered.

use vstd::prelude::*;
use crate::admin;
use crate::course;
use crate::record::Session;
use crate::record;
use crate::reply::{Outcome, OutcomeView};
use crate::reply;
use crate::store::Store;
use crate::tables::{Change, ChangeView, Tables};
use crate::tables;

verus! {

/// The last second that the clock can show: the end of the year 262142.
pub const CLOCK_LIMIT: i64 = 8210266876799;

/// A session that has just been started.
#[derive(Clone, Copy, Debug, PartialEq, Eq, Structural)]
pub struct SessionStartResponse {
    pub question_id: i64,
    pub started_at_unix: i64,
    pub expires_at_unix: i64,
    pub remaining_seconds: i64,
    pub timed_out: bool,
}

impl View for SessionStartResponse {
    type V = SessionStartResponse;

    open spec fn view(&self) -> SessionStartResponse {
        *self
    }
}

/// How a session stands.
#[derive(Clone, Copy, Debug, PartialEq, Eq, Structural)]
pub struct SessionStatusResponse {
    pub question_id: i64,
    pub started: bool,
    pub started_at_unix: Option<i64>,
    pub expires_at_unix: Option<i64>,
    pub remaining_seconds: i64,
    pub timed_out: bool,
}

impl View for SessionStatusResponse {
    type V = SessionStatusResponse;

    open spec fn view(&self) -> SessionStatusResponse {
        *self
    }
}

/// Whether the clock can show this second.
pub open spec fn clock_second(now: i64) -> bool {
    0 <= now <= CLOCK_LIMIT
}

/// `chrono::Utc::now` and `DateTime::timestamp`: the current time in whole
/// seconds since 1970, which is never before 1970 nor after the last second
/// that `chrono` can represent; it panics if the clock of the machine is set to
/// a time outside these. What the time is, is not stated.
#[verifier::external_body]
fn clock() -> (r: i64)
    ensures
        clock_second(r),
{
    chrono::Utc::now().timestamp()
}

/// The session of a question with this limit that is started at `now`.
pub open spec fn session_from(id: i64, minutes: i64, now: i64) -> Session {
    Session {
        question_id: id,
        started_at_unix: now,
        expires_at_unix: (now + minutes * 60) as i64,
    }
}

/// What a request of the admin to start a session at `now` comes to.
pub open spec fn start_outcome(t: Tables, id: i64, now: i64) -> OutcomeView<SessionStartResponse> {
    if t.questions.contains_key(id) {
        let s = session_from(id, t.questions[id].time_limit_minutes, now);
        OutcomeView {
            status: reply::OK,
            body: Ok(
                SessionStartResponse {
                    question_id: id,
                    started_at_unix: s.started_at_unix,
                    expires_at_unix: s.expires_at_unix,
                    remaining_seconds: (s.expires_at_unix - s.started_at_unix) as i64,
                    timed_out: false,
                },
            ),
            changes: seq![ChangeView::PutSession(s)],
            write_failure_status: reply::BAD_REQUEST,
        }
    } else {
        reply::refusal(reply::NOT_FOUND, "question not found"@, reply::BAD_REQUEST)
    }
}

/// How a session stands at `now`.
pub open spec fn status_of(s: Session, now: i64) -> SessionStatusResponse {
    SessionStatusResponse {
        question_id: s.question_id,
        started: true,
        started_at_unix: Some(s.started_at_unix),
        expires_at_unix: Some(s.expires_at_unix),
        remaining_seconds: if now < s.expires_at_unix {
            (s.expires_at_unix - now) as i64
        } else {
            0
        },
        timed_out: now >= s.expires_at_unix,
    }
}

/// How a session stands that was never started.
pub open spec fn not_started(id: i64) -> SessionStatusResponse {
    SessionStatusResponse {
        question_id: id,
        started: false,
        started_at_unix: None,
        expires_at_unix: None,
        remaining_seconds: 0,
        timed_out: false,
    }
}

/// What a request for the state of a session at `now` comes to.
pub open spec fn status_outcome(t: Tables, id: i64, now: i64) -> OutcomeView<
    SessionStatusResponse,
> {
    if !t.questions.contains_key(id) {
        reply::refusal(reply::NOT_FOUND, "question not found"@, reply::BAD_REQUEST)
    } else {
        OutcomeView {
            status: reply::OK,
            body: Ok(
                if t.sessions.contains_key(id) {
                    status_of(t.sessions[id], now)
                } else {
                    not_started(id)
                },
            ),
            changes: Seq::empty(),
            write_failure_status: reply::BAD_REQUEST,
        }
    }
}

impl Store {
    /// The refusal of a request to start a session, if it is refused: it is not
    /// one of the admin, or there is no such question.
    fn start_refusal(&self, id: i64, header: Option<&str>, admin_token: &str) -> (r: Option<
        Outcome<SessionStartResponse>,
    >)
        requires
            self.wf(),
        ensures
            match r {
                Some(refusal) => forall|now: i64| #[trigger]
                    clock_second(now) ==> refusal@ == course::for_admin(
                        record::opt_str(header),
                        admin_token@,
                        reply::BAD_REQUEST,
                        start_outcome(self@, id, now),
                    ),
                None => admin::admin_verdict(record::opt_str(header), admin_token@) is Ok
                    && self@.questions.contains_key(id),
            },
            r matches Some(refusal) ==> refusal@.body is Err && refusal@.changes.len() == 0,
    {
        if let Err(e) = admin::require_admin(header, admin_token) {
            return Some(reply::refuse(reply::UNAUTHORIZED, e.message(), reply::BAD_REQUEST));
        }
        if self.find_question(id).is_none() {
            return Some(
                reply::refuse(
                    reply::NOT_FOUND,
                    "question not found".to_string(),
                    reply::BAD_REQUEST,
                ),
            );
        }
        None
    }

    /// Starts the session of a question at `now`, or starts it anew.
    pub fn start_question_session_at(
        &mut self,
        id: i64,
        header: Option<&str>,
        admin_token: &str,
        now: i64,
    ) -> (r: Outcome<SessionStartResponse>)
        requires
            old(self).wf(),
            clock_second(now),
        ensures
            final(self).wf(),
            r@ == course::for_admin(
                record::opt_str(header),
                admin_token@,
                reply::BAD_REQUEST,
                start_outcome(old(self)@, id, now),
            ),
            final(self)@ == tables::apply_all(old(self)@, r@.changes),
    {
        if let Some(refusal) = self.start_refusal(id, header, admin_token) {
            return refusal;
        }
        let minutes = match self.find_question(id) {
            Some(q) => q.time_limit_minutes,
            None => {
                assert(false);
                0
            },
        };
        assert(tables::valid_question(self@.questions[id]));
        let expires_at_unix = now + minutes * 60;
        let session = Session { question_id: id, started_at_unix: now, expires_at_unix };
        let mut changes: Vec<Change> = Vec::new();
        course::make(self, &mut changes, Change::PutSession(session));
        proof {
            assert(tables::change_views(changes@) =~= seq![ChangeView::PutSession(session)]);
            course::lemma_apply_one(old(self)@, ChangeView::PutSession(session));
        }
        Outcome {
            status: reply::OK,
            body: Ok(
                SessionStartResponse {
                    question_id: id,
                    started_at_unix: now,
                    expires_at_unix,
                    remaining_seconds: expires_at_unix - now,
                    timed_out: false,
                },
            ),
            changes,
            write_failure_status: reply::BAD_REQUEST,
        }
    }

    /// Starts the session of a question now, or starts it anew.
    pub fn start_question_session(
        &mut self,
        id: i64,
        header: Option<&str>,
        admin_token: &str,
    ) -> (r: Outcome<SessionStartResponse>)
        requires
            old(self).wf(),
        ensures
            final(self).wf(),
            exists|now: i64| #[trigger]
                clock_second(now) && r@ == course::for_admin(
                    record::opt_str(header),
                    admin_token@,
                    reply::BAD_REQUEST,
                    start_outcome(old(self)@, id, now),
                ),
            final(self)@ == tables::apply_all(old(self)@, r@.changes),
    {
        if let Some(refusal) = self.start_refusal(id, header, admin_token) {
            assert(clock_second(0));
            return refusal;
        }
        let now = clock();
        self.start_question_session_at(id, header, admin_token, now)
    }

    /// How a question stands without a session, whatever the time is.
    fn status_without_session(&self, id: i64) -> (r: Outcome<SessionStatusResponse>)
        requires
            self.wf(),
            !self@.sessions.contains_key(id),
        ensures
            forall|now: i64| #[trigger] clock_second(now) ==> r@ == status_outcome(self@, id, now),
    {
        if self.find_question(id).is_none() {
            return reply::refuse(
                reply::NOT_FOUND,
                "question not found".to_string(),
                reply::BAD_REQUEST,
            );
        }
        let changes: Vec<Change> = Vec::new();
        assert(tables::change_views(changes@) =~= Seq::empty());
        Outcome {
            status: reply::OK,
            body: Ok(
                SessionStatusResponse {
                    question_id: id,
                    started: false,
                    started_at_unix: None,
                    expires_at_unix: None,
                    remaining_seconds: 0,
                    timed_out: false,
                },
            ),
            changes,
            write_failure_status: reply::BAD_REQUEST,
        }
    }

    /// How the session of a question stands at `now`.
    pub fn get_question_session_status_at(&self, id: i64, now: i64) -> (r: Outcome<
        SessionStatusResponse,
    >)
        requires
            self.wf(),
            clock_second(now),
        ensures
            r@ == status_outcome(self@, id, now),
    {
        let s = match self.find_session(id) {
            Some(s) => s,
            None => {
                return self.status_without_session(id);
            },
        };
        let changes: Vec<Change> = Vec::new();
        assert(tables::change_views(changes@) =~= Seq::empty());
        Outcome {
            status: reply::OK,
            body: Ok(
                SessionStatusResponse {
                    question_id: id,
                    started: true,
                    started_at_unix: Some(s.started_at_unix),
                    expires_at_unix: Some(s.expires_at_unix),
                    remaining_seconds: if now < s.expires_at_unix {
                        s.expires_at_unix - now
                    } else {
                        0
                    },
                    timed_out: now >= s.expires_at_unix,
                },
            ),
            changes,
            write_failure_status: reply::BAD_REQUEST,
        }
    }

    /// How the session of a question stands now.
    pub fn get_question_session_status(&self, id: i64) -> (r: Outcome<SessionStatusResponse>)
        requires
            self.wf(),
        ensures
            exists|now: i64| #[trigger] clock_second(now) && r@ == status_outcome(self@, id, now),
    {
        if self.find_session(id).is_none() {
            assert(clock_second(0));
            return self.status_without_session(id);
        }
        let now = clock();
        self.get_question_session_status_at(id, now)
    }
}

} // verus!
