use math_test_backend::admin::{require_admin, AdminError};
use math_test_backend::attempt::{answer_fault, ReviewAttemptBody};
use math_test_backend::form::{field_kind, FieldKind, QuestionForm};
use math_test_backend::integer::IntegerError;
use math_test_backend::matching::Findings;
use math_test_backend::record::{
    bool_to_i64, flag_to_row, map_attempt_row, Attempt, AttemptRow, Question, Session,
};
use math_test_backend::reply::failure_message;
use math_test_backend::session::CLOCK_LIMIT;
use math_test_backend::store::Store;
use math_test_backend::tables::Change;
use math_test_backend::upload::{
    check_upload_name, image_at, is_image_extension, save_upload, UploadError,
};

const TOKEN: &str = "secret";

fn admin() -> Option<&'static str> {
    Some(" secret ")
}

fn empty() -> Store {
    Store::load(vec![], vec![], vec![], None, 0, 0).unwrap()
}

fn form(answer: &str, minutes: &str, position: &str) -> QuestionForm {
    let mut f = QuestionForm::new();
    f.text_field("question_text", "Solve").unwrap();
    f.text_field("expected_answer", answer).unwrap();
    f.text_field("solution_text", "because").unwrap();
    f.text_field("time_limit_minutes", minutes).unwrap();
    f.text_field("position", position).unwrap();
    f
}

fn with_positions(positions: &[&str]) -> Store {
    let mut store = empty();
    for p in positions {
        let r = store.handle_create_question(form("x=3", "3", p), "then");
        assert_eq!(r.status, 201);
    }
    store
}

fn no_findings() -> Findings {
    Findings { numbers: None, rounds: vec![] }
}

fn review(is_correct: bool, share: Option<bool>) -> ReviewAttemptBody {
    ReviewAttemptBody {
        is_correct,
        feedback: Some("Sign mistake".to_string()),
        share_solution: share,
        solution_text_to_show: None,
        solution_image_to_show: None,
    }
}

#[test]
fn admin_token() {
    assert_eq!(require_admin(Some("secret"), TOKEN), Ok(()));
    assert_eq!(require_admin(admin(), TOKEN), Ok(()));
    assert_eq!(require_admin(None, TOKEN), Err(AdminError::MissingToken));
    assert_eq!(require_admin(Some("  "), TOKEN), Err(AdminError::MissingToken));
    assert_eq!(require_admin(Some("Secret"), TOKEN), Err(AdminError::InvalidToken));
    assert_eq!(require_admin(Some(""), ""), Err(AdminError::MissingToken));
    assert_eq!(AdminError::MissingToken.message(), "missing x-admin-token header");
    assert_eq!(AdminError::InvalidToken.message(), "invalid admin token");
}

#[test]
fn form_fields() {
    assert_eq!(field_kind("question_text"), FieldKind::Text);
    assert_eq!(field_kind("expected_answer"), FieldKind::Text);
    assert_eq!(field_kind("solution_text"), FieldKind::Text);
    assert_eq!(field_kind("time_limit_minutes"), FieldKind::Text);
    assert_eq!(field_kind("position"), FieldKind::Text);
    assert_eq!(field_kind("question_image"), FieldKind::Image);
    assert_eq!(field_kind("solution_image"), FieldKind::Image);
    assert_eq!(field_kind("other"), FieldKind::Ignored);
    let mut f = QuestionForm::new();
    f.text_field("question_text", "  one ").unwrap();
    f.text_field("question_text", "   ").unwrap();
    assert_eq!(f.question_text, Some("one".to_string()));
    f.text_field("question_text", "two").unwrap();
    assert_eq!(f.question_text, Some("two".to_string()));
    f.text_field("position", " ").unwrap();
    assert_eq!(f.position, None);
    f.text_field("position", " 12 ").unwrap();
    assert_eq!(f.position, Some(12));
    assert_eq!(f.text_field("position", "x"), Err(IntegerError::InvalidDigit));
    assert_eq!(f.position, Some(12));
    assert_eq!(f.text_field("time_limit_minutes", " "), Err(IntegerError::Empty));
    assert_eq!(f.time_limit_minutes, None);
    f.text_field("other", "ignored").unwrap();
    f.image_field("question_image", "/uploads/a.png".to_string());
    f.image_field("solution_image", "/uploads/b.png".to_string());
    f.image_field("other", "/uploads/c.png".to_string());
    assert_eq!(f.question_image_path, Some("/uploads/a.png".to_string()));
    assert_eq!(f.solution_image_path, Some("/uploads/b.png".to_string()));
}

#[test]
fn form_faults_in_their_order() {
    let mut f = QuestionForm::new();
    assert_eq!(f.fault().unwrap(), "expected_answer is required");
    f.text_field("expected_answer", "3").unwrap();
    assert_eq!(f.fault().unwrap(), "time_limit_minutes is required");
    for minutes in ["1", "11", "-5"] {
        f.text_field("time_limit_minutes", minutes).unwrap();
        assert_eq!(f.fault().unwrap(), "time_limit_minutes must be between 2 and 10");
    }
    f.text_field("time_limit_minutes", "2").unwrap();
    assert_eq!(f.fault().unwrap(), "question_text or question_image is required");
    f.image_field("question_image", "/uploads/a.png".to_string());
    assert_eq!(f.fault().unwrap(), "solution_text or solution_image is required");
    f.image_field("solution_image", "/uploads/b.png".to_string());
    assert_eq!(f.fault(), None);
    f.text_field("position", "0").unwrap();
    assert_eq!(f.fault().unwrap(), "position must be a positive integer");
    f.text_field("position", "1").unwrap();
    f.text_field("time_limit_minutes", "10").unwrap();
    assert_eq!(f.fault(), None);
}

#[test]
fn created_question_is_kept_and_becomes_current() {
    let mut store = empty();
    let r = store.handle_create_question(form(" x=3 ", "3", ""), "2024-01-01 00:00:00");
    assert_eq!(r.status, 201);
    let q = r.body.unwrap();
    assert_eq!(q.id, 1);
    assert_eq!(q.question_text, Some("Solve".to_string()));
    assert_eq!(q.question_image_path, None);
    assert_eq!(q.expected_answer, "x=3");
    assert_eq!(q.solution_text, Some("because".to_string()));
    assert_eq!(q.solution_image_path, None);
    assert_eq!(q.time_limit_minutes, 3);
    assert_eq!(q.position, 1);
    assert_eq!(q.created_at, "2024-01-01 00:00:00");
    assert_eq!(r.changes.len(), 2);
    assert!(matches!(&r.changes[0], Change::InsertQuestion(x) if x.id == 1));
    assert!(matches!(r.changes[1], Change::SelectQuestion(Some(1))));
    assert_eq!(store.current(), Some(1));
    assert_eq!(store.load_question_by_id(1).unwrap().expected_answer, "x=3");
    assert_eq!(store.load_question_by_id(2).unwrap_err(), "question not found");
}

#[test]
fn positions_are_assigned_behind_the_last() {
    let mut store = with_positions(&["5", "", "2"]);
    let listed: Vec<(i64, i64)> = store.list_questions().iter().map(|q| (q.id, q.position)).collect();
    assert_eq!(listed, [(3, 2), (1, 5), (2, 6)]);
    assert_eq!(store.current(), Some(1));
    let r = store.handle_create_question(form("1", "2", "5"), "then");
    assert_eq!(r.status, 400);
    assert_eq!(r.body.unwrap_err(), "failed to insert question");
    assert_eq!(r.changes.len(), 0);
    assert_eq!(store.list_questions().len(), 3);
    let r = store.handle_create_question(form("1", "12", "7"), "then");
    assert_eq!(r.status, 400);
    assert_eq!(r.body.unwrap_err(), "time_limit_minutes must be between 2 and 10");
}

#[test]
fn no_room_behind_the_largest_position() {
    let store = with_positions(&["9223372036854775807"]);
    assert!(!store.has_room_behind());
    assert!(with_positions(&["9223372036854775806"]).has_room_behind());
    assert!(empty().has_room_behind());
}

#[test]
fn ids_are_used_up() {
    let mut store = Store::load(vec![], vec![], vec![], None, i64::MAX, 0).unwrap();
    let r = store.handle_create_question(form("1", "2", ""), "then");
    assert_eq!(r.status, 400);
    assert_eq!(r.body.unwrap_err(), "failed to insert question");
}

#[test]
fn current_question_without_questions() {
    let mut store = empty();
    let r = store.get_current_question();
    assert_eq!(r.status, 200);
    let body = r.body.unwrap();
    assert!(body.done);
    assert!(body.question.is_none());
    assert_eq!(r.changes.len(), 0);
}

#[test]
fn test_visits_questions_in_order() {
    let mut store = with_positions(&["30", "10", "20"]);
    let r = store.reset_state(admin(), TOKEN);
    assert_eq!(r.status, 200);
    assert_eq!(r.body.unwrap().question.unwrap().id, 2);
    assert_eq!(r.changes.len(), 2);
    let r = store.move_to_next_question(admin(), TOKEN);
    let body = r.body.unwrap();
    assert_eq!(body.message, "moved to next question");
    assert_eq!(body.next_question.unwrap().id, 3);
    assert!(!body.done);
    assert_eq!(store.get_current_question().body.unwrap().question.unwrap().id, 3);
    assert_eq!(store.move_to_next_question(admin(), TOKEN).body.unwrap().next_question.unwrap().id, 1);
    let body = store.move_to_next_question(admin(), TOKEN).body.unwrap();
    assert!(body.done);
    assert_eq!(body.message, "test completed");
    assert!(body.next_question.is_none());
    assert_eq!(store.current(), None);
    let r = store.get_current_question();
    assert_eq!(r.body.unwrap().question.unwrap().id, 2);
    assert!(matches!(r.changes[0], Change::SelectQuestion(Some(2))));
    assert_eq!(store.get_current_question().changes.len(), 0);
}

#[test]
fn going_on_from_no_question_starts_at_the_first() {
    let mut store = with_positions(&["1", "2", "3"]);
    store.commit(&Change::SelectQuestion(None));
    let r = store.move_to_next_question(admin(), TOKEN);
    assert_eq!(r.body.unwrap().next_question.unwrap().id, 2);
    assert_eq!(r.changes.len(), 2);
    let r = empty().move_to_next_question(admin(), TOKEN);
    assert_eq!(r.body.unwrap().message, "no questions available");
    assert_eq!(r.changes.len(), 0);
}

#[test]
fn reset_twice_is_reset_once() {
    let mut store = with_positions(&["4", "3"]);
    let a = store.reset_state(admin(), TOKEN).body.unwrap().question.unwrap().id;
    let b = store.reset_state(admin(), TOKEN).body.unwrap().question.unwrap().id;
    assert_eq!((a, b), (2, 2));
    let body = empty().reset_state(admin(), TOKEN).body.unwrap();
    assert!(body.done && body.question.is_none());
}

#[test]
fn requests_without_the_token_change_nothing() {
    let mut store = with_positions(&["1", "2"]);
    let r = store.move_to_next_question(None, TOKEN);
    assert_eq!(r.status, 401);
    assert_eq!(r.body.unwrap_err(), "missing x-admin-token header");
    assert_eq!(r.changes.len(), 0);
    let r = store.reset_state(Some("wrong"), TOKEN);
    assert_eq!(r.status, 401);
    assert_eq!(r.body.unwrap_err(), "invalid admin token");
    let r = store.start_question_session(1, Some("wrong"), TOKEN);
    assert_eq!(r.status, 401);
    let r = store.review_attempt(1, None, TOKEN, &review(true, None), "then");
    assert_eq!(r.status, 401);
    assert_eq!(store.current(), Some(1));
    assert!(store.find_session(1).is_none());
}

#[test]
fn session_runs_down() {
    let mut store = with_positions(&["1"]);
    let r = store.start_question_session_at(1, admin(), TOKEN, 1000);
    assert_eq!(r.status, 200);
    let s = r.body.unwrap();
    assert_eq!(s.question_id, 1);
    assert_eq!(s.started_at_unix, 1000);
    assert_eq!(s.expires_at_unix, 1180);
    assert_eq!(s.remaining_seconds, 180);
    assert!(!s.timed_out);
    let s = store.get_question_session_status_at(1, 1060).body.unwrap();
    assert_eq!((s.started, s.remaining_seconds, s.timed_out), (true, 120, false));
    assert_eq!(s.started_at_unix, Some(1000));
    assert_eq!(s.expires_at_unix, Some(1180));
    let s = store.get_question_session_status_at(1, 1179).body.unwrap();
    assert_eq!((s.remaining_seconds, s.timed_out), (1, false));
    let s = store.get_question_session_status_at(1, 1180).body.unwrap();
    assert_eq!((s.remaining_seconds, s.timed_out), (0, true));
    let s = store.get_question_session_status_at(1, CLOCK_LIMIT).body.unwrap();
    assert_eq!((s.remaining_seconds, s.timed_out), (0, true));
    store.start_question_session_at(1, admin(), TOKEN, 2000);
    let s = store.get_question_session_status_at(1, 2000).body.unwrap();
    assert_eq!((s.started_at_unix, s.remaining_seconds), (Some(2000), 180));
}

#[test]
fn session_that_was_not_started() {
    let store = with_positions(&["1"]);
    let s = store.get_question_session_status_at(1, 5).body.unwrap();
    assert_eq!((s.question_id, s.started, s.remaining_seconds, s.timed_out), (1, false, 0, false));
    assert_eq!((s.started_at_unix, s.expires_at_unix), (None, None));
    let r = store.get_question_session_status_at(9, 5);
    assert_eq!(r.status, 404);
    assert_eq!(r.body.unwrap_err(), "question not found");
}

#[test]
fn session_by_the_clock() {
    let mut store = with_positions(&["1"]);
    let s = store.start_question_session(1, admin(), TOKEN).body.unwrap();
    assert_eq!(s.remaining_seconds, 180);
    assert!(s.started_at_unix > 1_600_000_000 && s.started_at_unix < 8_000_000_000);
    let t = store.get_question_session_status(1).body.unwrap();
    assert!(t.started && !t.timed_out && t.remaining_seconds > 170 && t.remaining_seconds <= 180);
    let r = store.start_question_session(9, admin(), TOKEN);
    assert_eq!(r.status, 404);
    assert_eq!(r.body.unwrap_err(), "question not found");
    assert_eq!(store.get_question_session_status(9).status, 404);
}

#[test]
fn submitted_answers_are_listed_latest_first() {
    let mut store = with_positions(&["1", "2"]);
    let r = store.submit_attempt(1, " X = 3 ", &no_findings(), "t1");
    assert_eq!(r.status, 201);
    let a = r.body.unwrap();
    assert_eq!((a.id, a.question_id), (1, 1));
    assert_eq!(a.submitted_answer, "X = 3");
    assert_eq!(a.auto_match, Some(true));
    assert_eq!(a.is_correct, None);
    assert_eq!(a.feedback, None);
    assert_eq!(a.submitted_at, "t1");
    assert_eq!(a.reviewed_at, None);
    let far = Findings { numbers: Some(false), rounds: vec![] };
    assert_eq!(store.submit_attempt(1, "4", &far, "t2").body.unwrap().auto_match, Some(false));
    assert_eq!(store.submit_attempt(2, "(", &no_findings(), "t3").body.unwrap().auto_match, None);
    let ids: Vec<i64> = store.list_attempts_for_question(1).iter().map(|a| a.id).collect();
    assert_eq!(ids, [2, 1]);
    let ids: Vec<i64> = store.list_attempts_for_question(2).iter().map(|a| a.id).collect();
    assert_eq!(ids, [3]);
    assert_eq!(store.list_attempts_for_question(9).len(), 0);
    assert_eq!(store.load_attempt_by_id(3).unwrap().submitted_answer, "(");
    assert_eq!(store.load_attempt_by_id(4).unwrap_err(), "attempt not found");
}

#[test]
fn answers_that_are_not_taken() {
    let mut store = with_positions(&["1"]);
    let r = store.submit_attempt(1, "  ", &no_findings(), "t");
    assert_eq!((r.status, r.body.unwrap_err().as_str()), (400, "submitted_answer is required"));
    let r = store.submit_attempt(7, "3", &no_findings(), "t");
    assert_eq!((r.status, r.body.unwrap_err().as_str()), (404, "question not found"));
    assert_eq!(r.changes.len(), 0);
    let mut full = Store::load(store.list_questions(), vec![], vec![], None, 1, i64::MAX).unwrap();
    let r = full.submit_attempt(1, "3", &no_findings(), "t");
    assert_eq!((r.status, r.body.unwrap_err().as_str()), (400, "failed to insert attempt"));
}

#[test]
fn plan_of_an_attempt() {
    let store = with_positions(&["1"]);
    let plan = store.plan_attempt(1, " 3=x ").unwrap();
    assert_eq!(plan.left, "x=3");
    assert_eq!(plan.right, "3=x");
    assert_eq!(plan.expected_expression, "(x)-(3)");
    assert_eq!(plan.submitted_expression, "(3)-(x)");
    assert!(store.plan_attempt(1, " ").is_none());
    assert!(store.plan_attempt(2, "3").is_none());
}

#[test]
fn marked_attempt_is_read_back() {
    let mut store = with_positions(&["1"]);
    store.submit_attempt(1, "x=3", &no_findings(), "t1");
    store.submit_attempt(1, "x=4", &no_findings(), "t2");
    let r = store.review_attempt(2, admin(), TOKEN, &review(false, Some(true)), "t3");
    assert_eq!(r.status, 200);
    let body = r.body.unwrap();
    assert_eq!(body.attempt.is_correct, Some(false));
    assert_eq!(body.attempt.feedback, Some("Sign mistake".to_string()));
    assert_eq!(body.attempt.reviewed_at, Some("t3".to_string()));
    assert_eq!(body.attempt.submitted_answer, "x=4");
    assert_eq!(body.solution_text, Some("because".to_string()));
    assert_eq!(body.solution_image_path, None);
    let kept = store.load_attempt_by_id(2).unwrap();
    assert_eq!(kept.is_correct, Some(false));
    assert_eq!(kept.reviewed_at, Some("t3".to_string()));
    assert_eq!(store.load_attempt_by_id(1).unwrap().is_correct, None);
    store.review_attempt(2, admin(), TOKEN, &review(true, None), "t4");
    assert_eq!(store.load_attempt_by_id(2).unwrap().is_correct, Some(true));
    let r = store.review_attempt(8, admin(), TOKEN, &review(true, None), "t5");
    assert_eq!((r.status, r.body.unwrap_err().as_str()), (404, "attempt not found"));
}

#[test]
fn solution_is_shown_only_when_shared() {
    let mut store = with_positions(&["1"]);
    store.submit_attempt(1, "x=4", &no_findings(), "t1");
    for (correct, share) in [(true, Some(true)), (false, Some(false)), (false, None), (true, None)] {
        let body = store.review_attempt(1, admin(), TOKEN, &review(correct, share), "t").body.unwrap();
        assert_eq!(body.solution_text, None);
        assert_eq!(body.solution_image_path, None);
    }
    let mut b = review(false, Some(true));
    b.solution_text_to_show = Some(" look ".to_string());
    b.solution_image_to_show = Some("/uploads/z.png".to_string());
    let body = store.review_attempt(1, admin(), TOKEN, &b, "t").body.unwrap();
    assert_eq!(body.solution_text, Some(" look ".to_string()));
    assert_eq!(body.solution_image_path, Some("/uploads/z.png".to_string()));
    b.solution_text_to_show = Some("   ".to_string());
    b.solution_image_to_show = Some("".to_string());
    let body = store.review_attempt(1, admin(), TOKEN, &b, "t").body.unwrap();
    assert_eq!(body.solution_text, Some("because".to_string()));
    assert_eq!(body.solution_image_path, None);
}

#[test]
fn flags_round_trip() {
    assert_eq!(bool_to_i64(true), 1);
    assert_eq!(bool_to_i64(false), 0);
    let row = |m: Option<i64>, c: Option<i64>| AttemptRow {
        id: 4,
        question_id: 2,
        submitted_answer: "a".to_string(),
        auto_match: m,
        is_correct: c,
        feedback: Some("f".to_string()),
        submitted_at: "s".to_string(),
        reviewed_at: None,
    };
    let a = map_attempt_row(row(flag_to_row(Some(true)), flag_to_row(Some(false))));
    assert_eq!((a.auto_match, a.is_correct), (Some(true), Some(false)));
    let a = map_attempt_row(row(flag_to_row(None), Some(7)));
    assert_eq!((a.auto_match, a.is_correct), (None, Some(false)));
    assert_eq!((a.id, a.question_id, a.submitted_answer.as_str()), (4, 2, "a"));
    assert_eq!((a.feedback, a.submitted_at.as_str(), a.reviewed_at), (Some("f".to_string()), "s", None));
}

fn question(id: i64, position: i64) -> Question {
    Question {
        id,
        question_text: Some("q".to_string()),
        question_image_path: None,
        expected_answer: "1".to_string(),
        solution_text: None,
        solution_image_path: Some("/uploads/s.png".to_string()),
        time_limit_minutes: 5,
        position,
        created_at: "c".to_string(),
    }
}

fn attempt(id: i64, question_id: i64) -> Attempt {
    Attempt {
        id,
        question_id,
        submitted_answer: "1".to_string(),
        auto_match: None,
        is_correct: None,
        feedback: None,
        submitted_at: "s".to_string(),
        reviewed_at: None,
    }
}

#[test]
fn rows_that_fit_together_are_loaded() {
    let s = Session { question_id: 2, started_at_unix: 10, expires_at_unix: 310 };
    let store = Store::load(
        vec![question(2, 1), question(1, 2)],
        vec![attempt(5, 1)],
        vec![s],
        Some(1),
        2,
        5,
    )
    .unwrap();
    assert_eq!(store.current(), Some(1));
    assert_eq!(store.first_question(), Some(2));
    assert_eq!(store.last_position(), Some(2));
    assert!(store.position_taken(2) && !store.position_taken(3));
    assert_eq!(store.find_session(2), Some(s));
    assert_eq!((store.question_seq(), store.attempt_seq()), (2, 5));
    let ids: Vec<i64> = store.load_all_questions().iter().map(|q| q.id).collect();
    assert_eq!(ids, [2, 1]);
    assert_eq!(store.next_question(store.find_question(2).unwrap()), Some(1));
    assert_eq!(store.next_question(store.find_question(1).unwrap()), None);
}

#[test]
fn rows_that_do_not_fit_are_not_loaded() {
    let load = |q: Vec<Question>, a: Vec<Attempt>, s: Vec<Session>, c: Option<i64>| {
        Store::load(q, a, s, c, 9, 9).is_some()
    };
    assert!(load(vec![question(1, 1)], vec![], vec![], None));
    assert!(!load(vec![question(1, 1), question(1, 2)], vec![], vec![], None));
    assert!(!load(vec![question(1, 1), question(2, 1)], vec![], vec![], None));
    assert!(!load(vec![question(10, 1)], vec![], vec![], None));
    let mut q = question(1, 1);
    q.time_limit_minutes = 11;
    assert!(!load(vec![q], vec![], vec![], None));
    let mut q = question(1, 1);
    q.question_text = None;
    assert!(!load(vec![q], vec![], vec![], None));
    let mut q = question(1, 1);
    q.solution_image_path = None;
    assert!(!load(vec![q], vec![], vec![], None));
    assert!(!load(vec![], vec![attempt(1, 1)], vec![], None));
    assert!(!load(vec![question(1, 1)], vec![attempt(1, 1), attempt(1, 1)], vec![], None));
    assert!(!load(vec![question(1, 1)], vec![attempt(10, 1)], vec![], None));
    let s = Session { question_id: 1, started_at_unix: 0, expires_at_unix: 1 };
    assert!(!load(vec![], vec![], vec![s], None));
    assert!(!load(vec![question(1, 1)], vec![], vec![s, s], None));
    assert!(!load(vec![question(1, 1)], vec![], vec![], Some(2)));
    assert!(Store::load(vec![], vec![], vec![], None, -1, 0).is_none());
}

#[test]
fn uploads_by_name_and_size() {
    assert_eq!(check_upload_name(Some("photo.PNG")).unwrap(), "png");
    assert_eq!(check_upload_name(Some("a/b.c.JpEg")).unwrap(), "jpeg");
    assert_eq!(check_upload_name(Some("x.webp")).unwrap(), "webp");
    assert_eq!(check_upload_name(Some("x.jpg")).unwrap(), "jpg");
    assert_eq!(check_upload_name(None).unwrap_err(), UploadError::NoName);
    assert_eq!(check_upload_name(Some("notes.txt")).unwrap_err(), UploadError::NotAnImage);
    assert_eq!(check_upload_name(Some(".png")).unwrap_err(), UploadError::NotAnImage);
    assert_eq!(check_upload_name(Some("png")).unwrap_err(), UploadError::NotAnImage);
    assert!(save_upload(Some("a.png"), 8 * 1024 * 1024).is_ok());
    assert_eq!(save_upload(Some("a.png"), 8 * 1024 * 1024 + 1).unwrap_err(), UploadError::TooLarge);
    assert_eq!(save_upload(Some("a.gif"), usize::MAX).unwrap_err(), UploadError::NotAnImage);
    assert_eq!(save_upload(None, 0).unwrap_err(), UploadError::NoName);
    assert_eq!(UploadError::NoName.message(), "uploaded file must have a name");
    assert_eq!(UploadError::NotAnImage.message(), "image must be png, jpg, jpeg or webp");
    assert_eq!(UploadError::TooLarge.message(), "image size must be <= 8MB");
}

#[test]
fn uploads_get_fresh_names() {
    let a = save_upload(Some("../../x.PNG"), 10).unwrap();
    let b = save_upload(Some("../../x.PNG"), 10).unwrap();
    assert_ne!(a.file_name, b.file_name);
    assert_eq!(a.path, format!("/uploads/{}", a.file_name));
    assert_eq!(a.file_name.len(), 40);
    assert!(a.file_name.ends_with(".png"));
    assert!(!a.file_name.contains('/'));
    let id: Vec<char> = a.file_name.chars().collect();
    for (i, c) in id[..36].iter().enumerate() {
        if [8, 13, 18, 23].contains(&i) {
            assert_eq!(*c, '-');
        } else {
            assert!(c.is_ascii_digit() || ('a'..='f').contains(c));
        }
    }
    assert_eq!(id[14], '4');
    assert!(['8', '9', 'a', 'b'].contains(&id[19]));
    let image = image_at("id", "webp");
    assert_eq!((image.file_name.as_str(), image.path.as_str()), ("id.webp", "/uploads/id.webp"));
}

#[test]
fn messages_for_changes_that_cannot_be_written() {
    let insert = Change::InsertQuestion(question(1, 1));
    assert_eq!(failure_message(&insert).unwrap(), "failed to insert question");
    let insert = Change::InsertAttempt(attempt(1, 1));
    assert_eq!(failure_message(&insert).unwrap(), "failed to insert attempt");
    let mark = Change::MarkAttempt {
        id: 1,
        is_correct: true,
        feedback: None,
        reviewed_at: "t".to_string(),
    };
    assert_eq!(failure_message(&mark).unwrap(), "failed to update attempt");
    assert_eq!(failure_message(&Change::SelectQuestion(None)), None);
    let s = Session { question_id: 1, started_at_unix: 0, expires_at_unix: 1 };
    assert_eq!(failure_message(&Change::PutSession(s)), None);
}

#[test]
fn statuses_for_changes_that_cannot_be_written() {
    let mut store = with_positions(&["1"]);
    assert_eq!(store.get_current_question().write_failure_status, 500);
    assert_eq!(store.move_to_next_question(admin(), TOKEN).write_failure_status, 500);
    assert_eq!(store.reset_state(admin(), TOKEN).write_failure_status, 500);
    assert_eq!(store.handle_create_question(form("1", "2", ""), "t").write_failure_status, 400);
    assert_eq!(store.submit_attempt(1, "1", &no_findings(), "t").write_failure_status, 400);
    assert_eq!(store.start_question_session(1, admin(), TOKEN).write_failure_status, 400);
    assert_eq!(
        store.review_attempt(1, admin(), TOKEN, &review(true, None), "t").write_failure_status,
        400
    );
}

#[test]
fn images_by_extension() {
    for e in ["png", "jpg", "jpeg", "webp"] {
        assert!(is_image_extension(e));
    }
    for e in ["", "PNG", "gif", "pn", "pngg"] {
        assert!(!is_image_extension(e));
    }
}

#[test]
fn attempts_are_recorded_with_their_hint() {
    let mut store = with_positions(&["1"]);
    for hint in [Some(true), Some(false), None] {
        let r = store.record_attempt(1, " 4 ", hint, "now");
        assert_eq!(r.status, 201);
        let a = r.body.unwrap();
        assert_eq!(a.auto_match, hint);
        assert_eq!(a.submitted_answer, "4");
        assert_eq!(a.is_correct, None);
        assert_eq!(r.changes.len(), 1);
    }
    assert_eq!(store.record_attempt(1, " ", None, "now").status, 400);
    assert_eq!(store.record_attempt(2, "4", None, "now").status, 404);
    assert_eq!(store.list_attempts_for_question(1).len(), 3);
}

#[test]
fn session_that_ended_at_any_time_is_loaded() {
    for expires_at_unix in [i64::MIN, -1, 0, i64::MAX] {
        let s = Session { question_id: 1, started_at_unix: 0, expires_at_unix };
        let store = Store::load(vec![question(1, 1)], vec![], vec![s], None, 1, 0).unwrap();
        assert_eq!(store.list_questions().len(), 1);
        let status = store.get_question_session_status_at(1, CLOCK_LIMIT).body.unwrap();
        let left = if expires_at_unix > CLOCK_LIMIT { expires_at_unix - CLOCK_LIMIT } else { 0 };
        assert_eq!((status.remaining_seconds, status.timed_out), (left, left == 0));
    }
}

#[test]
fn blank_answer_is_a_fault() {
    assert_eq!(answer_fault(" \t"), Some("submitted_answer is required".to_string()));
    assert_eq!(answer_fault(""), Some("submitted_answer is required".to_string()));
    assert_eq!(answer_fault(" 3 "), None);
}
