//! What is made of what comes in: whole numbers, paths, uploads, flags and rows;
//! and what stands for what in the views of the kept values.

use vstd::prelude::*;
use crate::attempt::{ReviewAttemptBody, ReviewAttemptResponse};
use crate::course::{CurrentQuestionResponse, NextQuestionResponse};
use crate::course;
use crate::form::{FormView, QuestionForm};
use crate::form;
use crate::integer::IntegerError;
use crate::integer;
use crate::laws;
use crate::path;
use crate::record::{Attempt, Question, Session};
use crate::record;
use crate::reply::Outcome;
use crate::session::{SessionStartResponse, SessionStatusResponse};
use crate::session;
use crate::store;
use crate::table;
use crate::tables::{Change, ChangeView, Tables};
use crate::tables;
use crate::text;
use crate::upload::UploadError;
use crate::upload;
use crate::variables;

verus! {

/// Whether every character of `s` is a decimal digit.
pub open spec fn all_digits(s: Seq<char>) -> bool {
    forall|i: int| 0 <= i < s.len() ==> '0' <= #[trigger] s[i] <= '9'
}

/// The value of a row of digits: each further digit makes it ten times as large and
/// adds itself.
pub proof fn law_decimal(s: Seq<char>, d: char)
    requires
        '0' <= d <= '9',
    ensures
        integer::decimal(Seq::empty()) == 0,
        integer::decimal(s.push(d)) == 10 * integer::decimal(s) + (d as u32 - 48),
{
    assert(s.push(d).drop_last() =~= s);
}

/// Only a row of digits, with a sign or without, is read as a number, and it is read
/// as that number; the empty text and a sign alone are refused as such.
pub proof fn law_only_whole_numbers_are_read(s: Seq<char>)
    ensures
        ({
            let r = integer::read_integer(s);
            let sign = s.len() > 0 && (s[0] == '+' || s[0] == '-');
            let digits = if sign {
                s.skip(1)
            } else {
                s
            };
            &&& s.len() == 0 ==> r == Err::<i64, IntegerError>(IntegerError::Empty)
            &&& r is Err && r->Err_0 == IntegerError::Empty ==> s.len() == 0
            &&& sign && s.len() == 1 ==> r == Err::<i64, IntegerError>(IntegerError::InvalidDigit)
            &&& r is Ok ==> digits.len() > 0 && all_digits(digits)
            &&& r is Ok && s[0] == '-' ==> r->Ok_0 == -integer::decimal(digits)
            &&& r is Ok && s[0] != '-' ==> r->Ok_0 == integer::decimal(digits)
        }),
{
    if s.len() > 0 {
        if s[0] == '+' || s[0] == '-' {
            if s.len() > 1 {
                lemma_read_digits(s.skip(1), s[0] == '-', 0);
            }
        } else {
            lemma_read_digits(s, false, 0);
        }
    }
}

proof fn lemma_read_digits(s: Seq<char>, negative: bool, i: int)
    requires
        0 <= i <= s.len(),
        s.len() > 0,
        forall|k: int| 0 <= k < i ==> '0' <= #[trigger] s[k] <= '9',
        i > 0 ==> i64::MIN <= integer::signed(negative, integer::decimal(s.take(i))) <= i64::MAX,
    ensures
        integer::read_digits(s, negative, i) is Ok ==> all_digits(s) && integer::read_digits(
            s,
            negative,
            i,
        )->Ok_0 == integer::signed(negative, integer::decimal(s)),
        integer::read_digits(s, negative, i) is Err ==> integer::read_digits(
            s,
            negative,
            i,
        )->Err_0 != IntegerError::Empty,
    decreases s.len() - i,
{
    if i == s.len() {
        assert(s.take(i) =~= s);
    } else if integer::is_digit(s[i]) {
        let v = integer::signed(negative, integer::decimal(s.take(i + 1)));
        if i64::MIN <= v <= i64::MAX {
            lemma_read_digits(s, negative, i + 1);
        }
    }
}

/// A text that goes on, behind digits that are still read, with something else is
/// refused as no number; one whose digits are already too many as too large or too
/// small, whatever follows.
pub proof fn law_other_texts_are_refused(digits: Seq<char>, rest: Seq<char>)
    requires
        digits.len() > 0,
        all_digits(digits),
    ensures
        ({
            let n = integer::decimal(digits);
            let plain = integer::read_integer(digits + rest);
            let minus = integer::read_integer(seq!['-'] + (digits + rest));
            let odd = rest.len() > 0 && !('0' <= rest[0] <= '9');
            &&& n <= i64::MAX && odd ==> plain == Err::<i64, IntegerError>(
                IntegerError::InvalidDigit,
            )
            &&& n > i64::MAX ==> plain == Err::<i64, IntegerError>(IntegerError::TooLarge)
            &&& -n >= i64::MIN && odd ==> minus == Err::<i64, IntegerError>(
                IntegerError::InvalidDigit,
            )
            &&& -n < i64::MIN ==> minus == Err::<i64, IntegerError>(IntegerError::TooSmall)
        }),
{
    let s = digits + rest;
    assert(s[0] == digits[0]);
    assert((seq!['-'] + s).skip(1) =~= s);
    assert forall|k: int| 0 <= k < digits.len() implies integer::is_digit(#[trigger] digits[k]) by {}
    integer::lemma_decimal_grows(digits, 0);
    lemma_read_past(digits, rest, false, 0);
    lemma_read_past(digits, rest, true, 0);
}

proof fn lemma_read_past(digits: Seq<char>, rest: Seq<char>, negative: bool, i: int)
    requires
        0 <= i < digits.len(),
        all_digits(digits),
    ensures
        ({
            let v = integer::signed(negative, integer::decimal(digits));
            let r = integer::read_digits(digits + rest, negative, i);
            &&& i64::MIN <= v <= i64::MAX && rest.len() > 0 && !('0' <= rest[0] <= '9')
                ==> r == Err::<i64, IntegerError>(IntegerError::InvalidDigit)
            &&& v > i64::MAX ==> r == Err::<i64, IntegerError>(IntegerError::TooLarge)
            &&& v < i64::MIN ==> r == Err::<i64, IntegerError>(IntegerError::TooSmall)
        }),
    decreases digits.len() - i,
{
    let s = digits + rest;
    assert(s.take(i + 1) =~= digits.take(i + 1));
    assert(s[i] == digits[i]);
    assert forall|k: int| 0 <= k < digits.len() implies integer::is_digit(#[trigger] digits[k]) by {}
    integer::lemma_decimal_grows(digits, i + 1);
    if i + 1 < digits.len() {
        lemma_read_past(digits, rest, negative, i + 1);
    } else {
        assert(digits.take(i + 1) =~= digits);
        if rest.len() > 0 {
            assert(s[i + 1] == rest[0]);
        }
    }
}

/// The words of each fault of a number.
pub proof fn law_words_of_numbers(e: IntegerError)
    ensures
        e is Empty ==> e.words() == "cannot parse integer from empty string"@,
        e is InvalidDigit ==> e.words() == "invalid digit found in string"@,
        e is TooLarge ==> e.words() == "number too large to fit in target type"@,
        e is TooSmall ==> e.words() == "number too small to fit in target type"@,
{
}

/// The extension of a file, in whatever directory, is what follows its last dot, if
/// something stands before that dot; a file without a dot has none, nor has one whose
/// only dot is its first character.
pub proof fn law_extension(dir: Seq<char>, stem: Seq<char>, ext: Seq<char>)
    requires
        dir.len() > 0 ==> dir.last() == '/',
        stem.len() > 0,
        !stem.contains('/'),
        ext.len() > 0,
        !ext.contains('/') && !ext.contains('.'),
    ensures
        path::extension(dir + stem + seq!['.'] + ext) == Some(ext),
        path::extension(dir + seq!['.'] + ext) is None,
        path::extension(dir + ext) is None,
{
    let dot = seq!['.'];
    assert(dir + stem + dot + ext =~= dir + (stem + dot + ext));
    assert(dir + dot + ext =~= dir + (dot + ext));
    lemma_extension_of_name(dir, stem, ext);
    lemma_extension_of_name(dir, Seq::empty(), ext);
    assert(Seq::<char>::empty() + dot + ext =~= dot + ext);
    lemma_no_extension(dir, ext);
}

/// The extension of a file with a dot.
proof fn lemma_extension_of_name(dir: Seq<char>, stem: Seq<char>, ext: Seq<char>)
    requires
        dir.len() > 0 ==> dir.last() == '/',
        !stem.contains('/'),
        ext.len() > 0,
        !ext.contains('/') && !ext.contains('.'),
    ensures
        path::extension(dir + (stem + seq!['.'] + ext)) == if stem.len() > 0 {
            Some(ext)
        } else {
            None
        },
{
    let name = stem + seq!['.'] + ext;
    let at = stem.len() as int;
    assert forall|i: int| 0 <= i < name.len() implies name[i] != '/' by {
        if i < at {
            assert(name[i] == stem[i]);
        } else if i > at {
            assert(name[i] == ext[i - at - 1]);
        }
    }
    assert(name.last() == ext.last());
    assert(ext.contains(ext.last()));
    lemma_last_component(dir, name);
    assert forall|i: int| at < i < name.len() implies name[i] != '.' by {
        assert(name[i] == ext[i - at - 1]);
    }
    laws::lemma_through_last_at(name, '.', at);
    assert(name.skip(at + 1) =~= ext);
    lemma_not_dots(name);
}

/// A file without a dot has no extension.
proof fn lemma_no_extension(dir: Seq<char>, name: Seq<char>)
    requires
        dir.len() > 0 ==> dir.last() == '/',
        name.len() > 0,
        !name.contains('/') && !name.contains('.'),
    ensures
        path::extension(dir + name) is None,
{
    assert forall|i: int| 0 <= i < name.len() implies name[i] != '/' && name[i] != '.' by {
        assert(name.contains(name[i]));
    }
    assert(name.contains(name.last()));
    lemma_last_component(dir, name);
    laws::lemma_through_last_absent(name, '.');
    lemma_not_dots(name);
}

/// A name that does not end in a dot is neither of the names made of dots.
proof fn lemma_not_dots(name: Seq<char>)
    requires
        name.len() > 0,
        name.last() != '.',
    ensures
        name != "."@,
        name != ".."@,
{
    reveal_strlit(".");
    reveal_strlit("..");
}

/// A path that ends in a name without separator has that name as its last component.
proof fn lemma_last_component(dir: Seq<char>, name: Seq<char>)
    requires
        dir.len() > 0 ==> dir.last() == '/',
        name.len() > 0,
        forall|i: int| 0 <= i < name.len() ==> name[i] != '/',
        name.last() != '.',
    ensures
        path::without_tail(dir + name) == dir + name,
        path::through_last(dir + name, '/') == dir.len(),
        path::last_component(dir + name) == name,
{
    let s = dir + name;
    assert(s.last() == name.last());
    assert(name[name.len() - 1] != '/');
    if dir.len() == 0 {
        assert(s =~= name);
        laws::lemma_through_last_absent(s, '/');
    } else {
        let at = dir.len() - 1;
        assert forall|i: int| at < i < s.len() implies s[i] != '/' by {
            assert(s[i] == name[i - at - 1]);
        }
        assert(s[at] == '/');
        laws::lemma_through_last_at(s, '/', at);
    }
    assert(s.skip(dir.len() as int) =~= name);
}

/// A file stands in the directory that is written before its separator; a name
/// alone stands in the empty path; and the root has no directory that holds it.
pub proof fn law_parent(dir: Seq<char>, name: Seq<char>)
    requires
        name.len() > 0,
        !name.contains('/'),
        name.last() != '.',
    ensures
        dir.len() > 0 && dir.last() != '/' && dir.last() != '.' ==> path::parent(
            dir + seq!['/'] + name,
        ) == Some(dir),
        path::parent(name) == Some(Seq::<char>::empty()),
        path::parent(seq!['/'] + name) == Some(seq!['/']),
        path::parent(seq!['/']) is None,
        path::parent(Seq::empty()) is None,
{
    assert forall|i: int| 0 <= i < name.len() implies name[i] != '/' by {
        assert(name.contains(name[i]));
    }
    let none = Seq::<char>::empty();
    lemma_last_component(none, name);
    assert(none + name =~= name);
    assert(name.take(0) =~= none);
    let root = seq!['/'];
    lemma_last_component(root, name);
    assert((root + name).take(1) =~= root);
    laws::lemma_through_last_at(root, '/', 0);
    assert(root.skip(1) =~= none);
    assert(none.skip(0) =~= none);
    if dir.len() > 0 && dir.last() != '/' && dir.last() != '.' {
        let d = dir + seq!['/'];
        lemma_last_component(d, name);
        assert((d + name).take(d.len() as int) =~= d);
        assert(d.drop_last() =~= dir);
        assert(path::without_tail(d) == path::without_tail(dir));
    }
}

/// What becomes of an upload: refused without a name, without one of the four
/// extensions in whatever case, and above eight mebibytes, in this order; else taken
/// with its extension in lower case.
pub proof fn law_uploads(name: Seq<char>, size: int)
    ensures
        ({
            let ext = match path::extension(name) {
                Some(e) => text::lowered(e),
                None => text::lowered(""@),
            };
            let image = ext == "png"@ || ext == "jpg"@ || ext == "jpeg"@ || ext == "webp"@;
            let r = upload::upload_verdict(Some(name), size);
            &&& !image ==> r == Err::<Seq<char>, UploadError>(UploadError::NotAnImage)
            &&& !image ==> upload::name_verdict(Some(name)) == Err::<Seq<char>, UploadError>(
                UploadError::NotAnImage,
            )
            &&& image ==> upload::name_verdict(Some(name)) == Ok::<Seq<char>, UploadError>(ext)
            &&& image && size > 8 * 1024 * 1024 ==> r == Err::<Seq<char>, UploadError>(
                UploadError::TooLarge,
            )
            &&& image && size <= 8 * 1024 * 1024 ==> r == Ok::<Seq<char>, UploadError>(ext)
        }),
        upload::upload_verdict(None, size) == Err::<Seq<char>, UploadError>(UploadError::NoName),
        upload::name_verdict(None) == Err::<Seq<char>, UploadError>(UploadError::NoName),
        UploadError::NoName.words() == "uploaded file must have a name"@,
        UploadError::NotAnImage.words() == "image must be png, jpg, jpeg or webp"@,
        UploadError::TooLarge.words() == "image size must be <= 8MB"@,
{
}

/// A flag is kept as 1 or 0, and only 1 is read as `true`.
pub proof fn law_flags(v: bool, n: i64)
    ensures
        record::flag_number(true) == 1 && record::flag_number(false) == 0,
        record::flag_of(Some(n)) == Some(n == 1),
        record::flag_of(None) is None,
        record::flag_of(Some(record::flag_number(v))) == Some(v),
{
}

/// The seconds that the clock can show: from 1970 to the end of the year 262142.
pub proof fn law_clock(now: i64)
    ensures
        session::clock_second(now) <==> 0 <= now <= 8210266876799,
{
}

/// The contents of lists of rows: every row under its own key, and nothing else.
pub proof fn law_rows(
    questions: Seq<Question>,
    attempts: Seq<Attempt>,
    sessions: Seq<Session>,
    current: Option<i64>,
    question_seq: i64,
    attempt_seq: i64,
    i: int,
    k: i64,
)
    requires
        table::keys_differ(questions),
        table::keys_differ(attempts),
        table::keys_differ(sessions),
    ensures
        ({
            let t = store::tables_of(
                questions,
                attempts,
                sessions,
                current,
                question_seq,
                attempt_seq,
            );
            &&& 0 <= i < questions.len() ==> t.questions.contains_key(questions[i].id)
                && t.questions[questions[i].id] == questions[i]@
            &&& t.questions.contains_key(k) ==> exists|m: int|
                0 <= m < questions.len() && (#[trigger] questions[m]).id == k
            &&& 0 <= i < attempts.len() ==> t.attempts.contains_key(attempts[i].id)
                && t.attempts[attempts[i].id] == attempts[i]@
            &&& t.attempts.contains_key(k) ==> exists|m: int|
                0 <= m < attempts.len() && (#[trigger] attempts[m]).id == k
            &&& 0 <= i < sessions.len() ==> t.sessions.contains_key(sessions[i].question_id)
                && t.sessions[sessions[i].question_id] == sessions[i]
            &&& t.sessions.contains_key(k) ==> exists|m: int|
                0 <= m < sessions.len() && (#[trigger] sessions[m]).question_id == k
            &&& t.current == current
            &&& t.question_seq == question_seq && t.attempt_seq == attempt_seq
        }),
{
    if 0 <= i < questions.len() {
        table::lemma_by_key(questions, i);
    }
    if 0 <= i < attempts.len() {
        table::lemma_by_key(attempts, i);
    }
    if 0 <= i < sessions.len() {
        table::lemma_by_key(sessions, i);
    }
    if table::by_key(questions).contains_key(k) {
        let m = choose|m: int|
            0 <= m < questions.len() && <Question as table::Record>::key_of(
                #[trigger] questions[m]@,
            ) == k;
        assert(questions[m].id == k);
    }
    if table::by_key(attempts).contains_key(k) {
        let m = choose|m: int|
            0 <= m < attempts.len() && <Attempt as table::Record>::key_of(#[trigger] attempts[m]@)
                == k;
        assert(attempts[m].id == k);
    }
    if table::by_key(sessions).contains_key(k) {
        let m = choose|m: int|
            0 <= m < sessions.len() && <Session as table::Record>::key_of(#[trigger] sessions[m]@)
                == k;
        assert(sessions[m].question_id == k);
    }
}

/// Rows have different keys exactly if no two have the same id, or, of sessions, the
/// same question.
pub proof fn law_keys(questions: Seq<Question>, attempts: Seq<Attempt>, sessions: Seq<Session>)
    ensures
        table::keys_differ(questions) <==> forall|i: int, j: int|
            0 <= i < j < questions.len() ==> (#[trigger] questions[i]).id != (
            #[trigger] questions[j]).id,
        table::keys_differ(attempts) <==> forall|i: int, j: int|
            0 <= i < j < attempts.len() ==> (#[trigger] attempts[i]).id != (
            #[trigger] attempts[j]).id,
        table::keys_differ(sessions) <==> forall|i: int, j: int|
            0 <= i < j < sessions.len() ==> (#[trigger] sessions[i]).question_id != (
            #[trigger] sessions[j]).question_id,
{
    if forall|i: int, j: int|
        0 <= i < j < questions.len() ==> (#[trigger] questions[i]).id != (
        #[trigger] questions[j]).id {
        assert forall|i: int, j: int| 0 <= i < j < questions.len() implies <
            Question as table::Record>::key_of(#[trigger] questions[i]@) != <
            Question as table::Record>::key_of(#[trigger] questions[j]@) by {
            assert(questions[i].id != questions[j].id);
        }
    }
    if forall|i: int, j: int|
        0 <= i < j < attempts.len() ==> (#[trigger] attempts[i]).id != (
        #[trigger] attempts[j]).id {
        assert forall|i: int, j: int| 0 <= i < j < attempts.len() implies <
            Attempt as table::Record>::key_of(#[trigger] attempts[i]@) != <
            Attempt as table::Record>::key_of(#[trigger] attempts[j]@) by {
            assert(attempts[i].id != attempts[j].id);
        }
    }
    if forall|i: int, j: int|
        0 <= i < j < sessions.len() ==> (#[trigger] sessions[i]).question_id != (
        #[trigger] sessions[j]).question_id {
        assert forall|i: int, j: int| 0 <= i < j < sessions.len() implies <
            Session as table::Record>::key_of(#[trigger] sessions[i]@) != <
            Session as table::Record>::key_of(#[trigger] sessions[j]@) by {
            assert(sessions[i].question_id != sessions[j].question_id);
        }
    }
    assert forall|i: int, j: int|
        table::keys_differ(questions) && 0 <= i < j < questions.len() implies (
    #[trigger] questions[i]).id != (#[trigger] questions[j]).id by {
        assert(<Question as table::Record>::key_of(questions[i]@) != <
            Question as table::Record>::key_of(questions[j]@));
    }
    assert forall|i: int, j: int|
        table::keys_differ(attempts) && 0 <= i < j < attempts.len() implies (
    #[trigger] attempts[i]).id != (#[trigger] attempts[j]).id by {
        assert(<Attempt as table::Record>::key_of(attempts[i]@) != <
            Attempt as table::Record>::key_of(attempts[j]@));
    }
    assert forall|i: int, j: int|
        table::keys_differ(sessions) && 0 <= i < j < sessions.len() implies (
    #[trigger] sessions[i]).question_id != (#[trigger] sessions[j]).question_id by {
        assert(<Session as table::Record>::key_of(sessions[i]@) != <
            Session as table::Record>::key_of(sessions[j]@));
    }
}

/// Whether `v` stands for a text that may be missing.
pub open spec fn same_text(v: Option<Seq<char>>, s: Option<String>) -> bool {
    &&& v is Some <==> s is Some
    &&& s matches Some(t) ==> v == Some(t@)
}

/// The view of a question, of an attempt and of a form has each of its fields.
pub proof fn law_views_of_records(q: Question, a: Attempt, f: QuestionForm)
    ensures
        q@.id == q.id && same_text(q@.question_text, q.question_text),
        same_text(q@.question_image_path, q.question_image_path),
        q@.expected_answer == q.expected_answer@ && same_text(q@.solution_text, q.solution_text),
        same_text(q@.solution_image_path, q.solution_image_path),
        q@.time_limit_minutes == q.time_limit_minutes && q@.position == q.position,
        q@.created_at == q.created_at@,
        a@.id == a.id && a@.question_id == a.question_id,
        a@.submitted_answer == a.submitted_answer@ && a@.auto_match == a.auto_match,
        a@.is_correct == a.is_correct && same_text(a@.feedback, a.feedback),
        a@.submitted_at == a.submitted_at@ && same_text(a@.reviewed_at, a.reviewed_at),
        same_text(f@.question_text, f.question_text),
        same_text(f@.question_image_path, f.question_image_path),
        same_text(f@.expected_answer, f.expected_answer),
        same_text(f@.solution_text, f.solution_text),
        same_text(f@.solution_image_path, f.solution_image_path),
        f@.time_limit_minutes == f.time_limit_minutes && f@.position == f.position,
{
}

/// The view of what a review asks for, and of each reply, has each of its fields.
pub proof fn law_views_of_replies(
    b: ReviewAttemptBody,
    r: ReviewAttemptResponse,
    c: CurrentQuestionResponse,
    n: NextQuestionResponse,
    o: Outcome<Question>,
    i: int,
)
    ensures
        b@.is_correct == b.is_correct && same_text(b@.feedback, b.feedback),
        b@.share_solution == b.share_solution,
        same_text(b@.solution_text_to_show, b.solution_text_to_show),
        same_text(b@.solution_image_to_show, b.solution_image_to_show),
        r@.attempt == r.attempt@ && same_text(r@.solution_text, r.solution_text),
        same_text(r@.solution_image_path, r.solution_image_path),
        c@.done == c.done && (c@.question is Some <==> c.question is Some),
        c.question matches Some(q) ==> c@.question == Some(q@),
        n@.done == n.done && n@.message == n.message@,
        n@.next_question is Some <==> n.next_question is Some,
        n.next_question matches Some(q) ==> n@.next_question == Some(q@),
        o@.status == o.status && o@.write_failure_status == o.write_failure_status,
        o.body matches Ok(q) ==> o@.body is Ok && o@.body->Ok_0 == q@,
        o.body matches Err(e) ==> o@.body is Err && o@.body->Err_0 == e@,
        o@.changes.len() == o.changes@.len(),
        0 <= i < o.changes@.len() ==> o@.changes[i] == o.changes@[i]@,
{
}

/// A session and the replies about one stand for themselves, and so do lists and
/// texts, entry by entry.
pub proof fn law_views_of_sessions_and_lists(
    s: Session,
    started: SessionStartResponse,
    status: SessionStatusResponse,
    header: &str,
    questions: Seq<Question>,
    attempts: Seq<Attempt>,
    names: Seq<String>,
    i: int,
)
    ensures
        s@ == s,
        started@ == started,
        status@ == status,
        record::opt_str(Some(header)) == Some(header@),
        record::opt_str(None) is None,
        store::question_views(questions).len() == questions.len(),
        0 <= i < questions.len() ==> store::question_views(questions)[i] == questions[i]@,
        store::attempt_views(attempts).len() == attempts.len(),
        0 <= i < attempts.len() ==> store::attempt_views(attempts)[i] == attempts[i]@,
        variables::texts(names).len() == names.len(),
        0 <= i < names.len() ==> variables::texts(names)[i] == names[i]@,
{
}

/// The view of a change has each of its values.
pub proof fn law_views_of_changes(
    q: Question,
    a: Attempt,
    s: Session,
    id: i64,
    is_correct: bool,
    feedback: Option<String>,
    reviewed_at: String,
    current: Option<i64>,
)
    ensures
        Change::InsertQuestion(q)@ == ChangeView::InsertQuestion(q@),
        Change::InsertAttempt(a)@ == ChangeView::InsertAttempt(a@),
        Change::PutSession(s)@ == ChangeView::PutSession(s),
        Change::SelectQuestion(current)@ == ChangeView::SelectQuestion(current),
        ({
            let mark = Change::MarkAttempt { id, is_correct, feedback, reviewed_at }@;
            &&& mark is MarkAttempt
            &&& mark->MarkAttempt_id == id && mark->is_correct == is_correct
            &&& same_text(mark->feedback, feedback) && mark->reviewed_at == reviewed_at@
        }),
{
}

/// There is room for a form exactly if it has a fault or a position, or no question
/// has the largest position of all.
pub proof fn law_room(t: Tables, f: FormView)
    requires
        tables::sound(t),
    ensures
        course::position_fits(t, f) <==> form::form_fault(f) is Some || f.position is Some || forall|
            k: i64,
        | #[trigger]
            t.questions.contains_key(k) ==> t.questions[k].position < i64::MAX,
{
    laws::lemma_append_position_free(t);
    match tables::last_position(t.questions) {
        Some(p) => {
            let x = choose|x: i64| tables::is_last_position(t.questions, x);
            assert(tables::is_last_position(t.questions, p));
            let k = choose|k: i64| #[trigger]
                t.questions.contains_key(k) && t.questions[k].position == p;
            assert(t.questions.contains_key(k));
        },
        None => {
            assert forall|k: i64| #[trigger] t.questions.contains_key(k) implies
                t.questions[k].position < i64::MAX by {}
        },
    }
}

} // verus!
