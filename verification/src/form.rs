//! The form with which a question is created, filled field by field.

use vstd::prelude::*;
use crate::integer::IntegerError;
use crate::integer;
use crate::record;
use crate::text;

verus! {

/// What a field of the form holds.
#[derive(Clone, Copy, Debug, PartialEq, Eq, Structural)]
pub enum FieldKind {
    Text,
    Image,
    Ignored,
}

/// What has been filled in so far.
#[derive(Debug)]
pub struct QuestionForm {
    pub question_text: Option<String>,
    pub question_image_path: Option<String>,
    pub expected_answer: Option<String>,
    pub solution_text: Option<String>,
    pub solution_image_path: Option<String>,
    pub time_limit_minutes: Option<i64>,
    pub position: Option<i64>,
}

/// A form, by its values.
pub struct FormView {
    pub question_text: Option<Seq<char>>,
    pub question_image_path: Option<Seq<char>>,
    pub expected_answer: Option<Seq<char>>,
    pub solution_text: Option<Seq<char>>,
    pub solution_image_path: Option<Seq<char>>,
    pub time_limit_minutes: Option<i64>,
    pub position: Option<i64>,
}

impl View for QuestionForm {
    type V = FormView;

    open spec fn view(&self) -> FormView {
        FormView {
            question_text: record::opt_text(self.question_text),
            question_image_path: record::opt_text(self.question_image_path),
            expected_answer: record::opt_text(self.expected_answer),
            solution_text: record::opt_text(self.solution_text),
            solution_image_path: record::opt_text(self.solution_image_path),
            time_limit_minutes: self.time_limit_minutes,
            position: self.position,
        }
    }
}

/// The form in which nothing is filled in.
pub open spec fn blank_form() -> FormView {
    FormView {
        question_text: None,
        question_image_path: None,
        expected_answer: None,
        solution_text: None,
        solution_image_path: None,
        time_limit_minutes: None,
        position: None,
    }
}

/// What the field of this name holds.
pub open spec fn kind_of_field(name: Seq<char>) -> FieldKind {
    if name == "question_text"@ || name == "expected_answer"@ || name == "solution_text"@ || name
        == "time_limit_minutes"@ || name == "position"@ {
        FieldKind::Text
    } else if name == "question_image"@ || name == "solution_image"@ {
        FieldKind::Image
    } else {
        FieldKind::Ignored
    }
}

/// What a text field holds after `value` is filled in: a blank value leaves it.
pub open spec fn filled(before: Option<Seq<char>>, value: Seq<char>) -> Option<Seq<char>> {
    if text::trimmed(value).len() == 0 {
        before
    } else {
        Some(text::trimmed(value))
    }
}

/// The form after a text field is filled in. A blank position leaves the
/// position; otherwise the time limit and the position must be whole numbers.
pub open spec fn with_text(form: FormView, name: Seq<char>, value: Seq<char>) -> Result<
    FormView,
    IntegerError,
> {
    if name == "question_text"@ {
        Ok(FormView { question_text: filled(form.question_text, value), ..form })
    } else if name == "expected_answer"@ {
        Ok(FormView { expected_answer: filled(form.expected_answer, value), ..form })
    } else if name == "solution_text"@ {
        Ok(FormView { solution_text: filled(form.solution_text, value), ..form })
    } else if name == "time_limit_minutes"@ {
        match integer::read_integer(text::trimmed(value)) {
            Ok(n) => Ok(FormView { time_limit_minutes: Some(n), ..form }),
            Err(e) => Err(e),
        }
    } else if name == "position"@ {
        if text::trimmed(value).len() == 0 {
            Ok(form)
        } else {
            match integer::read_integer(text::trimmed(value)) {
                Ok(n) => Ok(FormView { position: Some(n), ..form }),
                Err(e) => Err(e),
            }
        }
    } else {
        Ok(form)
    }
}

/// The form after an image has been uploaded to a path.
pub open spec fn with_image(form: FormView, name: Seq<char>, path: Seq<char>) -> FormView {
    if name == "question_image"@ {
        FormView { question_image_path: Some(path), ..form }
    } else if name == "solution_image"@ {
        FormView { solution_image_path: Some(path), ..form }
    } else {
        form
    }
}

/// What is wrong with a form as a whole, if anything; the first fault counts.
pub open spec fn form_fault(form: FormView) -> Option<Seq<char>> {
    if form.expected_answer is None {
        Some("expected_answer is required"@)
    } else if form.time_limit_minutes is None {
        Some("time_limit_minutes is required"@)
    } else if !(2 <= form.time_limit_minutes->0 <= 10) {
        Some("time_limit_minutes must be between 2 and 10"@)
    } else if form.question_text is None && form.question_image_path is None {
        Some("question_text or question_image is required"@)
    } else if form.solution_text is None && form.solution_image_path is None {
        Some("solution_text or solution_image is required"@)
    } else if form.position matches Some(p) && p <= 0 {
        Some("position must be a positive integer"@)
    } else {
        None
    }
}

/// What the field of this name holds.
pub fn field_kind(name: &str) -> (r: FieldKind)
    ensures
        r == kind_of_field(name@),
{
    if text::same_text(name, "question_text") || text::same_text(name, "expected_answer")
        || text::same_text(name, "solution_text") || text::same_text(name, "time_limit_minutes")
        || text::same_text(name, "position") {
        FieldKind::Text
    } else if text::same_text(name, "question_image") || text::same_text(name, "solution_image") {
        FieldKind::Image
    } else {
        FieldKind::Ignored
    }
}

impl QuestionForm {
    /// The form in which nothing is filled in.
    pub fn new() -> (r: QuestionForm)
        ensures
            r@ == blank_form(),
    {
        QuestionForm {
            question_text: None,
            question_image_path: None,
            expected_answer: None,
            solution_text: None,
            solution_image_path: None,
            time_limit_minutes: None,
            position: None,
        }
    }

    /// Fills in a text field. A fault leaves the form as it was.
    pub fn text_field(&mut self, name: &str, value: &str) -> (r: Result<(), IntegerError>)
        ensures
            match with_text(old(self)@, name@, value@) {
                Ok(form) => r is Ok && final(self)@ == form,
                Err(e) => r == Err::<(), IntegerError>(e) && final(self)@ == old(self)@,
            },
    {
        let v = text::trim(value);
        if text::same_text(name, "question_text") {
            if !v.as_str().is_empty() {
                self.question_text = Some(v);
            }
        } else if text::same_text(name, "expected_answer") {
            if !v.as_str().is_empty() {
                self.expected_answer = Some(v);
            }
        } else if text::same_text(name, "solution_text") {
            if !v.as_str().is_empty() {
                self.solution_text = Some(v);
            }
        } else if text::same_text(name, "time_limit_minutes") {
            match integer::parse_integer(v.as_str()) {
                Ok(n) => {
                    self.time_limit_minutes = Some(n);
                },
                Err(e) => {
                    return Err(e);
                },
            }
        } else if text::same_text(name, "position") {
            if !v.as_str().is_empty() {
                match integer::parse_integer(v.as_str()) {
                    Ok(n) => {
                        self.position = Some(n);
                    },
                    Err(e) => {
                        return Err(e);
                    },
                }
            }
        }
        Ok(())
    }

    /// Fills in an image by the path under which it is served.
    pub fn image_field(&mut self, name: &str, path: String)
        ensures
            final(self)@ == with_image(old(self)@, name@, path@),
    {
        if text::same_text(name, "question_image") {
            self.question_image_path = Some(path);
        } else if text::same_text(name, "solution_image") {
            self.solution_image_path = Some(path);
        }
    }

    /// What is wrong with the form as a whole, if anything.
    pub fn fault(&self) -> (r: Option<String>)
        ensures
            record::opt_text(r) == form_fault(self@),
    {
        if self.expected_answer.is_none() {
            return Some("expected_answer is required".to_string());
        }
        match self.time_limit_minutes {
            None => {
                return Some("time_limit_minutes is required".to_string());
            },
            Some(n) => {
                if n < 2 || n > 10 {
                    return Some("time_limit_minutes must be between 2 and 10".to_string());
                }
            },
        }
        if self.question_text.is_none() && self.question_image_path.is_none() {
            return Some("question_text or question_image is required".to_string());
        }
        if self.solution_text.is_none() && self.solution_image_path.is_none() {
            return Some("solution_text or solution_image is required".to_string());
        }
        if let Some(p) = self.position {
            if p <= 0 {
                return Some("position must be a positive integer".to_string());
            }
        }
        None
    }
}

} // verus!
