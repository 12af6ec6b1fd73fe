//! The decisions behind a one-teacher math test: questions in order, timed
//! sessions, submitted answers with an automatic hint, and manual review.

pub mod text;
pub mod equation;
pub mod forms;
pub mod variables;
pub mod matching;
pub mod integer;
pub mod path;
pub mod upload;
pub mod table;
pub mod record;
pub mod tables;
pub mod order;
pub mod store;
pub mod reply;
pub mod admin;
pub mod form;
pub mod course;
pub mod session;
pub mod attempt;
pub mod laws;
pub mod answer_laws;
pub mod input_laws;
pub mod request_laws;
