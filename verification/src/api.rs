//! The wire vocabulary of `POST /v1/systemone` and `GET /v1/models`, as plain values.
//!
//! Maps of the wire are held as vectors of entries in ascending key order, which is the
//! order the wire's maps iterate in.

use vstd::prelude::*;

use crate::scalars::{Confidence, Instructions, Model, Probability, State};
use crate::text::{decimal, owned, push_decimal};

verus! {

/// The most options a choice may have.
pub const MAX_OPTIONS: usize = 255;

/// The fewest levels a score may have.
pub const MIN_LEVELS: usize = 2;

/// The most levels a score may have.
pub const MAX_LEVELS: usize = 10;

/// One typed answer. The `type` tag matches the question's.
#[derive(Debug)]
pub enum Answer {
    /// Probability of yes.
    Noul { noul: Probability },
    /// The chosen option with the full distribution: `(key, probability)` in key order.
    Choice { choice: String, probabilities: Vec<(String, Probability)>, confidence: Confidence },
    /// Probability-weighted position on the levels. `score` is the binary64 pattern of the
    /// expected value; `legend` and `probabilities` are `(level index, _)` in index order.
    Score {
        score: u64,
        legend: Vec<(u8, String)>,
        probabilities: Vec<(u8, Probability)>,
        confidence: Confidence,
    },
}

/// Identifies a question inside one request. Never sent to the model.
#[derive(Debug, PartialEq, Eq)]
pub struct QuestionId(String);

impl View for QuestionId {
    type V = Seq<char>;

    closed spec fn view(&self) -> Seq<char> {
        self.0@
    }
}

/// The id of the `n`-th question of a request, counting from zero: `q0`, `q1`, ...
pub open spec fn id_text(n: nat) -> Seq<char> {
    seq!['q'] + decimal(n)
}

impl QuestionId {
    /// An id from text.
    pub fn new(id: String) -> (r: QuestionId)
        ensures
            r@ == id@,
    {
        QuestionId(id)
    }

    /// The id of the `n`-th question: `q` and `n` in decimal.
    pub fn nth(n: usize) -> (r: QuestionId)
        ensures
            r@ == id_text(n as nat),
    {
        let mut s = owned("q");
        proof {
            reveal_strlit("q");
        }
        push_decimal(&mut s, n);
        assert(s@ =~= id_text(n as nat));
        QuestionId(s)
    }

    /// The id as used in the `questions` and `answers` maps.
    pub fn as_str(&self) -> (r: &str)
        ensures
            r@ == self@,
    {
        self.0.as_str()
    }

    /// The two ids are the same text.
    pub fn same(&self, other: &QuestionId) -> (r: bool)
        ensures
            r == (self@ == other@),
    {
        self.0 == other.0
    }

    /// A copy.
    pub fn duplicate(&self) -> (r: QuestionId)
        ensures
            r@ == self@,
    {
        QuestionId(self.0.clone())
    }
}

/// Optional descriptions of what a yes and a no mean for a noul question.
#[derive(Debug)]
pub struct NoulCriteria {
    /// What a yes (value near 1) means.
    pub yes: String,
    /// What a no (value near 0) means.
    pub no: String,
}

/// One typed question, as it goes on the wire.
#[derive(Debug)]
pub enum Question {
    /// Yes/no; the answer is the probability of yes.
    Noul { instructions: Instructions, criteria: Option<NoulCriteria> },
    /// Pick one option: `(key, rubric)` in declaration order. At most 255.
    Choice { instructions: Instructions, criteria: Vec<(String, Option<String>)> },
    /// Rate along ordered levels, low to high. 2..=10 levels.
    Score { instructions: Instructions, criteria: Vec<String> },
}

/// The request body.
#[derive(Debug)]
pub struct Request {
    /// What to evaluate.
    pub state: State,
    /// Which model answers.
    pub model: Model,
    /// Questions with their ids, in id order.
    pub questions: Vec<(QuestionId, Question)>,
}

/// Token usage for one request. Input tokens are billed; output tokens are free.
#[derive(Clone, Copy, Debug, PartialEq, Eq, Structural)]
pub struct Usage {
    /// Tokens read.
    pub input_tokens: u64,
    /// Tokens written.
    pub output_tokens: u64,
}

/// The response body.
#[derive(Debug)]
pub struct Response {
    /// The versioned model that answered, even when an alias was requested.
    pub model: Model,
    /// One answer per question, with its id.
    pub answers: Vec<(QuestionId, Answer)>,
    /// Token usage.
    pub usage: Usage,
}

/// One entry from `GET /v1/models`.
#[derive(Clone, Debug, PartialEq, Eq)]
pub struct ModelInfo {
    /// Name or alias accepted by the `model` field.
    pub name: String,
    /// What it is for.
    pub description: String,
    /// Release date as the API reports it.
    pub release_date: String,
}

} // verus!
