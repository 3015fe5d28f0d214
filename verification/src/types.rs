use vstd::prelude::*;

use crate::json::{items_view, Json, JsonValue};
use crate::keymap::KeyMap;

verus! {

/// The model of an optional JSON value.
pub open spec fn opt_json(o: Option<JsonValue>) -> Option<Json> {
    match o {
        Some(v) => Some(v@),
        None => None,
    }
}

/// The descriptions a yes/no question may give of its two outcomes.
#[derive(Debug)]
pub struct NoulCriteria {
    /// Description of the true / yes outcome (the member `"true"`).
    pub on_true: Option<JsonValue>,
    /// Description of the false / no outcome (the member `"false"`).
    pub on_false: Option<JsonValue>,
}

/// The model of `NoulCriteria`.
pub struct NoulCriteriaView {
    pub on_true: Option<Json>,
    pub on_false: Option<Json>,
}

impl View for NoulCriteria {
    type V = NoulCriteriaView;

    open spec fn view(&self) -> NoulCriteriaView {
        NoulCriteriaView { on_true: opt_json(self.on_true), on_false: opt_json(self.on_false) }
    }
}

/// A question evaluated by System One.
#[derive(Debug)]
#[allow(inconsistent_fields)]
pub enum Question {
    /// A yes/no probability question.
    Noul { instructions: JsonValue, criteria: Option<NoulCriteria> },
    /// A multiple-choice question: option keys to their descriptions.
    Choice { instructions: JsonValue, criteria: KeyMap<JsonValue> },
    /// A rating question: its levels, lowest first.
    Score { instructions: JsonValue, criteria: Vec<JsonValue> },
}

/// The model of a `Question`.
#[allow(inconsistent_fields)]
pub enum QuestionView {
    Noul { instructions: Json, criteria: Option<NoulCriteriaView> },
    Choice { instructions: Json, criteria: Map<Seq<char>, Json> },
    Score { instructions: Json, criteria: Seq<Json> },
}

impl View for Question {
    type V = QuestionView;

    open spec fn view(&self) -> QuestionView {
        match self {
            Question::Noul { instructions, criteria } => QuestionView::Noul {
                instructions: instructions@,
                criteria: match criteria {
                    Some(c) => Some(c@),
                    None => None,
                },
            },
            Question::Choice { instructions, criteria } => QuestionView::Choice {
                instructions: instructions@,
                criteria: criteria@,
            },
            Question::Score { instructions, criteria } => QuestionView::Score {
                instructions: instructions@,
                criteria: items_view(criteria@),
            },
        }
    }
}

/// The request sent to the System One evaluation endpoint.
#[derive(Debug)]
pub struct SystemOneRequest {
    /// The model to evaluate with.
    pub model: String,
    /// The context the questions are about.
    pub state: JsonValue,
    /// Question identifiers to their questions.
    pub questions: KeyMap<Question>,
}

/// The model of a `SystemOneRequest`.
pub struct RequestView {
    pub model: Seq<char>,
    pub state: Json,
    pub questions: Map<Seq<char>, QuestionView>,
}

impl View for SystemOneRequest {
    type V = RequestView;

    open spec fn view(&self) -> RequestView {
        RequestView { model: self.model@, state: self.state@, questions: self.questions@ }
    }
}

/// Token usage of an evaluation.
#[derive(Clone, Copy, Debug, PartialEq, Eq, Structural)]
pub struct Usage {
    /// Prompt tokens processed.
    pub input_tokens: u32,
    /// Output tokens generated.
    pub output_tokens: u32,
}

/// The body the API answers with when it fails.
#[derive(Debug)]
pub struct ApiErrorResponse {
    pub error: Option<JsonValue>,
    pub message: Option<String>,
}

} // verus!
