//! Building and checking requests for TypeSafe AI's System One API: question flags,
//! JSON payloads, the client's configuration, and the API's answers.

pub mod client;
pub mod json;
pub mod keymap;
pub mod request;
pub mod text;
pub mod types;

pub use client::{check_status, require_api_key, ApiError, ClientError, TypeSafeClient};
pub use json::{with_default_model, JsonValue};
pub use keymap::KeyMap;
pub use request::{
    accept_piped_input, build_quick_request, choice_criteria, default_model, parse_option,
    parse_request, prepare_payload, score_levels, split_id_and_instructions, PayloadError,
    RequestArgs, RequestError, RequestPlan,
};
pub use types::{ApiErrorResponse, NoulCriteria, Question, SystemOneRequest, Usage};
