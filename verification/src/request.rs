use vstd::prelude::*;

use crate::json::{
    items_view, lemma_items_view, lemma_items_view_push, parse_json, parsed_json,
    with_default_model, with_model, Json, JsonValue,
};
use crate::keymap::KeyMap;
use crate::text::{
    index_of, is_blank, is_blank_str, lemma_index_of_spec, lemma_split_all_absent,
    lemma_split_all_concat, lemma_split_once_absent, lemma_split_once_at, split_all, split_char,
    split_once, split_once_char, trim, trim_str,
};
use crate::types::{Question, QuestionView, RequestView, SystemOneRequest};

verus! {

broadcast use vstd::set::group_set_axioms;

/// The texts of a sequence of strings.
pub open spec fn texts(v: Seq<String>) -> Seq<Seq<char>> {
    v.map_values(|s: String| s@)
}

/// The text of an optional string.
pub open spec fn opt_text(o: Option<String>) -> Option<Seq<char>> {
    match o {
        Some(s) => Some(s@),
        None => None,
    }
}

/// The model used when a request names none.
pub fn default_model() -> (model: String)
    ensures
        model@ == "jev-latest"@,
{
    String::from_str("jev-latest")
}

/// Why a request could not be built from the command line.
#[derive(Debug)]
pub enum RequestError {
    /// A question flag that is not of the form `id:instructions`.
    InvalidFlag { flag: String, spec: String },
    /// `--choice` without any `--option`.
    ChoiceWithoutOptions,
    /// `--score` with fewer than two levels.
    ScoreWithoutLevels,
    /// `--state` without any question flag.
    NoQuestions,
    /// Nothing to read a request from.
    NoInput,
}

/// The model of a `RequestError`.
pub enum RequestErrorView {
    InvalidFlag { flag: Seq<char>, spec: Seq<char> },
    ChoiceWithoutOptions,
    ScoreWithoutLevels,
    NoQuestions,
    NoInput,
}

impl View for RequestError {
    type V = RequestErrorView;

    open spec fn view(&self) -> RequestErrorView {
        match self {
            RequestError::InvalidFlag { flag, spec } => RequestErrorView::InvalidFlag {
                flag: flag@,
                spec: spec@,
            },
            RequestError::ChoiceWithoutOptions => RequestErrorView::ChoiceWithoutOptions,
            RequestError::ScoreWithoutLevels => RequestErrorView::ScoreWithoutLevels,
            RequestError::NoQuestions => RequestErrorView::NoQuestions,
            RequestError::NoInput => RequestErrorView::NoInput,
        }
    }
}

/// The text that reports a `RequestError`.
pub open spec fn error_message(e: RequestErrorView) -> Seq<char> {
    match e {
        RequestErrorView::InvalidFlag { flag, spec } => "Invalid format for --"@ + flag
            + ". Expected 'question_id:Instructions text', got '"@ + spec + "'"@,
        RequestErrorView::ChoiceWithoutOptions =>
            "Choice question requires at least one --option key=description"@,
        RequestErrorView::ScoreWithoutLevels =>
            "Score question requires at least 2 levels via --level"@,
        RequestErrorView::NoQuestions =>
            "Quick mode with --state requires at least one question flag (--choice, --noul, or --score)"@,
        RequestErrorView::NoInput =>
            "No input provided. Provide JSON as an argument, pipe through stdin, use --file, or specify --state and question flags."@,
    }
}

impl RequestError {
    /// The text that reports this error.
    pub fn message(&self) -> (r: String)
        ensures
            r@ == error_message(self@),
    {
        match self {
            RequestError::InvalidFlag { flag, spec } => {
                let mut s = String::from_str("Invalid format for --");
                s.append(flag.as_str());
                s.append(". Expected 'question_id:Instructions text', got '");
                s.append(spec.as_str());
                s.append("'");
                s
            },
            RequestError::ChoiceWithoutOptions => String::from_str(
                "Choice question requires at least one --option key=description",
            ),
            RequestError::ScoreWithoutLevels => String::from_str(
                "Score question requires at least 2 levels via --level",
            ),
            RequestError::NoQuestions => String::from_str(
                "Quick mode with --state requires at least one question flag (--choice, --noul, or --score)",
            ),
            RequestError::NoInput => String::from_str(
                "No input provided. Provide JSON as an argument, pipe through stdin, use --file, or specify --state and question flags.",
            ),
        }
    }
}

/// A question flag `id:instructions` cut at its first `:`, both parts trimmed.
pub open spec fn id_and_instructions(spec: Seq<char>) -> Option<(Seq<char>, Seq<char>)> {
    match split_once(spec, ':') {
        Some((id, instructions)) => Some((trim(id), trim(instructions))),
        None => None,
    }
}

/// Splits a question flag of the form `id:instructions` at its first `:` and trims
/// both parts; a flag without `:` is refused, naming the flag (`qtype`) and the text.
pub fn split_id_and_instructions(spec: &str, qtype: &str) -> (r: Result<(String, String), RequestError>)
    ensures
        forall|id: Seq<char>, rest: Seq<char>|
            #![trigger id + seq![':'] + rest]
            spec@ == id + seq![':'] + rest && !id.contains(':') ==> (r matches Ok((i, t)) && i@
                == trim(id) && t@ == trim(rest)),
        match r {
            Ok((id, instructions)) => id_and_instructions(spec@) == Some((id@, instructions@)),
            Err(e) => id_and_instructions(spec@) is None && e@ == (RequestErrorView::InvalidFlag {
                flag: qtype@,
                spec: spec@,
            }),
        },
{
    proof {
        assert forall|id: Seq<char>, rest: Seq<char>|
            #![trigger id + seq![':'] + rest]
            spec@ == id + seq![':'] + rest && !id.contains(':') implies id_and_instructions(spec@)
                == Some((trim(id), trim(rest))) by {
            lemma_flag_parts_kept(id, rest);
        }
    }
    match split_once_char(spec, ':') {
        Some((id, instructions)) => Ok((trim_str(id.as_str()), trim_str(instructions.as_str()))),
        None => Err(RequestError::InvalidFlag { flag: String::from_str(qtype), spec: String::from_str(spec) }),
    }
}

/// One `--option` as a choice criterion: `key=description` gives the trimmed key and
/// the trimmed description; text without `=` gives the trimmed text and `null`.
pub open spec fn criterion(option: Seq<char>) -> (Seq<char>, Json) {
    match split_once(option, '=') {
        Some((key, description)) => (trim(key), Json::Str(trim(description))),
        None => (trim(option), Json::Null),
    }
}

/// The criteria of a choice question made from its `--option`s, in order: a later
/// option with the same key replaces an earlier one.
pub open spec fn criteria_of(options: Seq<Seq<char>>) -> Map<Seq<char>, Json>
    decreases options.len(),
{
    if options.len() == 0 {
        Map::empty()
    } else {
        let (key, value) = criterion(options.last());
        criteria_of(options.drop_last()).insert(key, value)
    }
}

/// The trimmed pieces of `parts` that are not empty, in order.
pub open spec fn labels_of(parts: Seq<Seq<char>>) -> Seq<Seq<char>>
    decreases parts.len(),
{
    if parts.len() == 0 {
        Seq::empty()
    } else {
        let rest = labels_of(parts.drop_last());
        let t = trim(parts.last());
        if t.len() > 0 {
            rest.push(t)
        } else {
            rest
        }
    }
}

/// The levels of a score question made from its `--level`s: each is cut at its
/// commas, and the trimmed pieces that are not empty are kept, in order.
pub open spec fn levels_of(levels: Seq<Seq<char>>) -> Seq<Seq<char>>
    decreases levels.len(),
{
    if levels.len() == 0 {
        Seq::empty()
    } else {
        levels_of(levels.drop_last()) + labels_of(split_all(levels.last(), ','))
    }
}

/// JSON strings of the given texts.
pub open spec fn json_strings(s: Seq<Seq<char>>) -> Seq<Json> {
    s.map_values(|t: Seq<char>| Json::Str(t))
}

/// The state of a quick request: the JSON value that the text denotes, or, where the
/// text is no JSON, the text as a JSON string.
pub open spec fn state_of(raw: Seq<char>) -> Json {
    match parsed_json(raw) {
        Some(v) => v,
        None => Json::Str(raw),
    }
}

/// Turns one `--option` into a choice criterion (see `criterion`).
pub fn parse_option(option: &str) -> (r: (String, JsonValue))
    ensures
        (r.0@, r.1@) == criterion(option@),
        forall|key: Seq<char>, description: Seq<char>|
            #![trigger key + seq!['='] + description]
            option@ == key + seq!['='] + description && !key.contains('=') ==> r.0@ == trim(key)
                && r.1@ == Json::Str(trim(description)),
        !option@.contains('=') ==> r.0@ == trim(option@) && r.1@ == Json::Null,
{
    proof {
        assert forall|key: Seq<char>, description: Seq<char>|
            #![trigger key + seq!['='] + description]
            option@ == key + seq!['='] + description && !key.contains('=') implies criterion(option@)
                == (trim(key), Json::Str(trim(description))) by {
            lemma_option_description_kept(key, description, option@);
        }
        if !option@.contains('=') {
            lemma_option_description_kept(Seq::empty(), Seq::empty(), option@);
        }
    }
    match split_once_char(option, '=') {
        Some((key, description)) => (trim_str(key.as_str()), JsonValue::Str(trim_str(description.as_str()))),
        None => (trim_str(option), JsonValue::Null),
    }
}

/// The criteria of a choice question made from its `--option`s (see `criteria_of`).
pub fn choice_criteria(options: &Vec<String>) -> (r: KeyMap<JsonValue>)
    ensures
        r@ == criteria_of(texts(options@)),
{
    let mut m: KeyMap<JsonValue> = KeyMap::new();
    let mut i: usize = 0;
    while i < options.len()
        invariant
            i <= options@.len(),
            m@ == criteria_of(texts(options@).take(i as int)),
        decreases options@.len() - i,
    {
        let (key, value) = parse_option(options[i].as_str());
        m.insert(key, value);
        assert(texts(options@).take(i + 1).drop_last() =~= texts(options@).take(i as int));
        assert(texts(options@).take(i + 1).last() == options@[i as int]@);
        i = i + 1;
    }
    assert(texts(options@).take(options@.len() as int) =~= texts(options@));
    m
}

/// The levels of a score question made from its `--level`s (see `levels_of`).
pub fn score_levels(levels: &Vec<String>) -> (r: Vec<JsonValue>)
    ensures
        items_view(r@) == json_strings(levels_of(texts(levels@))),
        levels@.len() == 1 && !levels@[0]@.contains(',') ==> items_view(r@) == if trim(
            levels@[0]@,
        ).len() > 0 {
            seq![Json::Str(trim(levels@[0]@))]
        } else {
            Seq::<Json>::empty()
        },
{
    proof {
        if levels@.len() == 1 && !levels@[0]@.contains(',') {
            let empty = Seq::<Seq<char>>::empty();
            lemma_single_level_kept(empty, levels@[0]@);
            assert(texts(levels@) =~= empty.push(levels@[0]@));
            assert(levels_of(empty) =~= empty);
            assert(json_strings(levels_of(texts(levels@))) =~= if trim(levels@[0]@).len() > 0 {
                seq![Json::Str(trim(levels@[0]@))]
            } else {
                Seq::<Json>::empty()
            });
        }
    }
    let mut out: Vec<JsonValue> = Vec::new();
    let mut i: usize = 0;
    assert(items_view(out@) =~= json_strings(levels_of(texts(levels@).take(0))));
    while i < levels.len()
        invariant
            i <= levels@.len(),
            items_view(out@) == json_strings(levels_of(texts(levels@).take(i as int))),
        decreases levels@.len() - i,
    {
        let ghost done = levels_of(texts(levels@).take(i as int));
        let pieces = split_char(levels[i].as_str(), ',');
        let ghost pv = pieces@.map_values(|p: String| p@);
        let mut j: usize = 0;
        assert(pv.take(0) =~= Seq::<Seq<char>>::empty());
        assert(done + labels_of(pv.take(0)) =~= done);
        while j < pieces.len()
            invariant
                j <= pieces@.len(),
                pv == pieces@.map_values(|p: String| p@),
                items_view(out@) == json_strings(done + labels_of(pv.take(j as int))),
            decreases pieces@.len() - j,
        {
            let t = trim_str(pieces[j].as_str());
            assert(pv.take(j + 1).drop_last() =~= pv.take(j as int));
            assert(pv.take(j + 1).last() == pieces@[j as int]@);
            if !t.as_str().is_empty() {
                let ghost before = out@;
                let ghost tv = t@;
                proof {
                    lemma_items_view_push(before, JsonValue::Str(t));
                }
                out.push(JsonValue::Str(t));
                assert(json_strings(done + labels_of(pv.take(j + 1))) =~= json_strings(
                    done + labels_of(pv.take(j as int)),
                ).push(Json::Str(tv)));
            }
            j = j + 1;
        }
        assert(pv.take(pieces@.len() as int) =~= pv);
        assert(texts(levels@).take(i + 1).drop_last() =~= texts(levels@).take(i as int));
        assert(texts(levels@).take(i + 1).last() == levels@[i as int]@);
        i = i + 1;
    }
    assert(texts(levels@).take(levels@.len() as int) =~= texts(levels@));
    out
}


/// What the command line gives for building a request.
#[derive(Debug)]
pub struct RequestArgs {
    /// A JSON payload, or `-` to read one from standard input.
    pub input: Option<String>,
    /// A file to read the JSON payload from (its name, as given).
    pub file: Option<String>,
    /// The model to use when the request names none.
    pub model: String,
    /// The state text of a quick request, given as flags.
    pub state: Option<String>,
    /// A choice question, `id:instructions`.
    pub choice: Option<String>,
    /// The options of the choice question, `key=description`.
    pub options: Vec<String>,
    /// A yes/no question, `id:instructions`.
    pub noul: Option<String>,
    /// A score question, `id:instructions`.
    pub score: Option<String>,
    /// The levels of the score question, each one or several separated by commas.
    pub levels: Vec<String>,
}

/// The model of `RequestArgs`.
pub struct RequestArgsView {
    pub input: Option<Seq<char>>,
    pub file: Option<Seq<char>>,
    pub model: Seq<char>,
    pub state: Option<Seq<char>>,
    pub choice: Option<Seq<char>>,
    pub options: Seq<Seq<char>>,
    pub noul: Option<Seq<char>>,
    pub score: Option<Seq<char>>,
    pub levels: Seq<Seq<char>>,
}

impl View for RequestArgs {
    type V = RequestArgsView;

    open spec fn view(&self) -> RequestArgsView {
        RequestArgsView {
            input: opt_text(self.input),
            file: opt_text(self.file),
            model: self.model@,
            state: opt_text(self.state),
            choice: opt_text(self.choice),
            options: texts(self.options@),
            noul: opt_text(self.noul),
            score: opt_text(self.score),
            levels: texts(self.levels@),
        }
    }
}

/// The questions after the choice flag is taken in.
pub open spec fn choice_step(a: RequestArgsView, q: Map<Seq<char>, QuestionView>) -> Result<
    Map<Seq<char>, QuestionView>,
    RequestErrorView,
> {
    match a.choice {
        None => Ok(q),
        Some(spec) => match id_and_instructions(spec) {
            None => Err(RequestErrorView::InvalidFlag { flag: "choice"@, spec }),
            Some((id, instructions)) => if a.options.len() == 0 {
                Err(RequestErrorView::ChoiceWithoutOptions)
            } else {
                Ok(
                    q.insert(
                        id,
                        QuestionView::Choice {
                            instructions: Json::Str(instructions),
                            criteria: criteria_of(a.options),
                        },
                    ),
                )
            },
        },
    }
}

/// The questions after the yes/no flag is taken in.
pub open spec fn noul_step(a: RequestArgsView, q: Map<Seq<char>, QuestionView>) -> Result<
    Map<Seq<char>, QuestionView>,
    RequestErrorView,
> {
    match a.noul {
        None => Ok(q),
        Some(spec) => match id_and_instructions(spec) {
            None => Err(RequestErrorView::InvalidFlag { flag: "noul"@, spec }),
            Some((id, instructions)) => Ok(
                q.insert(
                    id,
                    QuestionView::Noul { instructions: Json::Str(instructions), criteria: None },
                ),
            ),
        },
    }
}

/// The questions after the score flag is taken in.
pub open spec fn score_step(a: RequestArgsView, q: Map<Seq<char>, QuestionView>) -> Result<
    Map<Seq<char>, QuestionView>,
    RequestErrorView,
> {
    match a.score {
        None => Ok(q),
        Some(spec) => match id_and_instructions(spec) {
            None => Err(RequestErrorView::InvalidFlag { flag: "score"@, spec }),
            Some((id, instructions)) => if levels_of(a.levels).len() < 2 {
                Err(RequestErrorView::ScoreWithoutLevels)
            } else {
                Ok(
                    q.insert(
                        id,
                        QuestionView::Score {
                            instructions: Json::Str(instructions),
                            criteria: json_strings(levels_of(a.levels)),
                        },
                    ),
                )
            },
        },
    }
}

/// The request that the flags give with the state text `state`: the choice, yes/no
/// and score flags are taken in that order (a later question with the same id
/// replaces an earlier one), the first refusal wins, and flags without any question
/// are refused.
pub open spec fn quick_request(a: RequestArgsView, state: Seq<char>) -> Result<
    RequestView,
    RequestErrorView,
> {
    match choice_step(a, Map::empty()) {
        Err(e) => Err(e),
        Ok(q1) => match noul_step(a, q1) {
            Err(e) => Err(e),
            Ok(q2) => match score_step(a, q2) {
                Err(e) => Err(e),
                Ok(q3) => if a.choice is None && a.noul is None && a.score is None {
                    Err(RequestErrorView::NoQuestions)
                } else {
                    Ok(RequestView { model: a.model, state: state_of(state), questions: q3 })
                },
            },
        },
    }
}

/// The model of the outcome of building a request.
pub open spec fn built(r: Result<SystemOneRequest, RequestError>) -> Result<RequestView, RequestErrorView> {
    match r {
        Ok(req) => Ok(req@),
        Err(e) => Err(e@),
    }
}

/// Builds the request that the question flags describe, with the state text `state`
/// (see `quick_request`).
pub fn build_quick_request(args: &RequestArgs, state: &str) -> (r: Result<SystemOneRequest, RequestError>)
    ensures
        built(r) == quick_request(args@, state@),
        r matches Ok(req) ==> {
            &&& parsed_json(state@) matches Some(j) ==> req.state@ == j
            &&& parsed_json(state@) is None ==> req.state@ == Json::Str(state@)
        },
{
    let state_value = match parse_json(state) {
        Ok(v) => v,
        Err(_) => JsonValue::Str(String::from_str(state)),
    };
    let ghost a = args@;
    let mut questions: KeyMap<Question> = KeyMap::new();
    match &args.choice {
        Some(spec) => {
            let (id, instructions) = match split_id_and_instructions(spec.as_str(), "choice") {
                Ok(p) => p,
                Err(e) => {
                    return Err(e);
                },
            };
            let criteria = choice_criteria(&args.options);
            if criteria.len() == 0 {
                proof {
                    if a.options.len() > 0 {
                        let c = criterion(a.options.last());
                        assert(criteria_of(a.options).dom().contains(c.0));
                    }
                }
                return Err(RequestError::ChoiceWithoutOptions);
            }
            questions.insert(id, Question::Choice { instructions: JsonValue::Str(instructions), criteria });
        },
        None => {},
    }
    let ghost q1 = questions@;
    assert(choice_step(a, Map::empty()) == Ok::<Map<Seq<char>, QuestionView>, RequestErrorView>(q1));
    match &args.noul {
        Some(spec) => {
            let (id, instructions) = match split_id_and_instructions(spec.as_str(), "noul") {
                Ok(p) => p,
                Err(e) => {
                    return Err(e);
                },
            };
            questions.insert(id, Question::Noul { instructions: JsonValue::Str(instructions), criteria: None });
        },
        None => {},
    }
    let ghost q2 = questions@;
    assert(noul_step(a, q1) == Ok::<Map<Seq<char>, QuestionView>, RequestErrorView>(q2));
    match &args.score {
        Some(spec) => {
            let (id, instructions) = match split_id_and_instructions(spec.as_str(), "score") {
                Ok(p) => p,
                Err(e) => {
                    return Err(e);
                },
            };
            let criteria = score_levels(&args.levels);
            proof {
                lemma_items_view(criteria@);
            }
            if criteria.len() < 2 {
                return Err(RequestError::ScoreWithoutLevels);
            }
            questions.insert(id, Question::Score { instructions: JsonValue::Str(instructions), criteria });
        },
        None => {},
    }
    let ghost q3 = questions@;
    assert(score_step(a, q2) == Ok::<Map<Seq<char>, QuestionView>, RequestErrorView>(q3));
    proof {
        if let Some(spec) = a.choice {
            assert(q1.dom().contains((id_and_instructions(spec)->0).0));
        }
        if let Some(spec) = a.noul {
            assert(q2.dom().contains((id_and_instructions(spec)->0).0));
        }
        if let Some(spec) = a.score {
            assert(q3.dom().contains((id_and_instructions(spec)->0).0));
        }
    }
    if questions.len() == 0 {
        return Err(RequestError::NoQuestions);
    }
    let ghost sv = state_value@;
    assert(sv == state_of(state@));
    Ok(SystemOneRequest { model: args.model.clone(), state: state_value, questions })
}


/// What to do to get the request, as the command line decides it.
#[derive(Debug)]
pub enum RequestPlan {
    /// The question flags gave the request.
    Ready(SystemOneRequest),
    /// Read the JSON payload from the file given.
    ReadFile,
    /// Read the JSON payload from standard input (the argument was `-`).
    ReadStdin,
    /// The argument is the JSON payload.
    Inline(String),
    /// Read standard input, which is not a terminal; blank input is no input.
    ReadPipedStdin,
}

/// Decides where the request comes from: the question flags when `--state` is given,
/// else the file, else the argument (`-` for standard input), else standard input
/// when it is not a terminal; otherwise there is no input.
pub fn parse_request(args: &RequestArgs, stdin_is_terminal: bool) -> (r: Result<RequestPlan, RequestError>)
    ensures
        match args@.state {
            Some(state) => match r {
                Ok(RequestPlan::Ready(req)) => quick_request(args@, state) == Ok::<RequestView, RequestErrorView>(req@),
                Ok(_) => false,
                Err(e) => quick_request(args@, state) == Err::<RequestView, RequestErrorView>(e@),
            },
            None => if args@.file is Some {
                r matches Ok(RequestPlan::ReadFile)
            } else if args@.input is Some {
                if args@.input->0 == "-"@ {
                    r matches Ok(RequestPlan::ReadStdin)
                } else {
                    r matches Ok(RequestPlan::Inline(text)) && text@ == args@.input->0
                }
            } else if !stdin_is_terminal {
                r matches Ok(RequestPlan::ReadPipedStdin)
            } else {
                r matches Err(e) && e@ == RequestErrorView::NoInput
            },
        },
{
    match &args.state {
        Some(state) => match build_quick_request(args, state.as_str()) {
            Ok(req) => Ok(RequestPlan::Ready(req)),
            Err(e) => Err(e),
        },
        None => {
            if args.file.is_some() {
                Ok(RequestPlan::ReadFile)
            } else {
                match &args.input {
                    Some(input) => {
                        let dash = String::from_str("-");
                        if *input == dash {
                            Ok(RequestPlan::ReadStdin)
                        } else {
                            Ok(RequestPlan::Inline(input.clone()))
                        }
                    },
                    None => if !stdin_is_terminal {
                        Ok(RequestPlan::ReadPipedStdin)
                    } else {
                        Err(RequestError::NoInput)
                    },
                }
            }
        },
    }
}

/// What was piped into standard input, taken as the payload unless it is blank.
pub fn accept_piped_input(buffer: String) -> (r: Result<String, RequestError>)
    ensures
        is_blank(buffer@) ==> (r matches Err(e) && e@ == RequestErrorView::NoInput),
        !is_blank(buffer@) ==> (r matches Ok(text) && text@ == buffer@),
{
    if is_blank_str(buffer.as_str()) {
        Err(RequestError::NoInput)
    } else {
        Ok(buffer)
    }
}

/// Why a JSON payload could not be read.
#[derive(Debug)]
pub enum PayloadError {
    /// The payload is no JSON; `serde_json` says why.
    InvalidJson(serde_json::Error),
}

/// Reads a JSON payload and fills in `default_model` where it is an object without a
/// `"model"` member; this is the value that is then read as a request.
pub fn prepare_payload(raw: &str, default_model: &str) -> (r: Result<JsonValue, PayloadError>)
    ensures
        match r {
            Ok(v) => parsed_json(raw@) matches Some(j) && v@ == with_model(j, default_model@),
            Err(_) => parsed_json(raw@) is None,
        },
{
    match parse_json(raw) {
        Ok(v) => Ok(with_default_model(v, default_model)),
        Err(e) => Err(PayloadError::InvalidJson(e)),
    }
}


/// The trimmed pieces of two lists of pieces are those of the first, then those of
/// the second.
pub proof fn lemma_labels_append(p: Seq<Seq<char>>, q: Seq<Seq<char>>)
    ensures
        labels_of(p + q) == labels_of(p) + labels_of(q),
    decreases q.len(),
{
    if q.len() == 0 {
        assert(p + q =~= p);
        assert(labels_of(p) + labels_of(q) =~= labels_of(p));
    } else {
        lemma_labels_append(p, q.drop_last());
        assert((p + q).drop_last() =~= p + q.drop_last());
        assert((p + q).last() == q.last());
        let t = trim(q.last());
        if t.len() > 0 {
            assert(labels_of(p + q) =~= labels_of(p) + labels_of(q.drop_last()).push(t));
        }
    }
}

/// Score levels may be given in one `--level` separated by commas or in several
/// `--level`s: `a,b` gives the levels that `a` and then `b` give.
pub proof fn lemma_levels_comma_or_repeat(levels: Seq<Seq<char>>, a: Seq<char>, b: Seq<char>)
    ensures
        levels_of(levels.push(a + seq![','] + b)) == levels_of(levels.push(a).push(b)),
{
    let x = a + seq![','] + b;
    assert(levels.push(x).drop_last() =~= levels);
    assert(levels.push(a).drop_last() =~= levels);
    assert(levels.push(a).push(b).drop_last() =~= levels.push(a));
    lemma_split_all_concat(a, b, ',');
    lemma_labels_append(split_all(a, ','), split_all(b, ','));
    let la = labels_of(split_all(a, ','));
    let lb = labels_of(split_all(b, ','));
    assert(levels_of(levels.push(a)) == levels_of(levels) + la);
    assert(levels_of(levels.push(a).push(b)) == levels_of(levels.push(a)) + lb);
    assert(levels_of(levels.push(x)) == levels_of(levels) + labels_of(split_all(x, ',')));
    assert(levels_of(levels.push(x)) =~= levels_of(levels) + la + lb);
}

/// A question flag is cut at its first `:`: the flag is what stands before, `:`, and
/// what stands after, and the identifier holds no `:`.
pub proof fn lemma_flag_cut_at_first_colon(spec: Seq<char>)
    ensures
        match split_once(spec, ':') {
            Some((id, instructions)) => spec == id + seq![':'] + instructions && !id.contains(':'),
            None => !spec.contains(':'),
        },
        id_and_instructions(spec) is Some <==> spec.contains(':'),
{
    lemma_index_of_spec(spec, ':');
    let i = index_of(spec, ':');
    if i >= 0 {
        assert(spec =~= spec.take(i) + seq![':'] + spec.skip(i + 1));
    }
}

/// The identifier a question flag gives, if it gives one.
pub open spec fn flag_ids(flag: Option<Seq<char>>) -> Set<Seq<char>> {
    match flag {
        Some(spec) => match id_and_instructions(spec) {
            Some((id, _)) => set![id],
            None => Set::empty(),
        },
        None => Set::empty(),
    }
}

/// A quick request is built exactly when some question flag is given, every question
/// flag given holds a `:`, a choice comes with at least one option and a score with
/// at least two levels; it then has the given model, the state the text gives, and
/// one question for each identifier of the flags.
pub proof fn lemma_quick_request_outcome(a: RequestArgsView, state: Seq<char>)
    ensures
        quick_request(a, state) is Ok <==> {
            &&& !(a.choice is None && a.noul is None && a.score is None)
            &&& a.choice matches Some(s) ==> s.contains(':') && a.options.len() > 0
            &&& a.noul matches Some(s) ==> s.contains(':')
            &&& a.score matches Some(s) ==> s.contains(':') && levels_of(a.levels).len() >= 2
        },
        quick_request(a, state) matches Ok(r) ==> {
            &&& r.model == a.model
            &&& r.state == state_of(state)
            &&& r.questions.dom() == flag_ids(a.choice) + flag_ids(a.noul) + flag_ids(a.score)
        },
{
    if let Some(s) = a.choice {
        lemma_flag_cut_at_first_colon(s);
    }
    if let Some(s) = a.noul {
        lemma_flag_cut_at_first_colon(s);
    }
    if let Some(s) = a.score {
        lemma_flag_cut_at_first_colon(s);
    }
    if let Ok(r) = quick_request(a, state) {
        assert(r.questions.dom() =~= flag_ids(a.choice) + flag_ids(a.noul) + flag_ids(a.score));
    }
}

/// The keys of a choice question's criteria are the trimmed keys of its options.
pub proof fn lemma_criteria_keys(options: Seq<Seq<char>>)
    ensures
        criteria_of(options).dom() == Set::new(
            |k: Seq<char>| exists|i: int| 0 <= i < options.len() && #[trigger] criterion(options[i]).0 == k,
        ),
    decreases options.len(),
{
    let target = Set::new(
        |k: Seq<char>| exists|i: int| 0 <= i < options.len() && #[trigger] criterion(options[i]).0 == k,
    );
    if options.len() > 0 {
        let rest = options.drop_last();
        lemma_criteria_keys(rest);
        assert forall|k: Seq<char>| #[trigger] criteria_of(options).dom().contains(k) <==> target.contains(k) by {
            if criteria_of(options).dom().contains(k) {
                if k == criterion(options.last()).0 {
                    assert(criterion(options[options.len() - 1]).0 == k);
                } else {
                    let i = choose|i: int| 0 <= i < rest.len() && #[trigger] criterion(rest[i]).0 == k;
                    assert(criterion(options[i]).0 == k);
                }
            }
            if target.contains(k) {
                let i = choose|i: int| 0 <= i < options.len() && #[trigger] criterion(options[i]).0 == k;
                if i < options.len() - 1 {
                    assert(criterion(rest[i]).0 == k);
                }
            }
        }
        assert(criteria_of(options).dom() =~= target);
    } else {
        assert(criteria_of(options).dom() =~= target);
    }
}


/// The instructions of a question flag are all that follows its first `:`, only
/// trimmed, and the identifier all that precedes it, only trimmed, whatever their
/// length and content.
pub proof fn lemma_flag_parts_kept(id: Seq<char>, rest: Seq<char>)
    requires
        !id.contains(':'),
    ensures
        id_and_instructions(id + seq![':'] + rest) == Some((trim(id), trim(rest))),
{
    lemma_split_once_at(id, rest, ':');
}

/// The description of an option is all that follows its first `=`, only trimmed (its
/// commas and inner spaces kept), and its key all that precedes it, only trimmed; an
/// option without `=` is its trimmed text as key, with `null`.
pub proof fn lemma_option_description_kept(key: Seq<char>, description: Seq<char>, plain: Seq<char>)
    requires
        !key.contains('='),
    ensures
        criterion(key + seq!['='] + description) == (trim(key), Json::Str(trim(description))),
        !plain.contains('=') ==> criterion(plain) == (trim(plain), Json::Null),
{
    lemma_split_once_at(key, description, '=');
    if !plain.contains('=') {
        lemma_split_once_absent(plain, '=');
    }
}

/// A `--level` holding no comma adds its trimmed text as one level, inner white space
/// kept, or nothing where it is blank.
pub proof fn lemma_single_level_kept(levels: Seq<Seq<char>>, level: Seq<char>)
    requires
        !level.contains(','),
    ensures
        levels_of(levels.push(level)) == levels_of(levels) + if trim(level).len() > 0 {
            seq![trim(level)]
        } else {
            Seq::<Seq<char>>::empty()
        },
{
    assert(levels.push(level).drop_last() =~= levels);
    lemma_split_all_absent(level, ',');
    let one = seq![level];
    assert(one.drop_last() =~= Seq::<Seq<char>>::empty());
    assert(one.last() == level);
    assert(labels_of(one.drop_last()) == Seq::<Seq<char>>::empty());
    assert(labels_of(one) =~= if trim(level).len() > 0 {
        seq![trim(level)]
    } else {
        Seq::<Seq<char>>::empty()
    });
}

/// A quick request's state is exactly the JSON value that the `--state` text denotes,
/// of whatever kind, and the text as a JSON string only where it is no JSON.
pub proof fn lemma_quick_state_is_parsed(a: RequestArgsView, state: Seq<char>)
    ensures
        quick_request(a, state) matches Ok(r) ==> {
            &&& parsed_json(state) matches Some(j) ==> r.state == j
            &&& parsed_json(state) is None ==> r.state == Json::Str(state)
        },
{
}

} // verus!
