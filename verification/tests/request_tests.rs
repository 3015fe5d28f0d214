use jeb::keymap::KeyMap;
use jeb::{
    accept_piped_input, build_quick_request, choice_criteria, default_model, parse_option,
    parse_request, prepare_payload, score_levels, split_id_and_instructions, with_default_model,
    JsonValue, Question, RequestArgs, RequestError, RequestPlan, SystemOneRequest,
};

fn quick_args(state: Option<&str>) -> RequestArgs {
    RequestArgs {
        input: None,
        file: None,
        model: "jev-latest".to_string(),
        state: state.map(|s| s.to_string()),
        choice: None,
        options: vec![],
        noul: None,
        score: None,
        levels: vec![],
    }
}

fn ready(plan: RequestPlan) -> SystemOneRequest {
    match plan {
        RequestPlan::Ready(req) => req,
        other => panic!("expected a ready request, got {:?}", other),
    }
}

fn str_of(v: &JsonValue) -> &str {
    match v {
        JsonValue::Str(s) => s.as_str(),
        other => panic!("expected a string, got {:?}", other),
    }
}

fn object_keys(v: &JsonValue) -> Vec<String> {
    match v {
        JsonValue::Object(members) => members.iter().map(|(k, _)| k.clone()).collect(),
        other => panic!("expected an object, got {:?}", other),
    }
}

#[test]
fn test_parse_quick_flags() {
    let args = RequestArgs {
        input: None,
        file: None,
        model: "jev-latest".to_string(),
        state: Some("Customer says: Please reset my password".to_string()),
        choice: Some("intent:What is the user requesting?".to_string()),
        options: vec![
            "auth=Password and authentication".to_string(),
            "billing=Billing questions".to_string(),
        ],
        noul: Some("is_clear:Is the request clear?".to_string()),
        score: None,
        levels: vec![],
    };

    let req = ready(parse_request(&args, true).unwrap());
    assert_eq!(req.questions.len(), 2);
    assert!(req.questions.contains_key("intent"));
    assert!(req.questions.contains_key("is_clear"));
}

#[test]
fn default_model_is_jev_latest() {
    assert_eq!(default_model(), "jev-latest");
}

#[test]
fn split_flag_at_first_colon_and_trims() {
    let (id, inst) = split_id_and_instructions("next_step:What should be done?", "choice").unwrap();
    assert_eq!(id, "next_step");
    assert_eq!(inst, "What should be done?");
    let (id, inst) = split_id_and_instructions("  urgency : Rate: 0 to 2  ", "score").unwrap();
    assert_eq!(id, "urgency");
    assert_eq!(inst, "Rate: 0 to 2");
    let (id, inst) = split_id_and_instructions(":", "noul").unwrap();
    assert_eq!(id, "");
    assert_eq!(inst, "");
}

#[test]
fn split_flag_without_colon_is_refused() {
    let err = split_id_and_instructions("oops", "choice").unwrap_err();
    assert!(matches!(&err, RequestError::InvalidFlag { flag, spec } if flag == "choice" && spec == "oops"));
    assert_eq!(
        err.message(),
        "Invalid format for --choice. Expected 'question_id:Instructions text', got 'oops'"
    );
}

#[test]
fn option_with_and_without_description() {
    let (k, v) = parse_option("test=Run tests");
    assert_eq!(k, "test");
    assert_eq!(str_of(&v), "Run tests");
    let (k, v) = parse_option("  deploy = Run a=b  ");
    assert_eq!(k, "deploy");
    assert_eq!(str_of(&v), "Run a=b");
    let (k, v) = parse_option("  plain ");
    assert_eq!(k, "plain");
    assert!(matches!(v, JsonValue::Null));
}

#[test]
fn later_option_replaces_earlier_one() {
    let options = vec!["a=first".to_string(), "b=other".to_string(), " a = second".to_string()];
    let criteria = choice_criteria(&options);
    assert_eq!(criteria.len(), 2);
    assert_eq!(str_of(criteria.get("a").unwrap()), "second");
    assert_eq!(str_of(criteria.get("b").unwrap()), "other");
    assert!(criteria.get("c").is_none());
}

#[test]
fn levels_split_on_commas_and_drop_blanks() {
    let levels = vec!["Low, Moderate,,High".to_string(), "  ".to_string(), "Extreme".to_string()];
    let out = score_levels(&levels);
    let texts: Vec<&str> = out.iter().map(str_of).collect();
    assert_eq!(texts, vec!["Low", "Moderate", "High", "Extreme"]);
}

#[test]
fn levels_comma_separated_equal_repeated() {
    let joined = score_levels(&vec!["Low,Medium,High".to_string()]);
    let repeated = score_levels(&vec!["Low".to_string(), "Medium".to_string(), "High".to_string()]);
    let a: Vec<&str> = joined.iter().map(str_of).collect();
    let b: Vec<&str> = repeated.iter().map(str_of).collect();
    assert_eq!(a, b);
}

#[test]
fn quick_request_builds_every_question_kind() {
    let mut args = quick_args(Some("Deploying v2.4 to production cluster"));
    args.choice = Some("next_step:Which playbook should be executed?".to_string());
    args.options = vec!["deploy=Run ansible deploy.yml".to_string(), "os_setup".to_string()];
    args.noul = Some("need_backup:Does this require a backup?".to_string());
    args.score = Some("risk:Rate the risk".to_string());
    args.levels = vec!["Low,Moderate".to_string(), "High".to_string()];
    let req = build_quick_request(&args, "Deploying v2.4 to production cluster").unwrap();
    assert_eq!(req.model, "jev-latest");
    assert_eq!(str_of(&req.state), "Deploying v2.4 to production cluster");
    assert_eq!(req.questions.len(), 3);
    match req.questions.get("next_step").unwrap() {
        Question::Choice { instructions, criteria } => {
            assert_eq!(str_of(instructions), "Which playbook should be executed?");
            assert_eq!(criteria.len(), 2);
            assert_eq!(str_of(criteria.get("deploy").unwrap()), "Run ansible deploy.yml");
            assert!(matches!(criteria.get("os_setup").unwrap(), JsonValue::Null));
        },
        other => panic!("unexpected {:?}", other),
    }
    match req.questions.get("need_backup").unwrap() {
        Question::Noul { instructions, criteria } => {
            assert_eq!(str_of(instructions), "Does this require a backup?");
            assert!(criteria.is_none());
        },
        other => panic!("unexpected {:?}", other),
    }
    match req.questions.get("risk").unwrap() {
        Question::Score { instructions, criteria } => {
            assert_eq!(str_of(instructions), "Rate the risk");
            let levels: Vec<&str> = criteria.iter().map(str_of).collect();
            assert_eq!(levels, vec!["Low", "Moderate", "High"]);
        },
        other => panic!("unexpected {:?}", other),
    }
}

#[test]
fn quick_request_state_that_is_json_is_parsed() {
    let mut args = quick_args(Some("{\"cpu\": 98, \"errors\": [500]}"));
    args.noul = Some("scale:Scale out?".to_string());
    let req = ready(parse_request(&args, true).unwrap());
    let keys = object_keys(&req.state);
    assert_eq!(keys, vec!["cpu".to_string(), "errors".to_string()]);
    match &req.state {
        JsonValue::Object(members) => {
            assert!(matches!(&members[0].1, JsonValue::Number(n) if n == "98"));
            assert!(matches!(&members[1].1, JsonValue::Array(items) if items.len() == 1));
        },
        _ => unreachable!(),
    }
    let mut args = quick_args(Some("\"quoted\""));
    args.noul = Some("q:ok?".to_string());
    let req = ready(parse_request(&args, true).unwrap());
    assert_eq!(str_of(&req.state), "quoted");
}

#[test]
fn same_id_later_flag_wins() {
    let mut args = quick_args(Some("s"));
    args.choice = Some("q:Pick one".to_string());
    args.options = vec!["x=X".to_string()];
    args.noul = Some("q:Yes or no?".to_string());
    let req = ready(parse_request(&args, true).unwrap());
    assert_eq!(req.questions.len(), 1);
    assert!(matches!(req.questions.get("q").unwrap(), Question::Noul { .. }));
}

#[test]
fn choice_without_options_is_refused() {
    let mut args = quick_args(Some("s"));
    args.choice = Some("q:Pick one".to_string());
    let err = parse_request(&args, true).unwrap_err();
    assert!(matches!(err, RequestError::ChoiceWithoutOptions));
    assert_eq!(err.message(), "Choice question requires at least one --option key=description");
}

#[test]
fn score_with_one_level_is_refused() {
    let mut args = quick_args(Some("s"));
    args.score = Some("risk:Rate".to_string());
    args.levels = vec!["Only, ,".to_string()];
    let err = parse_request(&args, true).unwrap_err();
    assert!(matches!(err, RequestError::ScoreWithoutLevels));
    assert_eq!(err.message(), "Score question requires at least 2 levels via --level");
}

#[test]
fn state_without_questions_is_refused() {
    let args = quick_args(Some("s"));
    let err = parse_request(&args, true).unwrap_err();
    assert!(matches!(err, RequestError::NoQuestions));
    assert_eq!(
        err.message(),
        "Quick mode with --state requires at least one question flag (--choice, --noul, or --score)"
    );
}

#[test]
fn first_refusal_wins() {
    let mut args = quick_args(Some("s"));
    args.choice = Some("q:Pick".to_string());
    args.noul = Some("bad noul".to_string());
    let err = parse_request(&args, true).unwrap_err();
    assert!(matches!(err, RequestError::ChoiceWithoutOptions));
    args.options = vec!["a".to_string()];
    let err = parse_request(&args, true).unwrap_err();
    assert!(matches!(&err, RequestError::InvalidFlag { flag, .. } if flag == "noul"));
}

#[test]
fn input_source_is_chosen_in_order() {
    let mut args = quick_args(None);
    args.file = Some("request.json".to_string());
    args.input = Some("-".to_string());
    assert!(matches!(parse_request(&args, true).unwrap(), RequestPlan::ReadFile));
    args.file = None;
    assert!(matches!(parse_request(&args, true).unwrap(), RequestPlan::ReadStdin));
    args.input = Some("{\"state\": 1}".to_string());
    assert!(matches!(parse_request(&args, true).unwrap(), RequestPlan::Inline(t) if t == "{\"state\": 1}"));
    args.input = None;
    assert!(matches!(parse_request(&args, false).unwrap(), RequestPlan::ReadPipedStdin));
    let err = parse_request(&args, true).unwrap_err();
    assert!(matches!(err, RequestError::NoInput));
    assert_eq!(
        err.message(),
        "No input provided. Provide JSON as an argument, pipe through stdin, use --file, or specify --state and question flags."
    );
}

#[test]
fn blank_piped_input_is_no_input() {
    assert!(matches!(accept_piped_input(" \n\t ".to_string()), Err(RequestError::NoInput)));
    assert_eq!(accept_piped_input(" {} \n".to_string()).unwrap(), " {} \n");
}

#[test]
fn payload_gets_default_model_when_missing() {
    let v = prepare_payload("{\"state\": \"x\", \"questions\": {}}", "jev-latest").unwrap();
    match &v {
        JsonValue::Object(members) => {
            assert_eq!(members.len(), 3);
            let model = members.iter().find(|(k, _)| k == "model").unwrap();
            assert_eq!(str_of(&model.1), "jev-latest");
        },
        other => panic!("unexpected {:?}", other),
    }
}

#[test]
fn payload_model_given_is_kept() {
    let v = prepare_payload("{\"model\": \"jev-1\", \"state\": 1}", "jev-latest").unwrap();
    match &v {
        JsonValue::Object(members) => {
            assert_eq!(members.len(), 2);
            let model = members.iter().find(|(k, _)| k == "model").unwrap();
            assert_eq!(str_of(&model.1), "jev-1");
        },
        other => panic!("unexpected {:?}", other),
    }
}

#[test]
fn payload_that_is_not_an_object_is_unchanged() {
    let v = prepare_payload("[1, 2]", "jev-latest").unwrap();
    assert!(matches!(v, JsonValue::Array(items) if items.len() == 2));
}

#[test]
fn invalid_payload_is_refused() {
    assert!(prepare_payload("{not json", "jev-latest").is_err());
    assert!(prepare_payload("", "jev-latest").is_err());
}

#[test]
fn default_model_filled_in_once() {
    let v = JsonValue::Object(vec![("state".to_string(), JsonValue::Null)]);
    let once = with_default_model(v, "m1");
    let twice = with_default_model(once, "m2");
    match &twice {
        JsonValue::Object(members) => {
            assert_eq!(members.len(), 2);
            assert_eq!(members[1].0, "model");
            assert_eq!(str_of(&members[1].1), "m1");
        },
        other => panic!("unexpected {:?}", other),
    }
}

#[test]
fn keymap_insert_get_len() {
    let mut m: KeyMap<JsonValue> = KeyMap::new();
    assert_eq!(m.len(), 0);
    m.insert("a".to_string(), JsonValue::Bool(true));
    m.insert("b".to_string(), JsonValue::Null);
    m.insert("a".to_string(), JsonValue::Bool(false));
    assert_eq!(m.len(), 2);
    assert!(matches!(m.get("a"), Some(JsonValue::Bool(false))));
    assert!(m.contains_key("b"));
    assert!(!m.contains_key("c"));
    assert_eq!(m.entries().len(), 2);
}

#[test]
fn full_payload_gets_model_and_keeps_questions() {
    let json = r#"{
        "state": "Help! My payouts have been failing for 3 days.",
        "questions": {
            "is_urgent": {
                "type": "noul",
                "instructions": "Does this convey urgency?"
            },
            "department": {
                "type": "choice",
                "instructions": "Which team should handle this?",
                "criteria": {
                    "billing": "Payments, invoicing, refunds",
                    "technical": "Bugs, outages, integrations"
                }
            },
            "frustration": {
                "type": "score",
                "instructions": "How frustrated is the customer?",
                "criteria": ["Calm", "Frustrated", "Very angry"]
            }
        }
    }"#;

    let v = prepare_payload(json, "jev-latest").unwrap();
    let members = match &v {
        JsonValue::Object(members) => members,
        other => panic!("unexpected {:?}", other),
    };
    assert_eq!(members.len(), 3);
    let model = members.iter().find(|(k, _)| k == "model").unwrap();
    assert_eq!(str_of(&model.1), "jev-latest");
    let questions = members.iter().find(|(k, _)| k == "questions").unwrap();
    let ids = object_keys(&questions.1);
    assert_eq!(ids.len(), 3);
    for id in ["is_urgent", "department", "frustration"] {
        assert!(ids.iter().any(|k| k == id));
    }
    let question_type = |id: &str| -> String {
        match &questions.1 {
            JsonValue::Object(qs) => {
                let q = &qs.iter().find(|(k, _)| k == id).unwrap().1;
                match q {
                    JsonValue::Object(fields) => {
                        str_of(&fields.iter().find(|(k, _)| k == "type").unwrap().1).to_string()
                    },
                    other => panic!("unexpected {:?}", other),
                }
            },
            _ => unreachable!(),
        }
    };
    assert_eq!(question_type("is_urgent"), "noul");
    assert_eq!(question_type("department"), "choice");
    assert_eq!(question_type("frustration"), "score");
}
