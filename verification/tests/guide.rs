//! An ask end to end without the wire: the guide prepares the one request, a response is
//! written by hand, and the guide concludes it.

use guideme::api::{Answer, NoulCriteria, Question as WireQuestion, QuestionId, Response, Usage};
use guideme::ask::Ask;
use guideme::client::Client;
use guideme::error::Threshold;
use guideme::guide::{Concluded, Guide, Reading, conclude, describe, signed};
use guideme::policy::{Policy, Verdict};
use guideme::question::{Key, Levels, Options, Rank, choose_among, choose_one, noul, score, score_levels};
use guideme::rubric::Rubric;
use guideme::scalars::{ApiKey, Confidence, Instructions, Model, Probability, State};
use guideme::Error;

fn b(v: f64) -> u64 {
    v.to_bits()
}

fn p(v: f64) -> Probability {
    Probability::from_bits(b(v)).unwrap()
}

fn c(v: f64) -> Confidence {
    Confidence::from_bits(b(v)).unwrap()
}

fn q(text: &str) -> Instructions {
    Instructions::text(text)
}

#[derive(Clone, Copy, PartialEq, Eq, Debug)]
enum Team {
    Billing,
    Sales,
}

impl Options for Team {
    fn key_of(v: Self) -> String {
        match v {
            Team::Billing => "billing".into(),
            Team::Sales => "sales".into(),
        }
    }

    fn fallback_variant() -> Option<Self> {
        Some(Team::Sales)
    }

    fn option_entry(index: usize) -> Option<(&'static str, Option<&'static str>)> {
        Self::rubric().get(index).copied()
    }

    fn rubric() -> Vec<(&'static str, Option<&'static str>)> {
        vec![("billing", Some("a")), ("sales", Some("b"))]
    }

    fn from_key(key: &str) -> Option<Self> {
        match key {
            "billing" => Some(Team::Billing),
            "sales" => Some(Team::Sales),
            _ => None,
        }
    }

    fn fallback() -> Option<Self> {
        Some(Team::Sales)
    }
}

#[derive(Clone, Copy, PartialEq, Eq, Debug)]
enum Department {
    Billing,
    Technical,
    Sales,
}

impl Options for Department {
    fn key_of(v: Self) -> String {
        match v {
            Department::Billing => "billing".into(),
            Department::Technical => "technical".into(),
            Department::Sales => "sales".into(),
        }
    }

    fn fallback_variant() -> Option<Self> {
        None
    }

    fn option_entry(index: usize) -> Option<(&'static str, Option<&'static str>)> {
        Self::rubric().get(index).copied()
    }

    fn rubric() -> Vec<(&'static str, Option<&'static str>)> {
        vec![("billing", Some("Payments")), ("technical", Some("Bugs")), ("sales", Some("Pricing"))]
    }

    fn from_key(key: &str) -> Option<Self> {
        match key {
            "billing" => Some(Department::Billing),
            "technical" => Some(Department::Technical),
            "sales" => Some(Department::Sales),
            _ => None,
        }
    }

    fn fallback() -> Option<Self> {
        None
    }
}

#[derive(Clone, Copy, PartialEq, Eq, PartialOrd, Ord, Debug)]
enum Frustration {
    Calm,
    Frustrated,
    VeryAngry,
}

const FRUSTRATIONS: [Frustration; 3] = [Frustration::Calm, Frustration::Frustrated, Frustration::VeryAngry];

impl Levels for Frustration {
    fn index_variant(index: usize) -> Option<Self> {
        FRUSTRATIONS.get(index).copied()
    }

    fn variant_index(&self) -> usize {
        *self as usize
    }

    fn level_entry(index: usize) -> Option<&'static str> {
        Self::levels().get(index).copied()
    }

    fn levels() -> Vec<&'static str> {
        vec!["Calm", "Frustrated", "Very angry"]
    }

    fn from_index(index: usize) -> Option<Self> {
        FRUSTRATIONS.get(index).copied()
    }

    fn index(&self) -> usize {
        *self as usize
    }
}

fn guide() -> Guide {
    Guide::builder()
        .api_key(ApiKey::new("k".into()))
        .base_url("http://127.0.0.1:1".into())
        .build()
        .expect("guide")
}

fn noul_answer(v: f64) -> Answer {
    Answer::Noul { noul: p(v) }
}

fn choice_answer(choice: &str, probabilities: &[(&str, f64)], confidence: f64) -> Answer {
    Answer::Choice {
        choice: choice.into(),
        probabilities: probabilities.iter().map(|(k, v)| ((*k).to_owned(), p(*v))).collect(),
        confidence: c(confidence),
    }
}

fn score_answer(value: f64, legend: &[&str], probabilities: &[f64], confidence: f64) -> Answer {
    Answer::Score {
        score: b(value),
        legend: legend.iter().enumerate().map(|(i, l)| (i as u8, (*l).to_owned())).collect(),
        probabilities: probabilities.iter().enumerate().map(|(i, v)| (i as u8, p(*v))).collect(),
        confidence: c(confidence),
    }
}

fn response(answers: Vec<Answer>) -> Response {
    Response {
        model: Model::new("jev-1.13.0".into()),
        answers: answers.into_iter().enumerate().map(|(i, a)| (QuestionId::nth(i), a)).collect(),
        usage: Usage { input_tokens: 300, output_tokens: 40 },
    }
}

/// Prepare `ask`, check the request, and conclude it with these answers.
fn ask_offline<A: Ask>(guide: &Guide, ask: A, answers: Vec<Answer>) -> Concluded<A::Out> {
    let prepared = guide.prepare(ask, State::text("x")).expect("prepared");
    let ids: Vec<String> = prepared.request.questions.iter().map(|(id, _)| id.as_str().to_owned()).collect();
    let expected: Vec<String> = (0..ids.len()).map(|i| format!("q{i}")).collect();
    assert_eq!(ids, expected);
    assert_eq!(prepared.thresholds.len(), ids.len());
    conclude::<A>(prepared.claim, &prepared.thresholds, response(answers))
}

#[test]
fn a_shape_of_questions_is_one_request_with_per_question_policy() {
    let guide = guide();
    let shape = (
        noul(q("Is this urgent?")),
        choose_one::<Department>(q("Which team?")).with(Policy::new().min_confidence(b(0.6))).or(Department::Sales),
        score::<Frustration>(q("How frustrated?")).detail(),
        vec![noul(q("Is it spam?")), noul(q("Is the sender a VIP?"))],
    );
    let prepared = guide.prepare(shape, State::text("Help! Payouts failing for 3 days.")).unwrap();
    assert_eq!(prepared.request.questions.len(), 5);
    assert_eq!(prepared.request.model.as_str(), "jev-latest");
    match &prepared.request.questions[1].1 {
        WireQuestion::Choice { criteria, .. } => {
            assert_eq!(criteria[0], ("billing".to_owned(), Some("Payments".to_owned())));
        }
        other => panic!("wrong kind {other:?}"),
    }
    assert_eq!(prepared.thresholds[1].min_confidence(), b(0.6));
    assert_eq!(prepared.thresholds[0].min_confidence(), 0);

    let answers = vec![
        noul_answer(0.95),
        choice_answer("billing", &[("billing", 0.5), ("sales", 0.2), ("technical", 0.3)], 0.4),
        score_answer(1.05, &["Calm", "Frustrated", "Very angry"], &[0.0, 0.95, 0.05], 0.92),
        noul_answer(0.1),
        noul_answer(0.9),
    ];
    let concluded = conclude::<(
        guideme::question::Question<guideme::question::Noul>,
        guideme::question::Question<guideme::question::Choose<Department>>,
        guideme::question::Question<guideme::question::Detailed<guideme::question::Score<Frustration>>>,
        Vec<guideme::question::Question<guideme::question::Noul>>,
    )>(prepared.claim, &prepared.thresholds, response(answers));
    let receipt = concluded.result.unwrap();
    let (urgent, dept, mood, flags) = receipt.answer;
    assert!(urgent);
    assert_eq!(dept, Department::Sales);
    assert_eq!(mood.level, Frustration::Frustrated);
    assert_eq!(mood.value, b(1.05));
    assert_eq!(flags, vec![false, true]);
    assert_eq!(concluded.events.len(), 5);
}

#[test]
fn unsure_without_fallback_fails_the_whole_call_naming_the_question() {
    let guide = guide().with_policy(Policy::new().min_confidence(b(0.6))).unwrap();
    let concluded = ask_offline(
        &guide,
        (noul(q("urgent?")), choose_one::<Department>(q("team?"))),
        vec![
            noul_answer(0.95),
            choice_answer("billing", &[("billing", 0.5), ("sales", 0.2), ("technical", 0.3)], 0.4),
        ],
    );
    let err = concluded.result.unwrap_err();
    assert!(matches!(err, Error::Unsure { ref question, .. } if question == "q1"), "{err:?}");
    assert!(matches!(
        err,
        Error::Unsure { value, threshold: Threshold::Floor(t), .. } if value == b(0.4) && t == b(0.6)
    ));
}

#[test]
fn unsure_ladder_or_beats_enum_fallback_beats_error_and_detail_never_fails() {
    let guide = guide()
        .with_policy(Policy::new().yes_above(b(0.7)).no_below(b(0.3)).min_confidence(b(0.9)))
        .unwrap();
    let billing_or_sales = || choice_answer("billing", &[("billing", 0.6), ("sales", 0.4)], 0.4);
    let concluded = ask_offline(
        &guide,
        (
            noul(q("q")).detail(),
            choose_one::<Team>(q("q")).or(Team::Billing),
            choose_one::<Team>(q("q")),
            choose_one::<Team>(q("q")).detail(),
            choose_among(q("q"), vec![("billing", None::<&str>), ("sales", None)]).or(Key("sales".into())),
            score_levels(q("q"), vec!["low", "high"]).or(Rank(0)),
            noul(q("q")).or(false),
        ),
        vec![
            noul_answer(0.5),
            billing_or_sales(),
            billing_or_sales(),
            billing_or_sales(),
            billing_or_sales(),
            score_answer(0.4, &["low", "high"], &[0.6, 0.4], 0.4),
            noul_answer(0.5),
        ],
    );
    let (v, a, bb, cc, d, e, f) = concluded.result.unwrap().answer;
    assert!(matches!(v, Verdict::Unsure(_)));
    assert_eq!((a, bb), (Team::Billing, Team::Sales));
    assert!(cc.unsure);
    assert_eq!((d, e, f), (Key("sales".into()), Rank(0), false));
}

#[test]
fn an_unsure_noul_without_or_names_the_nearer_band() {
    let guide = guide().with_policy(Policy::new().yes_above(b(0.7)).no_below(b(0.3))).unwrap();
    let concluded = ask_offline(&guide, noul(q("q")), vec![noul_answer(0.6)]);
    let err = concluded.result.unwrap_err();
    assert!(matches!(
        err,
        Error::Unsure { ref question, value, threshold: Threshold::Band { yes_above, no_below } }
            if question == "q0" && value == b(0.6) && yes_above == b(0.7) && no_below == b(0.3)
    ));
    assert_eq!(concluded.events.len(), 1);
    assert_eq!(concluded.events[0].message, "q0 noul: unsure");
}

#[test]
fn a_receipt_carries_the_model_and_usage_from_the_response() {
    let concluded = ask_offline(&guide(), noul(q("Is this urgent?")), vec![noul_answer(0.95)]);
    let receipt = concluded.result.unwrap();
    assert!(receipt.answer);
    assert_eq!(receipt.model.as_str(), "jev-1.13.0");
    assert_eq!(receipt.usage, Usage { input_tokens: 300, output_tokens: 40 });
}

#[test]
fn a_missing_answer_or_a_wrong_kind_is_a_protocol_error() {
    let concluded = ask_offline(&guide(), (noul(q("a")), noul(q("b"))), vec![noul_answer(0.95)]);
    assert!(matches!(
        concluded.result,
        Err(Error::Protocol { ref detail }) if detail == "no answer for question q1"
    ));
    assert_eq!(concluded.events.len(), 1);

    let concluded = ask_offline(&guide(), noul(q("a")), vec![score_answer(0.0, &["a", "b"], &[1.0, 0.0], 1.0)]);
    assert!(matches!(concluded.result, Err(Error::Protocol { .. })));

    let concluded = ask_offline(
        &guide(),
        choose_among(q("q"), vec![("billing", None::<&str>)]),
        vec![choice_answer("ghost", &[("billing", 0.1), ("ghost", 0.9)], 0.9)],
    );
    assert!(matches!(concluded.result, Err(Error::Protocol { .. })));
}

#[test]
fn an_empty_batch_and_a_state_that_is_not_json_are_refused() {
    let err = guide().prepare(Vec::<guideme::question::Question<guideme::question::Noul>>::new(), State::text("x"));
    assert!(matches!(err, Err(Error::Config { ref detail }) if detail == "a batch needs at least one question"));
    let err = guide().prepare(noul(q("q")), State::Invalid("a map with non-string keys".into()));
    assert!(matches!(err, Err(Error::Config { .. })));
}

#[test]
fn each_answer_gets_one_event() {
    let guide = guide().with_policy(Policy::new().min_confidence(b(0.5))).unwrap();
    let concluded = ask_offline(
        &guide,
        (
            noul(q("a")),
            choose_one::<Team>(q("b")),
            score::<Frustration>(q("c")).detail(),
        ),
        vec![
            noul_answer(0.1),
            choice_answer("sales", &[("billing", 0.3), ("sales", 0.7)], 0.8),
            score_answer(2.0, &["Calm", "Frustrated", "Very angry"], &[0.0, 0.1, 0.9], 0.3),
        ],
    );
    assert!(concluded.result.is_ok());
    let events = concluded.events;
    assert_eq!(events.len(), 3);
    assert_eq!((events[0].kind, events[0].message.as_str()), ("noul", "q0 noul: no"));
    assert!(matches!(&events[0].outcome, Reading::Text(l) if l == "no"));
    assert_eq!(events[0].probability, Some(b(0.1)));
    assert_eq!((events[1].kind, events[1].message.as_str()), ("choice", "q1 choice: sales"));
    assert_eq!(events[1].confidence, Some(b(0.8)));
    assert!(!events[1].unsure);
    assert_eq!((events[2].kind, events[2].message.as_str()), ("score", "q2 score: level 2"));
    assert!(matches!(events[2].outcome, Reading::Level(2)));
    assert_eq!(events[2].value, Some(b(2.0)));
    assert!(events[2].unsure);
    assert_eq!(events[2].min_confidence, b(0.5));
    assert_eq!(events[2].question, "q2");
}

#[test]
fn the_rendered_rubric_is_what_reaches_the_wire() {
    let prepared = guide()
        .prepare(
            noul(q("Is this ticket urgent?")).criteria(
                Rubric::new("Broken now, no workaround")
                    .example("the checkout page is down")
                    .counterexample("a nightly job failed and the numbers are pulled by hand"),
                Rubric::new("It can wait for the next working day"),
            ),
            State::text("the export button crashes"),
        )
        .unwrap();
    match &prepared.request.questions[0].1 {
        WireQuestion::Noul { criteria: Some(NoulCriteria { yes, no }), .. } => {
            assert_eq!(
                yes,
                "Broken now, no workaround\nExamples: the checkout page is down\nNot this option: a nightly job failed and the numbers are pulled by hand"
            );
            assert_eq!(no, "It can wait for the next working day");
        }
        other => panic!("wrong kind {other:?}"),
    }

    let err = guide().prepare(
        noul(q("Is this urgent?")).criteria(Rubric::new(" ").example("the site is down"), "no"),
        State::text("state"),
    );
    assert!(matches!(err, Err(Error::Config { .. })));
    assert!(guide().prepare(noul(q("Is this urgent?")).criteria("", ""), State::text("state")).is_ok());
    let shared = guide().prepare(
        noul(q("Is this urgent?")).criteria(
            Rubric::new("Urgent").example("the site is down"),
            Rubric::new("Not urgent").example("the site is down"),
        ),
        State::text("state"),
    );
    assert!(matches!(shared, Err(Error::Config { .. })));
}

#[test]
fn choose_among_applies_the_cross_option_rules_at_ask_time() {
    let prepared = guide()
        .prepare(
            choose_among(
                q("Which desk?"),
                vec![
                    (
                        "policy",
                        Some(
                            Rubric::new("Whether and how an item can be returned")
                                .example("Can I return these?")
                                .counterexample("Has my return arrived yet?"),
                        ),
                    ),
                    (
                        "status",
                        Some(Rubric::new("Progress of a return already sent").example("Has my return arrived yet?")),
                    ),
                ],
            ),
            State::text("where is my parcel"),
        )
        .unwrap();
    match &prepared.request.questions[0].1 {
        WireQuestion::Choice { criteria, .. } => {
            assert_eq!(
                criteria[1],
                (
                    "status".to_owned(),
                    Some("Progress of a return already sent\nExamples: Has my return arrived yet?".to_owned())
                )
            );
        }
        other => panic!("wrong kind {other:?}"),
    }
    let shared = guide().prepare(
        choose_among(
            q("Which desk?"),
            vec![
                ("policy", Some(Rubric::new("Returns").example("Can I return these?"))),
                ("status", Some(Rubric::new("Tracking").example("Can I return these?"))),
            ],
        ),
        State::text("where is my parcel"),
    );
    assert!(
        matches!(&shared, Err(Error::Config { detail }) if detail.contains("\"policy\"") && detail.contains("\"status\"")),
        "the refusal should name both options"
    );
}

#[test]
fn score_levels_refuses_a_counterexample_on_a_level() {
    let ruled_out = guide().prepare(
        score_levels(q("How urgent?"), vec![Rubric::new("can wait").counterexample("the site is down"), Rubric::new("today")]),
        State::text("state"),
    );
    assert!(matches!(&ruled_out, Err(Error::Config { detail }) if detail.contains("position on a scale")));
    let shared = guide().prepare(
        score_levels(
            q("How urgent?"),
            vec![Rubric::new("can wait").example("a typo in a label"), Rubric::new("today").example("a typo in a label")],
        ),
        State::text("state"),
    );
    assert!(matches!(&shared, Err(Error::Config { detail }) if detail.contains("level 0") && detail.contains("level 1")));
}

#[test]
fn a_choice_needs_options_and_a_score_needs_two_to_ten_levels() {
    let err = guide().prepare(choose_one::<Key>(q("q")), State::text("x"));
    assert!(matches!(err, Err(Error::Config { .. })));
    let err = guide().prepare(score::<Rank>(q("q")), State::text("x"));
    assert!(matches!(err, Err(Error::Config { .. })));
    let err = guide().prepare(score_levels(q("q"), vec!["only"]), State::text("x"));
    assert!(matches!(err, Err(Error::Config { .. })));
    let eleven: Vec<String> = (0..11).map(|i| format!("L{i}")).collect();
    let err = guide().prepare(score_levels(q("q"), eleven), State::text("x"));
    assert!(matches!(err, Err(Error::Config { .. })));
    let err = guide().prepare(
        choose_among(q("q"), vec![("same", None::<&str>), ("same", None)]),
        State::text("x"),
    );
    assert!(matches!(err, Err(Error::Config { .. })));
}

fn refused(r: Result<Guide, Error>) -> Error {
    match r {
        Ok(_) => panic!("the build should be refused"),
        Err(e) => e,
    }
}

#[test]
fn an_injected_client_refuses_a_conflict() {
    let client = Client::builder(ApiKey::new("k".into()))
        .base_url("http://127.0.0.1:1".into())
        .http(reqwest::Client::new())
        .build()
        .unwrap();
    assert!(Guide::builder().client(client.duplicate()).build().is_ok());
    for (name, builder) in [
        ("timeout", Guide::builder().timeout(1_000_000_000)),
        ("max_retries", Guide::builder().max_retries(9)),
        ("backoff", Guide::builder().backoff(1_000_000_000)),
        ("base_url", Guide::builder().base_url("http://example.test".into())),
        ("api_key", Guide::builder().api_key(ApiKey::new("k".into()))),
    ] {
        let err = refused(builder.client(client.duplicate()).build());
        assert!(
            matches!(&err, Error::Config { detail } if detail.contains(name)),
            "{name} beside client(..) should be refused by name, got {err:?}"
        );
    }
    let err = refused(Guide::builder().max_retries(1).timeout(1).client(client.duplicate()).build());
    assert!(matches!(&err, Error::Config { detail } if detail.contains("so max_retries, timeout would do nothing")));
}

#[test]
fn a_guide_needs_a_key_and_a_policy_that_settles() {
    assert!(matches!(
        Guide::builder().build(),
        Err(Error::Config { ref detail }) if detail == "api_key is required"
    ));
    let bad = Guide::builder()
        .api_key(ApiKey::new("k".into()))
        .policy(Policy::new().yes_above(b(0.2)).no_below(b(0.8)))
        .build();
    assert!(matches!(bad, Err(Error::Config { .. })));
    assert!(matches!(guide().with_policy(Policy::new().min_confidence(b(2.0))), Err(Error::Config { .. })));
    let g = guide().with_policy(Policy::new().min_confidence(b(0.5))).unwrap();
    assert_eq!(g.policy(), Policy::new().min_confidence(b(0.5)));
    assert_eq!(g.model().as_str(), "jev-latest");
    assert!(!g.records_state());
    assert_eq!(g.client().base_url(), "http://127.0.0.1:1");
}

#[test]
fn a_failed_span_describes_the_error_without_a_body() {
    assert_eq!(
        describe(&Error::Invalid { detail: "{\"state\":\"secret\"}".into() }).as_deref(),
        Some("invalid request: the 422 body is on the returned error")
    );
    assert_eq!(
        describe(&Error::UnexpectedStatus { status: 503, body: "secret".into() }).as_deref(),
        Some("unexpected status 503: the body is on the returned error")
    );
    assert_eq!(describe(&Error::Auth), None);
    assert_eq!(signed(5), 5);
    assert_eq!(signed(u64::MAX), i64::MAX);
}

#[test]
fn a_batch_reads_each_answer_by_its_own_id_whatever_the_order_of_the_reply() {
    let guide = guide();
    let batch = vec![noul(q("First?")), noul(q("Second?")), noul(q("Third?"))];
    let prepared = guide.prepare(batch, State::text("x")).expect("prepared");
    let ids: Vec<&str> = prepared.request.questions.iter().map(|(id, _)| id.as_str()).collect();
    assert_eq!(ids, vec!["q0", "q1", "q2"]);
    let reply = Response {
        model: Model::new("jev-1.13.0".into()),
        answers: vec![
            (QuestionId::nth(2), noul_answer(0.9)),
            (QuestionId::nth(0), noul_answer(0.1)),
            (QuestionId::nth(1), noul_answer(0.8)),
        ],
        usage: Usage { input_tokens: 1, output_tokens: 1 },
    };
    let concluded = conclude::<Vec<guideme::question::Question<guideme::question::Noul>>>(prepared.claim, &prepared.thresholds, reply);
    assert_eq!(concluded.result.expect("answered").answer, vec![false, true, true]);
}

#[test]
fn text_becomes_a_json_string() {
    let state = State::text("I was charged twice");
    assert_eq!(state.value().ok(), Some(&serde_json::Value::String("I was charged twice".into())));
    let instructions = Instructions::text("Should this be escalated?");
    assert_eq!(instructions.0, serde_json::Value::String("Should this be escalated?".into()));
    let Err(Error::Config { detail }) = State::Invalid("a map key is not a string".into()).value() else {
        panic!("accepted")
    };
    assert_eq!(detail, "state is not serialisable: a map key is not a string");
}

#[test]
fn keyed_shapes_keep_their_keys_and_go_out_in_entry_order() {
    let guide = guide();
    let flags = guideme::ask::Keyed(vec![("spam", noul(q("Is it spam?"))), ("vip", noul(q("Is it a VIP?")))]);
    let shape = (noul(q("Is this urgent?")), flags);
    let concluded = ask_offline(&guide, shape, vec![noul_answer(0.9), noul_answer(0.2), noul_answer(0.7)]);
    let (urgent, flags) = concluded.result.expect("answered").answer;
    assert!(urgent);
    assert_eq!(flags, vec![("spam", false), ("vip", true)]);
}

#[test]
fn a_guide_clone_keeps_its_settings() {
    let guide = guide();
    let copy = guide.clone();
    assert_eq!(copy.client().base_url(), guide.client().base_url());
    assert_eq!(copy.model().as_str(), guide.model().as_str());
}
