//! Thresholds, policy patches, and the reading of each answer kind.

use guideme::api::Answer;
use guideme::policy::{Outcome, Policy, Thresholds, Verdict, resolve};
use guideme::scalars::{Confidence, Probability};
use guideme::Error;

fn b(v: f64) -> u64 {
    v.to_bits()
}

fn p(v: f64) -> Probability {
    Probability::from_bits(b(v)).unwrap()
}

fn c(v: f64) -> Confidence {
    Confidence::from_bits(b(v)).unwrap()
}

fn t(yes: f64, no: f64, min: f64) -> Thresholds {
    Thresholds::new(b(yes), b(no), b(min)).unwrap()
}

fn rank(v: f64, t: Thresholds) -> u8 {
    match resolve(&Answer::Noul { noul: p(v) }, t).unwrap() {
        Outcome::Noul(Verdict::No(_)) => 0,
        Outcome::Noul(Verdict::Unsure(_)) => 1,
        Outcome::Noul(Verdict::Yes(_)) => 2,
        Outcome::Choice { .. } | Outcome::Score { .. } => panic!("kind"),
    }
}

#[test]
fn malformed_answers_are_protocol_errors() {
    let t = Thresholds::default();
    let ghost = Answer::Choice {
        choice: "ghost".into(),
        probabilities: vec![("a".to_owned(), p(1.0))],
        confidence: c(1.0),
    };
    assert!(matches!(resolve(&ghost, t), Err(Error::Protocol { .. })));

    let eleven = Answer::Score {
        score: 0,
        legend: (0u8..11).map(|i| (i, format!("L{i}"))).collect(),
        probabilities: (0u8..11).map(|i| (i, p(if i == 0 { 1.0 } else { 0.0 }))).collect(),
        confidence: c(1.0),
    };
    assert!(matches!(resolve(&eleven, t), Err(Error::Protocol { .. })));
}

#[test]
fn policy_patch_precedence_and_settle_validation() {
    let house = Policy::new().yes_above(b(0.7)).no_below(b(0.3));
    let call = Policy::new().min_confidence(b(0.6));
    let settled = call.over(house).settle().unwrap();
    assert_eq!(settled, t(0.7, 0.3, 0.6));
    assert!(matches!(
        Policy::new().yes_above(b(0.2)).no_below(b(0.8)).settle(),
        Err(Error::Config { .. })
    ));
    assert!(matches!(Policy::new().min_confidence(b(1.5)).settle(), Err(Error::Config { .. })));
    // `{"yes_above":0.2,"no_below":0.8,"min_confidence":0}`, read as thresholds.
    assert!(Thresholds::new(b(0.2), b(0.8), b(0.0)).is_err());
}

#[test]
fn noul_is_unsure_exactly_inside_the_open_band() {
    let band = t(0.7, 0.3, 0.0);
    assert_eq!(rank(0.0, band), 0);
    assert_eq!(rank(0.3, band), 0);
    assert_eq!(rank(0.31, band), 1);
    assert_eq!(rank(0.5, band), 1);
    assert_eq!(rank(0.69, band), 1);
    assert_eq!(rank(0.7, band), 2);
    assert_eq!(rank(1.0, band), 2);
    // A single cut point: nothing is unsure.
    let cut = t(0.5, 0.5, 0.0);
    assert_eq!(rank(0.5, cut), 2);
    assert_eq!(rank(0.49, cut), 0);
    // Negative zero is zero.
    assert_eq!(rank(-0.0, cut), 0);
}

#[test]
fn noul_verdict_is_monotone_in_probability_and_antitone_in_thresholds() {
    let band = t(0.7, 0.3, 0.0);
    let mut last = 0;
    for i in 0..=100 {
        let r = rank(f64::from(i) / 100.0, band);
        assert!(r >= last);
        last = r;
    }
    for v in [0.1, 0.3, 0.5, 0.65, 0.9] {
        assert!(rank(v, t(0.6, 0.3, 0.0)) >= rank(v, t(0.8, 0.3, 0.0)));
        assert!(rank(v, t(0.8, 0.2, 0.0)) >= rank(v, t(0.8, 0.4, 0.0)));
    }
}

#[test]
fn thresholds_are_validated() {
    assert!(Thresholds::new(b(0.5), b(0.5), b(0.0)).is_ok());
    assert!(matches!(Thresholds::new(b(1.5), b(0.5), b(0.0)), Err(Error::Config { .. })));
    assert!(matches!(Thresholds::new(b(0.5), b(-0.1), b(0.0)), Err(Error::Config { .. })));
    assert!(matches!(Thresholds::new(b(0.5), b(0.5), b(f64::NAN)), Err(Error::Config { .. })));
    assert!(matches!(Thresholds::new(b(0.4), b(0.6), b(0.0)), Err(Error::Config { .. })));
    let d = Thresholds::default();
    assert_eq!((d.yes_above(), d.no_below(), d.min_confidence()), (b(0.5), b(0.5), b(0.0)));
}

#[test]
fn an_empty_patch_is_neutral_and_patching_is_associative() {
    let a = Policy::new().yes_above(b(0.9));
    let g = Policy::new().no_below(b(0.1)).yes_above(b(0.6));
    let h = Policy::new().min_confidence(b(0.5));
    assert_eq!(a.over(Policy::new()), a);
    assert_eq!(Policy::new().over(a), a);
    assert_eq!(a.over(g.over(h)), a.over(g).over(h));
    assert_eq!(a.over(g).over(h).settle().unwrap(), t(0.9, 0.1, 0.5));
}

#[test]
fn choice_ranks_by_descending_probability_and_flags_low_confidence() {
    let answer = Answer::Choice {
        choice: "billing".into(),
        probabilities: vec![
            ("billing".to_owned(), p(0.4)),
            ("sales".to_owned(), p(0.25)),
            ("technical".to_owned(), p(0.35)),
        ],
        confidence: c(0.2),
    };
    let Outcome::Choice { key, confidence, unsure, ranked } = resolve(&answer, t(0.5, 0.5, 0.8)).unwrap() else {
        panic!("kind")
    };
    assert_eq!(key, "billing");
    assert_eq!(confidence.get(), b(0.2));
    assert!(unsure);
    let order: Vec<&str> = ranked.iter().map(|(k, _)| k.as_str()).collect();
    assert_eq!(order, vec!["billing", "technical", "sales"]);
    let Outcome::Choice { unsure, .. } = resolve(&answer, t(0.5, 0.5, 0.2)).unwrap() else {
        panic!("kind")
    };
    assert!(!unsure);
}

#[test]
fn score_index_is_the_first_argmax_and_value_stays_in_range() {
    let answer = Answer::Score {
        score: b(1.05),
        legend: vec![(0, "Calm".into()), (1, "Frustrated".into()), (2, "Very angry".into())],
        probabilities: vec![(0, p(0.0)), (1, p(0.95)), (2, p(0.05))],
        confidence: c(0.92),
    };
    let Outcome::Score { index, value, unsure, distribution, legend, .. } = resolve(&answer, t(0.5, 0.5, 0.8)).unwrap() else {
        panic!("kind")
    };
    assert_eq!(index, 1);
    assert_eq!(value, b(1.05));
    assert!(!unsure);
    assert_eq!(distribution.len(), 3);
    assert_eq!(legend, vec!["Calm".to_owned(), "Frustrated".into(), "Very angry".into()]);

    let tie = Answer::Score {
        score: b(0.5),
        legend: vec![(0, "a".into()), (1, "b".into())],
        probabilities: vec![(0, p(0.5)), (1, p(0.5))],
        confidence: c(0.3),
    };
    let Outcome::Score { index, unsure, .. } = resolve(&tie, t(0.5, 0.5, 0.8)).unwrap() else { panic!("kind") };
    assert_eq!(index, 0);
    assert!(unsure);

    let out_of_range = Answer::Score {
        score: b(1.5),
        legend: vec![(0, "a".into()), (1, "b".into())],
        probabilities: vec![(0, p(0.5)), (1, p(0.5))],
        confidence: c(0.3),
    };
    assert!(matches!(resolve(&out_of_range, Thresholds::default()), Err(Error::Protocol { .. })));

    let skipping = Answer::Score {
        score: 0,
        legend: vec![(0, "a".into()), (2, "c".into())],
        probabilities: vec![(0, p(1.0)), (2, p(0.0))],
        confidence: c(1.0),
    };
    assert!(matches!(resolve(&skipping, Thresholds::default()), Err(Error::Protocol { .. })));
}

#[test]
fn probabilities_and_confidences_outside_the_unit_interval_are_refused() {
    assert!(Probability::from_bits(b(1.0)).is_ok());
    assert!(Probability::from_bits(b(-0.0)).is_ok());
    assert!(matches!(Probability::from_bits(b(1.5)), Err(Error::Protocol { .. })));
    assert!(matches!(Probability::from_bits(b(-0.5)), Err(Error::Protocol { .. })));
    assert!(matches!(Confidence::from_bits(b(f64::NAN)), Err(Error::Protocol { .. })));
    assert_eq!(p(0.25).get(), b(0.25));
}

#[test]
fn each_error_has_a_stable_kind() {
    let cases: Vec<(Error, &str)> = vec![
        (Error::Auth, "auth"),
        (Error::Invalid { detail: "x".into() }, "invalid"),
        (Error::RateLimited { retry_after: None }, "rate_limited"),
        (Error::Overloaded { retry_after: Some(60) }, "overloaded"),
        (Error::Transport { detail: "x".into() }, "transport"),
        (Error::UnexpectedStatus { status: 418, body: "x".into() }, "unexpected_status"),
        (Error::Protocol { detail: "x".into() }, "protocol"),
        (
            Error::Unsure {
                question: "q0".into(),
                value: b(0.5),
                threshold: guideme::error::Threshold::Floor(b(0.8)),
            },
            "unsure",
        ),
        (Error::Config { detail: "x".into() }, "config"),
    ];
    for (error, kind) in cases {
        assert_eq!(error.kind(), kind);
    }
}

#[test]
fn malformed_answers_say_what_was_wrong() {
    let t = Thresholds::default();
    let ghost = Answer::Choice {
        choice: "gh\"ost".into(),
        probabilities: vec![("a".to_owned(), p(1.0))],
        confidence: c(1.0),
    };
    let Err(Error::Protocol { detail }) = resolve(&ghost, t) else { panic!("accepted") };
    assert_eq!(detail, "choice \"gh\\\"ost\" is not in the distribution");

    let eleven = Answer::Score {
        score: 0,
        legend: (0u8..11).map(|i| (i, format!("L{i}"))).collect(),
        probabilities: (0u8..11).map(|i| (i, p(if i == 0 { 1.0 } else { 0.0 }))).collect(),
        confidence: c(1.0),
    };
    let Err(Error::Protocol { detail }) = resolve(&eleven, t) else { panic!("accepted") };
    assert_eq!(detail, "score legend/probabilities must be contiguous levels 0..n with 2 <= n <= 10, got 11");

    let high = Answer::Score {
        score: b(2.5),
        legend: vec![(0, "a".into()), (1, "b".into()), (2, "c".into())],
        probabilities: vec![(0, p(0.2)), (1, p(0.3)), (2, p(0.5))],
        confidence: c(0.5),
    };
    let Err(Error::Protocol { detail }) = resolve(&high, t) else { panic!("accepted") };
    assert_eq!(detail, "the score is outside 0..=2");
}

#[test]
fn equal_probabilities_rank_by_key_whatever_the_order_they_come_in() {
    let answer = Answer::Choice {
        choice: "tech".into(),
        probabilities: vec![
            ("tech".to_owned(), p(0.3)),
            ("billing".to_owned(), p(0.3)),
            ("sales".to_owned(), p(0.4)),
            ("bill".to_owned(), p(0.3)),
        ],
        confidence: c(0.9),
    };
    let Outcome::Choice { ranked, .. } = resolve(&answer, Thresholds::default()).unwrap() else { panic!("kind") };
    let order: Vec<&str> = ranked.iter().map(|(k, _)| k.as_str()).collect();
    assert_eq!(order, vec!["sales", "bill", "billing", "tech"]);
}
