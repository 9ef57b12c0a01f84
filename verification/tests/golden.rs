//! The published golden data: resolution vectors and rubric cases.

use guideme::golden::{EXPECTED_RUBRIC_CASES, EXPECTED_VECTORS, rubric_cases, vectors};
use guideme::policy::{Outcome, Verdict};

#[test]
fn the_vector_grid_is_complete_and_ends_with_the_refusals() {
    let vectors = vectors().expect("every grid answer resolves");
    assert_eq!(vectors.len(), EXPECTED_VECTORS);
    for (i, v) in vectors.iter().enumerate() {
        if i < 39 {
            assert!(v.outcome.is_some() && v.error.is_none(), "vector {i}");
        } else {
            assert!(v.outcome.is_none(), "vector {i}");
            assert_eq!(v.error, Some("protocol"));
        }
    }
    // A noul of 0.3 under (0.7, 0.3, 0) is a no; under (0.5, 0.5, 0) also a no; 0.5 under
    // (0.7, 0.3, 0) is unsure.
    assert!(matches!(vectors[2 * 3 + 1].outcome, Some(Outcome::Noul(Verdict::No(_)))));
    assert!(matches!(vectors[3 * 3 + 1].outcome, Some(Outcome::Noul(Verdict::Unsure(_)))));
    assert!(matches!(vectors[6 * 3].outcome, Some(Outcome::Noul(Verdict::Yes(_)))));
    // The second choice has confidence 0.2: unsure only under min_confidence 0.8.
    assert!(matches!(vectors[8 * 3].outcome, Some(Outcome::Choice { unsure: false, .. })));
    assert!(matches!(vectors[8 * 3 + 2].outcome, Some(Outcome::Choice { unsure: true, .. })));
    // The first score's argmax is level 1.
    assert!(matches!(vectors[10 * 3].outcome, Some(Outcome::Score { index: 1, .. })));
}

#[test]
fn the_rubric_cases_are_the_golden_rows() {
    let cases = rubric_cases().expect("every case renders");
    assert_eq!(cases.len(), EXPECTED_RUBRIC_CASES);
    assert_eq!(cases.len(), 7, "the rubric contract may not shrink");
    let kinds: Vec<&str> = cases.iter().map(|c| c.kind).collect();
    assert_eq!(kinds, vec!["choice", "choice", "choice", "levels", "levels", "noul", "noul"]);
    assert_eq!(
        cases[0].rendered,
        "Payments, invoicing, refunds\nExamples: My card was charged twice\nNot this option: The dashboard is down"
    );
    assert_eq!(cases[1].rendered, "Payments, invoicing, refunds\nNot this option: The dashboard is down");
    assert_eq!(
        cases[2].rendered,
        "Payments, invoicing, refunds\nExamples: Why was I billed twice?; Cancel and refund me\nNot this option: The status page is red; Are you hiring?"
    );
    assert_eq!(cases[3].rendered, "No impact to functionality\nExamples: typo in a label; misaligned icon");
    assert_eq!(cases[4].rendered, "No workaround exists");
    assert_eq!(
        cases[5].rendered,
        "Something is broken now and nobody can work around it\nExamples: the checkout page is down\nNot this option: a nightly job failed and the numbers are pulled by hand for now"
    );
    assert_eq!(cases[6].rendered, "It can wait for the next working day");
    for case in &cases {
        // A case with no parts renders to its rubric itself.
        if case.examples.is_empty() && case.counterexamples.is_empty() {
            assert_eq!(case.rendered, case.what, "passthrough broke");
        }
    }
}
