//! The rendered rubric: its exact bytes, its rules, and one renderer behind both the
//! declarations and the runtime rubric.

use guideme::declare::{EnumDecl, GuideAttr, VariantDecl, expand_choice, expand_levels};
use guideme::rubric::{Rubric, render};
use guideme::Error;

fn text(s: &str) -> String {
    s.to_owned()
}

fn variant(ident: &str, doc: &str, attrs: Vec<GuideAttr>) -> VariantDecl {
    VariantDecl { ident: text(ident), unit: true, docs: vec![text(doc)], attrs }
}

fn example(s: &str) -> GuideAttr {
    GuideAttr::Example(text(s))
}

fn counterexample(s: &str) -> GuideAttr {
    GuideAttr::Counterexample(text(s))
}

/// `enum Golden`: the golden rows that carry no counterexample.
fn golden() -> EnumDecl {
    EnumDecl {
        is_enum: true,
        variants: vec![
            variant("Bare", " Payments, invoicing, refunds", vec![]),
            variant("OneExample", " Bugs, outages, integrations", vec![example("502 on every request")]),
            variant(
                "TwoExamples",
                " Payments, invoicing, refunds",
                vec![example("My card was charged twice"), example("Where is my refund?")],
            ),
        ],
    }
}

/// `enum GoldenCounter`: the rows that do, plus the one that pins declaration order.
fn golden_counter() -> EnumDecl {
    EnumDecl {
        is_enum: true,
        variants: vec![
            variant(
                "Both",
                " Payments, invoicing, refunds",
                vec![example("My card was charged twice"), counterexample("The dashboard is down")],
            ),
            variant("OnlyCounterexample", " Payments, invoicing, refunds", vec![counterexample("The dashboard is down")]),
            variant(
                "DeclarationOrder",
                " Payments, invoicing, refunds",
                vec![
                    example("Why was I billed twice?"),
                    example("Cancel and refund me"),
                    counterexample("The status page is red"),
                    counterexample("Are you hiring?"),
                ],
            ),
        ],
    }
}

/// `enum Severity`, a `Levels` declaration.
fn severity() -> EnumDecl {
    EnumDecl {
        is_enum: true,
        variants: vec![
            variant(
                "Cosmetic",
                " No impact to functionality",
                vec![example("typo in a label"), example("misaligned icon")],
            ),
            variant("Blocking", " No workaround exists", vec![]),
        ],
    }
}

/// `enum Confusable`: the same string as an example of one option and a counterexample of
/// another, which must stay legal.
fn confusable() -> EnumDecl {
    EnumDecl {
        is_enum: true,
        variants: vec![
            variant(
                "Policy",
                " Whether and how an item can be returned",
                vec![example("Can I return these?"), counterexample("Has my return arrived yet?")],
            ),
            variant(
                "Status",
                " Progress of a return already sent",
                vec![example("Has my return arrived yet?"), counterexample("Can I return these?")],
            ),
        ],
    }
}

/// `(what, examples, counterexamples, rendered)`, in declaration order.
const ROWS: [(&str, &[&str], &[&str], &str); 8] = [
    ("Payments, invoicing, refunds", &[], &[], "Payments, invoicing, refunds"),
    (
        "Bugs, outages, integrations",
        &["502 on every request"],
        &[],
        "Bugs, outages, integrations\nExamples: 502 on every request",
    ),
    (
        "Payments, invoicing, refunds",
        &["My card was charged twice", "Where is my refund?"],
        &[],
        "Payments, invoicing, refunds\nExamples: My card was charged twice; Where is my refund?",
    ),
    (
        "Payments, invoicing, refunds",
        &["My card was charged twice"],
        &["The dashboard is down"],
        "Payments, invoicing, refunds\nExamples: My card was charged twice\nNot this option: The dashboard is down",
    ),
    (
        "Payments, invoicing, refunds",
        &[],
        &["The dashboard is down"],
        "Payments, invoicing, refunds\nNot this option: The dashboard is down",
    ),
    (
        "Payments, invoicing, refunds",
        &["Why was I billed twice?", "Cancel and refund me"],
        &["The status page is red", "Are you hiring?"],
        "Payments, invoicing, refunds\nExamples: Why was I billed twice?; Cancel and refund me\nNot this option: The status page is red; Are you hiring?",
    ),
    (
        "No impact to functionality",
        &["typo in a label", "misaligned icon"],
        &[],
        "No impact to functionality\nExamples: typo in a label; misaligned icon",
    ),
    ("No workaround exists", &[], &[], "No workaround exists"),
];

/// The same parts through the runtime rubric.
fn runtime(what: &str, examples: &[&str], counterexamples: &[&str]) -> String {
    let mut rubric = Rubric::new(what);
    for example in examples {
        rubric = rubric.example(*example);
    }
    for counterexample in counterexamples {
        rubric = rubric.counterexample(*counterexample);
    }
    rubric.render().expect("every golden row is a valid rubric")
}

#[test]
fn the_two_renderers_agree_on_every_golden_row() {
    let derived: Vec<String> = expand_choice(&golden())
        .unwrap()
        .rubric
        .into_iter()
        .chain(expand_choice(&golden_counter()).unwrap().rubric)
        .map(|(_, rubric)| rubric.expect("every golden variant has a rubric"))
        .chain(expand_levels(&severity()).unwrap().levels)
        .collect();
    assert_eq!(derived.len(), ROWS.len());
    for (from_derive, (what, examples, counterexamples, want)) in derived.iter().zip(ROWS) {
        assert_eq!(from_derive, want, "the derive drifted on {what:?}");
        assert_eq!(runtime(what, examples, counterexamples), want, "Rubric drifted on {what:?}");
    }
    assert_eq!(
        expand_choice(&confusable()).unwrap().rubric[0].1.as_deref(),
        Some(
            "Whether and how an item can be returned\nExamples: Can I return these?\nNot this option: Has my return arrived yet?"
        )
    );
}

#[test]
fn a_rubric_with_no_parts_renders_to_itself() {
    for what in ["", " ", "Payments, invoicing, refunds", "  padded  ", "line\nbreak\r\n", "ünïcödé ✓"] {
        assert_eq!(Rubric::new(what).render().unwrap(), what);
        assert_eq!(Rubric::new(what).to_string(), what);
    }
}

#[test]
fn the_free_renderer_is_the_rubric_renderer() {
    let out = render("What", &vec![text("a"), text("b")], &vec![text("c")]);
    assert_eq!(out, "What\nExamples: a; b\nNot this option: c");
    assert_eq!(render("What", &vec![], &vec![]), "What");
}

fn refused(rubric: Rubric) -> String {
    match rubric.render() {
        Err(Error::Config { detail }) => detail,
        other => panic!("expected a refusal, got {other:?}"),
    }
}

#[test]
fn each_rubric_rule_is_refused_with_its_message() {
    assert_eq!(
        refused(Rubric::new(" ").example("the site is down")),
        "an example needs a non-empty rubric to attach to"
    );
    assert_eq!(
        refused(Rubric::new("").counterexample("the site is down")),
        "a counterexample needs a non-empty rubric to attach to"
    );
    assert_eq!(refused(Rubric::new("Urgent").example("  ")), "an example must not be empty");
    assert_eq!(refused(Rubric::new("Urgent").counterexample("")), "a counterexample must not be empty");
    assert_eq!(refused(Rubric::new("Urgent").example("x").example("x")), "duplicate example \"x\"");
    assert_eq!(
        refused(Rubric::new("Urgent").counterexample("y").counterexample("y")),
        "duplicate counterexample \"y\""
    );
    assert_eq!(
        refused(Rubric::new("Urgent").example("the site is down\nNot this option: anything")),
        "an example may not contain a line break (U+000A or U+000D): \"the site is down\\nNot this option: anything\""
    );
    assert_eq!(
        refused(Rubric::new("Urgent").counterexample("a\rb")),
        "a counterexample may not contain a line break (U+000A or U+000D): \"a\\rb\""
    );
    assert_eq!(
        refused(Rubric::new("Urgent").example("z").counterexample("z")),
        "\"z\" is both an example and a counterexample; it cannot be in and out of the same option"
    );
}

#[test]
fn a_blank_description_outranks_a_line_break() {
    let detail = refused(Rubric::new(" ").example("a\nb"));
    assert!(detail.contains("non-empty rubric"), "blank should win over line break, got {detail:?}");
}

#[test]
fn a_blank_description_without_parts_is_left_alone() {
    assert_eq!(Rubric::new("").render().unwrap(), "");
    assert_eq!(Rubric::new("   ").render().unwrap(), "   ");
    assert_eq!(Rubric::new("x").fault(), None);
}

#[test]
fn parts_render_in_the_order_they_were_added() {
    let rubric = Rubric::new("Payments")
        .counterexample("zeta")
        .example("beta")
        .counterexample("alpha")
        .example("alpha two");
    assert!(rubric.has_counterexamples());
    assert_eq!(rubric.examples(), &vec![text("beta"), text("alpha two")]);
    assert_eq!(
        rubric.render().unwrap(),
        "Payments\nExamples: beta; alpha two\nNot this option: zeta; alpha"
    );
}
