//! `Choice` and `Levels` declarations, read by the library's derive rules: the option table
//! and level list they produce, and the rule each misuse is refused by.

use guideme::declare::{
    ChoiceTable, EnumDecl, GuideAttr, LevelsTable, VariantDecl, expand_choice, expand_levels,
};
use guideme::question::{Levels, Options};

fn text(s: &str) -> String {
    s.to_owned()
}

fn variant(ident: &str, docs: &[&str], attrs: Vec<GuideAttr>) -> VariantDecl {
    VariantDecl {
        ident: text(ident),
        unit: true,
        docs: docs.iter().map(|d| text(d)).collect(),
        attrs,
    }
}

fn declaration(variants: Vec<VariantDecl>) -> EnumDecl {
    EnumDecl { is_enum: true, variants }
}

fn leak(s: String) -> &'static str {
    Box::leak(s.into_boxed_str())
}

/// What `#[derive(Choice)]` reads off this enum:
///
/// ```text
/// enum Department {
///     /// Payments, invoicing, refunds
///     Billing,
///     #[guide(key = "tech", rubric = "Bugs, outages, integrations")]
///     Technical,
///     /// Pricing, upgrades, new accounts
///     #[guide(fallback)]
///     Sales,
///     NoRubric,
/// }
/// ```
fn department_declaration() -> EnumDecl {
    declaration(vec![
        variant("Billing", &[" Payments, invoicing, refunds"], vec![]),
        variant(
            "Technical",
            &[],
            vec![
                GuideAttr::Key(text("tech")),
                GuideAttr::Rubric(text("Bugs, outages, integrations")),
            ],
        ),
        variant("Sales", &[" Pricing, upgrades, new accounts"], vec![GuideAttr::Fallback]),
        variant("NoRubric", &[], vec![]),
    ])
}

/// What `#[derive(Levels)]` reads off `Frustration { Calm, Frustrated, VeryAngry }`.
fn frustration_declaration() -> EnumDecl {
    declaration(vec![
        variant("Calm", &[" Calm and polite"], vec![]),
        variant("Frustrated", &[" Frustrated"], vec![]),
        variant("VeryAngry", &[" Very angry"], vec![]),
    ])
}

fn department_table() -> ChoiceTable {
    expand_choice(&department_declaration()).expect("the declaration is accepted")
}

fn frustration_table() -> LevelsTable {
    expand_levels(&frustration_declaration()).expect("the declaration is accepted")
}

#[derive(Clone, Copy, PartialEq, Eq, Debug)]
enum Department {
    Billing,
    Technical,
    Sales,
    NoRubric,
}

impl Department {
    /// The variant's name, as the derive reads it off the enum.
    fn name(self) -> &'static str {
        match self {
            Department::Billing => "Billing",
            Department::Technical => "Technical",
            Department::Sales => "Sales",
            Department::NoRubric => "NoRubric",
        }
    }

    /// The variant with this name (what the derive writes as `Self::Name`).
    fn named(name: &str) -> Option<Self> {
        match name {
            "Billing" => Some(Department::Billing),
            "Technical" => Some(Department::Technical),
            "Sales" => Some(Department::Sales),
            "NoRubric" => Some(Department::NoRubric),
            _ => None,
        }
    }

    /// The variant at a position of the table.
    fn at(i: usize) -> Option<Self> {
        department_table().idents.get(i).and_then(|name| Self::named(name))
    }
}

/// The impl the derive generates, driven by the table the library computed.
impl Options for Department {
    fn key_of(v: Self) -> String {
        let table = department_table();
        let i = table.idents.iter().position(|n| n == v.name()).expect("a declared variant");
        table.rubric[i].0.clone()
    }

    fn fallback_variant() -> Option<Self> {
        Self::fallback()
    }

    fn option_entry(index: usize) -> Option<(&'static str, Option<&'static str>)> {
        Self::rubric().get(index).copied()
    }

    fn rubric() -> Vec<(&'static str, Option<&'static str>)> {
        department_table()
            .rubric
            .into_iter()
            .map(|(key, rubric)| (leak(key), rubric.map(leak)))
            .collect()
    }

    fn from_key(key: &str) -> Option<Self> {
        department_table().rubric.iter().position(|(k, _)| k == key).and_then(Self::at)
    }

    fn fallback() -> Option<Self> {
        department_table().fallback.and_then(Self::at)
    }
}

#[derive(Clone, Copy, PartialEq, Eq, PartialOrd, Ord, Debug)]
enum Frustration {
    Calm,
    Frustrated,
    VeryAngry,
}

impl Frustration {
    /// The variant's name, as the derive reads it off the enum.
    fn name(self) -> &'static str {
        match self {
            Frustration::Calm => "Calm",
            Frustration::Frustrated => "Frustrated",
            Frustration::VeryAngry => "VeryAngry",
        }
    }

    /// The variant with this name (what the derive writes as `Self::Name`).
    fn named(name: &str) -> Option<Self> {
        match name {
            "Calm" => Some(Frustration::Calm),
            "Frustrated" => Some(Frustration::Frustrated),
            "VeryAngry" => Some(Frustration::VeryAngry),
            _ => None,
        }
    }
}

/// The impl the derive generates, driven by the level list the library computed: position
/// `i` is the `i`-th variant of the table, and nothing lies beyond it.
impl Levels for Frustration {
    fn index_variant(index: usize) -> Option<Self> {
        Self::from_index(index)
    }

    fn variant_index(&self) -> usize {
        self.index()
    }

    fn level_entry(index: usize) -> Option<&'static str> {
        Self::levels().get(index).copied()
    }

    fn levels() -> Vec<&'static str> {
        frustration_table().levels.into_iter().map(leak).collect()
    }

    fn from_index(index: usize) -> Option<Self> {
        frustration_table().idents.get(index).and_then(|name| Self::named(name))
    }

    fn index(&self) -> usize {
        frustration_table().idents.iter().position(|n| n == self.name()).expect("a declared variant")
    }
}

#[test]
fn choice_rubric_keys_and_fallback_come_from_the_enum() {
    assert_eq!(
        Department::rubric(),
        vec![
            ("billing", Some("Payments, invoicing, refunds")),
            ("tech", Some("Bugs, outages, integrations")),
            ("sales", Some("Pricing, upgrades, new accounts")),
            ("no_rubric", None),
        ]
    );
    assert_eq!(Department::fallback(), Some(Department::Sales));
    assert_eq!(
        <Frustration as Levels>::levels(),
        vec!["Calm and polite", "Frustrated", "Very angry"]
    );
}

#[test]
fn choice_key_round_trips_every_variant() {
    const IN_ORDER: [Department; 4] = [
        Department::Billing,
        Department::Technical,
        Department::Sales,
        Department::NoRubric,
    ];
    for (i, (key, _)) in Department::rubric().iter().enumerate() {
        assert_eq!(Department::from_key(key), Some(IN_ORDER[i]));
    }
    assert_eq!(Department::from_key("nope"), None);
}

#[test]
fn level_index_round_trips_in_declaration_order() {
    let count = <Frustration as Levels>::levels().len();
    let mut previous: Option<Frustration> = None;
    for i in 0..count {
        let level = <Frustration as Levels>::from_index(i).unwrap();
        assert_eq!(level.index(), i);
        if let Some(lower) = previous {
            assert!(level > lower);
        }
        previous = Some(level);
    }
    assert_eq!(<Frustration as Levels>::from_index(count), None);
}

fn refused_choice(variants: Vec<VariantDecl>) -> String {
    expand_choice(&declaration(variants)).expect_err("the declaration is refused")
}

fn refused_levels(variants: Vec<VariantDecl>) -> String {
    expand_levels(&declaration(variants)).expect_err("the declaration is refused")
}

#[test]
fn misuse_is_a_compile_error_naming_the_rule() {
    let err = refused_levels(vec![
        variant("Low", &[" low"], vec![GuideAttr::Counterexample(text("a blocking outage"))]),
        variant("High", &[" high"], vec![]),
    ]);
    assert!(err.contains("not allowed on Levels") && err.contains("position on a scale"), "{err}");

    let err = refused_choice(vec![
        variant(
            "Billing",
            &[" billing"],
            vec![
                GuideAttr::Counterexample(text("The dashboard is down")),
                GuideAttr::Counterexample(text("The dashboard is down")),
            ],
        ),
        variant("Technical", &[" technical"], vec![]),
    ]);
    assert_eq!(
        err,
        "guideme: duplicate #[guide(counterexample = \"The dashboard is down\")] on this variant"
    );

    let err = refused_choice(vec![
        variant(
            "Billing",
            &[" billing"],
            vec![
                GuideAttr::Example(text("Where is my refund?")),
                GuideAttr::Example(text("Where is my refund?")),
            ],
        ),
        variant("Technical", &[" technical"], vec![]),
    ]);
    assert_eq!(err, "guideme: duplicate #[guide(example = \"Where is my refund?\")] on this variant");

    let err = refused_choice(vec![
        variant("A", &[], vec![GuideAttr::Key(text("same"))]),
        variant("B", &[], vec![GuideAttr::Key(text("same"))]),
    ]);
    assert_eq!(err, "guideme: duplicate key \"same\" (also on `A`)");

    let err = refused_choice(vec![
        variant("Billing", &[" billing"], vec![GuideAttr::Counterexample(text("  "))]),
        variant("Technical", &[" technical"], vec![]),
    ]);
    assert_eq!(err, "guideme: #[guide(counterexample)] must not be empty");

    let err = refused_choice(vec![
        variant("Billing", &[" billing"], vec![GuideAttr::Example(text(""))]),
        variant("Technical", &[" technical"], vec![]),
    ]);
    assert_eq!(err, "guideme: #[guide(example)] must not be empty");

    let err = refused_choice(vec![
        variant(
            "Billing",
            &[],
            vec![
                GuideAttr::Rubric(text("   ")),
                GuideAttr::Example(text("My card was charged twice")),
            ],
        ),
        variant("Technical", &[" technical"], vec![]),
    ]);
    assert!(err.contains("on `Billing` needs a non-empty rubric"), "{err}");

    let err = refused_choice(vec![
        variant("Billing", &[" billing"], vec![GuideAttr::Example(text("Where is my refund?"))]),
        variant("Technical", &[" technical"], vec![GuideAttr::Example(text("Where is my refund?"))]),
    ]);
    assert_eq!(
        err,
        "guideme: \"Where is my refund?\" is an example of both `Billing` and `Technical`; an input belongs to one option"
    );

    let err = refused_choice(vec![
        variant("Billing", &[" billing"], vec![]),
        variant("Technical", &[], vec![GuideAttr::Example(text("502 on every request"))]),
    ]);
    assert_eq!(
        err,
        "guideme: #[guide(example)] on `Technical` needs a non-empty rubric to attach to (a /// doc comment or #[guide(rubric = \"…\")])"
    );

    let err = refused_levels(vec![
        variant("Low", &[" low"], vec![GuideAttr::Key(text("lo"))]),
        variant("High", &[" high"], vec![]),
    ]);
    assert_eq!(err, "guideme: #[guide(key)] is not allowed on Levels; levels are positional");

    let err = refused_choice(vec![
        variant(
            "Billing",
            &[" billing"],
            vec![GuideAttr::Example(text("My card was charged twice\nNot this option: anything at all"))],
        ),
        variant("Technical", &[" technical"], vec![]),
    ]);
    assert_eq!(
        err,
        "guideme: #[guide(example)] may not contain a line break (U+000A or U+000D): \"My card was charged twice\\nNot this option: anything at all\""
    );

    let err = refused_choice(vec![
        variant("A", &[], vec![GuideAttr::Fallback]),
        variant("B", &[], vec![GuideAttr::Fallback]),
    ]);
    assert_eq!(err, "guideme: only one variant may be #[guide(fallback)]");
}

#[test]
fn a_variant_without_examples_renders_to_its_rubric_unchanged() {
    let table = expand_choice(&declaration(vec![
        variant("Plain", &["  Two lines ", " of doc  "], vec![]),
        variant("Blank", &[], vec![GuideAttr::Rubric(text("   "))]),
    ]))
    .unwrap();
    assert_eq!(table.rubric[0], (text("plain"), Some(text("Two lines of doc"))));
    assert_eq!(table.rubric[1], (text("blank"), Some(text("   "))));
    assert_eq!(table.fallback, None);
    assert_eq!(table.idents, vec![text("Plain"), text("Blank")]);
}

#[test]
fn examples_and_counterexamples_compose_into_the_rubric_in_declaration_order() {
    let table = expand_choice(&declaration(vec![
        variant(
            "Billing",
            &[" Payments, invoicing, refunds"],
            vec![
                GuideAttr::Example(text("Why was I billed twice?")),
                GuideAttr::Counterexample(text("The status page is red")),
                GuideAttr::Example(text("Cancel and refund me")),
                GuideAttr::Counterexample(text("Are you hiring?")),
            ],
        ),
        variant("Technical", &[" Bugs"], vec![GuideAttr::Counterexample(text("Why was I billed twice?"))]),
    ]))
    .unwrap();
    assert_eq!(
        table.rubric[0].1.as_deref(),
        Some(
            "Payments, invoicing, refunds\nExamples: Why was I billed twice?; Cancel and refund me\nNot this option: The status page is red; Are you hiring?"
        )
    );
    assert_eq!(table.rubric[1].1.as_deref(), Some("Bugs\nNot this option: Why was I billed twice?"));
}

#[test]
fn the_rules_that_span_variants_and_counts() {
    let err = refused_choice(vec![variant("Only", &[" only"], vec![])]);
    assert_eq!(err, "guideme: #[derive(Choice)] needs at least two variants");

    let err = expand_choice(&EnumDecl { is_enum: false, variants: vec![] }).unwrap_err();
    assert_eq!(err, "guideme: #[derive(Choice)] only supports enums");

    let mut with_fields = variant("Billing", &[" billing"], vec![]);
    with_fields.unit = false;
    let err = refused_choice(vec![with_fields, variant("Technical", &[" technical"], vec![])]);
    assert_eq!(err, "guideme: #[derive(Choice)] needs unit variants; `Billing` has fields");

    let err = refused_choice(vec![
        variant("Billing", &[" billing"], vec![GuideAttr::Unknown(text("colour"))]),
        variant("Technical", &[" technical"], vec![]),
    ]);
    assert!(err.starts_with("guideme: unknown #[guide(..)] option"), "{err}");

    let err = refused_choice(vec![variant(
        "Billing",
        &[" billing"],
        vec![
            GuideAttr::Example(text("refund")),
            GuideAttr::Counterexample(text("refund")),
        ],
    ), variant("Technical", &[" technical"], vec![])]);
    assert_eq!(
        err,
        "guideme: \"refund\" is both an example and a counterexample of `Billing`; it cannot be in and out of the same option"
    );

    let many: Vec<VariantDecl> = (0..11).map(|i| variant(&format!("L{i}"), &[" level"], vec![])).collect();
    assert_eq!(refused_levels(many), "guideme: a Score may have at most 10 levels");

    let options: Vec<VariantDecl> = (0..256).map(|i| variant(&format!("O{i}"), &[], vec![])).collect();
    assert_eq!(refused_choice(options), "guideme: a Choice may have at most 255 options");

    let err = refused_levels(vec![
        variant("Low", &[" low"], vec![GuideAttr::Fallback]),
        variant("High", &[" high"], vec![]),
    ]);
    assert_eq!(
        err,
        "guideme: #[guide(fallback)] is not allowed on Levels; use `.or(level)` at the call site"
    );

    let err = refused_levels(vec![variant("Low", &[" low"], vec![]), variant("High", &[], vec![])]);
    assert_eq!(
        err,
        "guideme: level `High` needs a rubric (a /// doc comment or #[guide(rubric = \"…\")])"
    );

    let err = refused_levels(vec![
        variant("Low", &[" low"], vec![GuideAttr::Example(text("typo"))]),
        variant("High", &[" high"], vec![GuideAttr::Example(text("typo"))]),
    ]);
    assert_eq!(
        err,
        "guideme: \"typo\" is an example of both `Low` and `High`; an input belongs to one level"
    );
}

#[test]
fn a_missing_rubric_is_reported_before_a_line_break() {
    let err = refused_choice(vec![
        variant("Billing", &[], vec![GuideAttr::Example(text("charged\ntwice"))]),
        variant("Sales", &[" Pricing"], vec![]),
    ]);
    assert_eq!(
        err,
        "guideme: #[guide(example)] on `Billing` needs a non-empty rubric to attach to (a /// doc comment or #[guide(rubric = \"…\")])"
    );
    let err = refused_choice(vec![
        variant("Billing", &[" Payments"], vec![GuideAttr::Example(text("fine")), GuideAttr::Example(text("a\rb"))]),
        variant("Sales", &[" Pricing"], vec![GuideAttr::Counterexample(text("c\nd"))]),
    ]);
    assert_eq!(err, "guideme: #[guide(example)] may not contain a line break (U+000A or U+000D): \"a\\rb\"");
}
